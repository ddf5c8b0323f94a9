//! Numbers as text.

use vstd::prelude::*;

use crate::text;

verus! {

/// The value of a digit, upper or lower case.
pub open spec fn digit_value(c: char) -> nat {
    if '0' <= c <= '9' {
        (c as u32 - 48) as nat
    } else if 'a' <= c <= 'z' {
        (c as u32 - 87) as nat
    } else if 'A' <= c <= 'Z' {
        (c as u32 - 55) as nat
    } else {
        36
    }
}

fn value_of_digit(c: char) -> (r: u64)
    ensures
        r == digit_value(c),
        r <= 36,
{
    if '0' <= c && c <= '9' {
        (c as u32 - 48) as u64
    } else if 'a' <= c && c <= 'z' {
        (c as u32 - 87) as u64
    } else if 'A' <= c && c <= 'Z' {
        (c as u32 - 55) as u64
    } else {
        36
    }
}

/// The number that a run of digits stands for; `None` if one of them is no digit.
pub open spec fn digits(s: Seq<char>, radix: nat) -> Option<nat>
    decreases s.len(),
{
    if s.len() == 0 {
        Some(0)
    } else if digit_value(s.last()) >= radix {
        None
    } else {
        match digits(s.drop_last(), radix) {
            Some(v) => Some(v * radix + digit_value(s.last())),
            None => None,
        }
    }
}

/// `from_str_radix` of an unsigned type whose greatest value is `max`: one or more digits, a `+`
/// in front allowed, and a value that fits.
pub open spec fn number(s: Seq<char>, radix: nat, max: nat) -> Option<nat> {
    let body = if s.len() > 0 && s[0] == '+' {
        s.drop_first()
    } else {
        s
    };
    if body.len() == 0 {
        None
    } else {
        match digits(body, radix) {
            Some(v) => if v <= max {
                Some(v)
            } else {
                None
            },
            None => None,
        }
    }
}

/// A longer run of digits never stands for a smaller number.
proof fn lemma_digits_grow(s: Seq<char>, k: int, radix: nat)
    requires
        0 <= k <= s.len(),
        radix > 0,
    ensures
        digits(s, radix) matches Some(v) ==> (digits(s.take(k), radix) matches Some(u) && u <= v),
    decreases s.len(),
{
    if k == s.len() {
        assert(s.take(k) =~= s);
    } else {
        assert(s.drop_last().take(k) =~= s.take(k));
        lemma_digits_grow(s.drop_last(), k, radix);
        if digits(s, radix) is Some {
            let v = digits(s.drop_last(), radix)->0;
            assert(v <= v * radix) by (nonlinear_arith)
                requires
                    radix > 0,
            ;
        }
    }
}

/// `from_str_radix`.
pub fn parse_number(s: &str, radix: u64, max: u64) -> (r: Option<u64>)
    requires
        2 <= radix <= 36,
    ensures
        number(s@, radix as nat, max as nat) == (match r {
            Some(v) => Some(v as nat),
            None => None,
        }),
        r matches Some(v) ==> v <= max,
{
    let v: Vec<char> = text::chars_of(s);
    let start: usize = if v.len() > 0 && v[0] == '+' {
        1
    } else {
        0
    };
    let ghost body = v@.skip(start as int);
    proof {
        if start == 1 {
            assert(body =~= s@.drop_first());
        } else {
            assert(body =~= s@);
        }
    }
    if start == v.len() {
        return None;
    }
    let mut total: u64 = 0;
    let mut i: usize = start;
    while i < v.len()
        invariant
            2 <= radix <= 36,
            start <= i <= v@.len(),
            body == v@.skip(start as int),
            body.len() > 0,
            number(s@, radix as nat, max as nat) == (match digits(body, radix as nat) {
                Some(x) => if x <= max {
                    Some(x)
                } else {
                    None
                },
                None => None,
            }),
            digits(body.take(i - start), radix as nat) == Some(total as nat),
            total <= max,
        decreases v@.len() - i,
    {
        let d: u64 = value_of_digit(v[i]);
        let ghost k = i - start;
        proof {
            assert(body.take(k + 1).drop_last() =~= body.take(k));
            assert(body.take(k + 1).last() == v@[i as int]);
            lemma_digits_grow(body, k + 1, radix as nat);
        }
        if d >= radix {
            return None;
        }
        proof {
            assert(total * radix + d <= 0xffff_ffff_ffff_ffff * 36 + 36) by (nonlinear_arith)
                requires
                    total <= 0xffff_ffff_ffff_ffff,
                    radix <= 36,
                    d <= 36,
            ;
        }
        let next: u128 = total as u128 * radix as u128 + d as u128;
        if next > max as u128 {
            return None;
        }
        total = next as u64;
        i += 1;
    }
    assert(body.take(i - start) =~= body);
    Some(total)
}

/// The decimal digit for `n`.
pub open spec fn digit_char(n: nat) -> char {
    (48 + n) as char
}

/// `n` in decimal.
pub open spec fn decimal(n: nat) -> Seq<char>
    decreases n,
{
    if n < 10 {
        seq![digit_char(n)]
    } else {
        decimal(n / 10).push(digit_char(n % 10))
    }
}

/// A number in decimal is made of digits.
pub proof fn lemma_decimal_chars(n: nat)
    ensures
        decimal(n).len() > 0,
        forall|i: int| 0 <= i < decimal(n).len() ==> '0' <= #[trigger] decimal(n)[i] <= '9',
    decreases n,
{
    if n >= 10 {
        lemma_decimal_chars(n / 10);
    }
}

/// `n` in decimal.
pub fn decimal_text(n: u64) -> (r: String)
    ensures
        r@ == decimal(n as nat),
    decreases n,
{
    let last: char = (48 + (n % 10) as u8) as char;
    if n < 10 {
        let mut out: String = String::new();
        out.push(last);
        assert(out@ =~= decimal(n as nat));
        out
    } else {
        let mut out: String = decimal_text(n / 10);
        out.push(last);
        out
    }
}

/// `n` in decimal, with zeros in front up to `width` characters.
pub open spec fn padded(n: nat, width: nat) -> Seq<char> {
    let d = decimal(n);
    if d.len() >= width {
        d
    } else {
        Seq::new((width - d.len()) as nat, |i: int| '0') + d
    }
}

/// `n` in decimal, with zeros in front up to `width` characters.
pub fn padded_text(n: u64, width: usize) -> (r: String)
    ensures
        r@ == padded(n as nat, width as nat),
{
    let d: String = decimal_text(n);
    let have: usize = d.as_str().unicode_len();
    let mut out: String = String::new();
    let mut i: usize = have;
    while i < width
        invariant
            have <= i,
            i <= width || i == have,
            out@ == Seq::new((i - have) as nat, |k: int| '0'),
        decreases width - i,
    {
        out.push('0');
        i += 1;
    }
    out.append(d.as_str());
    if have >= width {
        assert(out@ =~= d@);
    }
    out
}

/// Reading back a number that was written in decimal gives the number.
pub proof fn law_decimal_reads_back(n: nat, max: nat)
    requires
        n <= max,
    ensures
        number(decimal(n), 10, max) == Some(n),
{
    lemma_decimal_digits(n);
}

proof fn lemma_decimal_digits(n: nat)
    ensures
        digits(decimal(n), 10) == Some(n),
        decimal(n).len() > 0,
        decimal(n)[0] != '+',
    decreases n,
{
    let s = decimal(n);
    if n < 10 {
        assert(s.drop_last() =~= seq![]);
        assert(digit_value(digit_char(n)) == n);
    } else {
        lemma_decimal_digits(n / 10);
        assert(s.drop_last() =~= decimal(n / 10));
        assert(digit_value(digit_char(n % 10)) == n % 10);
    }
}

/// Zeros in front do not change a number, nor does a `+`.
pub proof fn law_padded_reads_back(n: nat, width: nat, max: nat)
    requires
        n <= max,
    ensures
        number(padded(n, width), 10, max) == Some(n),
        number(seq!['+'] + decimal(n), 10, max) == Some(n),
        padded(n, width).len() >= width,
        decimal(n).len() <= width ==> padded(n, width).len() == width,
{
    lemma_decimal_digits(n);
    lemma_decimal_chars(n);
    let d = decimal(n);
    assert((seq!['+'] + d).drop_first() =~= d);
    if d.len() < width {
        let zeros = (width - d.len()) as nat;
        lemma_zeros_in_front(zeros, d);
        assert(padded(n, width)[0] == '0');
    } else {
        law_decimal_reads_back(n, max);
    }
}

proof fn lemma_zeros_in_front(zeros: nat, d: Seq<char>)
    requires
        d.len() > 0,
        digits(d, 10) is Some,
    ensures
        digits(Seq::new(zeros, |i: int| '0') + d, 10) == digits(d, 10),
    decreases zeros + d.len(),
{
    let front = Seq::new(zeros, |i: int| '0');
    let all = front + d;
    assert(all.last() == d.last());
    assert(all.drop_last() =~= front + d.drop_last());
    if d.len() == 1 {
        assert(front + d.drop_last() =~= front);
        lemma_zeros(zeros);
        assert(digits(d.drop_last(), 10) == Some(0nat));
    } else {
        lemma_zeros_in_front(zeros, d.drop_last());
    }
}

proof fn lemma_zeros(zeros: nat)
    ensures
        digits(Seq::new(zeros, |i: int| '0'), 10) == Some(0nat),
    decreases zeros,
{
    let s = Seq::new(zeros, |i: int| '0');
    if zeros > 0 {
        assert(s.drop_last() =~= Seq::new((zeros - 1) as nat, |i: int| '0'));
        lemma_zeros((zeros - 1) as nat);
        assert(digit_value('0') == 0);
    }
}

/// A text with anything but digits in it, but for a `+` in front, is no decimal number; nor is an
/// empty one, nor one above the limit.
pub proof fn law_no_number(s: Seq<char>, i: int, n: nat, max: nat)
    requires
        0 <= i < s.len(),
        !('0' <= s[i] <= '9'),
        i == 0 ==> s[i] != '+',
        n > max,
    ensures
        number(s, 10, max) is None,
        number(seq![], 10, max) is None,
        number(decimal(n), 10, max) is None,
{
    lemma_decimal_digits(n);
    if s[0] == '+' {
        assert(s.drop_first()[i - 1] == s[i]);
        lemma_no_digits(s.drop_first(), i - 1);
    } else {
        lemma_no_digits(s, i);
    }
}

proof fn lemma_no_digits(s: Seq<char>, i: int)
    requires
        0 <= i < s.len(),
        !('0' <= s[i] <= '9'),
    ensures
        digits(s, 10) is None,
    decreases s.len(),
{
    if i < s.len() - 1 {
        assert(s.drop_last()[i] == s[i]);
        lemma_no_digits(s.drop_last(), i);
    }
}

/// How long a number of up to four digits is.
pub proof fn lemma_decimal_length(n: nat)
    ensures
        n < 100 ==> decimal(n).len() <= 2,
        n < 10000 ==> decimal(n).len() <= 4,
{
    reveal_with_fuel(decimal, 5);
}

}
