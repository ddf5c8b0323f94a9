//! IPv4 addresses.

use vstd::prelude::*;

use crate::number;
use crate::request;
use crate::split;
use crate::text;

verus! {

/// An IPv4 address.
#[derive(Debug, Clone, Copy, PartialEq, Eq, Structural)]
pub struct Ipv4 {
    pub a: u8,
    pub b: u8,
    pub c: u8,
    pub d: u8,
}

/// The value of one part of a written address: one to three digits, no zero in front of others,
/// and at most 255.
pub open spec fn octet(s: Seq<char>) -> Option<nat> {
    if request::all_digits(s) && s.len() <= 3 && (s.len() == 1 || s[0] != '0') {
        number::number(s, 10, 255)
    } else {
        None
    }
}

/// The address that a text stands for: four parts with dots between them.
pub open spec fn address_of(s: Seq<char>) -> Option<Ipv4> {
    let p = split::split(s, "."@);
    if p.len() == 4 && octet(p[0]) is Some && octet(p[1]) is Some && octet(p[2]) is Some && octet(
        p[3],
    ) is Some {
        Some(
            Ipv4 {
                a: octet(p[0])->0 as u8,
                b: octet(p[1])->0 as u8,
                c: octet(p[2])->0 as u8,
                d: octet(p[3])->0 as u8,
            },
        )
    } else {
        None
    }
}

/// An address in writing.
pub open spec fn address_text(ip: Ipv4) -> Seq<char> {
    split::joined(
        seq![
            number::decimal(ip.a as nat),
            number::decimal(ip.b as nat),
            number::decimal(ip.c as nat),
            number::decimal(ip.d as nat),
        ],
        "."@,
    )
}

fn read_octet(s: &str) -> (r: Option<u8>)
    ensures
        octet(s@) == (match r {
            Some(n) => Some(n as nat),
            None => None,
        }),
{
    let n: usize = s.unicode_len();
    if !request::digits_only(s) || n > 3 || (n != 1 && s.get_char(0) == '0') {
        return None;
    }
    match number::parse_number(s, 10, 255) {
        Some(v) => Some(v as u8),
        None => None,
    }
}

/// The address that a text stands for.
pub fn parse_ipv4(s: &str) -> (r: Option<Ipv4>)
    ensures
        r == address_of(s@),
{
    proof {
        reveal_strlit(".");
    }
    let parts: Vec<String> = split::pieces(s, ".");
    let ghost p = split::split(s@, "."@);
    assert(p.len() == parts@.len());
    if parts.len() != 4 {
        return None;
    }
    assert(p[0] == parts@[0]@ && p[1] == parts@[1]@ && p[2] == parts@[2]@ && p[3] == parts@[3]@);
    match (
        read_octet(parts[0].as_str()),
        read_octet(parts[1].as_str()),
        read_octet(parts[2].as_str()),
        read_octet(parts[3].as_str()),
    ) {
        (Some(a), Some(b), Some(c), Some(d)) => Some(Ipv4 { a, b, c, d }),
        _ => None,
    }
}

/// An address in writing.
pub fn ipv4_text(ip: Ipv4) -> (r: String)
    ensures
        r@ == address_text(ip),
{
    let mut parts: Vec<String> = Vec::new();
    parts.push(number::decimal_text(ip.a as u64));
    parts.push(number::decimal_text(ip.b as u64));
    parts.push(number::decimal_text(ip.c as u64));
    parts.push(number::decimal_text(ip.d as u64));
    assert(text::texts(parts@) =~= seq![
        number::decimal(ip.a as nat),
        number::decimal(ip.b as nat),
        number::decimal(ip.c as nat),
        number::decimal(ip.d as nat),
    ]);
    split::join(&parts, ".")
}

/// An address that can be a source: any but the one that stands for none.
pub open spec fn usable(ip: Ipv4) -> Option<Ipv4> {
    if ip == (Ipv4 { a: 0, b: 0, c: 0, d: 0 }) {
        None
    } else {
        Some(ip)
    }
}

/// The address as the source of a line; the address of no host is none.
pub fn usable_source(ip: Ipv4) -> (r: Option<Ipv4>)
    ensures
        r == usable(ip),
{
    if ip.a == 0 && ip.b == 0 && ip.c == 0 && ip.d == 0 {
        None
    } else {
        Some(ip)
    }
}

proof fn lemma_decimal_plain(n: nat)
    ensures
        request::all_digits(number::decimal(n)),
        n >= 10 ==> number::decimal(n)[0] != '0',
        n >= 1 ==> number::decimal(n)[0] != '0',
        n < 10 ==> number::decimal(n).len() == 1,
        n < 1000 ==> number::decimal(n).len() <= 3,
    decreases n,
{
    if n >= 10 {
        lemma_decimal_plain(n / 10);
        if n < 100 {
            assert(number::decimal(n / 10).len() == 1);
        } else if n < 1000 {
            assert(n / 10 < 100);
            assert(number::decimal(n / 10 / 10).len() == 1) by {
                lemma_decimal_plain(n / 10 / 10);
            }
        }
    }
}

proof fn lemma_octet(n: nat)
    requires
        n <= 255,
    ensures
        octet(number::decimal(n)) == Some(n),
        !number::decimal(n).contains('.'),
{
    lemma_decimal_plain(n);
    number::law_decimal_reads_back(n, 255);
}

/// Reading an address that was written gives the address.
pub proof fn law_address_reads_back(ip: Ipv4)
    ensures
        address_of(address_text(ip)) == Some(ip),
{
    lemma_octet(ip.a as nat);
    lemma_octet(ip.b as nat);
    lemma_octet(ip.c as nat);
    lemma_octet(ip.d as nat);
    let parts = seq![
        number::decimal(ip.a as nat),
        number::decimal(ip.b as nat),
        number::decimal(ip.c as nat),
        number::decimal(ip.d as nat),
    ];
    reveal_strlit(".");
    split::lemma_split_joined(parts, "."@);
}

proof fn lemma_digits_are_positive(s: Seq<char>)
    requires
        s.len() > 0,
        s[0] != '0',
        request::all_digits(s),
    ensures
        number::digits(s, 10) matches Some(v) && v > 0,
    decreases s.len(),
{
    if s.len() == 1 {
        assert(s.drop_last() =~= seq![]);
        assert('0' <= s[0] <= '9');
    } else {
        let t = s.drop_last();
        assert forall|i: int| 0 <= i < t.len() implies '0' <= #[trigger] t[i] <= '9' by {
            assert(t[i] == s[i]);
        }
        lemma_digits_are_positive(t);
        assert('0' <= s[s.len() - 1] <= '9');
    }
}

proof fn lemma_digits_write_back(s: Seq<char>)
    requires
        request::all_digits(s),
        s.len() == 1 || s[0] != '0',
    ensures
        number::digits(s, 10) matches Some(v) && number::decimal(v) == s,
    decreases s.len(),
{
    let c = s.last();
    assert('0' <= s[s.len() - 1] <= '9');
    if s.len() == 1 {
        assert(s.drop_last() =~= seq![]);
        assert(number::digits(s.drop_last(), 10) == Some(0nat));
        let v = number::digit_value(c);
        assert(number::digits(s, 10) == Some(v));
        assert(number::digit_char(v) == c);
        assert(number::decimal(v) =~= s);
    } else {
        let t = s.drop_last();
        assert forall|i: int| 0 <= i < t.len() implies '0' <= #[trigger] t[i] <= '9' by {
            assert(t[i] == s[i]);
        }
        lemma_digits_are_positive(t);
        lemma_digits_write_back(t);
        let u = number::digits(t, 10)->0;
        let v = u * 10 + number::digit_value(c);
        assert(v / 10 == u && v % 10 == number::digit_value(c));
        assert(number::digit_char(v % 10) == c);
        assert(number::decimal(v) =~= s);
    }
}

/// Only a text that is written as an address is written is one: what is read writes back the same
/// text, so that no other text stands for the same address.
pub proof fn law_address_has_one_text(s: Seq<char>)
    ensures
        address_of(s) matches Some(ip) ==> address_text(ip) == s,
{
    if let Some(ip) = address_of(s) {
        let p = split::split(s, "."@);
        reveal_strlit(".");
        split::law_pieces_join_to_the_text(s, "."@);
        assert forall|i: int| 0 <= i < 4 implies octet(#[trigger] p[i]) is Some && number::decimal(
            octet(p[i])->0,
        ) == p[i] && octet(p[i])->0 <= 255 by {
            lemma_digits_write_back(p[i]);
            assert(p[i][0] != '+');
        }
        let parts = seq![
            number::decimal(ip.a as nat),
            number::decimal(ip.b as nat),
            number::decimal(ip.c as nat),
            number::decimal(ip.d as nat),
        ];
        assert(octet(p[0]) is Some && octet(p[1]) is Some && octet(p[2]) is Some && octet(
            p[3],
        ) is Some);
        assert(parts =~= p);
    }
}

/// Every address is a source as it is, except the one whose four numbers are zero.
pub proof fn law_usable_addresses(ip: Ipv4)
    ensures
        usable(ip) is None <==> ip.a == 0 && ip.b == 0 && ip.c == 0 && ip.d == 0,
        usable(ip) is Some ==> usable(ip) == Some(ip),
{
}

}
