//! Percent encoding.

use vstd::prelude::*;

verus! {

/// A byte that stands for itself.
pub open spec fn is_plain(b: u8) -> bool {
    ||| 0x41 <= b <= 0x5a
    ||| 0x61 <= b <= 0x7a
    ||| 0x30 <= b <= 0x39
    ||| b == 0x2d
    ||| b == 0x5f
    ||| b == 0x2e
    ||| b == 0x7e
}

/// The upper case hexadecimal digit for `n`.
pub open spec fn hex_char(n: int) -> char {
    if n < 10 {
        (48 + n) as char
    } else {
        (55 + n) as char
    }
}

/// A plain byte as its character, any other byte as `%` and two hexadecimal digits.
pub open spec fn escaped(b: u8) -> Seq<char> {
    if is_plain(b) {
        seq![b as char]
    } else {
        seq!['%', hex_char(b as int / 16), hex_char(b as int % 16)]
    }
}

/// Bytes, each one escaped.
pub open spec fn escaped_bytes(bytes: Seq<u8>) -> Seq<char>
    decreases bytes.len(),
{
    if bytes.len() == 0 {
        seq![]
    } else {
        escaped_bytes(bytes.drop_last()) + escaped(bytes.last())
    }
}

/// The percent encoding of a text: its UTF-8 bytes, each one escaped.
pub open spec fn encoded(s: Seq<char>) -> Seq<char> {
    escaped_bytes(vstd::utf8::encode_utf8(s))
}

fn hex_digit(n: u8) -> (r: char)
    requires
        n < 16,
    ensures
        r == hex_char(n as int),
{
    if n < 10 {
        (48 + n) as char
    } else {
        (55 + n) as char
    }
}

/// Percent encoding; a space becomes `%20`.
pub fn urlencode(s: &str) -> (r: String)
    ensures
        r@ == encoded(s@),
{
    let bytes: &[u8] = s.as_bytes();
    let mut out: String = String::new();
    let mut i: usize = 0;
    while i < bytes.len()
        invariant
            bytes@ == vstd::utf8::encode_utf8(s@),
            i <= bytes@.len(),
            out@ == escaped_bytes(bytes@.take(i as int)),
        decreases bytes@.len() - i,
    {
        let b: u8 = bytes[i];
        let ghost done = out@;
        assert(bytes@.take(i + 1).drop_last() =~= bytes@.take(i as int));
        if (0x41 <= b && b <= 0x5a) || (0x61 <= b && b <= 0x7a) || (0x30 <= b && b <= 0x39) || b
            == 0x2d || b == 0x5f || b == 0x2e || b == 0x7e {
            out.push(b as char);
            assert(out@ =~= done + escaped(b));
        } else {
            out.push('%');
            out.push(hex_digit(b / 16));
            out.push(hex_digit(b % 16));
            assert(out@ =~= done + escaped(b));
        }
        i += 1;
    }
    assert(bytes@.take(i as int) =~= bytes@);
    out
}

// ---------------------------------------------------------------------------
// Laws

/// The value of a hexadecimal digit.
pub open spec fn hex_value(c: char) -> int {
    if '0' <= c <= '9' {
        c as int - 48
    } else if 'A' <= c <= 'F' {
        c as int - 55
    } else {
        c as int - 87
    }
}

/// The bytes that a percent encoding stands for: `%` and two digits stand for one byte, any other
/// character for itself.
pub open spec fn unescaped(t: Seq<char>) -> Seq<u8>
    decreases t.len(),
{
    if t.len() == 0 {
        seq![]
    } else if t[0] == '%' && t.len() >= 3 {
        seq![(hex_value(t[1]) * 16 + hex_value(t[2])) as u8] + unescaped(t.skip(3))
    } else {
        seq![t[0] as u8] + unescaped(t.drop_first())
    }
}

/// A character that an encoded text can hold.
pub open spec fn is_safe(c: char) -> bool {
    ||| 'a' <= c <= 'z'
    ||| 'A' <= c <= 'Z'
    ||| '0' <= c <= '9'
    ||| c == '-'
    ||| c == '_'
    ||| c == '.'
    ||| c == '~'
    ||| c == '%'
}

proof fn lemma_escaped_front(bytes: Seq<u8>)
    requires
        bytes.len() > 0,
    ensures
        escaped_bytes(bytes) == escaped(bytes[0]) + escaped_bytes(bytes.drop_first()),
    decreases bytes.len(),
{
    if bytes.len() == 1 {
        assert(bytes.drop_last() =~= seq![]);
        assert(bytes.drop_first() =~= seq![]);
        assert(escaped_bytes(bytes) =~= escaped(bytes[0]) + escaped_bytes(bytes.drop_first()));
    } else {
        lemma_escaped_front(bytes.drop_last());
        assert(bytes.drop_last().drop_first() =~= bytes.drop_first().drop_last());
        assert(escaped_bytes(bytes) =~= escaped(bytes[0]) + escaped_bytes(bytes.drop_first()));
    }
}

proof fn lemma_unescaped(bytes: Seq<u8>)
    ensures
        unescaped(escaped_bytes(bytes)) == bytes,
        forall|i: int|
            0 <= i < escaped_bytes(bytes).len() ==> is_safe(#[trigger] escaped_bytes(bytes)[i]),
    decreases bytes.len(),
{
    if bytes.len() == 0 {
        assert(unescaped(escaped_bytes(bytes)) =~= bytes);
    } else {
        let b = bytes[0];
        let rest = escaped_bytes(bytes.drop_first());
        let t = escaped_bytes(bytes);
        lemma_escaped_front(bytes);
        lemma_unescaped(bytes.drop_first());
        assert forall|i: int| 0 <= i < t.len() implies is_safe(#[trigger] t[i]) by {
            if i >= escaped(b).len() {
                assert(t[i] == rest[i - escaped(b).len()]);
            }
        }
        if is_plain(b) {
            assert(t.drop_first() =~= rest);
            assert(t[0] == b as char);
            assert((b as char) as u8 == b);
        } else {
            assert(t.skip(3) =~= rest);
            assert(t[1] == hex_char(b as int / 16));
            assert(t[2] == hex_char(b as int % 16));
            assert(hex_value(hex_char(b as int / 16)) == b as int / 16);
            assert(hex_value(hex_char(b as int % 16)) == b as int % 16);
        }
        assert(unescaped(t) =~= bytes);
    }
}

/// Decoding an encoded text gives the text.
pub proof fn law_encoding_is_undone(s: Seq<char>)
    ensures
        unescaped(encoded(s)) == vstd::utf8::encode_utf8(s),
        vstd::utf8::valid_utf8(unescaped(encoded(s))),
        vstd::utf8::decode_utf8(unescaped(encoded(s))) == s,
{
    lemma_unescaped(vstd::utf8::encode_utf8(s));
    vstd::utf8::encode_utf8_valid_utf8(s);
    vstd::utf8::encode_utf8_decode_utf8(s);
}

/// An encoded text holds letters, digits, `-`, `_`, `.`, `~` and `%` only.
pub proof fn law_encoding_is_safe(s: Seq<char>)
    ensures
        forall|i: int| 0 <= i < encoded(s).len() ==> is_safe(#[trigger] encoded(s)[i]),
{
    lemma_unescaped(vstd::utf8::encode_utf8(s));
}

proof fn lemma_plain_bytes(bytes: Seq<u8>)
    requires
        forall|i: int| 0 <= i < bytes.len() ==> is_plain(#[trigger] bytes[i]),
    ensures
        escaped_bytes(bytes) == bytes.map_values(|b: u8| b as char),
    decreases bytes.len(),
{
    let want = bytes.map_values(|b: u8| b as char);
    if bytes.len() == 0 {
        assert(escaped_bytes(bytes) =~= want);
    } else {
        lemma_plain_bytes(bytes.drop_last());
        assert(is_plain(bytes.last()));
        assert(escaped_bytes(bytes) =~= want);
    }
}

/// A text of letters, digits, `-`, `_`, `.` and `~` is its own encoding.
pub proof fn law_plain_text_is_kept(s: Seq<char>)
    requires
        forall|i: int| 0 <= i < s.len() ==> is_safe(#[trigger] s[i]) && s[i] != '%',
    ensures
        encoded(s) == s,
{
    let bytes = vstd::utf8::encode_utf8(s);
    assert forall|i: int| 0 <= i < s.len() implies '\0' <= #[trigger] s[i] <= '\u{7f}' by {
        assert(is_safe(s[i]));
    }
    assert(vstd::utf8::is_ascii_chars(s));
    vstd::utf8::is_ascii_chars_encode_utf8(s);
    assert forall|i: int| 0 <= i < bytes.len() implies is_plain(#[trigger] bytes[i]) by {
        assert(is_safe(s[i]));
        assert(s[i] as u8 == bytes[i]);
    }
    lemma_plain_bytes(bytes);
    assert forall|i: int| 0 <= i < s.len() implies encoded(s)[i] == #[trigger] s[i] by {
        assert(is_safe(s[i]));
        assert(s[i] as u8 == bytes[i]);
        assert((s[i] as u8) as char == s[i]);
    }
    assert(encoded(s) =~= s);
}

}
