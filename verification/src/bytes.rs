//! Bytes that stand for text.

use vstd::prelude::*;

verus! {

/// What `String::from_utf8_lossy` makes of the bytes.
pub uninterp spec fn utf8_lossy(bytes: Seq<u8>) -> Seq<char>;

/// `String::from_utf8_lossy`: the text depends on the bytes alone, and bytes that are UTF-8 give
/// the text that they encode. How other bytes are replaced is not said.
#[verifier::external_body]
pub(crate) fn lossy(bytes: &[u8]) -> (r: String)
    ensures
        r@ == utf8_lossy(bytes@),
        vstd::utf8::valid_utf8(bytes@) ==> r@ == vstd::utf8::decode_utf8(bytes@),
{
    String::from_utf8_lossy(bytes).into_owned()
}

/// The text that bytes stand for: what they encode where they are UTF-8, and else what
/// `String::from_utf8_lossy` makes of them.
pub open spec fn lossy_text(bytes: Seq<u8>) -> Seq<char> {
    if vstd::utf8::valid_utf8(bytes) {
        vstd::utf8::decode_utf8(bytes)
    } else {
        utf8_lossy(bytes)
    }
}

/// `std::str::from_utf8`: the text that the bytes encode, if and only if they are UTF-8.
#[verifier::external_body]
pub(crate) fn strict(bytes: &[u8]) -> (r: Option<&str>)
    ensures
        r is Some <==> vstd::utf8::valid_utf8(bytes@),
        r matches Some(s) ==> s@ == vstd::utf8::decode_utf8(bytes@),
{
    std::str::from_utf8(bytes).ok()
}

/// The bytes `v[from..to]`.
pub fn cut_bytes(v: &[u8], from: usize, to: usize) -> (r: Vec<u8>)
    requires
        from <= to <= v@.len(),
    ensures
        r@ == v@.subrange(from as int, to as int),
{
    let mut out: Vec<u8> = Vec::new();
    append_bytes(&mut out, v, from, to);
    assert(out@ =~= v@.subrange(from as int, to as int));
    out
}

/// Appends the bytes `v[from..to]`.
pub fn append_bytes(out: &mut Vec<u8>, v: &[u8], from: usize, to: usize)
    requires
        from <= to <= v@.len(),
    ensures
        final(out)@ == old(out)@ + v@.subrange(from as int, to as int),
{
    let ghost before = out@;
    let mut i: usize = from;
    assert(before + v@.subrange(from as int, from as int) =~= before);
    while i < to
        invariant
            from <= i <= to <= v@.len(),
            out@ == before + v@.subrange(from as int, i as int),
        decreases to - i,
    {
        out.push(v[i]);
        i += 1;
        assert(out@ =~= before + v@.subrange(from as int, i as int));
    }
}

/// The first position, from `i` on, of the byte `b`; the end if there is none.
pub open spec fn byte_at(s: Seq<u8>, b: u8, i: int) -> int
    decreases s.len() - i,
{
    if i < 0 || i >= s.len() {
        s.len() as int
    } else if s[i] == b {
        i
    } else {
        byte_at(s, b, i + 1)
    }
}

/// The byte is found at its first position.
pub proof fn lemma_byte_at(s: Seq<u8>, b: u8, i: int)
    requires
        0 <= i <= s.len(),
    ensures
        i <= byte_at(s, b, i) <= s.len(),
        byte_at(s, b, i) < s.len() ==> s[byte_at(s, b, i)] == b,
        forall|j: int| i <= j < byte_at(s, b, i) ==> s[j] != b,
    decreases s.len() - i,
{
    if i < s.len() && s[i] != b {
        lemma_byte_at(s, b, i + 1);
    }
}

/// The first position, from `from` on, of the byte `b`, or the length of `v`.
pub fn find_byte(v: &[u8], b: u8, from: usize) -> (r: usize)
    requires
        from <= v@.len(),
    ensures
        r == byte_at(v@, b, from as int),
        from <= r <= v@.len(),
        r < v@.len() ==> v@[r as int] == b,
{
    let mut i: usize = from;
    while i < v.len()
        invariant
            from <= i <= v@.len(),
            byte_at(v@, b, from as int) == byte_at(v@, b, i as int),
        decreases v@.len() - i,
    {
        if v[i] == b {
            return i;
        }
        i += 1;
    }
    i
}

}
