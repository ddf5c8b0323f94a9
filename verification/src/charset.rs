//! Reply bodies as text.

use vstd::prelude::*;

use crate::text;

verus! {

/// The text that `encoding_rs::UTF_8.decode` gives, and whether it met malformed sequences.
pub uninterp spec fn utf8_decoding(body: Seq<u8>) -> (Seq<char>, bool);

/// The text that `encoding_rs::GBK.decode` gives.
pub uninterp spec fn gbk_decoding(body: Seq<u8>) -> Seq<char>;

/// The body starts with the byte order mark of UTF-16.
pub open spec fn utf16_marked(body: Seq<u8>) -> bool {
    body.len() >= 2 && ((body[0] == 0xff && body[1] == 0xfe) || (body[0] == 0xfe && body[1]
        == 0xff))
}

/// The body without the byte order mark of UTF-8.
pub open spec fn unmarked(body: Seq<u8>) -> Seq<u8> {
    if body.len() >= 3 && body[0] == 0xef && body[1] == 0xbb && body[2] == 0xbf {
        body.skip(3)
    } else {
        body
    }
}

/// How long a body may be so that the size of its text can be computed in every encoding.
pub open spec fn decodable(body: Seq<u8>) -> bool {
    body.len() <= usize::MAX / 8
}

/// `encoding_rs::UTF_8.decode`: text and malformedness depend on the bytes alone. Without a mark
/// of UTF-16 in front, the bytes behind a mark of UTF-8 are malformed if and only if they are not
/// UTF-8, and otherwise the text is what they encode. What replaces malformed bytes, and what
/// becomes of UTF-16, is not said.
#[verifier::external_body]
fn decode_utf8(body: &[u8]) -> (r: (String, bool))
    requires
        decodable(body@),
    ensures
        (r.0@, r.1) == utf8_decoding(body@),
        !utf16_marked(body@) ==> r.1 == !vstd::utf8::valid_utf8(unmarked(body@)),
        !utf16_marked(body@) && !r.1 ==> r.0@ == vstd::utf8::decode_utf8(unmarked(body@)),
{
    let (text, _, malformed) = encoding_rs::UTF_8.decode(body);
    (text.into_owned(), malformed)
}

/// `encoding_rs::GBK.decode`: the text depends on the bytes alone. Which text it is is not said.
#[verifier::external_body]
fn decode_gbk(body: &[u8]) -> (r: String)
    requires
        decodable(body@),
    ensures
        r@ == gbk_decoding(body@),
{
    encoding_rs::GBK.decode(body).0.into_owned()
}

/// The text of a body: as UTF-8 where it is well-formed, and else as GBK.
pub open spec fn body_text(body: Seq<u8>) -> Seq<char> {
    if utf8_decoding(body).1 {
        gbk_decoding(body)
    } else {
        utf8_decoding(body).0
    }
}

/// The text of a body that was first read as UTF-8.
pub fn text_or_gbk(utf8: String, malformed: bool, body: &[u8]) -> (r: String)
    requires
        decodable(body@),
    ensures
        r@ == if malformed {
            gbk_decoding(body@)
        } else {
            utf8@
        },
{
    if malformed {
        decode_gbk(body)
    } else {
        utf8
    }
}

/// The text of a body: UTF-8 first, GBK where that fails.
pub fn decode_body(body: &[u8]) -> (r: String)
    requires
        decodable(body@),
    ensures
        r@ == body_text(body@),
        !utf16_marked(body@) && vstd::utf8::valid_utf8(unmarked(body@)) ==> r@
            == vstd::utf8::decode_utf8(unmarked(body@)),
        !utf16_marked(body@) && !vstd::utf8::valid_utf8(unmarked(body@)) ==> r@ == gbk_decoding(
            body@,
        ),
{
    let (utf8, malformed) = decode_utf8(body);
    text_or_gbk(utf8, malformed, body)
}

/// The page has a password input or a word that tells a portal.
pub open spec fn is_portal_page(html: Seq<char>) -> bool {
    let low = text::lower(html);
    ||| text::contains(low, "type=\"password\""@)
    ||| text::contains(low, "type='password'"@)
    ||| text::contains(low, "wlanuserip"@)
    ||| text::contains(low, "portal"@)
    ||| text::contains(low, "login.do"@)
    ||| text::contains(low, "self/index"@)
    ||| text::contains(low, "bossweb"@)
    ||| text::contains(low, "石斧"@)
}

/// Whether a page looks like the login page of a portal.
pub fn looks_like_portal_page(html: &str) -> (r: bool)
    ensures
        r == is_portal_page(html@),
{
    let low_text: String = text::to_lower(html);
    let low: &str = low_text.as_str();
    text::has(low, "type=\"password\"") || text::has(low, "type='password'") || text::has(
        low,
        "wlanuserip",
    ) || text::has(low, "portal") || text::has(low, "login.do") || text::has(low, "self/index")
        || text::has(low, "bossweb") || text::has(low, "石斧")
}

/// The words that tell a portal's page.
pub open spec fn portal_words() -> Seq<Seq<char>> {
    seq![
        "type=\"password\""@,
        "type='password'"@,
        "wlanuserip"@,
        "portal"@,
        "login.do"@,
        "self/index"@,
        "bossweb"@,
        "石斧"@,
    ]
}

/// A page is that of a portal exactly where one of these words stands in it, whatever its letter
/// case.
pub proof fn law_words_tell_a_portal(html: Seq<char>, w: int)
    ensures
        0 <= w < 8 && text::contains(text::lower(html), portal_words()[w]) ==> is_portal_page(html),
        (forall|v: int|
            0 <= v < 8 ==> !text::contains(text::lower(html), #[trigger] portal_words()[v]))
            ==> !is_portal_page(html),
{
    let p = portal_words();
    assert(p[0] == "type=\"password\""@ && p[1] == "type='password'"@ && p[2] == "wlanuserip"@
        && p[3] == "portal"@ && p[4] == "login.do"@ && p[5] == "self/index"@ && p[6] == "bossweb"@
        && p[7] == "石斧"@);
}

/// A body is read as UTF-8 wherever it can be, and as GBK only where it cannot.
pub proof fn law_body_is_read_as_utf8_first(body: Seq<u8>)
    ensures
        !utf8_decoding(body).1 ==> body_text(body) == utf8_decoding(body).0,
        utf8_decoding(body).1 ==> body_text(body) == gbk_decoding(body),
{
}

}
