//! The `<input>` elements of a login page.

use vstd::prelude::*;

use crate::split;
use crate::table;
use crate::text;

verus! {

// ---------------------------------------------------------------------------
// Tags

/// The text of every `<input` tag from position `i` on, without its closing `>`. A tag that is
/// never closed ends the list.
pub open spec fn tags_from(html: Seq<char>, i: int) -> Seq<Seq<char>>
    decreases html.len() - i,
{
    match text::find_from(text::lower(html), "<input"@, i) {
        None => seq![],
        Some(start) => {
            let end = text::scan_to(html, seq!['>'], start);
            proof {
                lemma_tag_bounds(html, i);
            }
            if end < html.len() {
                seq![html.subrange(start, end)] + tags_from(html, end + 1)
            } else {
                seq![]
            }
        },
    }
}

/// A tag starts where the search started or later, and ends behind its start.
pub proof fn lemma_tag_bounds(html: Seq<char>, i: int)
    ensures
        text::find_from(text::lower(html), "<input"@, i) matches Some(start) ==> 0 <= i <= start
            && start + 6 <= html.len() && start <= text::scan_to(html, seq!['>'], start)
            <= html.len(),
{
    if let Some(start) = text::find_from(text::lower(html), "<input"@, i) {
        reveal_strlit("<input");
        text::lemma_find_from(text::lower(html), "<input"@, i);
        text::lemma_scan_to(html, seq!['>'], start);
    }
}

/// The text of every `<input` tag of the page, in document order.
pub open spec fn tags(html: Seq<char>) -> Seq<Seq<char>> {
    tags_from(html, 0)
}

/// The text of every `<input` tag of the page, in document order.
pub fn input_tags(html: &str) -> (r: Vec<String>)
    ensures
        text::texts(r@) == tags(html@),
{
    let v: Vec<char> = text::chars_of(html);
    let low_text: String = text::to_lower(html);
    let low: Vec<char> = text::chars_of(low_text.as_str());
    let mark: Vec<char> = text::chars_of("<input");
    let close: [char; 1] = ['>'];
    let mut out: Vec<String> = Vec::new();
    let mut i: usize = 0;
    assert(text::texts(out@) + tags(html@) =~= tags(html@));
    loop
        invariant
            v@ == html@,
            low@ == text::lower(html@),
            mark@ == "<input"@,
            close@ == seq!['>'],
            i <= v@.len(),
            text::texts(out@) + tags_from(html@, i as int) == tags(html@),
        decreases v@.len() - i,
    {
        let ghost done = out@;
        proof {
            lemma_tag_bounds(html@, i as int);
        }
        let start: usize = match text::search(low.as_slice(), mark.as_slice(), i) {
            Some(p) => p,
            None => {
                assert(text::texts(out@) + tags_from(html@, i as int) =~= text::texts(out@));
                return out;
            },
        };
        let end: usize = text::scan(v.as_slice(), close.as_slice(), start);
        if end == v.len() {
            assert(text::texts(out@) + tags_from(html@, i as int) =~= text::texts(out@));
            return out;
        }
        let tag: String = text::text_of(v.as_slice(), start, end);
        out.push(tag);
        proof {
            assert(text::texts(out@) =~= text::texts(done).push(html@.subrange(start as int, end as int)));
            assert(text::texts(out@) + tags_from(html@, end + 1) =~= text::texts(done) + (seq![
                html@.subrange(start as int, end as int),
            ] + tags_from(html@, end + 1)));
        }
        i = end + 1;
    }
}

// ---------------------------------------------------------------------------
// Attributes

/// The ASCII white space that separates attributes.
pub open spec fn is_blank(c: char) -> bool {
    0x9 <= c as u32 <= 0xd || c as u32 == 0x20
}

fn blank(c: char) -> (r: bool)
    ensures
        r == is_blank(c),
{
    let u: u32 = c as u32;
    (0x9 <= u && u <= 0xd) || u == 0x20
}

/// The first position, from `i` on, that is not blank.
pub open spec fn skip_blank(s: Seq<char>, i: int) -> int
    decreases s.len() - i,
{
    if 0 <= i < s.len() && is_blank(s[i]) {
        skip_blank(s, i + 1)
    } else {
        i
    }
}

/// The first position, from `i` on, that is blank, or the end.
pub open spec fn until_blank(s: Seq<char>, i: int) -> int
    decreases s.len() - i,
{
    if 0 <= i < s.len() && !is_blank(s[i]) {
        until_blank(s, i + 1)
    } else {
        i
    }
}

/// The first position, from `i` on, that is blank or `=`, or the end.
pub open spec fn key_end(s: Seq<char>, i: int) -> int
    decreases s.len() - i,
{
    if 0 <= i < s.len() && !is_blank(s[i]) && s[i] != '=' {
        key_end(s, i + 1)
    } else {
        i
    }
}

/// Where the scans of a tag end.
pub proof fn lemma_skips(s: Seq<char>, i: int)
    requires
        0 <= i <= s.len(),
    ensures
        i <= skip_blank(s, i) <= s.len(),
        skip_blank(s, i) < s.len() ==> !is_blank(s[skip_blank(s, i)]),
        i <= until_blank(s, i) <= s.len(),
        i <= key_end(s, i) <= s.len(),
        i < s.len() && !is_blank(s[i]) && s[i] != '=' ==> i < key_end(s, i),
    decreases s.len() - i,
{
    if i < s.len() {
        lemma_skips(s, i + 1);
    }
}

/// Where the next attribute of a tag stands.
pub struct Span {
    /// The key is `tag[key_from..key_to]`.
    pub key_from: int,
    pub key_to: int,
    /// The value is `tag[from..to]`.
    pub from: int,
    pub to: int,
    /// Where to look for the attribute that follows.
    pub next: int,
}

/// The position behind `e`, but no further than the end.
pub open spec fn after(s: Seq<char>, e: int) -> int {
    if e < s.len() {
        e + 1
    } else {
        e
    }
}

/// The attribute that starts at the first character from `i` on that is not blank: a key alone,
/// `key=value`, or `key="value"` with either kind of quote.
pub open spec fn next_attr(tag: Seq<char>, i: int) -> Option<Span> {
    let a = skip_blank(tag, i);
    let b = key_end(tag, a);
    if a >= tag.len() {
        None
    } else if b >= tag.len() || tag[b] != '=' {
        Some(Span { key_from: a, key_to: b, from: b, to: b, next: b })
    } else if b + 1 < tag.len() && (tag[b + 1] == '"' || tag[b + 1] == '\'') {
        let e = text::scan_to(tag, seq![tag[b + 1]], b + 2);
        Some(Span { key_from: a, key_to: b, from: b + 2, to: e, next: after(tag, e) })
    } else {
        let e = until_blank(tag, b + 1);
        Some(Span { key_from: a, key_to: b, from: b + 1, to: e, next: after(tag, e) })
    }
}

/// An attribute lies within its tag, and the next one behind its start.
pub proof fn lemma_next_attr(tag: Seq<char>, i: int)
    requires
        0 <= i <= tag.len(),
    ensures
        next_attr(tag, i) matches Some(s) ==> i <= s.key_from <= s.key_to <= s.from <= s.to
            <= tag.len() && i < s.next <= tag.len(),
{
    let a = skip_blank(tag, i);
    lemma_skips(tag, i);
    if a < tag.len() {
        let b = key_end(tag, a);
        lemma_skips(tag, a);
        if b < tag.len() && tag[b] == '=' {
            lemma_skips(tag, b + 1);
            if b + 1 < tag.len() {
                text::lemma_scan_to(tag, seq![tag[b + 1]], b + 2);
            }
        }
    }
}

/// The attributes of a tag from position `i` on: keys in lower case, values as they are written.
pub open spec fn attrs_from(tag: Seq<char>, i: int) -> Seq<(Seq<char>, Seq<char>)>
    decreases tag.len() - i,
{
    if 0 <= i <= tag.len() {
        match next_attr(tag, i) {
            None => seq![],
            Some(s) => {
                proof {
                    lemma_next_attr(tag, i);
                }
                seq![
                    (
                        text::lower(tag.subrange(s.key_from, s.key_to)),
                        tag.subrange(s.from, s.to),
                    ),
                ] + attrs_from(tag, s.next)
            },
        }
    } else {
        seq![]
    }
}

/// The attributes of a tag: keys in lower case, values as they are written.
pub open spec fn attrs(tag: Seq<char>) -> Seq<(Seq<char>, Seq<char>)> {
    attrs_from(tag, 0)
}

fn blank_end(v: &[char], from: usize) -> (r: usize)
    requires
        from <= v@.len(),
    ensures
        r == skip_blank(v@, from as int),
        from <= r <= v@.len(),
{
    let mut i: usize = from;
    while i < v.len() && blank(v[i])
        invariant
            from <= i <= v@.len(),
            skip_blank(v@, from as int) == skip_blank(v@, i as int),
        decreases v@.len() - i,
    {
        i += 1;
    }
    i
}

fn find_blank(v: &[char], from: usize) -> (r: usize)
    requires
        from <= v@.len(),
    ensures
        r == until_blank(v@, from as int),
        from <= r <= v@.len(),
{
    let mut i: usize = from;
    while i < v.len() && !blank(v[i])
        invariant
            from <= i <= v@.len(),
            until_blank(v@, from as int) == until_blank(v@, i as int),
        decreases v@.len() - i,
    {
        i += 1;
    }
    i
}

fn find_key_end(v: &[char], from: usize) -> (r: usize)
    requires
        from <= v@.len(),
    ensures
        r == key_end(v@, from as int),
        from <= r <= v@.len(),
{
    let mut i: usize = from;
    while i < v.len() && !blank(v[i]) && v[i] != '='
        invariant
            from <= i <= v@.len(),
            key_end(v@, from as int) == key_end(v@, i as int),
        decreases v@.len() - i,
    {
        i += 1;
    }
    i
}

struct Found {
    key_from: usize,
    key_to: usize,
    from: usize,
    to: usize,
    next: usize,
}

spec fn same_span(f: Found, s: Span) -> bool {
    f.key_from == s.key_from && f.key_to == s.key_to && f.from == s.from && f.to == s.to && f.next
        == s.next
}

fn find_attr(v: &[char], i: usize) -> (r: Option<Found>)
    requires
        i <= v@.len(),
    ensures
        match next_attr(v@, i as int) {
            Some(s) => r matches Some(f) && same_span(f, s),
            None => r is None,
        },
{
    let n: usize = v.len();
    let a: usize = blank_end(v, i);
    if a >= n {
        return None;
    }
    let b: usize = find_key_end(v, a);
    if b >= n || v[b] != '=' {
        return Some(Found { key_from: a, key_to: b, from: b, to: b, next: b });
    }
    if b + 1 < n && (v[b + 1] == '"' || v[b + 1] == '\'') {
        let quote: [char; 1] = [v[b + 1]];
        assert(quote@ =~= seq![v@[b + 1]]);
        let e: usize = text::scan(v, quote.as_slice(), b + 2);
        let next: usize = if e < n { e + 1 } else { e };
        return Some(Found { key_from: a, key_to: b, from: b + 2, to: e, next });
    }
    let e: usize = find_blank(v, b + 1);
    let next: usize = if e < n { e + 1 } else { e };
    Some(Found { key_from: a, key_to: b, from: b + 1, to: e, next })
}

/// The attributes of a tag, in the order in which they are written.
pub fn split_attrs(tag: &str) -> (r: Vec<(String, String)>)
    ensures
        text::pairs(r@) == attrs(tag@),
{
    let v: Vec<char> = text::chars_of(tag);
    let mut out: Vec<(String, String)> = Vec::new();
    let mut i: usize = 0;
    assert(text::pairs(out@) + attrs(tag@) =~= attrs(tag@));
    loop
        invariant
            v@ == tag@,
            i <= v@.len(),
            text::pairs(out@) + attrs_from(tag@, i as int) == attrs(tag@),
        decreases v@.len() - i,
    {
        let ghost done = out@;
        proof {
            lemma_next_attr(tag@, i as int);
        }
        match find_attr(v.as_slice(), i) {
            None => {
                assert(text::pairs(out@) + attrs_from(tag@, i as int) =~= text::pairs(out@));
                return out;
            },
            Some(f) => {
                let written: String = text::text_of(v.as_slice(), f.key_from, f.key_to);
                let key: String = text::to_lower(written.as_str());
                let value: String = text::text_of(v.as_slice(), f.from, f.to);
                let ghost pair = (key@, value@);
                out.push((key, value));
                i = f.next;
                proof {
                    assert(text::pairs(out@) =~= text::pairs(done).push(pair));
                    assert(text::pairs(out@) + attrs_from(tag@, i as int) =~= text::pairs(done) + (
                    seq![pair] + attrs_from(tag@, i as int)));
                }
            },
        }
    }
}

// ---------------------------------------------------------------------------
// Fields

/// The three character references that values are written with.
pub open spec fn unescape(s: Seq<char>) -> Seq<char> {
    split::replaced(
        split::replaced(split::replaced(s, "&amp;"@, "&"@), "&quot;"@, "\""@),
        "&#39;"@,
        "'"@,
    )
}

fn unescaped(s: &str) -> (r: String)
    ensures
        r@ == unescape(s@),
{
    proof {
        reveal_strlit("&amp;");
        reveal_strlit("&quot;");
        reveal_strlit("&#39;");
    }
    let a: String = split::replace(s, "&amp;", "&");
    let b: String = split::replace(a.as_str(), "&quot;", "\"");
    split::replace(b.as_str(), "&#39;", "'")
}

/// The text, or nothing where there is none.
pub open spec fn or_empty(v: Option<Seq<char>>) -> Seq<char> {
    match v {
        Some(s) => s,
        None => seq![],
    }
}

/// The name and the value that a tag submits. A disabled tag and one without a name submit
/// nothing; of an attribute that is written twice, the last one counts.
pub open spec fn field_of(tag: Seq<char>) -> Option<(Seq<char>, Seq<char>)> {
    let a = attrs(tag);
    if table::has_key(a, "disabled"@) {
        None
    } else {
        match table::last_value(a, "name"@) {
            Some(name) => Some((name, unescape(or_empty(table::last_value(a, "value"@))))),
            None => None,
        }
    }
}

/// What the tags submit, in order.
pub open spec fn fields_of(list: Seq<Seq<char>>) -> Seq<(Seq<char>, Seq<char>)>
    decreases list.len(),
{
    if list.len() == 0 {
        seq![]
    } else {
        match field_of(list.last()) {
            Some(f) => fields_of(list.drop_last()).push(f),
            None => fields_of(list.drop_last()),
        }
    }
}

/// What the form of a page submits.
pub open spec fn form_fields(html: Seq<char>) -> Seq<(Seq<char>, Seq<char>)> {
    fields_of(tags(html))
}

fn last_text(v: &Vec<(String, String)>, key: &str) -> (r: Option<String>)
    ensures
        table::last_value(text::pairs(v@), key@) == (match r {
            Some(s) => Some(s@),
            None => None,
        }),
{
    match table::last_index(v, key) {
        Some(i) => Some(v[i].1.clone()),
        None => None,
    }
}

fn tag_field(tag: &str) -> (r: Option<(String, String)>)
    ensures
        field_of(tag@) == (match r {
            Some(f) => Some((f.0@, f.1@)),
            None => None,
        }),
{
    let a: Vec<(String, String)> = split_attrs(tag);
    if table::contains_key(&a, "disabled") {
        return None;
    }
    match last_text(&a, "name") {
        None => None,
        Some(name) => {
            let raw: String = match last_text(&a, "value") {
                Some(v) => v,
                None => String::new(),
            };
            Some((name, unescaped(raw.as_str())))
        },
    }
}

/// The name and the value of every `<input>` of the page that is not disabled. Names and values
/// keep their letter case.
pub fn parse_form_fields(html: &str) -> (r: Vec<(String, String)>)
    ensures
        text::pairs(r@) == form_fields(html@),
{
    let list: Vec<String> = input_tags(html);
    let mut out: Vec<(String, String)> = Vec::new();
    let mut i: usize = 0;
    while i < list.len()
        invariant
            text::texts(list@) == tags(html@),
            i <= list@.len(),
            text::pairs(out@) == fields_of(tags(html@).take(i as int)),
        decreases list@.len() - i,
    {
        let ghost done = out@;
        proof {
            assert(tags(html@)[i as int] == list@[i as int]@);
            assert(tags(html@).take(i + 1).drop_last() =~= tags(html@).take(i as int));
        }
        if let Some(f) = tag_field(list[i].as_str()) {
            let ghost pair = (f.0@, f.1@);
            out.push(f);
            assert(text::pairs(out@) =~= text::pairs(done).push(pair));
        }
        i += 1;
    }
    assert(tags(html@).take(i as int) =~= tags(html@));
    out
}

/// The name, the type and the value of an input.
pub open spec fn triples(v: Seq<(String, String, String)>) -> Seq<
    (Seq<char>, Seq<char>, Seq<char>),
> {
    v.map_values(|t: (String, String, String)| (t.0@, t.1@, t.2@))
}

/// The name, the type in lower case (`text` where none is written) and the value of a tag. A
/// disabled tag and one without a name, or with an empty one, are left out.
pub open spec fn input_of(tag: Seq<char>) -> Option<(Seq<char>, Seq<char>, Seq<char>)> {
    match field_of(tag) {
        Some(f) => if f.0.len() > 0 {
            let kind = match table::last_value(attrs(tag), "type"@) {
                Some(t) => text::lower(t),
                None => "text"@,
            };
            Some((f.0, kind, f.1))
        } else {
            None
        },
        None => None,
    }
}

/// The inputs that the tags stand for, in order.
pub open spec fn inputs_of(list: Seq<Seq<char>>) -> Seq<(Seq<char>, Seq<char>, Seq<char>)>
    decreases list.len(),
{
    if list.len() == 0 {
        seq![]
    } else {
        match input_of(list.last()) {
            Some(t) => inputs_of(list.drop_last()).push(t),
            None => inputs_of(list.drop_last()),
        }
    }
}

/// The inputs of the form of a page.
pub open spec fn form_inputs(html: Seq<char>) -> Seq<(Seq<char>, Seq<char>, Seq<char>)> {
    inputs_of(tags(html))
}

fn tag_input(tag: &str) -> (r: Option<(String, String, String)>)
    ensures
        input_of(tag@) == (match r {
            Some(t) => Some((t.0@, t.1@, t.2@)),
            None => None,
        }),
{
    match tag_field(tag) {
        None => None,
        Some(f) => {
            if f.0.as_str().is_empty() {
                return None;
            }
            let a: Vec<(String, String)> = split_attrs(tag);
            let kind: String = match last_text(&a, "type") {
                Some(t) => text::to_lower(t.as_str()),
                None => "text".to_owned(),
            };
            Some((f.0, kind, f.1))
        },
    }
}

/// The name, the type and the value of every `<input>` of the page, in document order.
pub fn parse_form_inputs(html: &str) -> (r: Vec<(String, String, String)>)
    ensures
        triples(r@) == form_inputs(html@),
{
    let list: Vec<String> = input_tags(html);
    let mut out: Vec<(String, String, String)> = Vec::new();
    let mut i: usize = 0;
    while i < list.len()
        invariant
            text::texts(list@) == tags(html@),
            i <= list@.len(),
            triples(out@) == inputs_of(tags(html@).take(i as int)),
        decreases list@.len() - i,
    {
        let ghost done = out@;
        proof {
            assert(tags(html@)[i as int] == list@[i as int]@);
            assert(tags(html@).take(i + 1).drop_last() =~= tags(html@).take(i as int));
        }
        if let Some(t) = tag_input(list[i].as_str()) {
            let ghost triple = (t.0@, t.1@, t.2@);
            out.push(t);
            assert(triples(out@) =~= triples(done).push(triple));
        }
        i += 1;
    }
    assert(tags(html@).take(i as int) =~= tags(html@));
    out
}

// ---------------------------------------------------------------------------
// The message of the portal

/// The tag holds the message of the portal.
pub open spec fn is_message_tag(tag: Seq<char>) -> bool {
    text::contains(text::lower(tag), "id=\"errmessage\""@) || text::contains(
        text::lower(tag),
        "id='errmessage'"@,
    )
}

/// What stands between the quotes behind the first `value=` of the tag; nothing where there is
/// no such value or its closing quote is missing.
pub open spec fn message_of(tag: Seq<char>) -> Seq<char> {
    match text::find(text::lower(tag), "value="@) {
        None => seq![],
        Some(p) => {
            let q = p + 6;
            if q < tag.len() && (tag[q] == '"' || tag[q] == '\'') {
                let e = text::scan_to(tag, seq![tag[q]], q + 1);
                if e < tag.len() {
                    split::replaced(
                        split::replaced(tag.subrange(q + 1, e), "&amp;"@, "&"@),
                        "&quot;"@,
                        "\""@,
                    )
                } else {
                    seq![]
                }
            } else {
                seq![]
            }
        },
    }
}

/// The message in the first tag that holds one.
pub open spec fn message_in(list: Seq<Seq<char>>) -> Seq<char>
    decreases list.len(),
{
    if list.len() == 0 {
        seq![]
    } else if is_message_tag(list.first()) {
        message_of(list.first())
    } else {
        message_in(list.drop_first())
    }
}

fn holds_message(tag: &str) -> (r: bool)
    ensures
        r == is_message_tag(tag@),
{
    let low: String = text::to_lower(tag);
    text::has(low.as_str(), "id=\"errmessage\"") || text::has(low.as_str(), "id='errmessage'")
}

fn tag_message(tag: &str) -> (r: String)
    ensures
        r@ == message_of(tag@),
{
    let v: Vec<char> = text::chars_of(tag);
    let n: usize = v.len();
    let low: String = text::to_lower(tag);
    proof {
        reveal_strlit("value=");
        reveal_strlit("&amp;");
        reveal_strlit("&quot;");
    }
    match text::find_text(low.as_str(), "value=") {
        None => String::new(),
        Some(p) => {
            let q: usize = p + 6;
            if q < n && (v[q] == '"' || v[q] == '\'') {
                let quote: [char; 1] = [v[q]];
                assert(quote@ =~= seq![v@[q as int]]);
                let e: usize = text::scan(v.as_slice(), quote.as_slice(), q + 1);
                if e < n {
                    let raw: String = text::text_of(v.as_slice(), q + 1, e);
                    let a: String = split::replace(raw.as_str(), "&amp;", "&");
                    return split::replace(a.as_str(), "&quot;", "\"");
                }
            }
            String::new()
        },
    }
}

/// The value of the hidden field `errMessage` of a reply, or nothing.
pub fn extract_err_message(html: &str) -> (r: String)
    ensures
        r@ == message_in(tags(html@)),
{
    let list: Vec<String> = input_tags(html);
    let mut i: usize = 0;
    assert(tags(html@).skip(0) =~= tags(html@));
    while i < list.len()
        invariant
            text::texts(list@) == tags(html@),
            i <= list@.len(),
            message_in(tags(html@)) == message_in(tags(html@).skip(i as int)),
        decreases list@.len() - i,
    {
        assert(tags(html@).skip(i as int).first() == list@[i as int]@);
        if holds_message(list[i].as_str()) {
            return tag_message(list[i].as_str());
        }
        assert(tags(html@).skip(i as int).drop_first() =~= tags(html@).skip(i + 1));
        i += 1;
    }
    String::new()
}

// ---------------------------------------------------------------------------
// Which fields hold the account and the password

/// An input that a user types into.
pub open spec fn is_typed(kind: Seq<char>) -> bool {
    !(kind == "hidden"@ || kind == "submit"@ || kind == "button"@ || kind == "reset"@ || kind
        == "image"@ || kind == "checkbox"@ || kind == "radio"@ || kind == "file"@)
}

fn typed(kind: &str) -> (r: bool)
    ensures
        r == is_typed(kind@),
{
    !(text::same(kind, "hidden") || text::same(kind, "submit") || text::same(kind, "button")
        || text::same(kind, "reset") || text::same(kind, "image") || text::same(kind, "checkbox")
        || text::same(kind, "radio") || text::same(kind, "file"))
}

/// A name that tells an account field.
pub open spec fn names_account(name: Seq<char>) -> bool {
    let low = text::lower(name);
    text::contains(low, "user"@) || text::contains(low, "account"@) || text::contains(low, "login"@)
        || text::contains(low, "name"@) || text::contains(low, "id"@)
}

fn tells_account(name: &str) -> (r: bool)
    ensures
        r == names_account(name@),
{
    let low: String = text::to_lower(name);
    text::has(low.as_str(), "user") || text::has(low.as_str(), "account") || text::has(
        low.as_str(),
        "login",
    ) || text::has(low.as_str(), "name") || text::has(low.as_str(), "id")
}

/// The position of the first password input.
pub open spec fn password_at(v: Seq<(Seq<char>, Seq<char>, Seq<char>)>, i: int) -> Option<int>
    decreases v.len() - i,
{
    if i < 0 || i >= v.len() {
        None
    } else if v[i].1 == "password"@ {
        Some(i)
    } else {
        password_at(v, i + 1)
    }
}

/// The last position before `n` of an input that a user types into.
pub open spec fn typed_before(v: Seq<(Seq<char>, Seq<char>, Seq<char>)>, n: int) -> Option<int>
    decreases n,
{
    if n <= 0 || n > v.len() {
        None
    } else if is_typed(v[n - 1].1) {
        Some(n - 1)
    } else {
        typed_before(v, n - 1)
    }
}

/// The first position, from `i` on, of an input that a user types into and whose name tells an
/// account.
pub open spec fn account_at(v: Seq<(Seq<char>, Seq<char>, Seq<char>)>, i: int) -> Option<int>
    decreases v.len() - i,
{
    if i < 0 || i >= v.len() {
        None
    } else if is_typed(v[i].1) && names_account(v[i].0) {
        Some(i)
    } else {
        account_at(v, i + 1)
    }
}

/// The position of the account field: the nearest input before the password that a user types
/// into; where there is none, the first such input whose name tells an account.
pub open spec fn account_field(v: Seq<(Seq<char>, Seq<char>, Seq<char>)>) -> Option<int> {
    let near = match password_at(v, 0) {
        Some(p) => typed_before(v, p),
        None => None,
    };
    match near {
        Some(i) => Some(i),
        None => account_at(v, 0),
    }
}

/// The name of the input at a position.
pub open spec fn name_at(v: Seq<(Seq<char>, Seq<char>, Seq<char>)>, i: Option<int>) -> Option<
    Seq<char>,
> {
    match i {
        Some(k) => Some(v[k].0),
        None => None,
    }
}

/// The names of the account field and of the password field of a form.
pub fn detect_credential_fields(inputs: &[(String, String, String)]) -> (r: (
    Option<String>,
    Option<String>,
))
    ensures
        text::opt_text(r.0) == name_at(triples(inputs@), account_field(triples(inputs@))),
        text::opt_text(r.1) == name_at(triples(inputs@), password_at(triples(inputs@), 0)),
{
    let ghost all = triples(inputs@);
    let n: usize = inputs.len();
    let mut p: usize = 0;
    while p < n && !text::same(inputs[p].1.as_str(), "password")
        invariant
            all == triples(inputs@),
            p <= n == inputs@.len(),
            password_at(all, 0) == password_at(all, p as int),
        decreases n - p,
    {
        p += 1;
    }
    let pass: Option<String> = if p < n {
        Some(inputs[p].0.clone())
    } else {
        None
    };
    let mut user: Option<String> = None;
    if p < n {
        let mut k: usize = p;
        while k > 0 && !typed(inputs[k - 1].1.as_str())
            invariant
                all == triples(inputs@),
                k <= p < n == inputs@.len(),
                typed_before(all, p as int) == typed_before(all, k as int),
            decreases k,
        {
            k -= 1;
        }
        if k > 0 {
            user = Some(inputs[k - 1].0.clone());
            return (user, pass);
        }
    }
    let mut i: usize = 0;
    while i < n && !(typed(inputs[i].1.as_str()) && tells_account(inputs[i].0.as_str()))
        invariant
            all == triples(inputs@),
            i <= n == inputs@.len(),
            account_at(all, 0) == account_at(all, i as int),
        decreases n - i,
    {
        i += 1;
    }
    if i < n {
        user = Some(inputs[i].0.clone());
    }
    (user, pass)
}

// ---------------------------------------------------------------------------
// Laws

/// The tag of a field.
pub open spec fn field_tag(name: Seq<char>, value: Seq<char>) -> Seq<char> {
    "<input name=\""@ + name + "\" value=\""@ + value + "\""@
}

proof fn lemma_field_tag(name: Seq<char>, value: Seq<char>)
    requires
        !name.contains('"'),
        !value.contains('"'),
    ensures
        attrs(field_tag(name, value)) == seq![
            ("<input"@, seq![]),
            ("name"@, name),
            ("value"@, value),
        ],
{
    let tag = field_tag(name, value);
    let n = name.len() as int;
    let m = value.len() as int;
    reveal_strlit("<input name=\"");
    reveal_strlit("\" value=\"");
    reveal_strlit("\"");
    reveal_strlit("<input");
    reveal_strlit("name");
    reveal_strlit("value");
    reveal_with_fuel(skip_blank, 2);
    reveal_with_fuel(key_end, 7);
    let e = 13 + n;
    let last = e + 9 + m;
    assert(tag.len() == last + 1);
    assert forall|j: int| 13 <= j < e implies !seq!['"'].contains(#[trigger] tag[j]) by {
        assert(tag[j] == name[j - 13]);
        assert(name.contains(name[j - 13]));
    }
    assert forall|j: int| e + 9 <= j < last implies !seq!['"'].contains(#[trigger] tag[j]) by {
        assert(tag[j] == value[j - e - 9]);
        assert(value.contains(value[j - e - 9]));
    }
    assert(seq!['"'][0] == '"');
    assert(tag[e] == '"');
    assert(tag[last] == '"');
    assert(seq!['"'].contains(tag[e]));
    assert(seq!['"'].contains(tag[last]));
    text::lemma_scan_stops(tag, seq!['"'], 13, e);
    text::lemma_scan_stops(tag, seq!['"'], e + 9, last);
    assert(tag[0] == '<' && tag[1] == 'i' && tag[2] == 'n' && tag[3] == 'p' && tag[4] == 'u'
        && tag[5] == 't' && tag[6] == ' ' && tag[7] == 'n' && tag[8] == 'a' && tag[9] == 'm'
        && tag[10] == 'e' && tag[11] == '=' && tag[12] == '"');
    assert(tag[e + 1] == ' ' && tag[e + 2] == 'v' && tag[e + 3] == 'a' && tag[e + 4] == 'l' && tag[e
        + 5] == 'u' && tag[e + 6] == 'e' && tag[e + 7] == '=' && tag[e + 8] == '"');
    assert(key_end(tag, 0) == 6);
    assert(skip_blank(tag, 6) == 7);
    assert(key_end(tag, 7) == 11);
    assert(skip_blank(tag, e + 1) == e + 2);
    assert(key_end(tag, e + 2) == e + 7);
    assert(tag.subrange(0, 6) =~= "<input"@);
    assert(tag.subrange(6, 6) =~= seq![]);
    assert(tag.subrange(7, 11) =~= "name"@);
    assert(tag.subrange(13, e) =~= name);
    assert(tag.subrange(e + 2, e + 7) =~= "value"@);
    assert(tag.subrange(e + 9, last) =~= value);
    assert(text::lower("<input"@) =~= "<input"@);
    assert(text::lower("name"@) =~= "name"@);
    assert(text::lower("value"@) =~= "value"@);
    assert(attrs_from(tag, last + 1) =~= seq![]);
    assert(attrs_from(tag, e + 1) =~= seq![("value"@, value)]);
    assert(attrs_from(tag, 6) =~= seq![("name"@, name), ("value"@, value)]);
    assert(attrs_from(tag, 0) =~= seq![
        ("<input"@, seq![]),
        ("name"@, name),
        ("value"@, value),
    ]);
}

proof fn lemma_find_behind(front: Seq<char>, rest: Seq<char>, p: Seq<char>, i: int)
    requires
        0 <= i,
    ensures
        text::find_from(front + rest, p, front.len() + i) == (match text::find_from(rest, p, i) {
            Some(k) => Some(front.len() + k),
            None => None,
        }),
    decreases rest.len() + 1 - i,
{
    let all = front + rest;
    if i + p.len() <= rest.len() {
        assert(all.subrange(front.len() + i, front.len() + i + p.len()) =~= rest.subrange(
            i,
            i + p.len(),
        ));
        lemma_find_behind(front, rest, p, i + 1);
    }
}

/// The tags behind a position are those of the text behind it.
pub proof fn lemma_tags_behind(front: Seq<char>, rest: Seq<char>, i: int)
    requires
        0 <= i,
    ensures
        tags_from(front + rest, front.len() + i) == tags_from(rest, i),
    decreases rest.len() + 1 - i,
{
    let all = front + rest;
    assert(text::lower(all) =~= text::lower(front) + text::lower(rest));
    lemma_find_behind(text::lower(front), text::lower(rest), "<input"@, i);
    lemma_tag_bounds(rest, i);
    if let Some(start) = text::find_from(text::lower(rest), "<input"@, i) {
        text::lemma_scan_skip(all, seq!['>'], front.len() as int, start);
        assert(all.skip(front.len() as int) =~= rest);
        let end = text::scan_to(rest, seq!['>'], start);
        if end < rest.len() {
            assert(all.subrange(front.len() + start, front.len() + end) =~= rest.subrange(
                start,
                end,
            ));
            lemma_tags_behind(front, rest, end + 1);
        }
    }
}

/// The tags of a page that starts with a closed tag.
proof fn lemma_tags_front(name: Seq<char>, value: Seq<char>, rest: Seq<char>)
    requires
        is_quotable(name),
        is_quotable(value),
    ensures
        tags(field_tag(name, value) + ">"@ + rest) == seq![field_tag(name, value)] + tags(rest),
{
    let tag = field_tag(name, value);
    let front = tag + ">"@;
    let html = front + rest;
    let n = name.len() as int;
    let m = value.len() as int;
    reveal_strlit("<input name=\"");
    reveal_strlit("\" value=\"");
    reveal_strlit("\"");
    reveal_strlit("<input");
    reveal_strlit(">");
    let end = tag.len() as int;
    assert forall|j: int| 0 <= j < end implies !seq!['>'].contains(#[trigger] html[j]) by {
        if 13 <= j < 13 + n {
            assert(html[j] == name[j - 13]);
            assert(name.contains(name[j - 13]));
        } else if 22 + n <= j < 22 + n + m {
            assert(html[j] == value[j - 22 - n]);
            assert(value.contains(value[j - 22 - n]));
        }
    }
    assert(seq!['>'][0] == '>');
    assert(html[end] == '>');
    assert(seq!['>'].contains(html[end]));
    text::lemma_scan_stops(html, seq!['>'], 0, end);
    let low = text::lower(html);
    assert(low.subrange(0, 6) =~= "<input"@);
    assert(text::occurs_at(low, "<input"@, 0));
    assert(text::find_from(low, "<input"@, 0) == Some(0int));
    assert(html.subrange(0, end) =~= tag);
    lemma_tags_behind(front, rest, 0);
}

proof fn lemma_field_of_tag(name: Seq<char>, value: Seq<char>)
    requires
        is_quotable(name),
        is_quotable(value),
    ensures
        field_of(field_tag(name, value)) == Some((name, unescape(value))),
{
    let a = attrs(field_tag(name, value));
    lemma_field_tag(name, value);
    reveal_strlit("<input");
    reveal_strlit("name");
    reveal_strlit("value");
    reveal_strlit("disabled");
    assert("name"@.len() == 4 && "value"@.len() == 5 && "disabled"@.len() == 8 && "<input"@.len()
        == 6);
    assert("name"@ != "value"@ && "<input"@ != "name"@);
    assert forall|i: int| 0 <= i < a.len() implies (#[trigger] a[i]).0 != "disabled"@ by {
        assert(a[i].0.len() < 8);
    }
    assert(a.last() == ("value"@, value));
    assert(table::last_value(a, "value"@) == Some(value));
    assert(a.drop_last().last() == ("name"@, name));
    assert(table::last_value(a, "name"@) == table::last_value(a.drop_last(), "name"@));
}

proof fn lemma_fields_front(tag: Seq<char>, f: (Seq<char>, Seq<char>), rest: Seq<Seq<char>>)
    requires
        field_of(tag) == Some(f),
    ensures
        fields_of(seq![tag] + rest) == seq![f] + fields_of(rest),
    decreases rest.len(),
{
    let all = seq![tag] + rest;
    if rest.len() == 0 {
        assert(all.drop_last() =~= seq![]);
        assert(fields_of(seq![]) =~= seq![]);
        assert(fields_of(all) =~= seq![f] + fields_of(rest));
    } else {
        lemma_fields_front(tag, f, rest.drop_last());
        assert(all.drop_last() =~= seq![tag] + rest.drop_last());
        assert(all.last() == rest.last());
        assert(fields_of(all) =~= seq![f] + fields_of(rest));
    }
}

/// The text can stand between quotes in a tag.
pub open spec fn is_quotable(s: Seq<char>) -> bool {
    !s.contains('"') && !s.contains('>')
}

/// A page of inputs with these names and values.
pub open spec fn page_of(fields: Seq<(Seq<char>, Seq<char>)>) -> Seq<char>
    decreases fields.len(),
{
    if fields.len() == 0 {
        seq![]
    } else {
        field_tag(fields[0].0, fields[0].1) + ">"@ + page_of(fields.drop_first())
    }
}

/// A page of inputs submits their names and values in order and to the letter, but for the
/// character references in the values.
pub proof fn law_inputs_read_back(fields: Seq<(Seq<char>, Seq<char>)>)
    requires
        forall|i: int|
            0 <= i < fields.len() ==> is_quotable((#[trigger] fields[i]).0) && is_quotable(
                fields[i].1,
            ),
    ensures
        form_fields(page_of(fields)) == fields.map_values(
            |f: (Seq<char>, Seq<char>)| (f.0, unescape(f.1)),
        ),
    decreases fields.len(),
{
    let want = fields.map_values(|f: (Seq<char>, Seq<char>)| (f.0, unescape(f.1)));
    if fields.len() == 0 {
        reveal_strlit("<input");
        assert(text::lower(page_of(fields)).len() == 0);
        assert(tags(page_of(fields)) =~= seq![]);
        assert(form_fields(page_of(fields)) =~= want);
    } else {
        let f = fields[0];
        let rest = fields.drop_first();
        assert forall|i: int| 0 <= i < rest.len() implies is_quotable((#[trigger] rest[i]).0)
            && is_quotable(rest[i].1) by {
            assert(rest[i] == fields[i + 1]);
        }
        law_inputs_read_back(rest);
        lemma_tags_front(f.0, f.1, page_of(rest));
        lemma_field_of_tag(f.0, f.1);
        lemma_fields_front(field_tag(f.0, f.1), (f.0, unescape(f.1)), tags(page_of(rest)));
        assert(form_fields(page_of(fields)) =~= want);
    }
}

/// Nothing is replaced where the first character of the pattern does not occur.
pub proof fn lemma_replaced_without(s: Seq<char>, p: Seq<char>, by: Seq<char>)
    requires
        p.len() > 0,
        !s.contains(p[0]),
    ensures
        split::replaced(s, p, by) == s,
    decreases s.len(),
{
    if s.len() > 0 {
        assert(s.contains(s[0]));
        if text::starts_with(s, p) {
            assert(s.subrange(0, p.len() as int)[0] == s[0]);
        }
        assert forall|i: int| 0 <= i < s.drop_first().len() implies s.drop_first()[i] != p[0] by {
            assert(s.contains(s[i + 1]));
        }
        lemma_replaced_without(s.drop_first(), p, by);
        assert(seq![s.first()] + s.drop_first() =~= s);
    }
}

/// A value without `&` stands for itself.
pub proof fn law_plain_value_is_kept(s: Seq<char>)
    requires
        !s.contains('&'),
    ensures
        unescape(s) == s,
{
    reveal_strlit("&amp;");
    reveal_strlit("&quot;");
    reveal_strlit("&#39;");
    assert("&amp;"@[0] == '&' && "&quot;"@[0] == '&' && "&#39;"@[0] == '&');
    lemma_replaced_without(s, "&amp;"@, "&"@);
    lemma_replaced_without(s, "&quot;"@, "\""@);
    lemma_replaced_without(s, "&#39;"@, "'"@);
}

/// What `password_at` returns is the least position of a password input.
pub proof fn lemma_password_at(v: Seq<(Seq<char>, Seq<char>, Seq<char>)>, i: int)
    requires
        0 <= i <= v.len(),
    ensures
        match password_at(v, i) {
            Some(k) => i <= k < v.len() && v[k].1 == "password"@ && forall|j: int|
                i <= j < k ==> (#[trigger] v[j]).1 != "password"@,
            None => forall|j: int| i <= j < v.len() ==> (#[trigger] v[j]).1 != "password"@,
        },
    decreases v.len() - i,
{
    if i < v.len() && v[i].1 != "password"@ {
        lemma_password_at(v, i + 1);
    }
}

/// What `typed_before` returns is the greatest position of an input that a user types into.
pub proof fn lemma_typed_before(v: Seq<(Seq<char>, Seq<char>, Seq<char>)>, n: int)
    requires
        0 <= n <= v.len(),
    ensures
        match typed_before(v, n) {
            Some(k) => 0 <= k < n && is_typed(v[k].1) && forall|j: int|
                k < j < n ==> !is_typed((#[trigger] v[j]).1),
            None => forall|j: int| 0 <= j < n ==> !is_typed((#[trigger] v[j]).1),
        },
    decreases n,
{
    if n > 0 && !is_typed(v[n - 1].1) {
        lemma_typed_before(v, n - 1);
    }
}

/// The password field is the first password input. The account field is the nearest input before
/// it that a user types into, wherever there is one.
pub proof fn law_credential_fields(v: Seq<(Seq<char>, Seq<char>, Seq<char>)>, k: int, a: int)
    requires
        0 <= a < k < v.len(),
        v[k].1 == "password"@,
        forall|j: int| 0 <= j < k ==> (#[trigger] v[j]).1 != "password"@,
        is_typed(v[a].1),
        forall|j: int| a < j < k ==> !is_typed((#[trigger] v[j]).1),
    ensures
        password_at(v, 0) == Some(k),
        account_field(v) == Some(a),
{
    lemma_password_at(v, 0);
    lemma_typed_before(v, k);
}

/// A search in a text that ends with `>` finds the same tag where more text follows, and where it
/// finds none it goes on behind the text.
proof fn lemma_find_across(a: Seq<char>, b: Seq<char>, i: int)
    requires
        0 <= i <= a.len(),
        a.len() > 0,
        a.last() == '>',
    ensures
        match text::find_from(text::lower(a), "<input"@, i) {
            Some(k) => text::find_from(text::lower(a + b), "<input"@, i) == Some(k),
            None => text::find_from(text::lower(a + b), "<input"@, i) == text::find_from(
                text::lower(a + b),
                "<input"@,
                a.len() as int,
            ),
        },
    decreases a.len() - i,
{
    let x = text::lower(a);
    let y = text::lower(a + b);
    let p = "<input"@;
    let n = a.len() as int;
    reveal_strlit("<input");
    assert(y =~= x + text::lower(b));
    assert(x[n - 1] == '>');
    if i < n {
        lemma_find_across(a, b, i + 1);
        if i + 6 <= n {
            assert(y.subrange(i, i + 6) =~= x.subrange(i, i + 6));
        } else if i + 6 <= y.len() {
            assert(y.subrange(i, i + 6)[n - 1 - i] == '>');
            assert(p[n - 1 - i] != '>');
            assert(!text::occurs_at(y, p, i));
        }
        if i + 6 > n {
            assert(text::find_from(x, p, i) is None);
            assert(text::find_from(x, p, i + 1) is None);
            if i + 6 > y.len() {
                assert(text::find_from(y, p, i) is None);
                assert(text::find_from(y, p, n) is None) by {
                    if n + 6 <= y.len() {
                        assert(false);
                    }
                }
            }
        }
    }
}

/// The tags of a text that ends with a tag come before those of what follows it.
pub proof fn lemma_tags_across(a: Seq<char>, b: Seq<char>, i: int)
    requires
        0 <= i <= a.len(),
        a.len() > 0,
        a.last() == '>',
    ensures
        tags_from(a + b, i) == tags_from(a, i) + tags(b),
    decreases a.len() - i,
{
    let all = a + b;
    let n = a.len() as int;
    lemma_find_across(a, b, i);
    lemma_tag_bounds(a, i);
    match text::find_from(text::lower(a), "<input"@, i) {
        None => {
            lemma_tags_behind(a, b, 0);
            assert(tags_from(all, i) == tags_from(all, n));
            assert(tags_from(a, i) + tags(b) =~= tags(b));
        },
        Some(start) => {
            let stops = seq!['>'];
            assert(stops[0] == '>');
            text::lemma_scan_to(a, stops, start);
            let end = text::scan_to(a, stops, start);
            assert(end < n) by {
                if end == n {
                    assert(stops.contains(a[n - 1]));
                }
            }
            assert forall|j: int| start <= j < end implies !stops.contains(#[trigger] all[j]) by {
                assert(all[j] == a[j]);
            }
            assert(all[end] == a[end]);
            text::lemma_scan_stops(all, stops, start, end);
            assert(all.subrange(start, end) =~= a.subrange(start, end));
            lemma_tags_across(a, b, end + 1);
            assert(tags_from(all, i) =~= tags_from(a, i) + tags(b));
        },
    }
}

proof fn lemma_fields_joined(x: Seq<Seq<char>>, y: Seq<Seq<char>>)
    ensures
        fields_of(x + y) == fields_of(x) + fields_of(y),
    decreases y.len(),
{
    if y.len() == 0 {
        assert(x + y =~= x);
        assert(fields_of(x) + fields_of(y) =~= fields_of(x));
    } else {
        lemma_fields_joined(x, y.drop_last());
        assert((x + y).drop_last() =~= x + y.drop_last());
        assert((x + y).last() == y.last());
        assert(fields_of(x + y) =~= fields_of(x) + fields_of(y));
    }
}

/// A page that is cut behind a `>` has the fields of its two parts, in their order: no tag plays a
/// part in another.
pub proof fn law_parts_of_a_page(a: Seq<char>, b: Seq<char>)
    requires
        a.len() == 0 || a.last() == '>',
    ensures
        form_fields(a + b) == form_fields(a) + form_fields(b),
{
    if a.len() == 0 {
        reveal_strlit("<input");
        assert(a + b =~= b);
        assert(tags(a) =~= seq![]);
        assert(form_fields(a) + form_fields(b) =~= form_fields(b));
    } else {
        lemma_tags_across(a, b, 0);
        lemma_fields_joined(tags(a), tags(b));
    }
}

/// The input stands for one of the tags.
spec fn stands_for_one(list: Seq<Seq<char>>, t: (Seq<char>, Seq<char>, Seq<char>)) -> bool {
    exists|k: int| 0 <= k < list.len() && #[trigger] input_of(list[k]) == Some(t)
}

proof fn lemma_inputs_are_fields(list: Seq<Seq<char>>)
    ensures
        inputs_of(list).map_values(|t: (Seq<char>, Seq<char>, Seq<char>)| (t.0, t.2)) == fields_of(
            list,
        ).filter(|f: (Seq<char>, Seq<char>)| f.0.len() > 0),
        forall|i: int|
            0 <= i < inputs_of(list).len() ==> stands_for_one(list, #[trigger] inputs_of(list)[i]),
    decreases list.len(),
{
    reveal(Seq::filter);
    let pick = |t: (Seq<char>, Seq<char>, Seq<char>)| (t.0, t.2);
    let named = |f: (Seq<char>, Seq<char>)| f.0.len() > 0;
    if list.len() == 0 {
        assert(inputs_of(list).map_values(pick) =~= fields_of(list).filter(named));
    } else {
        let front = list.drop_last();
        lemma_inputs_are_fields(front);
        if let Some(f) = field_of(list.last()) {
            assert(fields_of(list).drop_last() =~= fields_of(front));
            if let Some(t) = input_of(list.last()) {
                assert(inputs_of(list).map_values(pick) =~= inputs_of(front).map_values(pick).push(
                    pick(t),
                ));
            }
        }
        assert forall|i: int| 0 <= i < inputs_of(list).len() implies stands_for_one(
            list,
            #[trigger] inputs_of(list)[i],
        ) by {
            if i < inputs_of(front).len() {
                assert(inputs_of(list)[i] == inputs_of(front)[i]);
                let k = choose|k: int|
                    0 <= k < front.len() && #[trigger] input_of(front[k]) == Some(
                        inputs_of(front)[i],
                    );
                assert(list[k] == front[k]);
                assert(input_of(list[k]) == Some(inputs_of(list)[i]));
            } else {
                assert(input_of(list[list.len() - 1]) == Some(inputs_of(list)[i]));
            }
        }
    }
}

/// The inputs of a page without their types are its fields without those of an empty name, in the
/// same order.
pub proof fn law_inputs_are_the_named_fields(html: Seq<char>)
    ensures
        form_inputs(html).map_values(|t: (Seq<char>, Seq<char>, Seq<char>)| (t.0, t.2))
            == form_fields(html).filter(|f: (Seq<char>, Seq<char>)| f.0.len() > 0),
{
    lemma_inputs_are_fields(tags(html));
}

/// Every input of a page stands for a tag of it. Its type is in lower case, and is `text` where the
/// tag has no type.
pub proof fn law_types_of_inputs(html: Seq<char>, i: int)
    requires
        0 <= i < form_inputs(html).len(),
    ensures
        text::lower(form_inputs(html)[i].1) == form_inputs(html)[i].1,
        exists|k: int|
            0 <= k < tags(html).len() && #[trigger] input_of(tags(html)[k]) == Some(
                form_inputs(html)[i],
            ) && (table::last_value(attrs(tags(html)[k]), "type"@) is None ==> form_inputs(html)[i].1
                == "text"@),
{
    lemma_inputs_are_fields(tags(html));
    assert(stands_for_one(tags(html), inputs_of(tags(html))[i]));
    let k = choose|k: int|
        0 <= k < tags(html).len() && #[trigger] input_of(tags(html)[k]) == Some(
            form_inputs(html)[i],
        );
    let tag = tags(html)[k];
    reveal_strlit("text");
    assert(text::lower("text"@) =~= "text"@);
    if let Some(t) = table::last_value(attrs(tag), "type"@) {
        text::lemma_lower_idempotent(t);
    }
}

}
