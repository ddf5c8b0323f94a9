//! Login pages that are written out tag by tag and attribute by attribute, and what is read from
//! them.

use vstd::prelude::*;

use crate::forms;
use crate::split;
use crate::table;
use crate::text;

verus! {

// ---------------------------------------------------------------------------
// Attributes

/// How an attribute is written.
pub enum Style {
    /// A key alone.
    Alone,
    /// `key=value`.
    Bare,
    /// `key="value"`.
    Double,
    /// `key='value'`.
    Single,
}

/// An attribute of a tag, with the white space in front of it.
pub struct Attr {
    pub gap: char,
    pub key: Seq<char>,
    pub style: Style,
    pub value: Seq<char>,
}

/// White space between attributes.
pub open spec fn is_gap(c: char) -> bool {
    c == ' ' || c == '\t' || c == '\n' || c == '\r' || c == '\x0b' || c == '\x0c'
}

/// The attribute as it is written.
pub open spec fn attr_text(a: Attr) -> Seq<char> {
    match a.style {
        Style::Alone => seq![a.gap] + a.key,
        Style::Bare => seq![a.gap] + a.key + seq!['='] + a.value,
        Style::Double => seq![a.gap] + a.key + seq!['=', '"'] + a.value + seq!['"'],
        Style::Single => seq![a.gap] + a.key + seq!['=', '\''] + a.value + seq!['\''],
    }
}

/// The value that is written.
pub open spec fn attr_value(a: Attr) -> Seq<char> {
    if a.style is Alone {
        seq![]
    } else {
        a.value
    }
}

/// The attribute can be written in its style.
pub open spec fn can_be_written(a: Attr) -> bool {
    &&& is_gap(a.gap)
    &&& a.key.len() > 0
    &&& forall|i: int| 0 <= i < a.key.len() ==> !is_gap(#[trigger] a.key[i]) && a.key[i] != '='
    &&& match a.style {
        Style::Alone => true,
        Style::Bare => {
            &&& forall|i: int| 0 <= i < a.value.len() ==> !is_gap(#[trigger] a.value[i])
            &&& a.value.len() > 0 ==> a.value[0] != '"' && a.value[0] != '\''
        },
        Style::Double => !a.value.contains('"'),
        Style::Single => !a.value.contains('\''),
    }
}

/// All attributes can be written.
pub open spec fn all_can_be_written(list: Seq<Attr>) -> bool {
    forall|i: int| 0 <= i < list.len() ==> can_be_written(#[trigger] list[i])
}

/// Attributes as they are written, one behind the other.
pub open spec fn attrs_text(list: Seq<Attr>) -> Seq<char>
    decreases list.len(),
{
    if list.len() == 0 {
        seq![]
    } else {
        attr_text(list[0]) + attrs_text(list.drop_first())
    }
}

/// The keys in lower case, with their values.
pub open spec fn read_attrs(list: Seq<Attr>) -> Seq<(Seq<char>, Seq<char>)> {
    list.map_values(|a: Attr| (text::lower(a.key), attr_value(a)))
}

proof fn lemma_gap(c: char)
    ensures
        forms::is_blank(c) <==> is_gap(c),
{
    assert(' ' as u32 == 0x20 && '\t' as u32 == 0x9 && '\n' as u32 == 0xa && '\x0b' as u32 == 0xb
        && '\x0c' as u32 == 0xc && '\r' as u32 == 0xd);
}

proof fn lemma_scans_behind(front: Seq<char>, rest: Seq<char>, i: int)
    requires
        0 <= i <= rest.len(),
    ensures
        forms::skip_blank(front + rest, front.len() + i) == front.len() + forms::skip_blank(
            rest,
            i,
        ),
        forms::until_blank(front + rest, front.len() + i) == front.len() + forms::until_blank(
            rest,
            i,
        ),
        forms::key_end(front + rest, front.len() + i) == front.len() + forms::key_end(rest, i),
    decreases rest.len() - i,
{
    if i < rest.len() {
        assert((front + rest)[front.len() + i] == rest[i]);
        lemma_scans_behind(front, rest, i + 1);
    }
}

proof fn lemma_next_attr_behind(front: Seq<char>, rest: Seq<char>, i: int)
    requires
        0 <= i <= rest.len(),
    ensures
        forms::next_attr(front + rest, front.len() + i) == (match forms::next_attr(rest, i) {
            Some(s) => Some(
                forms::Span {
                    key_from: front.len() + s.key_from,
                    key_to: front.len() + s.key_to,
                    from: front.len() + s.from,
                    to: front.len() + s.to,
                    next: front.len() + s.next,
                },
            ),
            None => None,
        }),
{
    let all = front + rest;
    let n = front.len() as int;
    lemma_scans_behind(front, rest, i);
    forms::lemma_skips(rest, i);
    let a = forms::skip_blank(rest, i);
    if a < rest.len() {
        lemma_scans_behind(front, rest, a);
        forms::lemma_skips(rest, a);
        let b = forms::key_end(rest, a);
        if b < rest.len() {
            assert(all[n + b] == rest[b]);
            if rest[b] == '=' {
                lemma_scans_behind(front, rest, b + 1);
                if b + 1 < rest.len() {
                    assert(all[n + b + 1] == rest[b + 1]);
                    assert(all.skip(n) =~= rest);
                    text::lemma_scan_skip(all, seq![rest[b + 1]], n, b + 2);
                }
            }
        }
    }
}

proof fn lemma_attrs_behind(front: Seq<char>, rest: Seq<char>, i: int)
    requires
        0 <= i <= rest.len(),
    ensures
        forms::attrs_from(front + rest, front.len() + i) == forms::attrs_from(rest, i),
    decreases rest.len() - i,
{
    let all = front + rest;
    let n = front.len() as int;
    lemma_next_attr_behind(front, rest, i);
    forms::lemma_next_attr(rest, i);
    if let Some(s) = forms::next_attr(rest, i) {
        assert(all.subrange(n + s.key_from, n + s.key_to) =~= rest.subrange(s.key_from, s.key_to));
        assert(all.subrange(n + s.from, n + s.to) =~= rest.subrange(s.from, s.to));
        lemma_attrs_behind(front, rest, s.next);
    }
}

proof fn lemma_key_ends(s: Seq<char>, i: int, j: int)
    requires
        0 <= i <= j <= s.len(),
        forall|x: int| i <= x < j ==> !is_gap(#[trigger] s[x]) && s[x] != '=',
        j < s.len() ==> is_gap(s[j]) || s[j] == '=',
    ensures
        forms::key_end(s, i) == j,
    decreases j - i,
{
    if j < s.len() {
        lemma_gap(s[j]);
    }
    if i < j {
        assert(!is_gap(s[i]));
        lemma_gap(s[i]);
        lemma_key_ends(s, i + 1, j);
    }
}

proof fn lemma_value_ends(s: Seq<char>, i: int, j: int)
    requires
        0 <= i <= j <= s.len(),
        forall|x: int| i <= x < j ==> !is_gap(#[trigger] s[x]),
        j < s.len() ==> is_gap(s[j]),
    ensures
        forms::until_blank(s, i) == j,
    decreases j - i,
{
    if j < s.len() {
        lemma_gap(s[j]);
    }
    if i < j {
        assert(!is_gap(s[i]));
        lemma_gap(s[i]);
        lemma_value_ends(s, i + 1, j);
    }
}

/// The gap in front of the attributes that are left is skipped.
proof fn lemma_attrs_skip_gap(s: Seq<char>)
    requires
        s.len() > 0,
        is_gap(s[0]),
    ensures
        forms::attrs_from(s, 0) == forms::attrs_from(s, 1),
{
    lemma_gap(s[0]);
    assert(forms::skip_blank(s, 0) == forms::skip_blank(s, 1));
    assert(forms::next_attr(s, 0) == forms::next_attr(s, 1));
}

proof fn lemma_attr_front(a: Attr, rest: Seq<char>)
    requires
        can_be_written(a),
        rest.len() > 0 ==> is_gap(rest[0]),
    ensures
        forms::attrs_from(attr_text(a) + rest, 0) == seq![(text::lower(a.key), attr_value(a))]
            + forms::attrs_from(rest, 0),
{
    let t = attr_text(a);
    let s = t + rest;
    let b = 1 + a.key.len() as int;
    let v = a.value.len() as int;
    lemma_gap(s[0]);
    assert(s[1] == a.key[0]);
    lemma_gap(s[1]);
    assert(forms::skip_blank(s, 0) == 1) by {
        reveal_with_fuel(forms::skip_blank, 2);
    }
    assert forall|x: int| 1 <= x < b implies !is_gap(#[trigger] s[x]) && s[x] != '=' by {
        assert(s[x] == a.key[x - 1]);
    }
    if b < s.len() && a.style is Alone {
        assert(s[b] == rest[0]);
    }
    lemma_key_ends(s, 1, b);
    assert(s.subrange(1, b) =~= a.key);
    let span = forms::next_attr(s, 0)->0;
    match a.style {
        Style::Alone => {
            assert(s.subrange(b, b) =~= attr_value(a));
            lemma_attrs_behind(t, rest, 0);
        },
        Style::Bare => {
            assert(s[b] == '=');
            if v > 0 {
                assert(s[b + 1] == a.value[0]);
            } else if rest.len() > 0 {
                assert(s[b + 1] == rest[0]);
            }
            assert forall|x: int| b + 1 <= x < b + 1 + v implies !is_gap(#[trigger] s[x]) by {
                assert(s[x] == a.value[x - b - 1]);
            }
            if rest.len() > 0 {
                assert(s[b + 1 + v] == rest[0]);
            }
            lemma_value_ends(s, b + 1, b + 1 + v);
            assert(s.subrange(b + 1, b + 1 + v) =~= a.value);
            if rest.len() > 0 {
                lemma_attrs_behind(t, rest, 1);
                lemma_attrs_skip_gap(rest);
            } else {
                lemma_attrs_behind(t, rest, 0);
            }
        },
        Style::Double => {
            let stops = seq!['"'];
            assert(stops[0] == '"');
            assert(s[b] == '=' && s[b + 1] == '"');
            assert forall|x: int| b + 2 <= x < b + 2 + v implies !stops.contains(
                #[trigger] s[x],
            ) by {
                assert(s[x] == a.value[x - b - 2]);
                assert(a.value.contains(a.value[x - b - 2]));
            }
            assert(s[b + 2 + v] == '"');
            assert(stops.contains(s[b + 2 + v]));
            text::lemma_scan_stops(s, stops, b + 2, b + 2 + v);
            assert(s.subrange(b + 2, b + 2 + v) =~= a.value);
            lemma_attrs_behind(t, rest, 0);
        },
        Style::Single => {
            let stops = seq!['\''];
            assert(stops[0] == '\'');
            assert(s[b] == '=' && s[b + 1] == '\'');
            assert forall|x: int| b + 2 <= x < b + 2 + v implies !stops.contains(
                #[trigger] s[x],
            ) by {
                assert(s[x] == a.value[x - b - 2]);
                assert(a.value.contains(a.value[x - b - 2]));
            }
            assert(s[b + 2 + v] == '\'');
            assert(stops.contains(s[b + 2 + v]));
            text::lemma_scan_stops(s, stops, b + 2, b + 2 + v);
            assert(s.subrange(b + 2, b + 2 + v) =~= a.value);
            lemma_attrs_behind(t, rest, 0);
        },
    }
}

proof fn lemma_attrs_read_back(list: Seq<Attr>)
    requires
        all_can_be_written(list),
    ensures
        forms::attrs_from(attrs_text(list), 0) == read_attrs(list),
        attrs_text(list).len() > 0 ==> is_gap(attrs_text(list)[0]),
    decreases list.len(),
{
    if list.len() == 0 {
        assert(forms::attrs_from(attrs_text(list), 0) =~= read_attrs(list));
    } else {
        let rest = list.drop_first();
        assert forall|i: int| 0 <= i < rest.len() implies can_be_written(#[trigger] rest[i]) by {
            assert(rest[i] == list[i + 1]);
        }
        assert(can_be_written(list[0]));
        lemma_attrs_read_back(rest);
        lemma_attr_front(list[0], attrs_text(rest));
        assert(read_attrs(list) =~= seq![(text::lower(list[0].key), attr_value(list[0]))]
            + read_attrs(rest));
        assert(attrs_text(list)[0] == list[0].gap);
    }
}

/// The tag `start`, which is `<input` in any letter case, with attributes.
pub open spec fn tag_text(start: Seq<char>, list: Seq<Attr>) -> Seq<char> {
    start + attrs_text(list)
}

/// Every attribute of a tag is read, in the order in which they are written: its key in lower
/// case, its value to the letter, whatever its quotes and whatever white space stands before it.
pub proof fn law_attributes_read_back(start: Seq<char>, list: Seq<Attr>)
    requires
        text::lower(start) == "<input"@,
        all_can_be_written(list),
    ensures
        forms::attrs(tag_text(start, list)) == seq![("<input"@, Seq::<char>::empty())]
            + read_attrs(list),
{
    reveal_strlit("<input");
    let rest = attrs_text(list);
    let s = start + rest;
    lemma_attrs_read_back(list);
    assert(start.len() == text::lower(start).len());
    assert forall|i: int| 0 <= i < 6 implies !is_gap(#[trigger] s[i]) && s[i] != '=' by {
        assert(s[i] == start[i]);
        assert(text::lower(start)[i] == "<input"@[i]);
    }
    lemma_gap(s[0]);
    assert(!is_gap(s[0]));
    assert(forms::skip_blank(s, 0) == 0);
    if rest.len() > 0 {
        assert(s[6] == rest[0]);
    }
    lemma_key_ends(s, 0, 6);
    assert(s.subrange(0, 6) =~= start);
    assert(s.subrange(6, 6) =~= Seq::<char>::empty());
    lemma_attrs_behind(start, rest, 0);
}

// ---------------------------------------------------------------------------
// Fields

/// The attribute at `i` is the last one with that key, whatever the letter case.
pub open spec fn is_last(list: Seq<Attr>, key: Seq<char>, i: int) -> bool {
    &&& 0 <= i < list.len()
    &&& text::lower(list[i].key) == key
    &&& forall|j: int| i < j < list.len() ==> text::lower((#[trigger] list[j]).key) != key
}

/// No attribute has that key, whatever the letter case.
pub open spec fn lacks(list: Seq<Attr>, key: Seq<char>) -> bool {
    forall|j: int| 0 <= j < list.len() ==> text::lower((#[trigger] list[j]).key) != key
}

/// The value of an attribute; nothing where there is none.
pub open spec fn value_at(list: Seq<Attr>, i: Option<int>) -> Seq<char> {
    match i {
        Some(k) => attr_value(list[k]),
        None => seq![],
    }
}

/// `i` is where the last attribute with that key stands, if there is one.
pub open spec fn stands_at(list: Seq<Attr>, key: Seq<char>, i: Option<int>) -> bool {
    match i {
        Some(k) => is_last(list, key, k),
        None => lacks(list, key),
    }
}

proof fn lemma_last_attr(start: Seq<char>, list: Seq<Attr>, key: Seq<char>, i: Option<int>)
    requires
        text::lower(start) == "<input"@,
        all_can_be_written(list),
        key != "<input"@,
        stands_at(list, key, i),
    ensures
        table::last_value(forms::attrs(tag_text(start, list)), key) == (match i {
            Some(k) => Some(attr_value(list[k])),
            None => None,
        }),
        table::has_key(forms::attrs(tag_text(start, list)), key) <==> i is Some,
{
    law_attributes_read_back(start, list);
    let all = forms::attrs(tag_text(start, list));
    assert(all.len() == list.len() + 1);
    assert forall|j: int| 1 <= j < all.len() implies (#[trigger] all[j]) == (
        text::lower(list[j - 1].key),
        attr_value(list[j - 1]),
    ) by {}
    match i {
        Some(k) => {
            let front = all.take(k + 1);
            let back = all.skip(k + 2);
            assert(!table::has_key(back, key)) by {
                assert forall|j: int| 0 <= j < back.len() implies (#[trigger] back[j]).0
                    != key by {
                    assert(back[j] == all[k + 2 + j]);
                    assert(text::lower(list[k + 1 + j].key) != key);
                }
            }
            assert(all =~= front + seq![(key, attr_value(list[k]))] + back) by {
                assert(all[k + 1] == (text::lower(list[k].key), attr_value(list[k])));
            }
            table::law_first_and_last_value(front, key, attr_value(list[k]), back);
            assert(all[k + 1].0 == key);
        },
        None => {
            assert(!table::has_key(all, key)) by {
                assert forall|j: int| 0 <= j < all.len() implies (#[trigger] all[j]).0 != key by {
                    if j > 0 {
                        assert(text::lower(list[j - 1].key) != key);
                    }
                }
            }
            table::law_unknown_key_has_no_value(all, key);
        },
    }
}

proof fn lemma_words()
    ensures
        "name"@ != "<input"@,
        "value"@ != "<input"@,
        "type"@ != "<input"@,
        "disabled"@ != "<input"@,
{
    reveal_strlit("<input");
    reveal_strlit("name");
    reveal_strlit("value");
    reveal_strlit("type");
    reveal_strlit("disabled");
    assert("<input"@.len() == 6 && "name"@.len() == 4 && "value"@.len() == 5 && "type"@.len() == 4
        && "disabled"@.len() == 8);
}

/// A tag with a name submits that name, to the letter, and its value, or nothing for a value that
/// is not written, whatever other attributes it has; of an attribute that is written twice the
/// last one counts. A tag without a name submits nothing, nor does one that is disabled.
pub proof fn law_field_of_a_tag(
    start: Seq<char>,
    list: Seq<Attr>,
    name: Option<int>,
    value: Option<int>,
    disabled: Option<int>,
)
    requires
        text::lower(start) == "<input"@,
        all_can_be_written(list),
        stands_at(list, "name"@, name),
        stands_at(list, "value"@, value),
        stands_at(list, "disabled"@, disabled),
    ensures
        forms::field_of(tag_text(start, list)) == (if name is Some && disabled is None {
            Some((value_at(list, name), forms::unescape(value_at(list, value))))
        } else {
            None
        }),
{
    lemma_words();
    lemma_last_attr(start, list, "name"@, name);
    lemma_last_attr(start, list, "value"@, value);
    lemma_last_attr(start, list, "disabled"@, disabled);
}

/// Such a tag is an input of the page where its name is not empty. Its type is the one that is
/// written, in lower case, or `text`.
pub proof fn law_input_of_a_tag(
    start: Seq<char>,
    list: Seq<Attr>,
    name: Option<int>,
    kind: Option<int>,
    value: Option<int>,
    disabled: Option<int>,
)
    requires
        text::lower(start) == "<input"@,
        all_can_be_written(list),
        stands_at(list, "name"@, name),
        stands_at(list, "type"@, kind),
        stands_at(list, "value"@, value),
        stands_at(list, "disabled"@, disabled),
    ensures
        forms::input_of(tag_text(start, list)) == (if value_at(list, name).len() > 0
            && disabled is None {
            Some(
                (
                    value_at(list, name),
                    if kind is Some {
                        text::lower(value_at(list, kind))
                    } else {
                        "text"@
                    },
                    forms::unescape(value_at(list, value)),
                ),
            )
        } else {
            None
        }),
{
    lemma_words();
    law_field_of_a_tag(start, list, name, value, disabled);
    lemma_last_attr(start, list, "type"@, kind);
}

// ---------------------------------------------------------------------------
// Pages

/// A tag on a page is found between those of the text before it and those of the text behind it.
pub proof fn law_tag_is_found(front: Seq<char>, tag: Seq<char>, back: Seq<char>)
    requires
        front.len() == 0 || front.last() == '>',
        text::starts_with(text::lower(tag), "<input"@),
        !tag.contains('>'),
    ensures
        forms::tags(front + (tag + seq!['>'] + back)) == forms::tags(front) + (seq![tag]
            + forms::tags(back)),
{
    reveal_strlit("<input");
    let rest = tag + seq!['>'] + back;
    let stops = seq!['>'];
    let n = tag.len() as int;
    let low = text::lower(rest);
    assert(text::lower(tag).len() == tag.len());
    assert(low.subrange(0, 6) =~= text::lower(tag).subrange(0, 6));
    assert(text::occurs_at(low, "<input"@, 0));
    assert(text::find_from(low, "<input"@, 0) == Some(0int));
    assert(stops[0] == '>');
    assert forall|j: int| 0 <= j < n implies !stops.contains(#[trigger] rest[j]) by {
        assert(rest[j] == tag[j]);
        assert(tag.contains(tag[j]));
    }
    assert(rest[n] == '>');
    assert(stops.contains(rest[n]));
    text::lemma_scan_stops(rest, stops, 0, n);
    assert(rest.subrange(0, n) =~= tag);
    forms::lemma_tags_behind(tag + seq!['>'], back, 0);
    assert(forms::tags(rest) == seq![tag] + forms::tags(back));
    if front.len() == 0 {
        assert(front + rest =~= rest);
        assert(text::lower(front).len() == 0);
        assert(forms::tags(front) =~= seq![]);
        assert(forms::tags(front) + (seq![tag] + forms::tags(back)) =~= seq![tag] + forms::tags(
            back,
        ));
    } else {
        forms::lemma_tags_across(front, rest, 0);
    }
}

proof fn lemma_inputs_joined(x: Seq<Seq<char>>, y: Seq<Seq<char>>)
    ensures
        forms::inputs_of(x + y) == forms::inputs_of(x) + forms::inputs_of(y),
    decreases y.len(),
{
    if y.len() == 0 {
        assert(x + y =~= x);
        assert(forms::inputs_of(x) + forms::inputs_of(y) =~= forms::inputs_of(x));
    } else {
        assert((x + y).drop_last() =~= x + y.drop_last());
        assert((x + y).last() == y.last());
        lemma_inputs_joined(x, y.drop_last());
        assert(forms::inputs_of(x + y) =~= forms::inputs_of(x) + forms::inputs_of(y));
    }
}

/// The inputs of a page are those of the text before a tag, that of the tag, and those of the text
/// behind it.
pub proof fn law_inputs_of_a_page(front: Seq<char>, tag: Seq<char>, back: Seq<char>)
    requires
        front.len() == 0 || front.last() == '>',
        text::starts_with(text::lower(tag), "<input"@),
        !tag.contains('>'),
    ensures
        forms::form_inputs(front + (tag + seq!['>'] + back)) == forms::form_inputs(front) + (
        match forms::input_of(tag) {
            Some(t) => seq![t],
            None => seq![],
        } + forms::form_inputs(back)),
{
    law_tag_is_found(front, tag, back);
    lemma_inputs_joined(forms::tags(front), seq![tag] + forms::tags(back));
    lemma_inputs_joined(seq![tag], forms::tags(back));
    reveal_with_fuel(forms::inputs_of, 2);
    assert(seq![tag].drop_last() =~= seq![]);
    assert(seq![tag].last() == tag);
    assert(forms::inputs_of(seq![tag]) =~= match forms::input_of(tag) {
        Some(t) => seq![t],
        None => seq![],
    });
}

// ---------------------------------------------------------------------------
// Character references

proof fn lemma_replaced_absent(s: Seq<char>, p: Seq<char>, by: Seq<char>)
    requires
        forall|i: int| !text::occurs_at(s, p, i),
    ensures
        split::replaced(s, p, by) == s,
    decreases s.len(),
{
    if s.len() > 0 {
        let rest = s.drop_first();
        assert forall|i: int| !text::occurs_at(rest, p, i) by {
            if text::occurs_at(rest, p, i) {
                assert(s.subrange(i + 1, i + 1 + p.len()) =~= rest.subrange(i, i + p.len()));
                assert(text::occurs_at(s, p, i + 1));
            }
        }
        lemma_replaced_absent(rest, p, by);
        assert(!text::occurs_at(s, p, 0));
        assert(seq![s.first()] + rest =~= s);
    }
}

proof fn lemma_replaced_once(a: Seq<char>, p: Seq<char>, b: Seq<char>, by: Seq<char>)
    requires
        p.len() > 0,
        !a.contains(p[0]),
        !b.contains(p[0]),
    ensures
        split::replaced(a + p + b, p, by) == a + by + b,
    decreases a.len(),
{
    let s = a + p + b;
    if a.len() == 0 {
        assert(s.subrange(0, p.len() as int) =~= p);
        assert(s.skip(p.len() as int) =~= b);
        forms::lemma_replaced_without(b, p, by);
        assert(by + b =~= a + by + b);
    } else {
        assert(s[0] == a[0]);
        assert(a.contains(a[0]));
        if text::starts_with(s, p) {
            assert(s.subrange(0, p.len() as int)[0] == s[0]);
        }
        assert(s.drop_first() =~= a.drop_first() + p + b);
        assert forall|i: int| 0 <= i < a.drop_first().len() implies a.drop_first()[i] != p[0] by {
            assert(a.contains(a[i + 1]));
        }
        lemma_replaced_once(a.drop_first(), p, b, by);
        assert(seq![a[0]] + (a.drop_first() + by + b) =~= a + by + b);
    }
}

/// A pattern that starts with `&` does not stand in a text whose only `&` starts something else.
proof fn lemma_other_reference(a: Seq<char>, r: Seq<char>, b: Seq<char>, p: Seq<char>)
    requires
        !a.contains('&'),
        !b.contains('&'),
        r.len() > 0,
        forall|i: int| 0 < i < r.len() ==> #[trigger] r[i] != '&',
        p.len() > 0,
        p[0] == '&',
        !text::starts_with(r + b, p),
    ensures
        forall|i: int| !text::occurs_at(a + r + b, p, i),
{
    let s = a + r + b;
    assert forall|i: int| !text::occurs_at(s, p, i) by {
        if text::occurs_at(s, p, i) {
            assert(s.subrange(i, i + p.len())[0] == s[i]);
            if i < a.len() {
                assert(s[i] == a[i]);
                assert(a.contains(a[i]));
            } else if i < a.len() + r.len() {
                assert(s[i] == r[i - a.len()]);
                assert(i == a.len());
                assert((r + b).subrange(0, p.len() as int) =~= s.subrange(i, i + p.len()));
            } else {
                assert(s[i] == b[i - a.len() - r.len()]);
                assert(b.contains(b[i - a.len() - r.len()]));
            }
        }
    }
}

proof fn lemma_references()
    ensures
        "&amp;"@ == seq!['&', 'a', 'm', 'p', ';'],
        "&quot;"@ == seq!['&', 'q', 'u', 'o', 't', ';'],
        "&#39;"@ == seq!['&', '#', '3', '9', ';'],
        "&"@ == seq!['&'],
        "\""@ == seq!['"'],
        "'"@ == seq!['\''],
        "quot;"@ == seq!['q', 'u', 'o', 't', ';'],
        "#39;"@ == seq!['#', '3', '9', ';'],
{
    reveal_strlit("&amp;");
    reveal_strlit("&quot;");
    reveal_strlit("&#39;");
    reveal_strlit("&");
    reveal_strlit("\"");
    reveal_strlit("'");
    reveal_strlit("quot;");
    reveal_strlit("#39;");
}

/// In a value `&amp;` stands for `&`, `&quot;` for a double and `&#39;` for a single quote; the
/// text around it is kept.
pub proof fn law_references_are_read(a: Seq<char>, b: Seq<char>)
    requires
        !a.contains('&'),
        !b.contains('&'),
    ensures
        forms::unescape(a + "&quot;"@ + b) == a + seq!['"'] + b,
        forms::unescape(a + "&#39;"@ + b) == a + seq!['\''] + b,
        !text::starts_with(b, "quot;"@) && !text::starts_with(b, "#39;"@) ==> forms::unescape(
            a + "&amp;"@ + b,
        ) == a + seq!['&'] + b,
{
    lemma_references();
    let amp = "&amp;"@;
    let quot = "&quot;"@;
    let apos = "&#39;"@;
    lemma_differs(quot + b, amp, 1);
    lemma_other_reference(a, quot, b, amp);
    lemma_replaced_absent(a + quot + b, amp, "&"@);
    lemma_replaced_once(a, quot, b, "\""@);
    assert forall|i: int| 0 <= i < (a + seq!['"'] + b).len() implies (a + seq!['"'] + b)[i]
        != '&' by {
        lemma_none(a, seq!['"'], b, i);
    }
    forms::lemma_replaced_without(a + seq!['"'] + b, apos, "'"@);

    lemma_differs(apos + b, amp, 1);
    lemma_other_reference(a, apos, b, amp);
    lemma_replaced_absent(a + apos + b, amp, "&"@);
    lemma_differs(apos + b, quot, 1);
    lemma_other_reference(a, apos, b, quot);
    lemma_replaced_absent(a + apos + b, quot, "\""@);
    lemma_replaced_once(a, apos, b, "'"@);

    if !text::starts_with(b, "quot;"@) && !text::starts_with(b, "#39;"@) {
        let and = seq!['&'];
        lemma_replaced_once(a, amp, b, and);
        if text::starts_with(and + b, quot) {
            assert(b.subrange(0, 5) =~= (and + b).subrange(0, 6).skip(1));
            assert(quot.skip(1) =~= "quot;"@);
        }
        lemma_other_reference(a, and, b, quot);
        lemma_replaced_absent(a + and + b, quot, "\""@);
        if text::starts_with(and + b, apos) {
            assert(b.subrange(0, 4) =~= (and + b).subrange(0, 5).skip(1));
            assert(apos.skip(1) =~= "#39;"@);
        }
        lemma_other_reference(a, and, b, apos);
        lemma_replaced_absent(a + and + b, apos, "'"@);
    }
}

proof fn lemma_differs(s: Seq<char>, p: Seq<char>, i: int)
    requires
        0 <= i < p.len(),
        i < s.len(),
        s[i] != p[i],
    ensures
        !text::starts_with(s, p),
{
    if text::starts_with(s, p) {
        assert(s.subrange(0, p.len() as int)[i] == s[i]);
    }
}

proof fn lemma_none(a: Seq<char>, m: Seq<char>, b: Seq<char>, i: int)
    requires
        !a.contains('&'),
        !m.contains('&'),
        !b.contains('&'),
        0 <= i < (a + m + b).len(),
    ensures
        (a + m + b)[i] != '&',
{
    if i < a.len() {
        assert(a.contains(a[i]));
    } else if i < a.len() + m.len() {
        assert(m.contains(m[i - a.len()]));
    } else {
        assert(b.contains(b[i - a.len() - m.len()]));
    }
}

// ---------------------------------------------------------------------------
// The message of the portal

/// The text of a tag is a part of the page.
proof fn lemma_tags_are_parts(html: Seq<char>, i: int, k: int)
    requires
        0 <= i,
        0 <= k < forms::tags_from(html, i).len(),
    ensures
        exists|a: int, b: int|
            0 <= a <= b <= html.len() && forms::tags_from(html, i)[k] == #[trigger] html.subrange(
                a,
                b,
            ),
    decreases html.len() - i,
{
    forms::lemma_tag_bounds(html, i);
    let start = text::find_from(text::lower(html), "<input"@, i)->0;
    let end = text::scan_to(html, seq!['>'], start);
    if k == 0 {
        assert(forms::tags_from(html, i)[0] == html.subrange(start, end));
    } else {
        assert(forms::tags_from(html, i)[k] == forms::tags_from(html, end + 1)[k - 1]);
        lemma_tags_are_parts(html, end + 1, k - 1);
    }
}

/// What stands in a part stands in the whole.
proof fn lemma_part_contains(s: Seq<char>, a: int, b: int, p: Seq<char>)
    requires
        0 <= a <= b <= s.len(),
        text::contains(text::lower(s.subrange(a, b)), p),
    ensures
        text::contains(text::lower(s), p),
{
    let low = text::lower(s.subrange(a, b));
    let i = choose|i: int| text::occurs_at(low, p, i);
    assert(low.subrange(i, i + p.len()) =~= text::lower(s).subrange(a + i, a + i + p.len()));
    assert(text::occurs_at(text::lower(s), p, a + i));
}

proof fn lemma_marks()
    ensures
        "id=\"errmessage\""@.subrange(4, 14) == "errmessage"@,
        "id='errmessage'"@.subrange(4, 14) == "errmessage"@,
        "id=\"errmessage\""@.len() == 15,
        "id='errmessage'"@.len() == 15,
        "errmessage"@.len() == 10,
{
    reveal_strlit("id=\"errmessage\"");
    reveal_strlit("id='errmessage'");
    reveal_strlit("errmessage");
    assert("id=\"errmessage\""@.subrange(4, 14) =~= "errmessage"@);
    assert("id='errmessage'"@.subrange(4, 14) =~= "errmessage"@);
}

proof fn lemma_no_message_tag(tag: Seq<char>)
    requires
        !text::contains(text::lower(tag), "errmessage"@),
    ensures
        !forms::is_message_tag(tag),
{
    let low = text::lower(tag);
    lemma_marks();
    assert forall|i: int| !text::occurs_at(low, "id=\"errmessage\""@, i) by {
        if text::occurs_at(low, "id=\"errmessage\""@, i) {
            assert(low.subrange(i + 4, i + 14) =~= low.subrange(i, i + 15).subrange(4, 14));
            assert(text::occurs_at(low, "errmessage"@, i + 4));
        }
    }
    assert forall|i: int| !text::occurs_at(low, "id='errmessage'"@, i) by {
        if text::occurs_at(low, "id='errmessage'"@, i) {
            assert(low.subrange(i + 4, i + 14) =~= low.subrange(i, i + 15).subrange(4, 14));
            assert(text::occurs_at(low, "errmessage"@, i + 4));
        }
    }
}

proof fn lemma_message_behind(list: Seq<Seq<char>>, rest: Seq<Seq<char>>)
    requires
        forall|k: int| 0 <= k < list.len() ==> !forms::is_message_tag(#[trigger] list[k]),
    ensures
        forms::message_in(list + rest) == forms::message_in(rest),
    decreases list.len(),
{
    if list.len() == 0 {
        assert(list + rest =~= rest);
    } else {
        assert((list + rest).first() == list[0]);
        assert((list + rest).drop_first() =~= list.drop_first() + rest);
        assert forall|k: int| 0 <= k < list.drop_first().len() implies !forms::is_message_tag(
            #[trigger] list.drop_first()[k],
        ) by {
            assert(list.drop_first()[k] == list[k + 1]);
        }
        lemma_message_behind(list.drop_first(), rest);
    }
}

proof fn lemma_no_message_before(html: Seq<char>)
    requires
        !text::contains(text::lower(html), "errmessage"@),
    ensures
        forall|k: int|
            0 <= k < forms::tags(html).len() ==> !forms::is_message_tag(
                #[trigger] forms::tags(html)[k],
            ),
{
    assert forall|k: int| 0 <= k < forms::tags(html).len() implies !forms::is_message_tag(
        #[trigger] forms::tags(html)[k],
    ) by {
        let tag = forms::tags(html)[k];
        lemma_tags_are_parts(html, 0, k);
        let (a, b) = choose|a: int, b: int|
            0 <= a <= b <= html.len() && tag == #[trigger] html.subrange(a, b);
        if text::contains(text::lower(tag), "errmessage"@) {
            lemma_part_contains(html, a, b, "errmessage"@);
        }
        lemma_no_message_tag(tag);
    }
}

/// A page that does not speak of `errMessage` has no message.
pub proof fn law_page_without_a_message(html: Seq<char>)
    requires
        !text::contains(text::lower(html), "errmessage"@),
    ensures
        forms::message_in(forms::tags(html)) == Seq::<char>::empty(),
{
    lemma_no_message_before(html);
    lemma_message_behind(forms::tags(html), seq![]);
    assert(forms::tags(html) + seq![] =~= forms::tags(html));
    assert(forms::message_in(forms::tags(html)) =~= Seq::<char>::empty());
}

/// A tag whose id is `errMessage`, whatever the letter case, the quotes and its other attributes.
pub open spec fn has_message_id(tag: Seq<char>) -> bool {
    text::contains(text::lower(tag), "id=\"errmessage\""@) || text::contains(
        text::lower(tag),
        "id='errmessage'"@,
    )
}

/// The tag `before value="raw" after`, with either kind of quote and any letter case.
pub open spec fn valued_tag(
    before: Seq<char>,
    key: Seq<char>,
    quote: char,
    raw: Seq<char>,
    after: Seq<char>,
) -> Seq<char> {
    before + key + seq![quote] + raw + seq![quote] + after
}

/// The first value of the tag is `raw`, which the quotes around it delimit.
pub open spec fn is_first_value(
    before: Seq<char>,
    key: Seq<char>,
    quote: char,
    raw: Seq<char>,
) -> bool {
    &&& text::lower(key) == "value="@
    &&& !text::contains(text::lower(before) + "value"@, "value="@)
    &&& quote == '"' || quote == '\''
    &&& !raw.contains(quote)
}

proof fn lemma_message_of(
    before: Seq<char>,
    key: Seq<char>,
    quote: char,
    raw: Seq<char>,
    after: Seq<char>,
)
    requires
        is_first_value(before, key, quote, raw),
    ensures
        forms::message_of(valued_tag(before, key, quote, raw, after)) == split::replaced(
            split::replaced(raw, "&amp;"@, "&"@),
            "&quot;"@,
            "\""@,
        ),
{
    let tag = valued_tag(before, key, quote, raw, after);
    let low = text::lower(tag);
    let n = before.len() as int;
    reveal_strlit("value=");
    reveal_strlit("value");
    assert(text::lower(key).len() == key.len());
    assert(low.subrange(n, n + 6) =~= text::lower(key));
    assert(text::occurs_at(low, "value="@, n));
    text::lemma_find_from(low, "value="@, 0);
    let p = text::find(low, "value="@)->0;
    if p < n {
        let front = text::lower(before) + "value"@;
        assert forall|j: int| 0 <= j < n + 5 implies #[trigger] low[j] == front[j] by {
            if j >= n {
                assert(low[j] == text::lower(key)[j - n]);
                assert("value="@[j - n] == "value"@[j - n]);
            }
        }
        assert(front.subrange(p, p + 6) =~= low.subrange(p, p + 6));
        assert(text::occurs_at(front, "value="@, p));
    }
    let stops = seq![quote];
    let q = n + 6;
    let e = q + 1 + raw.len() as int;
    assert(tag[q] == quote);
    assert(stops[0] == quote);
    assert forall|j: int| q + 1 <= j < e implies !stops.contains(#[trigger] tag[j]) by {
        assert(tag[j] == raw[j - q - 1]);
        assert(raw.contains(raw[j - q - 1]));
    }
    assert(tag[e] == quote);
    assert(stops.contains(tag[e]));
    text::lemma_scan_stops(tag, stops, q + 1, e);
    assert(tag.subrange(q + 1, e) =~= raw);
}

proof fn lemma_message_of_a_page(front: Seq<char>, tag: Seq<char>, back: Seq<char>)
    requires
        front.len() == 0 || front.last() == '>',
        !text::contains(text::lower(front), "errmessage"@),
        text::starts_with(text::lower(tag), "<input"@),
        !tag.contains('>'),
        has_message_id(tag),
    ensures
        forms::message_in(forms::tags(front + (tag + seq!['>'] + back))) == forms::message_of(tag),
{
    law_tag_is_found(front, tag, back);
    lemma_no_message_before(front);
    lemma_message_behind(forms::tags(front), seq![tag] + forms::tags(back));
    assert((seq![tag] + forms::tags(back)).first() == tag);
}

/// The message of a page is the value of its first `<input>` whose id is `errMessage`, to the
/// letter, whatever other attributes that tag has and whatever stands around it.
pub proof fn law_message_of_a_page(
    front: Seq<char>,
    before: Seq<char>,
    key: Seq<char>,
    quote: char,
    message: Seq<char>,
    after: Seq<char>,
    back: Seq<char>,
)
    requires
        front.len() == 0 || front.last() == '>',
        !text::contains(text::lower(front), "errmessage"@),
        text::starts_with(
            text::lower(valued_tag(before, key, quote, message, after)),
            "<input"@,
        ),
        !valued_tag(before, key, quote, message, after).contains('>'),
        has_message_id(valued_tag(before, key, quote, message, after)),
        is_first_value(before, key, quote, message),
        !message.contains('&'),
    ensures
        forms::message_in(
            forms::tags(
                front + (valued_tag(before, key, quote, message, after) + seq!['>'] + back),
            ),
        ) == message,
{
    lemma_message_of_a_page(front, valued_tag(before, key, quote, message, after), back);
    lemma_message_of(before, key, quote, message, after);
    lemma_references();
    forms::lemma_replaced_without(message, "&amp;"@, "&"@);
    forms::lemma_replaced_without(message, "&quot;"@, "\""@);
}

/// In a message `&quot;` stands for a double quote and `&amp;` for `&`; the text around it is kept.
pub proof fn law_references_in_a_message(
    front: Seq<char>,
    before: Seq<char>,
    key: Seq<char>,
    quote: char,
    a: Seq<char>,
    b: Seq<char>,
    after: Seq<char>,
    back: Seq<char>,
    reference: Seq<char>,
)
    requires
        front.len() == 0 || front.last() == '>',
        !text::contains(text::lower(front), "errmessage"@),
        reference == "&quot;"@ || reference == "&amp;"@ && !text::starts_with(b, "quot;"@),
        text::starts_with(
            text::lower(valued_tag(before, key, quote, a + reference + b, after)),
            "<input"@,
        ),
        !valued_tag(before, key, quote, a + reference + b, after).contains('>'),
        has_message_id(valued_tag(before, key, quote, a + reference + b, after)),
        is_first_value(before, key, quote, a + reference + b),
        !a.contains('&'),
        !b.contains('&'),
    ensures
        forms::message_in(
            forms::tags(
                front + (valued_tag(before, key, quote, a + reference + b, after) + seq!['>']
                    + back),
            ),
        ) == a + seq![
            if reference == "&quot;"@ {
                '"'
            } else {
                '&'
            },
        ] + b,
{
    lemma_message_of_a_page(
        front,
        valued_tag(before, key, quote, a + reference + b, after),
        back,
    );
    lemma_message_of(before, key, quote, a + reference + b, after);
    lemma_references();
    let amp = "&amp;"@;
    let quot = "&quot;"@;
    assert(amp.len() == 5 && quot.len() == 6);
    if reference == quot {
        lemma_differs(quot + b, amp, 1);
        lemma_other_reference(a, quot, b, amp);
        lemma_replaced_absent(a + quot + b, amp, "&"@);
        lemma_replaced_once(a, quot, b, "\""@);
    } else {
        let and = seq!['&'];
        lemma_replaced_once(a, amp, b, and);
        if text::starts_with(and + b, quot) {
            assert(b.subrange(0, 5) =~= (and + b).subrange(0, 6).skip(1));
            assert(quot.skip(1) =~= "quot;"@);
        }
        lemma_other_reference(a, and, b, quot);
        lemma_replaced_absent(a + and + b, quot, "\""@);
    }
}

// ---------------------------------------------------------------------------
// Which inputs hold the account and the password

/// The types of inputs that nobody types into.
pub open spec fn untyped_kinds() -> Seq<Seq<char>> {
    seq![
        "hidden"@,
        "submit"@,
        "button"@,
        "reset"@,
        "image"@,
        "checkbox"@,
        "radio"@,
        "file"@,
    ]
}

/// The words by which a name tells an account.
pub open spec fn account_words() -> Seq<Seq<char>> {
    seq!["user"@, "account"@, "login"@, "name"@, "id"@]
}

/// The input is typed into, and its name tells an account, whatever its letter case.
pub open spec fn tells_account(t: (Seq<char>, Seq<char>, Seq<char>)) -> bool {
    &&& !untyped_kinds().contains(t.1)
    &&& exists|w: int|
        0 <= w < account_words().len() && text::contains(
            text::lower(t.0),
            #[trigger] account_words()[w],
        )
}

proof fn lemma_kind(kind: Seq<char>)
    ensures
        forms::is_typed(kind) <==> !untyped_kinds().contains(kind),
{
    let k = untyped_kinds();
    assert(k[0] == "hidden"@ && k[1] == "submit"@ && k[2] == "button"@ && k[3] == "reset"@ && k[4]
        == "image"@ && k[5] == "checkbox"@ && k[6] == "radio"@ && k[7] == "file"@);
}

proof fn lemma_tells_account(t: (Seq<char>, Seq<char>, Seq<char>))
    ensures
        tells_account(t) <==> forms::is_typed(t.1) && forms::names_account(t.0),
{
    lemma_kind(t.1);
    let w = account_words();
    assert(w[0] == "user"@ && w[1] == "account"@ && w[2] == "login"@ && w[3] == "name"@ && w[4]
        == "id"@);
}

/// The first password input is the one for the password, and the nearest input before it that is
/// typed into is the one for the account, whatever their names are.
pub proof fn law_nearest_input_is_the_account(
    v: Seq<(Seq<char>, Seq<char>, Seq<char>)>,
    k: int,
    a: int,
)
    requires
        0 <= a < k < v.len(),
        v[k].1 == "password"@,
        forall|j: int| 0 <= j < k ==> (#[trigger] v[j]).1 != "password"@,
        !untyped_kinds().contains(v[a].1),
        forall|j: int| a < j < k ==> untyped_kinds().contains((#[trigger] v[j]).1),
    ensures
        forms::name_at(v, forms::password_at(v, 0)) == Some(v[k].0),
        forms::name_at(v, forms::account_field(v)) == Some(v[a].0),
{
    lemma_kind(v[a].1);
    assert forall|j: int| a < j < k implies !forms::is_typed((#[trigger] v[j]).1) by {
        lemma_kind(v[j].1);
    }
    forms::law_credential_fields(v, k, a);
}

/// No input before the first password input is typed into, or there is no password input.
pub open spec fn has_none_near(v: Seq<(Seq<char>, Seq<char>, Seq<char>)>) -> bool {
    ||| forall|j: int| 0 <= j < v.len() ==> (#[trigger] v[j]).1 != "password"@
    ||| exists|k: int|
        0 <= k < v.len() && (#[trigger] v[k]).1 == "password"@ && forall|j: int|
            0 <= j < k ==> untyped_kinds().contains((#[trigger] v[j]).1)
}

proof fn lemma_none_near(v: Seq<(Seq<char>, Seq<char>, Seq<char>)>)
    requires
        has_none_near(v),
    ensures
        forms::account_field(v) == forms::account_at(v, 0),
{
    forms::lemma_password_at(v, 0);
    match forms::password_at(v, 0) {
        None => {},
        Some(p) => {
            assert(v[p].1 == "password"@);
            let k = choose|k: int|
                0 <= k < v.len() && (#[trigger] v[k]).1 == "password"@ && forall|j: int|
                    0 <= j < k ==> untyped_kinds().contains((#[trigger] v[j]).1);
            assert(p <= k);
            forms::lemma_typed_before(v, p);
            if let Some(a) = forms::typed_before(v, p) {
                lemma_kind(v[a].1);
                assert(untyped_kinds().contains(v[a].1));
            }
        },
    }
}

/// Where no such input is found, the account is the first input that is typed into and whose name
/// tells an account; where there is none either, none is.
pub proof fn law_account_is_found_by_its_name(
    v: Seq<(Seq<char>, Seq<char>, Seq<char>)>,
    i: Option<int>,
)
    requires
        has_none_near(v),
        match i {
            Some(a) => 0 <= a < v.len() && tells_account(v[a]) && forall|j: int|
                0 <= j < a ==> !tells_account(#[trigger] v[j]),
            None => forall|j: int| 0 <= j < v.len() ==> !tells_account(#[trigger] v[j]),
        },
    ensures
        forms::account_field(v) == i,
{
    lemma_none_near(v);
    lemma_account_at(v, i, 0);
}

proof fn lemma_account_at(v: Seq<(Seq<char>, Seq<char>, Seq<char>)>, i: Option<int>, from: int)
    requires
        0 <= from <= v.len(),
        match i {
            Some(a) => from <= a < v.len() && tells_account(v[a]) && forall|j: int|
                from <= j < a ==> !tells_account(#[trigger] v[j]),
            None => forall|j: int| from <= j < v.len() ==> !tells_account(#[trigger] v[j]),
        },
    ensures
        forms::account_at(v, from) == i,
    decreases v.len() - from,
{
    if from < v.len() {
        lemma_tells_account(v[from]);
        if i != Some(from) {
            assert(!tells_account(v[from]));
            lemma_account_at(v, i, from + 1);
        }
    }
}

/// Without a password input no password field is found.
pub proof fn law_no_password_input(v: Seq<(Seq<char>, Seq<char>, Seq<char>)>)
    requires
        forall|j: int| 0 <= j < v.len() ==> (#[trigger] v[j]).1 != "password"@,
    ensures
        forms::password_at(v, 0) is None,
{
    forms::lemma_password_at(v, 0);
}

/// The fields of a page are those of the text before a tag, that of the tag, and those of the text
/// behind it.
pub proof fn law_fields_of_a_page(front: Seq<char>, tag: Seq<char>, back: Seq<char>)
    requires
        front.len() == 0 || front.last() == '>',
        text::starts_with(text::lower(tag), "<input"@),
        !tag.contains('>'),
    ensures
        forms::form_fields(front + (tag + seq!['>'] + back)) == forms::form_fields(front) + (
        match forms::field_of(tag) {
            Some(f) => seq![f],
            None => seq![],
        } + forms::form_fields(back)),
{
    let rest = tag + seq!['>'];
    forms::law_parts_of_a_page(front, rest + back);
    forms::law_parts_of_a_page(rest, back);
    law_tag_is_found(seq![], tag, seq![]);
    assert(Seq::<char>::empty() + (tag + seq!['>'] + seq![]) =~= rest);
    law_unclosed_tag_is_none(seq![]);
    assert(forms::tags(rest) =~= seq![tag]);
    reveal_with_fuel(forms::fields_of, 2);
    assert(seq![tag].drop_last() =~= seq![]);
    assert(seq![tag].last() == tag);
    assert(forms::form_fields(rest) =~= match forms::field_of(tag) {
        Some(f) => seq![f],
        None => seq![],
    });
}

/// A tag that is never closed is none.
pub proof fn law_unclosed_tag_is_none(html: Seq<char>)
    requires
        !html.contains('>'),
    ensures
        forms::tags(html) == Seq::<Seq<char>>::empty(),
{
    forms::lemma_tag_bounds(html, 0);
    if let Some(start) = text::find_from(text::lower(html), "<input"@, 0) {
        let stops = seq!['>'];
        text::lemma_scan_to(html, stops, start);
        let end = text::scan_to(html, stops, start);
        if end < html.len() {
            let k = choose|k: int| 0 <= k < stops.len() && stops[k] == html[end];
            assert(html.contains(html[end]));
        }
    }
    assert(forms::tags(html) =~= Seq::<Seq<char>>::empty());
}

}
