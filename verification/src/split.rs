//! Taking text apart and putting it together.

use vstd::prelude::*;

use crate::text;

verus! {

/// `str::split` with a string separator: the pieces between the separators, in order.
pub open spec fn split(s: Seq<char>, sep: Seq<char>) -> Seq<Seq<char>>
    decreases s.len(),
{
    if sep.len() == 0 {
        seq![s]
    } else {
        match text::find(s, sep) {
            None => seq![s],
            Some(k) => {
                proof {
                    text::lemma_find_from(s, sep, 0);
                }
                seq![s.take(k)] + split(s.skip(k + sep.len()), sep)
            },
        }
    }
}

/// The pieces of a text between separators.
pub fn pieces(s: &str, sep: &str) -> (r: Vec<String>)
    requires
        sep@.len() > 0,
    ensures
        text::texts(r@) == split(s@, sep@),
        r@.len() > 0,
{
    let mut out: Vec<String> = Vec::new();
    let mut rest: String = s.to_owned();
    assert(text::texts(out@) + split(rest@, sep@) =~= split(s@, sep@));
    loop
        invariant
            sep@.len() > 0,
            text::texts(out@) + split(rest@, sep@) == split(s@, sep@),
        decreases rest@.len(),
    {
        match text::find_text(rest.as_str(), sep) {
            Some(k) => {
                let ghost before = rest@;
                let ghost done = out@;
                let n: usize = rest.as_str().unicode_len();
                let w: usize = sep.unicode_len();
                let head: String = text::cut(rest.as_str(), 0, k);
                out.push(head);
                rest = text::cut(rest.as_str(), k + w, n);
                proof {
                    assert(before.subrange(0, k as int) =~= before.take(k as int));
                    assert(before.subrange(k + sep@.len(), before.len() as int) =~= before.skip(
                        k + sep@.len(),
                    ));
                    assert(text::texts(out@) =~= text::texts(done).push(before.take(k as int)));
                    assert(text::texts(out@) + split(rest@, sep@) =~= text::texts(done) + (seq![
                        before.take(k as int),
                    ] + split(rest@, sep@)));
                }
            },
            None => {
                let ghost done = out@;
                let ghost last = rest@;
                out.push(rest);
                proof {
                    assert(text::texts(out@) =~= text::texts(done).push(last));
                    assert(text::texts(out@) =~= text::texts(done) + seq![last]);
                }
                return out;
            },
        }
    }
}

/// The first position, from `i` on, of white space; the end of `s` if there is none.
pub open spec fn scan_space(s: Seq<char>, i: int) -> int
    decreases s.len() - i,
{
    if i < 0 || i >= s.len() {
        s.len() as int
    } else if text::is_space(s[i]) {
        i
    } else {
        scan_space(s, i + 1)
    }
}

/// A scan for white space ends within the text.
pub proof fn lemma_scan_space(s: Seq<char>, i: int)
    requires
        0 <= i <= s.len(),
    ensures
        i <= scan_space(s, i) <= s.len(),
        i < s.len() && !text::is_space(s[i]) ==> i < scan_space(s, i),
    decreases s.len() - i,
{
    if i < s.len() && !text::is_space(s[i]) {
        lemma_scan_space(s, i + 1);
    }
}

/// A scan stops at the first white space.
pub proof fn lemma_scan_space_stops(s: Seq<char>, from: int, k: int)
    requires
        0 <= from <= k <= s.len(),
        forall|i: int| from <= i < k ==> !text::is_space(#[trigger] s[i]),
        k < s.len() ==> text::is_space(s[k]),
    ensures
        scan_space(s, from) == k,
    decreases k - from,
{
    if from < k {
        assert(!text::is_space(s[from]));
        lemma_scan_space_stops(s, from + 1, k);
    }
}

/// The first position, from `from` on, of white space, or the length of `v`.
pub fn scan_to_space(v: &[char], from: usize) -> (r: usize)
    requires
        from <= v@.len(),
    ensures
        r == scan_space(v@, from as int),
        from <= r <= v@.len(),
{
    let mut i: usize = from;
    while i < v.len()
        invariant
            from <= i <= v@.len(),
            scan_space(v@, from as int) == scan_space(v@, i as int),
        decreases v@.len() - i,
    {
        if text::space(v[i]) {
            return i;
        }
        i += 1;
    }
    i
}

/// What is left without the white space in front is no longer, and starts with no white space.
pub proof fn lemma_trim_start_shorter(s: Seq<char>)
    ensures
        text::trim_start(s).len() <= s.len(),
        text::trim_start(s).len() > 0 ==> !text::is_space(text::trim_start(s)[0]),
    decreases s.len(),
{
    if s.len() > 0 && text::is_space(s.first()) {
        lemma_trim_start_shorter(s.drop_first());
    }
}

/// `str::split_whitespace`: the runs of characters that are not white space.
pub open spec fn words(s: Seq<char>) -> Seq<Seq<char>>
    decreases s.len(),
{
    let t = text::trim_start(s);
    if t.len() == 0 {
        seq![]
    } else {
        proof {
            lemma_trim_start_shorter(s);
            lemma_scan_space(t, 0);
        }
        seq![t.take(scan_space(t, 0))] + words(t.skip(scan_space(t, 0)))
    }
}

/// White space in front does not change the words.
proof fn lemma_words_skip_space(s: Seq<char>)
    requires
        s.len() > 0,
        text::is_space(s[0]),
    ensures
        words(s) == words(s.drop_first()),
{
    assert(text::trim_start(s) == text::trim_start(s.drop_first()));
}

/// The words of a text that starts with a word and white space.
pub proof fn lemma_words_front(word: Seq<char>, rest: Seq<char>)
    requires
        word.len() > 0,
        forall|i: int| 0 <= i < word.len() ==> !text::is_space(#[trigger] word[i]),
        rest.len() > 0 ==> text::is_space(rest[0]),
    ensures
        words(word + rest) == seq![word] + words(rest),
{
    let s = word + rest;
    assert(s[0] == word[0]);
    assert(text::trim_start(s) == s);
    assert forall|i: int| 0 <= i < word.len() implies !text::is_space(#[trigger] s[i]) by {
        assert(s[i] == word[i]);
    }
    if rest.len() > 0 {
        assert(s[word.len() as int] == rest[0]);
    }
    lemma_scan_space_stops(s, 0, word.len() as int);
    assert(s.take(word.len() as int) =~= word);
    assert(s.skip(word.len() as int) =~= rest);
}

/// White space in front of a text does not change its words.
pub proof fn lemma_words_space(c: char, rest: Seq<char>)
    requires
        text::is_space(c),
    ensures
        words(seq![c] + rest) == words(rest),
{
    let s = seq![c] + rest;
    assert(s.drop_first() =~= rest);
    lemma_words_skip_space(s);
}

/// The runs of characters that are not white space.
pub fn words_of(s: &str) -> (r: Vec<String>)
    ensures
        text::texts(r@) == words(s@),
{
    let v: Vec<char> = text::chars_of(s);
    let mut out: Vec<String> = Vec::new();
    let mut i: usize = 0;
    proof {
        assert(v@.skip(0) =~= v@);
        assert(text::texts(out@) + words(v@) =~= words(v@));
    }
    while i < v.len()
        invariant
            v@ == s@,
            i <= v@.len(),
            text::texts(out@) + words(v@.skip(i as int)) == words(s@),
        decreases v@.len() - i,
    {
        let ghost t = v@.skip(i as int);
        if text::space(v[i]) {
            proof {
                lemma_words_skip_space(t);
                assert(t.drop_first() =~= v@.skip(i + 1));
            }
            i += 1;
        } else {
            let j: usize = scan_to_space(v.as_slice(), i);
            let ghost done = out@;
            proof {
                lemma_scan_space(v@, i as int);
                lemma_scan_space_skip(v@, i as int);
            }
            out.push(text::text_of(v.as_slice(), i, j));
            proof {
                assert(text::trim_start(t) == t);
                assert(scan_space(t, 0) == j - i);
                assert(v@.subrange(i as int, j as int) =~= t.take(j - i));
                assert(t.skip(j - i) =~= v@.skip(j as int));
                assert(text::texts(out@) =~= text::texts(done).push(t.take(j - i)));
                assert(text::texts(out@) + words(v@.skip(j as int)) =~= text::texts(done) + (seq![
                    t.take(j - i),
                ] + words(v@.skip(j as int))));
            }
            i = j;
        }
    }
    proof {
        assert(v@.skip(i as int).len() == 0);
        assert(words(v@.skip(i as int)) =~= seq![]);
        assert(text::texts(out@) =~= words(s@));
    }
    out
}

proof fn lemma_scan_space_skip(s: Seq<char>, i: int)
    requires
        0 <= i <= s.len(),
    ensures
        scan_space(s.skip(i), 0) == scan_space(s, i) - i,
{
    lemma_scan_space_shift(s, i, 0);
}

proof fn lemma_scan_space_shift(s: Seq<char>, i: int, k: int)
    requires
        0 <= i,
        0 <= k,
        i + k <= s.len(),
    ensures
        scan_space(s.skip(i), k) == scan_space(s, i + k) - i,
    decreases s.len() - i - k,
{
    if i + k < s.len() && !text::is_space(s[i + k]) {
        lemma_scan_space_shift(s, i, k + 1);
    }
}

/// `str::replace`: every occurrence of `p`, taken from the left without overlap, becomes `by`.
pub open spec fn replaced(s: Seq<char>, p: Seq<char>, by: Seq<char>) -> Seq<char>
    decreases s.len(),
{
    if s.len() == 0 {
        s
    } else if p.len() > 0 && text::starts_with(s, p) {
        by + replaced(s.skip(p.len() as int), p, by)
    } else {
        seq![s.first()] + replaced(s.drop_first(), p, by)
    }
}

/// The text with every `p` replaced.
pub fn replace(s: &str, p: &str, by: &str) -> (r: String)
    requires
        p@.len() > 0,
    ensures
        r@ == replaced(s@, p@, by@),
{
    let v: Vec<char> = text::chars_of(s);
    let w: Vec<char> = text::chars_of(p);
    let mut out: String = String::new();
    let mut i: usize = 0;
    proof {
        assert(v@.skip(0) =~= v@);
        assert(out@ + replaced(v@, p@, by@) =~= replaced(v@, p@, by@));
    }
    while i < v.len()
        invariant
            v@ == s@,
            w@ == p@,
            p@.len() > 0,
            i <= v@.len(),
            out@ + replaced(v@.skip(i as int), p@, by@) == replaced(s@, p@, by@),
        decreases v@.len() - i,
    {
        let ghost t = v@.skip(i as int);
        let ghost done = out@;
        if text::stands_at(v.as_slice(), w.as_slice(), i) {
            proof {
                assert(t.subrange(0, p@.len() as int) =~= v@.subrange(i as int, i + p@.len()));
                assert(t.skip(p@.len() as int) =~= v@.skip(i + p@.len()));
            }
            out.append(by);
            i += w.len();
            proof {
                assert(out@ + replaced(v@.skip(i as int), p@, by@) =~= done + (by@ + replaced(
                    v@.skip(i as int),
                    p@,
                    by@,
                )));
            }
        } else {
            proof {
                if text::starts_with(t, p@) {
                    assert(t.subrange(0, p@.len() as int) =~= v@.subrange(i as int, i + p@.len()));
                }
                assert(t.drop_first() =~= v@.skip(i + 1));
            }
            out.push(v[i]);
            i += 1;
            proof {
                assert(out@ =~= done + seq![t.first()]);
                assert(out@ + replaced(v@.skip(i as int), p@, by@) =~= done + (seq![t.first()]
                    + replaced(v@.skip(i as int), p@, by@)));
            }
        }
    }
    assert(out@ + replaced(v@.skip(i as int), p@, by@) =~= out@);
    out
}

/// The pieces with `sep` between neighbours.
pub open spec fn joined(parts: Seq<Seq<char>>, sep: Seq<char>) -> Seq<char>
    decreases parts.len(),
{
    if parts.len() == 0 {
        seq![]
    } else if parts.len() == 1 {
        parts[0]
    } else {
        joined(parts.drop_last(), sep) + sep + parts.last()
    }
}

/// The pieces with the separator between them.
pub fn join(parts: &Vec<String>, sep: &str) -> (r: String)
    ensures
        r@ == joined(text::texts(parts@), sep@),
{
    let mut out: String = String::new();
    let mut i: usize = 0;
    while i < parts.len()
        invariant
            i <= parts@.len(),
            out@ == joined(text::texts(parts@).take(i as int), sep@),
        decreases parts@.len() - i,
    {
        let ghost all = text::texts(parts@);
        proof {
            assert(all.take(i + 1).drop_last() =~= all.take(i as int));
            assert(all.take(i + 1).last() == parts@[i as int]@);
        }
        if i > 0 {
            out.append(sep);
        } else {
            assert(out@ + parts@[0]@ =~= parts@[0]@);
        }
        out.append(parts[i].as_str());
        i += 1;
    }
    assert(text::texts(parts@).take(i as int) =~= text::texts(parts@));
    out
}

/// A text that starts with a piece without the first character of `sep`, and `sep` behind it, is
/// split there.
proof fn lemma_split_head(a: Seq<char>, sep: Seq<char>, rest: Seq<char>)
    requires
        sep.len() > 0,
        !a.contains(sep[0]),
    ensures
        split(a + sep + rest, sep) == seq![a] + split(rest, sep),
{
    let s = a + sep + rest;
    text::lemma_find_from(s, sep, 0);
    assert(text::occurs_at(s, sep, a.len() as int)) by {
        assert(s.subrange(a.len() as int, a.len() as int + sep.len()) =~= sep);
    }
    let k = text::find(s, sep)->0;
    assert(k == a.len()) by {
        if k < a.len() {
            assert(s.subrange(k, k + sep.len())[0] == a[k]);
        }
    }
    assert(s.take(k) =~= a);
    assert(s.skip(k + sep.len()) =~= rest);
}

proof fn lemma_split_whole(a: Seq<char>, sep: Seq<char>)
    requires
        sep.len() > 0,
        !a.contains(sep[0]),
    ensures
        split(a, sep) == seq![a],
{
    text::lemma_find_from(a, sep, 0);
    if let Some(k) = text::find(a, sep) {
        assert(a.subrange(k, k + sep.len())[0] == a[k]);
    }
}

/// The join of two or more pieces starts with the first one.
proof fn lemma_joined_front(parts: Seq<Seq<char>>, sep: Seq<char>)
    requires
        parts.len() >= 2,
    ensures
        joined(parts, sep) == parts[0] + sep + joined(parts.drop_first(), sep),
    decreases parts.len(),
{
    if parts.len() == 2 {
        assert(parts.drop_last() =~= seq![parts[0]]);
        assert(parts.drop_first() =~= seq![parts[1]]);
        assert(joined(parts.drop_last(), sep) == parts[0]);
    } else {
        lemma_joined_front(parts.drop_last(), sep);
        assert(parts.drop_last().drop_first() =~= parts.drop_first().drop_last());
        assert(joined(parts, sep) =~= parts[0] + sep + (joined(parts.drop_first().drop_last(), sep)
            + sep + parts.last()));
    }
}

/// Splitting what was joined gives the pieces, if none of them holds the first character of the
/// separator.
pub proof fn lemma_split_joined(parts: Seq<Seq<char>>, sep: Seq<char>)
    requires
        parts.len() > 0,
        sep.len() > 0,
        forall|i: int| 0 <= i < parts.len() ==> !(#[trigger] parts[i]).contains(sep[0]),
    ensures
        split(joined(parts, sep), sep) == parts,
    decreases parts.len(),
{
    if parts.len() == 1 {
        lemma_split_whole(parts[0], sep);
        assert(seq![parts[0]] =~= parts);
    } else {
        let rest = parts.drop_first();
        lemma_joined_front(parts, sep);
        lemma_split_joined(rest, sep);
        lemma_split_head(parts[0], sep, joined(rest, sep));
        assert(seq![parts[0]] + rest =~= parts);
    }
}

/// Every piece stands in the joined text.
pub proof fn lemma_joined_contains(parts: Seq<Seq<char>>, sep: Seq<char>, i: int)
    requires
        0 <= i < parts.len(),
    ensures
        text::contains(joined(parts, sep), parts[i]),
    decreases parts.len(),
{
    let all = joined(parts, sep);
    if parts.len() == 1 {
        text::law_part_is_contained(seq![], all, seq![]);
        assert(Seq::<char>::empty() + all + seq![] =~= all);
    } else if i == parts.len() - 1 {
        let front = joined(parts.drop_last(), sep) + sep;
        text::law_part_is_contained(front, parts.last(), seq![]);
        assert(front + parts.last() + seq![] =~= all);
    } else {
        let front = joined(parts.drop_last(), sep);
        lemma_joined_contains(parts.drop_last(), sep, i);
        assert(parts.drop_last()[i] == parts[i]);
        let k = choose|k: int| text::occurs_at(front, parts[i], k);
        assert(all.subrange(k, k + parts[i].len()) =~= front.subrange(k, k + parts[i].len()));
        assert(text::occurs_at(all, parts[i], k));
    }
}

/// The pieces of a text, joined again, are the text, and none of them holds the separator.
pub proof fn law_pieces_join_to_the_text(s: Seq<char>, sep: Seq<char>)
    requires
        sep.len() > 0,
    ensures
        joined(split(s, sep), sep) == s,
        forall|i: int|
            0 <= i < split(s, sep).len() ==> !text::contains(#[trigger] split(s, sep)[i], sep),
    decreases s.len(),
{
    text::lemma_find_from(s, sep, 0);
    match text::find(s, sep) {
        None => {
            assert(!text::contains(s, sep));
        },
        Some(k) => {
            let rest = s.skip(k + sep.len());
            law_pieces_join_to_the_text(rest, sep);
            let head = s.take(k);
            let parts = split(s, sep);
            assert(parts.drop_first() =~= split(rest, sep));
            assert(split(rest, sep).len() > 0);
            lemma_joined_front(parts, sep);
            assert(s.subrange(k, k + sep.len()) == sep);
            assert(s =~= head + sep + rest);
            assert(!text::contains(head, sep)) by {
                assert forall|j: int| !text::occurs_at(head, sep, j) by {
                    if text::occurs_at(head, sep, j) {
                        assert(s.subrange(j, j + sep.len()) =~= head.subrange(j, j + sep.len()));
                        assert(text::occurs_at(s, sep, j));
                    }
                }
            }
            assert forall|i: int| 0 <= i < parts.len() implies !text::contains(
                #[trigger] parts[i],
                sep,
            ) by {
                if i > 0 {
                    assert(parts[i] == split(rest, sep)[i - 1]);
                }
            }
        },
    }
}

/// A text is replaced where it stands, and nowhere else: what stands before its first occurrence
/// is kept, and so is a text in which it does not stand.
pub proof fn law_replaces_every_occurrence(
    a: Seq<char>,
    p: Seq<char>,
    b: Seq<char>,
    by: Seq<char>,
)
    requires
        p.len() > 0,
        text::find(a + p + b, p) == Some(a.len() as int),
    ensures
        replaced(a + p + b, p, by) == a + by + replaced(b, p, by),
    decreases a.len(),
{
    let s = a + p + b;
    text::lemma_find_from(s, p, 0);
    if a.len() == 0 {
        assert(text::starts_with(s, p));
        assert(s.skip(p.len() as int) =~= b);
        assert(by + replaced(b, p, by) =~= a + by + replaced(b, p, by));
    } else {
        assert(!text::occurs_at(s, p, 0));
        let t = a.drop_first() + p + b;
        assert(s.drop_first() =~= t);
        assert(text::find(t, p) == Some(a.len() - 1)) by {
            text::lemma_find_from(t, p, 0);
            assert(t.subrange(a.len() - 1, a.len() - 1 + p.len()) =~= p);
            assert(text::occurs_at(t, p, a.len() - 1));
            let k = text::find(t, p)->0;
            if k < a.len() - 1 {
                assert(s.subrange(k + 1, k + 1 + p.len()) =~= t.subrange(k, k + p.len()));
                assert(text::occurs_at(s, p, k + 1));
            }
        }
        law_replaces_every_occurrence(a.drop_first(), p, b, by);
        assert(seq![a[0]] + (a.drop_first() + by + replaced(b, p, by)) =~= a + by + replaced(
            b,
            p,
            by,
        ));
    }
}

}
