//! Text operations on character sequences.

use vstd::prelude::*;

verus! {

/// `String::push`: the character is appended at the end and nothing else changes.
pub assume_specification[ String::push ](s: &mut String, c: char)
    ensures
        final(s)@ == old(s)@.push(c),
;

// ---------------------------------------------------------------------------
// Characters

/// The Unicode property White_Space.
pub open spec fn is_space(c: char) -> bool {
    ||| 0x9 <= c as u32 <= 0xd
    ||| c as u32 == 0x20
    ||| c as u32 == 0x85
    ||| c as u32 == 0xa0
    ||| c as u32 == 0x1680
    ||| 0x2000 <= c as u32 <= 0x200a
    ||| c as u32 == 0x2028
    ||| c as u32 == 0x2029
    ||| c as u32 == 0x202f
    ||| c as u32 == 0x205f
    ||| c as u32 == 0x3000
}

/// Whether the character is white space.
pub fn space(c: char) -> (r: bool)
    ensures
        r == is_space(c),
{
    let u: u32 = c as u32;
    (0x9 <= u && u <= 0xd) || u == 0x20 || u == 0x85 || u == 0xa0 || u == 0x1680 || (0x2000 <= u
        && u <= 0x200a) || u == 0x2028 || u == 0x2029 || u == 0x202f || u == 0x205f || u == 0x3000
}

/// `A` to `Z` become `a` to `z`; every other character stays.
pub open spec fn lower_char(c: char) -> char {
    if 'A' <= c <= 'Z' {
        (c as u32 + 32) as char
    } else {
        c
    }
}

/// The character with an ASCII letter in lower case.
pub fn to_lower_char(c: char) -> (r: char)
    ensures
        r == lower_char(c),
{
    if 'A' <= c && c <= 'Z' {
        (c as u8 + 32) as char
    } else {
        c
    }
}

/// A sequence of strings, seen as their characters.
pub open spec fn texts(v: Seq<String>) -> Seq<Seq<char>> {
    v.map_values(|s: String| s@)
}

/// An optional string, seen as its characters.
pub open spec fn opt_text(v: Option<String>) -> Option<Seq<char>> {
    match v {
        Some(s) => Some(s@),
        None => None,
    }
}

/// Key and value pairs, seen as their characters.
pub open spec fn pairs(v: Seq<(String, String)>) -> Seq<(Seq<char>, Seq<char>)> {
    v.map_values(|p: (String, String)| (p.0@, p.1@))
}

// ---------------------------------------------------------------------------
// Strings and character vectors

/// The characters of `s`.
pub fn chars_of(s: &str) -> (r: Vec<char>)
    ensures
        r@ == s@,
{
    let mut v: Vec<char> = Vec::new();
    for c in it: s.chars()
        invariant
            v@ == s@.take(it.index()),
            it.seq() == s@,
    {
        v.push(c);
    }
    v
}

/// The string made of `v[from..to]`.
pub fn text_of(v: &[char], from: usize, to: usize) -> (r: String)
    requires
        from <= to <= v@.len(),
    ensures
        r@ == v@.subrange(from as int, to as int),
{
    let mut out: String = String::new();
    let mut i: usize = from;
    while i < to
        invariant
            from <= i <= to <= v@.len(),
            out@ == v@.subrange(from as int, i as int),
        decreases to - i,
    {
        out.push(v[i]);
        i += 1;
    }
    out
}

/// `s[from..to]`, counted in characters.
pub fn cut(s: &str, from: usize, to: usize) -> (r: String)
    requires
        from <= to <= s@.len(),
    ensures
        r@ == s@.subrange(from as int, to as int),
{
    let v: Vec<char> = chars_of(s);
    text_of(v.as_slice(), from, to)
}

/// Whether two texts have the same characters.
pub fn same(a: &str, b: &str) -> (r: bool)
    ensures
        r == (a@ == b@),
{
    let x: Vec<char> = chars_of(a);
    let y: Vec<char> = chars_of(b);
    if x.len() != y.len() {
        return false;
    }
    let mut i: usize = 0;
    while i < x.len()
        invariant
            x@ == a@,
            y@ == b@,
            x@.len() == y@.len(),
            i <= x@.len(),
            x@.take(i as int) == y@.take(i as int),
        decreases x@.len() - i,
    {
        if x[i] != y[i] {
            assert(a@[i as int] != b@[i as int]);
            return false;
        }
        assert(x@.take(i + 1) =~= x@.take(i as int).push(x@[i as int]));
        assert(y@.take(i + 1) =~= y@.take(i as int).push(y@[i as int]));
        i += 1;
    }
    assert(x@.take(i as int) =~= x@);
    assert(y@.take(i as int) =~= y@);
    true
}

/// The texts joined end to end.
pub fn concat(a: &str, b: &str) -> (r: String)
    ensures
        r@ == a@ + b@,
{
    let mut out: String = a.to_owned();
    out.append(b);
    out
}

/// The three texts joined end to end.
pub fn concat3(a: &str, b: &str, c: &str) -> (r: String)
    ensures
        r@ == a@ + b@ + c@,
{
    let mut out: String = a.to_owned();
    out.append(b);
    out.append(c);
    out
}

// ---------------------------------------------------------------------------
// Letter case

/// ASCII upper case letters replaced by lower case ones.
pub open spec fn lower(s: Seq<char>) -> Seq<char> {
    s.map_values(|c: char| lower_char(c))
}

/// `str::to_ascii_lowercase`.
pub fn to_lower(s: &str) -> (r: String)
    ensures
        r@ == lower(s@),
{
    let v: Vec<char> = chars_of(s);
    let mut out: String = String::new();
    let mut i: usize = 0;
    while i < v.len()
        invariant
            v@ == s@,
            i <= v@.len(),
            out@ == lower(s@.take(i as int)),
        decreases v@.len() - i,
    {
        out.push(to_lower_char(v[i]));
        assert(lower(s@.take(i + 1)) =~= lower(s@.take(i as int)).push(lower_char(s@[i as int])));
        i += 1;
    }
    assert(s@.take(i as int) =~= s@);
    out
}

/// `str::eq_ignore_ascii_case`.
pub open spec fn same_ignoring_case(a: Seq<char>, b: Seq<char>) -> bool {
    lower(a) == lower(b)
}

/// Whether two texts are the same but for the case of ASCII letters.
pub fn equal_ignoring_case(a: &str, b: &str) -> (r: bool)
    ensures
        r == same_ignoring_case(a@, b@),
{
    let x: String = to_lower(a);
    let y: String = to_lower(b);
    same(x.as_str(), y.as_str())
}

/// Lower case is kept by a second pass.
pub proof fn lemma_lower_idempotent(s: Seq<char>)
    ensures
        lower(lower(s)) == lower(s),
{
    assert(lower(lower(s)) =~= lower(s));
}

// ---------------------------------------------------------------------------
// Searching

/// `p` stands in `s` at position `i`.
pub open spec fn occurs_at(s: Seq<char>, p: Seq<char>, i: int) -> bool {
    0 <= i && i + p.len() <= s.len() && s.subrange(i, i + p.len()) == p
}

/// The first position, from `i` on, at which `p` stands in `s`.
pub open spec fn find_from(s: Seq<char>, p: Seq<char>, i: int) -> Option<int>
    decreases s.len() + 1 - i,
{
    if i < 0 || i + p.len() > s.len() {
        None
    } else if occurs_at(s, p, i) {
        Some(i)
    } else {
        find_from(s, p, i + 1)
    }
}

/// The first position at which `p` stands in `s`.
pub open spec fn find(s: Seq<char>, p: Seq<char>) -> Option<int> {
    find_from(s, p, 0)
}

/// `p` stands somewhere in `s`.
pub open spec fn contains(s: Seq<char>, p: Seq<char>) -> bool {
    exists|i: int| occurs_at(s, p, i)
}

/// `p` stands at the start of `s`.
pub open spec fn starts_with(s: Seq<char>, p: Seq<char>) -> bool {
    occurs_at(s, p, 0)
}

/// What `find_from` returns is the least position at which the pattern stands.
pub proof fn lemma_find_from(s: Seq<char>, p: Seq<char>, i: int)
    requires
        0 <= i,
    ensures
        match find_from(s, p, i) {
            Some(k) => i <= k && occurs_at(s, p, k) && forall|j: int|
                i <= j < k ==> !occurs_at(s, p, j),
            None => forall|j: int| i <= j ==> !occurs_at(s, p, j),
        },
    decreases s.len() + 1 - i,
{
    if i + p.len() <= s.len() && !occurs_at(s, p, i) {
        lemma_find_from(s, p, i + 1);
    }
}

/// Whether `p` stands in `v` at `i`.
pub fn stands_at(v: &[char], p: &[char], i: usize) -> (r: bool)
    requires
        i <= v@.len(),
    ensures
        r == occurs_at(v@, p@, i as int),
{
    let n: usize = v.len();
    if n - i < p.len() {
        return false;
    }
    let mut k: usize = 0;
    while k < p.len()
        invariant
            i + p@.len() <= v@.len() == n,
            k <= p@.len(),
            forall|j: int| 0 <= j < k ==> v@[i + j] == p@[j],
        decreases p@.len() - k,
    {
        if v[i + k] != p[k] {
            assert(v@.subrange(i as int, i + p@.len())[k as int] != p@[k as int]);
            return false;
        }
        k += 1;
    }
    assert(v@.subrange(i as int, i + p@.len()) =~= p@);
    true
}

/// The first position, from `from` on, at which `p` stands in `v`.
pub fn search(v: &[char], p: &[char], from: usize) -> (r: Option<usize>)
    requires
        from <= v@.len(),
    ensures
        find_from(v@, p@, from as int) == (match r {
            Some(k) => Some(k as int),
            None => None,
        }),
        r matches Some(k) ==> from <= k && k + p@.len() <= v@.len(),
{
    let mut i: usize = from;
    while i < v.len() && v.len() - i >= p.len()
        invariant
            from <= i <= v@.len(),
            find_from(v@, p@, from as int) == find_from(v@, p@, i as int),
        decreases v@.len() - i,
    {
        if stands_at(v, p, i) {
            return Some(i);
        }
        i += 1;
    }
    if p.len() == 0 {
        assert(v@.subrange(i as int, i as int) =~= p@);
        return Some(i);
    }
    None
}

/// `str::find` with a string pattern, counted in characters.
pub fn find_text(s: &str, p: &str) -> (r: Option<usize>)
    ensures
        find(s@, p@) == (match r {
            Some(k) => Some(k as int),
            None => None,
        }),
        r matches Some(k) ==> k + p@.len() <= s@.len(),
{
    let v: Vec<char> = chars_of(s);
    let w: Vec<char> = chars_of(p);
    search(v.as_slice(), w.as_slice(), 0)
}

/// `str::contains` with a string pattern.
pub fn has(s: &str, p: &str) -> (r: bool)
    ensures
        r == contains(s@, p@),
{
    proof {
        lemma_find_from(s@, p@, 0);
    }
    match find_text(s, p) {
        Some(_) => true,
        None => {
            assert forall|i: int| !occurs_at(s@, p@, i) by {}
            false
        },
    }
}

/// `str::starts_with` with a string pattern.
pub fn begins(s: &str, p: &str) -> (r: bool)
    ensures
        r == starts_with(s@, p@),
{
    let v: Vec<char> = chars_of(s);
    let w: Vec<char> = chars_of(p);
    stands_at(v.as_slice(), w.as_slice(), 0)
}

/// The first position, from `i` on, of a character of `stops`; the end of `s` if there is none.
pub open spec fn scan_to(s: Seq<char>, stops: Seq<char>, i: int) -> int
    decreases s.len() - i,
{
    if i < 0 || i >= s.len() {
        s.len() as int
    } else if stops.contains(s[i]) {
        i
    } else {
        scan_to(s, stops, i + 1)
    }
}

/// A scan ends at the first character of `stops`, or at the end.
pub proof fn lemma_scan_to(s: Seq<char>, stops: Seq<char>, i: int)
    requires
        0 <= i <= s.len(),
    ensures
        i <= scan_to(s, stops, i) <= s.len(),
        scan_to(s, stops, i) < s.len() ==> stops.contains(s[scan_to(s, stops, i)]),
        forall|j: int| i <= j < scan_to(s, stops, i) ==> !stops.contains(#[trigger] s[j]),
    decreases s.len() - i,
{
    if i < s.len() && !stops.contains(s[i]) {
        lemma_scan_to(s, stops, i + 1);
    }
}

/// A scan of the text behind position `i` finds the same place.
pub proof fn lemma_scan_skip(s: Seq<char>, stops: Seq<char>, i: int, k: int)
    requires
        0 <= i,
        0 <= k,
        i + k <= s.len(),
    ensures
        scan_to(s.skip(i), stops, k) == scan_to(s, stops, i + k) - i,
    decreases s.len() - i - k,
{
    if i + k < s.len() && !stops.contains(s[i + k]) {
        lemma_scan_skip(s, stops, i, k + 1);
    }
}

/// A scan of `s[from..to]` finds the place that a scan of `s` finds, if that is before `to`.
pub proof fn lemma_scan_within(s: Seq<char>, stops: Seq<char>, from: int, to: int)
    requires
        0 <= from <= to <= s.len(),
    ensures
        scan_to(s.subrange(from, to), stops, 0) == (if scan_to(s, stops, from) < to {
            scan_to(s, stops, from)
        } else {
            to
        }) - from,
{
    lemma_scan_within_at(s, stops, from, to, 0);
}

proof fn lemma_scan_within_at(s: Seq<char>, stops: Seq<char>, from: int, to: int, k: int)
    requires
        0 <= from,
        0 <= k,
        from + k <= to <= s.len(),
    ensures
        scan_to(s.subrange(from, to), stops, k) == (if scan_to(s, stops, from + k) < to {
            scan_to(s, stops, from + k)
        } else {
            to
        }) - from,
    decreases to - from - k,
{
    if from + k < to {
        if !stops.contains(s[from + k]) {
            lemma_scan_within_at(s, stops, from, to, k + 1);
        }
    } else {
        lemma_scan_to(s, stops, from + k);
    }
}

/// A scan stops at the first character of `stops`.
pub proof fn lemma_scan_stops(s: Seq<char>, stops: Seq<char>, from: int, k: int)
    requires
        0 <= from <= k < s.len(),
        forall|i: int| from <= i < k ==> !stops.contains(#[trigger] s[i]),
        stops.contains(s[k]),
    ensures
        scan_to(s, stops, from) == k,
    decreases k - from,
{
    if from < k {
        assert(!stops.contains(s[from]));
        lemma_scan_stops(s, stops, from + 1, k);
    }
}

/// Whether `c` is one of `stops`.
pub fn one_of(stops: &[char], c: char) -> (r: bool)
    ensures
        r == stops@.contains(c),
{
    let mut i: usize = 0;
    while i < stops.len()
        invariant
            i <= stops@.len(),
            forall|j: int| 0 <= j < i ==> stops@[j] != c,
        decreases stops@.len() - i,
    {
        if stops[i] == c {
            return true;
        }
        i += 1;
    }
    false
}

/// The first position, from `from` on, of a character of `stops`, or the length of `v`.
pub fn scan(v: &[char], stops: &[char], from: usize) -> (r: usize)
    requires
        from <= v@.len(),
    ensures
        r == scan_to(v@, stops@, from as int),
        from <= r <= v@.len(),
{
    let mut i: usize = from;
    while i < v.len()
        invariant
            from <= i <= v@.len(),
            scan_to(v@, stops@, from as int) == scan_to(v@, stops@, i as int),
        decreases v@.len() - i,
    {
        if one_of(stops, v[i]) {
            return i;
        }
        i += 1;
    }
    i
}

// ---------------------------------------------------------------------------
// Trimming

/// The text without the white space at its start.
pub open spec fn trim_start(s: Seq<char>) -> Seq<char>
    decreases s.len(),
{
    if s.len() > 0 && is_space(s.first()) {
        trim_start(s.drop_first())
    } else {
        s
    }
}

/// The text without the white space at its end.
pub open spec fn trim_end(s: Seq<char>) -> Seq<char>
    decreases s.len(),
{
    if s.len() > 0 && is_space(s.last()) {
        trim_end(s.drop_last())
    } else {
        s
    }
}

/// `str::trim`: the text without the white space at both ends.
pub open spec fn trim(s: Seq<char>) -> Seq<char> {
    trim_end(trim_start(s))
}

/// A trimmed text neither starts nor ends with white space.
pub proof fn lemma_trim_ends(s: Seq<char>)
    ensures
        trim(s).len() > 0 ==> !is_space(trim(s)[0]) && !is_space(trim(s).last()),
{
    lemma_trim_start(s);
    lemma_trim_end(trim_start(s));
}

proof fn lemma_trim_start(s: Seq<char>)
    ensures
        trim_start(s).len() > 0 ==> !is_space(trim_start(s)[0]),
    decreases s.len(),
{
    if s.len() > 0 && is_space(s.first()) {
        lemma_trim_start(s.drop_first());
    }
}

proof fn lemma_trim_end(s: Seq<char>)
    ensures
        trim_end(s).len() <= s.len(),
        trim_end(s) == s.take(trim_end(s).len() as int),
        trim_end(s).len() > 0 ==> !is_space(trim_end(s).last()),
    decreases s.len(),
{
    if s.len() > 0 && is_space(s.last()) {
        lemma_trim_end(s.drop_last());
        assert(s.drop_last().take(trim_end(s).len() as int) =~= s.take(trim_end(s).len() as int));
    } else {
        assert(s.take(s.len() as int) =~= s);
    }
}

/// White space in front of a text is trimmed.
pub proof fn lemma_trim_run(run: Seq<char>, rest: Seq<char>)
    requires
        forall|i: int| 0 <= i < run.len() ==> is_space(#[trigger] run[i]),
    ensures
        trim_start(run + rest) == trim_start(rest),
    decreases run.len(),
{
    let s = run + rest;
    if run.len() == 0 {
        assert(s =~= rest);
    } else {
        assert(s.first() == run[0]);
        assert(s.drop_first() =~= run.drop_first() + rest);
        lemma_trim_run(run.drop_first(), rest);
    }
}

/// A text without white space at its ends is its own trimmed text.
pub proof fn lemma_trim_nothing(s: Seq<char>)
    requires
        s.len() > 0 ==> !is_space(s[0]) && !is_space(s.last()),
    ensures
        trim(s) == s,
{
}

/// White space at both ends is cut off, and nothing else: what stands between it is kept whole.
pub proof fn law_trim_cuts_white_space_only(front: Seq<char>, s: Seq<char>, back: Seq<char>)
    requires
        forall|i: int| 0 <= i < front.len() ==> is_space(#[trigger] front[i]),
        forall|i: int| 0 <= i < back.len() ==> is_space(#[trigger] back[i]),
        s.len() > 0 ==> !is_space(s[0]) && !is_space(s.last()),
    ensures
        trim(front + s + back) == s,
{
    assert(front + s + back =~= front + (s + back));
    lemma_trim_run(front, s + back);
    if s.len() > 0 {
        assert((s + back)[0] == s[0]);
        assert(trim_start(s + back) == s + back);
        lemma_trim_back(s, back);
    } else {
        assert(s + back =~= back + seq![]);
        lemma_trim_run(back, seq![]);
        assert(trim_start(seq![]) == Seq::<char>::empty());
        assert(trim(front + s + back) =~= s);
    }
}

proof fn lemma_trim_back(s: Seq<char>, back: Seq<char>)
    requires
        forall|i: int| 0 <= i < back.len() ==> is_space(#[trigger] back[i]),
        s.len() > 0,
        !is_space(s.last()),
    ensures
        trim_end(s + back) == s,
    decreases back.len(),
{
    if back.len() == 0 {
        assert(s + back =~= s);
    } else {
        assert((s + back).last() == back.last());
        assert((s + back).drop_last() =~= s + back.drop_last());
        lemma_trim_back(s, back.drop_last());
    }
}

/// The blank, the tab and the ends of lines are white space, and so are the wide blanks of Unicode;
/// no printed ASCII character is, and nothing behind the ideographic blank.
pub proof fn law_white_space()
    ensures
        is_space(' '),
        is_space('\t'),
        is_space('\r'),
        is_space('\n'),
        is_space('\u{85}'),
        is_space('\u{a0}'),
        is_space('\u{1680}'),
        is_space('\u{2028}'),
        is_space('\u{2029}'),
        is_space('\u{202f}'),
        is_space('\u{205f}'),
        is_space('\u{3000}'),
        forall|c: char| 0x2000 <= c as u32 <= 0x200a ==> #[trigger] is_space(c),
        forall|c: char| 0x21 <= c as u32 <= 0x7e ==> !#[trigger] is_space(c),
        forall|c: char| 0x3000 < c as u32 ==> !#[trigger] is_space(c),
{
}

/// Capital letters change to small ones, letter for letter, and nothing else changes.
pub proof fn law_lower_changes_capitals_only(s: Seq<char>, i: int)
    requires
        0 <= i < s.len(),
    ensures
        lower(s).len() == s.len(),
        'A' <= s[i] <= 'Z' ==> lower(s)[i] as u32 - 'a' as u32 == s[i] as u32 - 'A' as u32,
        !('A' <= s[i] <= 'Z') ==> lower(s)[i] == s[i],
{
}

/// What stands between two texts stands in the whole.
pub proof fn law_part_is_contained(front: Seq<char>, p: Seq<char>, back: Seq<char>)
    ensures
        contains(front + p + back, p),
{
    let s = front + p + back;
    assert(s.subrange(front.len() as int, front.len() + p.len() as int) =~= p);
    assert(occurs_at(s, p, front.len() as int));
}

/// The text without the white space at its start.
pub fn trimmed_start(s: &str) -> (r: String)
    ensures
        r@ == trim_start(s@),
{
    let v: Vec<char> = chars_of(s);
    let mut a: usize = 0;
    assert(v@.skip(0) =~= v@);
    while a < v.len() && space(v[a])
        invariant
            a <= v@.len(),
            trim_start(v@) == trim_start(v@.skip(a as int)),
        decreases v@.len() - a,
    {
        assert(v@.skip(a as int).drop_first() =~= v@.skip(a + 1));
        a += 1;
    }
    let r: String = text_of(v.as_slice(), a, v.len());
    assert(r@ =~= v@.skip(a as int));
    r
}

/// The text without the white space at both ends.
pub fn trimmed(s: &str) -> (r: String)
    ensures
        r@ == trim(s@),
{
    let v: Vec<char> = chars_of(s);
    let mut a: usize = 0;
    assert(v@.skip(0) =~= v@);
    while a < v.len() && space(v[a])
        invariant
            a <= v@.len(),
            trim_start(v@) == trim_start(v@.skip(a as int)),
        decreases v@.len() - a,
    {
        assert(v@.skip(a as int).drop_first() =~= v@.skip(a + 1));
        a += 1;
    }
    assert(trim_start(v@) == v@.skip(a as int));
    let mut b: usize = v.len();
    assert(v@.subrange(a as int, b as int) =~= v@.skip(a as int));
    while b > a && space(v[b - 1])
        invariant
            a <= b <= v@.len(),
            trim(v@) == trim_end(v@.subrange(a as int, b as int)),
        decreases b - a,
    {
        assert(v@.subrange(a as int, b as int).drop_last() =~= v@.subrange(a as int, b - 1));
        b -= 1;
    }
    text_of(v.as_slice(), a, b)
}

/// The text without the characters of `set` at its start.
pub open spec fn strip_start(s: Seq<char>, set: Seq<char>) -> Seq<char>
    decreases s.len(),
{
    if s.len() > 0 && set.contains(s.first()) {
        strip_start(s.drop_first(), set)
    } else {
        s
    }
}

/// The text without the characters of `set` at its end.
pub open spec fn strip_end(s: Seq<char>, set: Seq<char>) -> Seq<char>
    decreases s.len(),
{
    if s.len() > 0 && set.contains(s.last()) {
        strip_end(s.drop_last(), set)
    } else {
        s
    }
}

/// The text without the characters of `set` at both ends.
pub open spec fn strip(s: Seq<char>, set: Seq<char>) -> Seq<char> {
    strip_end(strip_start(s, set), set)
}

/// `s` without the characters of `set` at its end.
pub fn stripped_end(s: &str, set: &[char]) -> (r: String)
    ensures
        r@ == strip_end(s@, set@),
{
    let v: Vec<char> = chars_of(s);
    let mut b: usize = v.len();
    assert(v@.take(b as int) =~= v@);
    while b > 0 && one_of(set, v[b - 1])
        invariant
            v@ == s@,
            b <= v@.len(),
            strip_end(s@, set@) == strip_end(v@.take(b as int), set@),
        decreases b,
    {
        assert(v@.take(b as int).drop_last() =~= v@.take(b - 1));
        b -= 1;
    }
    text_of(v.as_slice(), 0, b)
}

/// `s` without the characters of `set` at both ends.
pub fn stripped(s: &str, set: &[char]) -> (r: String)
    ensures
        r@ == strip(s@, set@),
{
    let v: Vec<char> = chars_of(s);
    let mut a: usize = 0;
    assert(v@.skip(0) =~= v@);
    while a < v.len() && one_of(set, v[a])
        invariant
            v@ == s@,
            a <= v@.len(),
            strip_start(s@, set@) == strip_start(v@.skip(a as int), set@),
        decreases v@.len() - a,
    {
        assert(v@.skip(a as int).drop_first() =~= v@.skip(a + 1));
        a += 1;
    }
    let rest: String = text_of(v.as_slice(), a, v.len());
    assert(rest@ =~= v@.skip(a as int));
    stripped_end(rest.as_str(), set)
}

}
