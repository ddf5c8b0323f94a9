//! The part of the UCI configuration format that the service reads: `config`, `option` and `list`
//! lines, values with or without quotes, and comment lines that start with `#`.

use vstd::prelude::*;

use crate::split;
use crate::table;
use crate::text;

verus! {

#[derive(Debug, Clone)]
pub struct Section {
    pub stype: String,
    pub name: Option<String>,
    pub options: Vec<(String, String)>,
}

/// A section as plain values.
#[verifier::ext_equal]
pub struct SectionModel {
    pub stype: Seq<char>,
    pub name: Option<Seq<char>>,
    pub options: Seq<(Seq<char>, Seq<char>)>,
}

impl View for Section {
    type V = SectionModel;

    open spec fn view(&self) -> SectionModel {
        SectionModel {
            stype: self.stype@,
            name: text::opt_text(self.name),
            options: text::pairs(self.options@),
        }
    }
}

impl SectionModel {
    /// The value of an option. Of an option that is written more than once, and so of a list, the
    /// last value counts.
    pub open spec fn get(self, key: Seq<char>) -> Option<Seq<char>> {
        table::last_value(self.options, key)
    }
}

/// An optional text, seen as its characters.
pub open spec fn opt_str(v: Option<&str>) -> Option<Seq<char>> {
    match v {
        Some(s) => Some(s@),
        None => None,
    }
}

impl Section {
    /// The value of an option; the last one where there are several.
    pub fn get(&self, key: &str) -> (r: Option<&str>)
        ensures
            opt_str(r) == self@.get(key@),
    {
        match table::last_index(&self.options, key) {
            Some(i) => Some(self.options[i].1.as_str()),
            None => None,
        }
    }
}

/// The value of an option of a section.
pub fn get<'a>(sec: &'a Section, key: &str) -> (r: Option<&'a str>)
    ensures
        opt_str(r) == sec@.get(key@),
{
    sec.get(key)
}

#[derive(Debug, Clone)]
pub struct Config {
    pub sections: Vec<Section>,
}

/// Sections, seen as plain values.
pub open spec fn models(v: Seq<Section>) -> Seq<SectionModel> {
    v.map_values(|s: Section| s@)
}

impl View for Config {
    type V = Seq<SectionModel>;

    open spec fn view(&self) -> Seq<SectionModel> {
        models(self.sections@)
    }
}

impl Default for Config {
    fn default() -> (r: Config)
        ensures
            r@ == Seq::<SectionModel>::empty(),
    {
        let r: Config = Config { sections: Vec::new() };
        assert(r@ =~= Seq::<SectionModel>::empty());
        r
    }
}

// ---------------------------------------------------------------------------
// Lines

/// What a line says.
pub enum Line {
    /// A section starts.
    Opens { stype: Seq<char>, name: Option<Seq<char>> },
    /// An option of the section that started last.
    Sets { key: Seq<char>, value: Seq<char> },
    /// Nothing: an empty line, a comment, or a word that is not known.
    Silent,
}

/// The two kinds of quotes.
pub open spec fn quotes() -> Seq<char> {
    seq!['\'', '"']
}

/// A value without white space around it, and without the pair of equal quotes that encloses it.
pub open spec fn unquoted(v: Seq<char>) -> Seq<char> {
    let t = text::trim(v);
    if t.len() >= 2 && ((t.first() == '\'' && t.last() == '\'') || (t.first() == '"' && t.last()
        == '"')) {
        t.subrange(1, t.len() - 1)
    } else {
        t
    }
}

/// What follows the first word of a text and the white space behind it.
pub open spec fn after_word(s: Seq<char>) -> Seq<char> {
    text::trim_start(s.skip(split::scan_space(s, 0)))
}

/// The word at a position, without quotes around it.
pub open spec fn bare_word(words: Seq<Seq<char>>, i: int) -> Option<Seq<char>> {
    if 0 <= i < words.len() {
        Some(text::strip(words[i], quotes()))
    } else {
        None
    }
}

/// The text, or nothing.
pub open spec fn or_nothing(v: Option<Seq<char>>) -> Seq<char> {
    match v {
        Some(s) => s,
        None => seq![],
    }
}

/// What a line of the file says.
pub open spec fn line_of(raw: Seq<char>) -> Line {
    let line = text::trim(raw);
    let words = split::words(line);
    if line.len() == 0 || line[0] == '#' || words.len() == 0 {
        Line::Silent
    } else if words[0] == "config"@ {
        Line::Opens { stype: or_nothing(bare_word(words, 1)), name: bare_word(words, 2) }
    } else if words[0] == "option"@ || words[0] == "list"@ {
        Line::Sets { key: or_nothing(bare_word(words, 1)), value: unquoted(after_word(after_word(line))) }
    } else {
        Line::Silent
    }
}

/// The sections that the lines describe. An option goes to the section that started last; before
/// the first section it is dropped.
pub open spec fn sections_from(lines: Seq<Seq<char>>) -> Seq<SectionModel>
    decreases lines.len(),
{
    if lines.len() == 0 {
        seq![]
    } else {
        let before = sections_from(lines.drop_last());
        match line_of(lines.last()) {
            Line::Opens { stype, name } => before.push(
                SectionModel { stype, name, options: seq![] },
            ),
            Line::Sets { key, value } => if before.len() > 0 {
                let s = before.last();
                before.drop_last().push(
                    SectionModel { options: s.options.push((key, value)), ..s },
                )
            } else {
                before
            },
            Line::Silent => before,
        }
    }
}

/// The sections that a configuration text describes.
pub open spec fn parsed(source: Seq<char>) -> Seq<SectionModel> {
    sections_from(split::split(source, "\n"@))
}

/// A value without white space and quotes around it.
pub fn unquote(v: &str) -> (r: String)
    ensures
        r@ == unquoted(v@),
{
    let t: String = text::trimmed(v);
    let c: Vec<char> = text::chars_of(t.as_str());
    let n: usize = c.len();
    if n >= 2 && ((c[0] == '\'' && c[n - 1] == '\'') || (c[0] == '"' && c[n - 1] == '"')) {
        text::text_of(c.as_slice(), 1, n - 1)
    } else {
        t
    }
}

fn behind_word(s: &str) -> (r: String)
    ensures
        r@ == after_word(s@),
{
    let v: Vec<char> = text::chars_of(s);
    let i: usize = split::scan_to_space(v.as_slice(), 0);
    let rest: String = text::text_of(v.as_slice(), i, v.len());
    assert(rest@ =~= s@.skip(i as int));
    text::trimmed_start(rest.as_str())
}

fn bare(words: &Vec<String>, i: usize) -> (r: Option<String>)
    ensures
        text::opt_text(r) == bare_word(text::texts(words@), i as int),
{
    if i < words.len() {
        let set: [char; 2] = ['\'', '"'];
        assert(set@ =~= quotes());
        Some(text::stripped(words[i].as_str(), set.as_slice()))
    } else {
        None
    }
}

enum Statement {
    Opens(String, Option<String>),
    Sets(String, String),
    Silent,
}

spec fn says(s: Statement, l: Line) -> bool {
    match l {
        Line::Opens { stype, name } => s matches Statement::Opens(t, n) && t@ == stype
            && text::opt_text(n) == name,
        Line::Sets { key, value } => s matches Statement::Sets(k, v) && k@ == key && v@ == value,
        Line::Silent => s is Silent,
    }
}

fn read_line(raw: &str) -> (r: Statement)
    ensures
        says(r, line_of(raw@)),
{
    let line: String = text::trimmed(raw);
    if line.as_str().is_empty() || line.as_str().get_char(0) == '#' {
        return Statement::Silent;
    }
    let words: Vec<String> = split::words_of(line.as_str());
    let ghost all = split::words(line@);
    if words.len() == 0 {
        assert(all.len() == 0);
        return Statement::Silent;
    }
    assert(all[0] == words@[0]@);
    if text::same(words[0].as_str(), "config") {
        let stype: String = match bare(&words, 1) {
            Some(s) => s,
            None => String::new(),
        };
        return Statement::Opens(stype, bare(&words, 2));
    }
    if text::same(words[0].as_str(), "option") || text::same(words[0].as_str(), "list") {
        let key: String = match bare(&words, 1) {
            Some(s) => s,
            None => String::new(),
        };
        let tail: String = behind_word(line.as_str());
        let rest: String = behind_word(tail.as_str());
        return Statement::Sets(key, unquote(rest.as_str()));
    }
    Statement::Silent
}

impl Config {
    /// The sections that a configuration text describes.
    pub fn parse(text: &str) -> (r: Config)
        ensures
            r@ == parsed(text@),
    {
        proof {
            reveal_strlit("\n");
        }
        let lines: Vec<String> = split::pieces(text, "\n");
        let ghost all = split::split(text@, "\n"@);
        let mut sections: Vec<Section> = Vec::new();
        let mut i: usize = 0;
        assert(models(sections@) =~= sections_from(all.take(0)));
        while i < lines.len()
            invariant
                crate::text::texts(lines@) == all,
                i <= lines@.len(),
                models(sections@) == sections_from(all.take(i as int)),
            decreases lines@.len() - i,
        {
            let ghost done = sections@;
            proof {
                assert(all[i as int] == lines@[i as int]@);
                assert(all.take(i + 1).drop_last() =~= all.take(i as int));
                assert(all.take(i + 1).last() == all[i as int]);
            }
            match read_line(lines[i].as_str()) {
                Statement::Opens(stype, name) => {
                    let sec: Section = Section { stype, name, options: Vec::new() };
                    let ghost model = sec@;
                    sections.push(sec);
                    proof {
                        assert(model.options =~= seq![]);
                        assert(models(sections@) =~= models(done).push(model));
                    }
                },
                Statement::Sets(key, value) => {
                    let ghost pair = (key@, value@);
                    if let Some(mut sec) = sections.pop() {
                        let ghost old_sec = sec;
                        sec.options.push((key, value));
                        let ghost new_sec = sec;
                        sections.push(sec);
                        proof {
                            assert(new_sec@.options =~= old_sec@.options.push(pair));
                            assert(models(done).last() == old_sec@);
                            assert(models(sections@) =~= models(done).drop_last().push(new_sec@));
                        }
                    }
                },
                Statement::Silent => {},
            }
            i += 1;
        }
        assert(all.take(i as int) =~= all);
        Config { sections }
    }

    /// The first section of a type.
    pub fn first(&self, stype: &str) -> (r: Option<&Section>)
        ensures
            match r {
                Some(s) => first_of(self@, stype@) == Some(s@),
                None => first_of(self@, stype@) is None,
            },
    {
        let mut i: usize = 0;
        assert(self@.skip(0) =~= self@);
        while i < self.sections.len()
            invariant
                i <= self.sections@.len(),
                first_of(self@, stype@) == first_of(self@.skip(i as int), stype@),
            decreases self.sections@.len() - i,
        {
            assert(self@.skip(i as int).first() == self.sections@[i as int]@);
            if text::same(self.sections[i].stype.as_str(), stype) {
                return Some(&self.sections[i]);
            }
            assert(self@.skip(i as int).drop_first() =~= self@.skip(i + 1));
            i += 1;
        }
        None
    }

    /// All sections of a type, in order.
    pub fn sections_of(&self, stype: &str) -> (r: Vec<&Section>)
        ensures
            r@.map_values(|s: &Section| s@) == all_of(self@, stype@),
    {
        let mut out: Vec<&Section> = Vec::new();
        let mut i: usize = 0;
        assert(out@.map_values(|s: &Section| s@) =~= all_of(self@.take(0), stype@));
        while i < self.sections.len()
            invariant
                i <= self.sections@.len(),
                out@.map_values(|s: &Section| s@) == all_of(self@.take(i as int), stype@),
            decreases self.sections@.len() - i,
        {
            let ghost done = out@.map_values(|s: &Section| s@);
            proof {
                assert(self@.take(i + 1).last() == self.sections@[i as int]@);
                assert(self@.take(i + 1).drop_last() =~= self@.take(i as int));
            }
            if text::same(self.sections[i].stype.as_str(), stype) {
                out.push(&self.sections[i]);
                assert(out@.map_values(|s: &Section| s@) =~= done.push(self.sections@[i as int]@));
            }
            i += 1;
        }
        assert(self@.take(i as int) =~= self@);
        out
    }
}

/// The first section of a type.
pub open spec fn first_of(c: Seq<SectionModel>, stype: Seq<char>) -> Option<SectionModel>
    decreases c.len(),
{
    if c.len() == 0 {
        None
    } else if c.first().stype == stype {
        Some(c.first())
    } else {
        first_of(c.drop_first(), stype)
    }
}

/// All sections of a type, in order.
pub open spec fn all_of(c: Seq<SectionModel>, stype: Seq<char>) -> Seq<SectionModel>
    decreases c.len(),
{
    if c.len() == 0 {
        seq![]
    } else if c.last().stype == stype {
        all_of(c.drop_last(), stype).push(c.last())
    } else {
        all_of(c.drop_last(), stype)
    }
}

// ---------------------------------------------------------------------------
// Laws

/// Of an option that is written more than once the last value counts, and other options are not
/// touched.
pub proof fn law_last_value_counts(
    sec: SectionModel,
    key: Seq<char>,
    value: Seq<char>,
    other: Seq<char>,
)
    ensures
        ({
            let after = SectionModel { options: sec.options.push((key, value)), ..sec };
            &&& after.get(key) == Some(value)
            &&& other != key ==> after.get(other) == sec.get(other)
        }),
{
    assert(sec.options.push((key, value)).drop_last() =~= sec.options);
}

/// A comment says nothing.
pub proof fn law_comments_are_silent(raw: Seq<char>)
    requires
        text::trim(raw).len() > 0,
        text::trim(raw)[0] == '#',
    ensures
        line_of(raw) is Silent,
{
}

/// A line that says nothing changes nothing, wherever it stands.
pub proof fn law_silent_lines_change_nothing(
    before: Seq<Seq<char>>,
    line: Seq<char>,
    after: Seq<Seq<char>>,
)
    requires
        line_of(line) is Silent,
    ensures
        sections_from(before + seq![line] + after) == sections_from(before + after),
    decreases after.len(),
{
    let with = before + seq![line] + after;
    let without = before + after;
    if after.len() == 0 {
        assert(with.drop_last() =~= before);
        assert(with.last() == line);
        assert(without =~= before);
    } else {
        law_silent_lines_change_nothing(before, line, after.drop_last());
        assert(with.drop_last() =~= before + seq![line] + after.drop_last());
        assert(without.drop_last() =~= before + after.drop_last());
        assert(with.last() == after.last());
        assert(without.last() == after.last());
    }
}

/// A word that needs no quotes: not empty, and without white space and quotes.
pub open spec fn is_bare(s: Seq<char>) -> bool {
    s.len() > 0 && forall|i: int|
        0 <= i < s.len() ==> !text::is_space(#[trigger] s[i]) && s[i] != '\'' && s[i] != '"'
}

proof fn lemma_strip_bare(s: Seq<char>)
    requires
        is_bare(s),
    ensures
        text::strip(s, quotes()) == s,
{
    assert(!quotes().contains(s[0]));
    assert(!quotes().contains(s.last()));
}

proof fn lemma_strip_quoted(s: Seq<char>)
    requires
        is_bare(s),
    ensures
        text::strip(seq!['\''] + s + seq!['\''], quotes()) == s,
{
    let q = seq!['\''] + s + seq!['\''];
    assert(quotes()[0] == '\'');
    assert(quotes().contains('\''));
    assert(!quotes().contains(s[0]));
    assert(!quotes().contains(s.last()));
    let t = s + seq!['\''];
    assert(q.drop_first() =~= t);
    assert(t[0] == s[0]);
    assert(text::strip_start(q, quotes()) == text::strip_start(t, quotes()));
    assert(text::strip_start(t, quotes()) == t);
    assert(t.drop_last() =~= s);
    assert(text::strip_end(t, quotes()) == text::strip_end(s, quotes()));
}

/// A line `config type 'name'` opens a section of that type and name.
pub proof fn law_section_line_reads_back(stype: Seq<char>, name: Seq<char>)
    requires
        is_bare(stype),
        is_bare(name),
    ensures
        line_of(section_line(stype, name)) == (Line::Opens {
            stype,
            name: Some(name),
        }),
{
    let quoted = seq!['\''] + name + seq!['\''];
    let raw = section_line(stype, name);
    reveal_strlit("config ");
    reveal_strlit("config");
    reveal_strlit(" '");
    reveal_strlit("'");
    reveal_strlit("option");
    reveal_strlit("list");
    let tail = seq![' '] + quoted;
    let rest = seq![' '] + (stype + tail);
    assert(raw =~= "config"@ + rest);
    assert(raw[0] == 'c');
    assert(raw.last() == '\'');
    text::lemma_trim_nothing(raw);
    split::lemma_words_front("config"@, rest);
    split::lemma_words_space(' ', stype + tail);
    split::lemma_words_front(stype, tail);
    split::lemma_words_space(' ', quoted);
    assert forall|i: int| 0 <= i < quoted.len() implies !text::is_space(#[trigger] quoted[i]) by {
        if 0 < i < quoted.len() - 1 {
            assert(quoted[i] == name[i - 1]);
        }
    }
    assert(quoted + seq![] =~= quoted);
    split::lemma_words_front(quoted, seq![]);
    assert(split::words(seq![]) =~= seq![]);
    assert(split::words(raw) =~= seq!["config"@, stype, quoted]);
    lemma_strip_bare(stype);
    lemma_strip_quoted(name);
}

/// The text is white space, and not empty.
pub open spec fn is_gap(s: Seq<char>) -> bool {
    s.len() > 0 && forall|i: int| 0 <= i < s.len() ==> text::is_space(#[trigger] s[i])
}

proof fn lemma_words_gap(gap: Seq<char>, rest: Seq<char>)
    requires
        forall|i: int| 0 <= i < gap.len() ==> text::is_space(#[trigger] gap[i]),
    ensures
        split::words(gap + rest) == split::words(rest),
{
    text::lemma_trim_run(gap, rest);
}

proof fn lemma_bare_words()
    ensures
        is_bare("option"@),
        is_bare("list"@),
        is_bare("config"@),
{
    reveal_strlit("option");
    reveal_strlit("list");
    reveal_strlit("config");
    text::law_white_space();
    assert("option"@ =~= seq!['o', 'p', 't', 'i', 'o', 'n']);
    assert("list"@ =~= seq!['l', 'i', 's', 't']);
    assert("config"@ =~= seq!['c', 'o', 'n', 'f', 'i', 'g']);
}

/// The words of an option line, and what follows its key.
proof fn lemma_option_parts(
    word: Seq<char>,
    gap: Seq<char>,
    key: Seq<char>,
    other: Seq<char>,
    rest: Seq<char>,
)
    requires
        is_bare(word),
        is_gap(gap),
        is_bare(key),
        is_gap(other),
        rest.len() > 0,
        !text::is_space(rest[0]),
    ensures
        ({
            let line = word + gap + key + other + rest;
            &&& split::words(line).len() >= 2
            &&& split::words(line)[0] == word
            &&& split::words(line)[1] == key
            &&& after_word(after_word(line)) == rest
        }),
{
    let w = word.len() as int;
    let tail = other + rest;
    let middle = key + tail;
    let line = word + gap + key + other + rest;
    assert(line =~= word + (gap + middle));
    assert((gap + middle)[0] == gap[0]);
    assert(tail[0] == other[0]);
    split::lemma_words_front(word, gap + middle);
    lemma_words_gap(gap, middle);
    split::lemma_words_front(key, tail);
    assert(split::words(line) =~= seq![word, key] + split::words(tail));
    assert forall|i: int| 0 <= i < w implies !text::is_space(#[trigger] line[i]) by {
        assert(line[i] == word[i]);
    }
    assert(line[w] == gap[0]);
    split::lemma_scan_space_stops(line, 0, w);
    assert(line.skip(w) =~= gap + middle);
    text::lemma_trim_run(gap, middle);
    assert(middle[0] == key[0]);
    assert(after_word(line) == middle);
    let n = key.len() as int;
    assert forall|i: int| 0 <= i < n implies !text::is_space(#[trigger] middle[i]) by {
        assert(middle[i] == key[i]);
    }
    assert(middle[n] == other[0]);
    split::lemma_scan_space_stops(middle, 0, n);
    assert(middle.skip(n) =~= tail);
    text::lemma_trim_run(other, rest);
}

/// A line of `option`, a key and a value in quotes sets the option to that value, whatever the
/// value holds and whatever white space stands between and around them.
pub proof fn law_spaced_option_line_reads_back(
    lead: Seq<char>,
    gap: Seq<char>,
    key: Seq<char>,
    other: Seq<char>,
    value: Seq<char>,
)
    requires
        lead.len() > 0 ==> is_gap(lead),
        is_gap(gap),
        is_bare(key),
        is_gap(other),
    ensures
        line_of(lead + "option"@ + gap + key + other + "'"@ + value + "'"@) == (Line::Sets {
            key,
            value,
        }),
{
    let quoted = seq!['\''] + value + seq!['\''];
    let line = "option"@ + gap + key + other + quoted;
    let raw = lead + "option"@ + gap + key + other + "'"@ + value + "'"@;
    reveal_strlit("option");
    reveal_strlit("config");
    reveal_strlit("'");
    assert(raw =~= lead + line);
    lemma_bare_words();
    lemma_option_parts("option"@, gap, key, other, quoted);
    lemma_strip_bare(key);
    assert(line[0] == 'o');
    assert(line.last() == '\'');
    text::lemma_trim_run(lead, line);
    text::lemma_trim_nothing(line);
    assert("config"@[0] != "option"@[0]);
    text::lemma_trim_nothing(quoted);
    assert(quoted.subrange(1, quoted.len() - 1) =~= value);
}

/// A line `option key 'value'` sets the option to that value, whatever the value holds.
pub proof fn law_option_line_reads_back(key: Seq<char>, value: Seq<char>)
    requires
        is_bare(key),
    ensures
        line_of(option_line(key, value)) == (Line::Sets { key, value }),
{
    reveal_strlit("\toption ");
    reveal_strlit("option");
    reveal_strlit(" '");
    reveal_strlit("'");
    let lead = seq!['\t'];
    let gap = seq![' '];
    assert(option_line(key, value) =~= lead + "option"@ + gap + key + gap + "'"@ + value + "'"@);
    law_spaced_option_line_reads_back(lead, gap, key, gap, value);
}

/// The value of an option line needs no quotes where it has no white space around it and does not
/// start with a quote.
pub proof fn law_bare_value_reads_back(
    lead: Seq<char>,
    gap: Seq<char>,
    key: Seq<char>,
    other: Seq<char>,
    value: Seq<char>,
)
    requires
        lead.len() > 0 ==> is_gap(lead),
        is_gap(gap),
        is_bare(key),
        is_gap(other),
        value.len() > 0,
        text::trim(value) == value,
        value[0] != '\'',
        value[0] != '"',
    ensures
        line_of(lead + "option"@ + gap + key + other + value) == (Line::Sets { key, value }),
{
    let line = "option"@ + gap + key + other + value;
    let raw = lead + "option"@ + gap + key + other + value;
    reveal_strlit("option");
    reveal_strlit("config");
    assert(raw =~= lead + line);
    text::lemma_trim_ends(value);
    lemma_bare_words();
    lemma_option_parts("option"@, gap, key, other, value);
    lemma_strip_bare(key);
    assert(line[0] == 'o');
    assert(line.last() == value.last());
    text::lemma_trim_run(lead, line);
    text::lemma_trim_nothing(line);
    assert("config"@[0] != "option"@[0]);
}

/// The line that opens a section.
pub open spec fn section_line(stype: Seq<char>, name: Seq<char>) -> Seq<char> {
    "config "@ + stype + " '"@ + name + "'"@
}

/// The line that sets an option.
pub open spec fn option_line(key: Seq<char>, value: Seq<char>) -> Seq<char> {
    "\toption "@ + key + " '"@ + value + "'"@
}

/// The lines of a section that has a name.
pub open spec fn section_lines(s: SectionModel) -> Seq<Seq<char>>
    decreases s.options.len(),
{
    if s.options.len() == 0 {
        seq![section_line(s.stype, s.name->0)]
    } else {
        section_lines(SectionModel { options: s.options.drop_last(), ..s }).push(
            option_line(s.options.last().0, s.options.last().1),
        )
    }
}

/// The lines of a configuration.
pub open spec fn file_lines(c: Seq<SectionModel>) -> Seq<Seq<char>>
    decreases c.len(),
{
    if c.len() == 0 {
        seq![]
    } else {
        file_lines(c.drop_last()) + section_lines(c.last())
    }
}

/// The section can be written: it has a name, type and name and keys need no quotes, and no value
/// holds a line feed.
pub open spec fn is_writable(s: SectionModel) -> bool {
    &&& is_bare(s.stype)
    &&& s.name matches Some(n) && is_bare(n)
    &&& forall|i: int|
        0 <= i < s.options.len() ==> is_bare((#[trigger] s.options[i]).0)
            && !s.options[i].1.contains('\n')
}

proof fn lemma_section_lines(lines: Seq<Seq<char>>, s: SectionModel)
    requires
        is_writable(s),
    ensures
        sections_from(lines + section_lines(s)) == sections_from(lines).push(s),
        section_lines(s).len() > 0,
        forall|i: int|
            0 <= i < section_lines(s).len() ==> !(#[trigger] section_lines(s)[i]).contains('\n'),
    decreases s.options.len(),
{
    let all = lines + section_lines(s);
    reveal_strlit("config ");
    reveal_strlit("\toption ");
    reveal_strlit(" '");
    reveal_strlit("'");
    assert(text::is_space('\n'));
    if s.options.len() == 0 {
        assert(all.drop_last() =~= lines);
        assert(all.last() == section_line(s.stype, s.name->0));
        law_section_line_reads_back(s.stype, s.name->0);
        assert(s.options =~= seq![]);
        assert(!section_line(s.stype, s.name->0).contains('\n'));
    } else {
        let t = SectionModel { options: s.options.drop_last(), ..s };
        let last = s.options.last();
        let before = sections_from(lines);
        assert forall|i: int| 0 <= i < t.options.len() implies is_bare((#[trigger] t.options[i]).0)
            && !t.options[i].1.contains('\n') by {
            assert(t.options[i] == s.options[i]);
        }
        lemma_section_lines(lines, t);
        assert(last == s.options[s.options.len() - 1]);
        law_option_line_reads_back(last.0, last.1);
        assert(all.drop_last() =~= lines + section_lines(t));
        assert(all.last() == option_line(last.0, last.1));
        assert(before.push(t).drop_last() =~= before);
        assert(t.options.push(last) =~= s.options);
        assert(!option_line(last.0, last.1).contains('\n'));
        assert forall|i: int| 0 <= i < section_lines(s).len() implies !(
        #[trigger] section_lines(s)[i]).contains('\n') by {
            if i < section_lines(t).len() {
                assert(section_lines(s)[i] == section_lines(t)[i]);
            }
        }
    }
}

proof fn lemma_file_lines(c: Seq<SectionModel>)
    requires
        forall|i: int| 0 <= i < c.len() ==> is_writable(#[trigger] c[i]),
    ensures
        sections_from(file_lines(c)) == c,
        c.len() > 0 ==> file_lines(c).len() > 0,
        forall|i: int|
            0 <= i < file_lines(c).len() ==> !(#[trigger] file_lines(c)[i]).contains('\n'),
    decreases c.len(),
{
    if c.len() > 0 {
        let front = c.drop_last();
        assert forall|i: int| 0 <= i < front.len() implies is_writable(#[trigger] front[i]) by {
            assert(front[i] == c[i]);
        }
        assert(is_writable(c[c.len() - 1]));
        lemma_file_lines(front);
        lemma_section_lines(file_lines(front), c.last());
        assert(front.push(c.last()) =~= c);
        assert forall|i: int| 0 <= i < file_lines(c).len() implies !(
        #[trigger] file_lines(c)[i]).contains('\n') by {
            let n = file_lines(front).len();
            if i < n {
                assert(file_lines(c)[i] == file_lines(front)[i]);
            } else {
                assert(file_lines(c)[i] == section_lines(c.last())[i - n]);
            }
        }
    } else {
        assert(sections_from(file_lines(c)) =~= c);
    }
}

/// Reading a configuration that was written gives its sections, with their options in order.
pub proof fn law_configuration_reads_back(c: Seq<SectionModel>)
    requires
        c.len() > 0,
        forall|i: int| 0 <= i < c.len() ==> is_writable(#[trigger] c[i]),
    ensures
        parsed(split::joined(file_lines(c), "\n"@)) == c,
{
    lemma_file_lines(c);
    reveal_strlit("\n");
    split::lemma_split_joined(file_lines(c), "\n"@);
}

/// The first section of a type is the one before which none of that type stands.
pub proof fn law_first_section_of_a_type(
    front: Seq<SectionModel>,
    sec: SectionModel,
    back: Seq<SectionModel>,
)
    requires
        forall|i: int| 0 <= i < front.len() ==> (#[trigger] front[i]).stype != sec.stype,
    ensures
        first_of(front + seq![sec] + back, sec.stype) == Some(sec),
    decreases front.len(),
{
    let all = front + seq![sec] + back;
    if front.len() == 0 {
        assert(all.first() == sec);
    } else {
        assert(all.first() == front[0]);
        assert(all.drop_first() =~= front.drop_first() + seq![sec] + back);
        assert forall|i: int| 0 <= i < front.drop_first().len() implies (
        #[trigger] front.drop_first()[i]).stype != sec.stype by {
            assert(front[i + 1].stype != sec.stype);
        }
        law_first_section_of_a_type(front.drop_first(), sec, back);
    }
}

/// A configuration without a section of a type has no first one.
pub proof fn law_no_section_of_a_type(c: Seq<SectionModel>, stype: Seq<char>)
    requires
        forall|i: int| 0 <= i < c.len() ==> (#[trigger] c[i]).stype != stype,
    ensures
        first_of(c, stype) is None,
        all_of(c, stype) == Seq::<SectionModel>::empty(),
    decreases c.len(),
{
    if c.len() > 0 {
        assert(c[0].stype != stype);
        assert(c[c.len() - 1].stype != stype);
        assert forall|i: int| 0 <= i < c.drop_first().len() implies (
        #[trigger] c.drop_first()[i]).stype != stype by {
            assert(c[i + 1].stype != stype);
        }
        law_no_section_of_a_type(c.drop_first(), stype);
        law_no_section_of_a_type(c.drop_last(), stype);
    } else {
        assert(all_of(c, stype) =~= Seq::<SectionModel>::empty());
    }
}

/// The sections of a type keep their order, and none of them is left out.
pub proof fn law_all_sections_of_a_type(
    front: Seq<SectionModel>,
    sec: SectionModel,
    back: Seq<SectionModel>,
    stype: Seq<char>,
)
    ensures
        sec.stype == stype ==> all_of(front + seq![sec] + back, stype) == all_of(front, stype)
            + seq![sec] + all_of(back, stype),
        sec.stype != stype ==> all_of(front + seq![sec] + back, stype) == all_of(front, stype)
            + all_of(back, stype),
    decreases back.len(),
{
    let all = front + seq![sec] + back;
    if back.len() == 0 {
        assert(all.last() == sec);
        assert(all.drop_last() =~= front);
        assert(all_of(front, stype) + seq![sec] + all_of(back, stype) =~= all_of(front, stype).push(
            sec,
        ));
        assert(all_of(front, stype) + all_of(back, stype) =~= all_of(front, stype));
    } else {
        assert(all.last() == back.last());
        assert(all.drop_last() =~= front + seq![sec] + back.drop_last());
        law_all_sections_of_a_type(front, sec, back.drop_last(), stype);
        if sec.stype == stype {
            assert(all_of(all, stype) =~= all_of(front, stype) + seq![sec] + all_of(back, stype));
        } else {
            assert(all_of(all, stype) =~= all_of(front, stype) + all_of(back, stype));
        }
    }
}

/// A line of `option` or of `list` sets its key to its value, in quotes of either kind.
pub proof fn law_lists_and_quotes(
    word: Seq<char>,
    gap: Seq<char>,
    key: Seq<char>,
    other: Seq<char>,
    quote: char,
    value: Seq<char>,
)
    requires
        word == "option"@ || word == "list"@,
        is_gap(gap),
        is_bare(key),
        is_gap(other),
        quote == '\'' || quote == '"',
    ensures
        line_of(word + gap + key + other + (seq![quote] + value + seq![quote])) == (Line::Sets {
            key,
            value,
        }),
{
    let quoted = seq![quote] + value + seq![quote];
    let line = word + gap + key + other + quoted;
    lemma_bare_words();
    reveal_strlit("option");
    reveal_strlit("list");
    reveal_strlit("config");
    text::law_white_space();
    lemma_option_parts(word, gap, key, other, quoted);
    lemma_strip_bare(key);
    assert("config"@[0] == 'c' && "option"@[0] == 'o' && "list"@[0] == 'l');
    assert(line[0] == word[0]);
    assert(line.last() == quote);
    text::lemma_trim_nothing(line);
    text::lemma_trim_nothing(quoted);
    assert(quoted.subrange(1, quoted.len() - 1) =~= value);
}

/// A line `config type` opens a section without a name, and the name of a section needs no quotes.
pub proof fn law_bare_section_lines(stype: Seq<char>, name: Seq<char>)
    requires
        is_bare(stype),
        is_bare(name),
    ensures
        line_of("config"@ + (seq![' '] + stype)) == (Line::Opens { stype, name: None }),
        line_of("config"@ + (seq![' '] + (stype + (seq![' '] + name)))) == (Line::Opens {
            stype,
            name: Some(name),
        }),
{
    lemma_bare_words();
    reveal_strlit("config");
    text::law_white_space();
    let none = Seq::<char>::empty();
    assert(split::words(none) =~= seq![]);
    let short = "config"@ + (seq![' '] + stype);
    assert(short[0] == 'c');
    assert(short.last() == stype[stype.len() - 1]);
    text::lemma_trim_nothing(short);
    split::lemma_words_front("config"@, seq![' '] + stype);
    split::lemma_words_space(' ', stype);
    split::lemma_words_front(stype, none);
    assert(stype + none =~= stype);
    assert(split::words(short) =~= seq!["config"@, stype]);
    let tail = seq![' '] + name;
    let long = "config"@ + (seq![' '] + (stype + tail));
    assert(long[0] == 'c');
    assert(long.last() == name[name.len() - 1]);
    text::lemma_trim_nothing(long);
    split::lemma_words_front("config"@, seq![' '] + (stype + tail));
    split::lemma_words_space(' ', stype + tail);
    split::lemma_words_front(stype, tail);
    split::lemma_words_space(' ', name);
    split::lemma_words_front(name, none);
    assert(name + none =~= name);
    assert(split::words(long) =~= seq!["config"@, stype, name]);
    lemma_strip_bare(stype);
    lemma_strip_bare(name);
}

/// A line that starts with any other word says nothing, nor does one without a word.
pub proof fn law_other_lines_are_silent(raw: Seq<char>)
    requires
        split::words(text::trim(raw)).len() > 0 ==> {
            let word = split::words(text::trim(raw))[0];
            word != "config"@ && word != "option"@ && word != "list"@
        },
    ensures
        line_of(raw) is Silent,
{
}

/// A line that opens a section starts an empty one behind those before it; a line that sets an
/// option adds it to the last section, and is dropped where there is none.
pub proof fn law_options_go_to_the_last_section(
    lines: Seq<Seq<char>>,
    line: Seq<char>,
    stype: Seq<char>,
    name: Option<Seq<char>>,
    key: Seq<char>,
    value: Seq<char>,
)
    ensures
        line_of(line) == (Line::Opens { stype, name }) ==> {
            let after = sections_from(lines.push(line));
            &&& after.len() == sections_from(lines).len() + 1
            &&& after.drop_last() == sections_from(lines)
            &&& after.last().stype == stype
            &&& after.last().name == name
            &&& after.last().options.len() == 0
        },
        line_of(line) == (Line::Sets { key, value }) && sections_from(lines).len() > 0 ==> {
            let before = sections_from(lines);
            let after = sections_from(lines.push(line));
            &&& after.len() == before.len()
            &&& after.drop_last() == before.drop_last()
            &&& after.last().stype == before.last().stype
            &&& after.last().name == before.last().name
            &&& after.last().options == before.last().options.push((key, value))
        },
        line_of(line) == (Line::Sets { key, value }) && sections_from(lines).len() == 0
            ==> sections_from(lines.push(line)).len() == 0,
{
    assert(lines.push(line).drop_last() =~= lines);
    assert(lines.push(line).last() == line);
}

/// Quotes around a value are cut off where both ends have the same one; a value with one quote, or
/// with two that differ, is kept as it is.
pub proof fn law_only_pairs_of_quotes_go(v: Seq<char>)
    requires
        v.len() > 0,
        !text::is_space(v[0]),
        !text::is_space(v.last()),
    ensures
        v.len() >= 2 && v[0] == v.last() && (v[0] == '\'' || v[0] == '"') ==> unquoted(v)
            == v.subrange(1, v.len() - 1),
        v[0] != v.last() || (v[0] != '\'' && v[0] != '"') || v.len() == 1 ==> unquoted(v) == v,
{
    text::lemma_trim_nothing(v);
}

}
