//! The state of the lines that the service leaves for others to read, as a JSON document.

use vstd::prelude::*;

use crate::daemon;
use crate::daemon::LineRun;
use crate::json;
use crate::net;
use crate::net::Ipv4;
use crate::text;
use crate::uci;

verus! {

// ---------------------------------------------------------------------------
// Writing

/// A text, or null.
pub open spec fn text_or_null(v: Option<Seq<char>>) -> json::Json {
    match v {
        Some(s) => json::Json::Text(s),
        None => json::Json::Null,
    }
}

/// A source address in writing.
pub open spec fn source_text(source: Option<Ipv4>) -> Option<Seq<char>> {
    match source {
        Some(ip) => Some(net::address_text(ip)),
        None => None,
    }
}

/// The document of a line. It holds neither account nor password.
pub open spec fn line_document(m: daemon::LineModel) -> json::Json {
    json::Json::Members(
        Map::empty().insert("name"@, json::Json::Text(m.name)).insert(
            "role"@,
            json::Json::Text(m.role),
        ).insert("device"@, text_or_null(m.device)).insert(
            "source"@,
            text_or_null(source_text(m.source)),
        ).insert("ua"@, json::Json::Text(m.ua)).insert(
            "state"@,
            json::Json::Text(m.state.word()),
        ).insert("detail"@, json::Json::Text(m.detail)),
    )
}

/// The documents of lines.
pub open spec fn line_documents(lines: Seq<daemon::LineModel>) -> Seq<json::Json> {
    lines.map_values(|m: daemon::LineModel| line_document(m))
}

/// The document of the service.
pub open spec fn document(
    updated_human: Seq<char>,
    updated: nat,
    auto_retry: bool,
    retry_interval: nat,
    retry_count: nat,
    lines: Seq<daemon::LineModel>,
) -> json::Json {
    json::Json::Members(
        Map::empty().insert("updated_human"@, json::Json::Text(updated_human)).insert(
            "updated"@,
            json::Json::Uint(updated),
        ).insert("auto_retry"@, json::Json::Bool(auto_retry)).insert(
            "retry_interval"@,
            json::Json::Uint(retry_interval),
        ).insert("retry_count"@, json::Json::Uint(retry_count)).insert(
            "lines"@,
            json::Json::Items(line_documents(lines)),
        ),
    )
}

fn optional(v: Option<&str>) -> (r: serde_json::Value)
    ensures
        json::held(r) == text_or_null(uci::opt_str(v)),
{
    match v {
        Some(s) => json::text_value(s),
        None => json::null(),
    }
}

fn line_value(l: &LineRun) -> (r: serde_json::Value)
    ensures
        json::held(r) == line_document(l@),
{
    let device: serde_json::Value = match &l.device {
        Some(d) => optional(Some(d.as_str())),
        None => optional(None),
    };
    let source: serde_json::Value = match l.source {
        Some(ip) => optional(Some(net::ipv4_text(ip).as_str())),
        None => optional(None),
    };
    let mut v: serde_json::Value = json::object();
    json::put(&mut v, "name", json::text_value(l.name.as_str()));
    json::put(&mut v, "role", json::text_value(l.role.as_str()));
    json::put(&mut v, "device", device);
    json::put(&mut v, "source", source);
    json::put(&mut v, "ua", json::text_value(l.ua.as_str()));
    json::put(&mut v, "state", json::text_value(l.state.as_str()));
    json::put(&mut v, "detail", json::text_value(l.detail.as_str()));
    v
}

/// The text of the document of the service.
pub fn status_text(
    updated_human: &str,
    updated: u64,
    auto_retry: bool,
    retry_interval: u64,
    retry_count: u32,
    lines: &Vec<LineRun>,
) -> (r: String)
    ensures
        r@ == json::written(
            document(
                updated_human@,
                updated as nat,
                auto_retry,
                retry_interval as nat,
                retry_count as nat,
                daemon::models(lines@),
            ),
        ),
        json::gives(
            json::read(r@),
            document(
                updated_human@,
                updated as nat,
                auto_retry,
                retry_interval as nat,
                retry_count as nat,
                daemon::models(lines@),
            ),
        ),
{
    let mut arr: Vec<serde_json::Value> = Vec::new();
    let ghost want = line_documents(daemon::models(lines@));
    let mut i: usize = 0;
    while i < lines.len()
        invariant
            want == line_documents(daemon::models(lines@)),
            i <= lines@.len(),
            json::held_all(arr@) == want.take(i as int),
        decreases lines@.len() - i,
    {
        let ghost done = arr@;
        let v: serde_json::Value = line_value(&lines[i]);
        let ghost h = json::held(v);
        arr.push(v);
        proof {
            assert(h == want[i as int]);
            assert(json::held_all(arr@) =~= json::held_all(done).push(h));
            assert(want.take(i + 1) =~= want.take(i as int).push(want[i as int]));
        }
        i += 1;
    }
    assert(want.take(i as int) =~= want);
    let mut v: serde_json::Value = json::object();
    json::put(&mut v, "updated_human", json::text_value(updated_human));
    json::put(&mut v, "updated", json::uint_value(updated));
    json::put(&mut v, "auto_retry", json::bool_value(auto_retry));
    json::put(&mut v, "retry_interval", json::uint_value(retry_interval));
    json::put(&mut v, "retry_count", json::uint_value(retry_count as u64));
    json::put(&mut v, "lines", json::items_value(arr));
    proof {
        lemma_document_plain(
            updated_human@,
            updated,
            auto_retry,
            retry_interval,
            retry_count,
            daemon::models(lines@),
        );
    }
    match json::write(&v) {
        Some(t) => t,
        None => String::new(),
    }
}

proof fn lemma_line_plain(m: daemon::LineModel, depth: nat)
    requires
        depth > 0,
    ensures
        json::plain(line_document(m), depth),
{
    reveal_with_fuel(json::plain, 2);
}

proof fn lemma_document_plain(
    updated_human: Seq<char>,
    updated: u64,
    auto_retry: bool,
    retry_interval: u64,
    retry_count: u32,
    lines: Seq<daemon::LineModel>,
)
    ensures
        json::plain(
            document(
                updated_human,
                updated as nat,
                auto_retry,
                retry_interval as nat,
                retry_count as nat,
                lines,
            ),
            127,
        ),
{
    reveal_with_fuel(json::plain, 2);
    let docs = line_documents(lines);
    assert forall|i: int| 0 <= i < docs.len() implies json::plain(#[trigger] docs[i], 125) by {
        lemma_line_plain(lines[i], 125);
    }
    assert(json::plain(json::Json::Items(docs), 126));
}

// ---------------------------------------------------------------------------
// Reading

/// What is shown of a line.
#[derive(Debug)]
pub struct LineReport {
    pub role: String,
    pub name: String,
    pub device: Option<String>,
    pub source: Option<String>,
    pub ua: String,
    pub state: String,
    pub detail: String,
}

/// What is shown of the service.
#[derive(Debug)]
pub struct Report {
    pub updated: String,
    /// The lines, where the document has a list of them.
    pub lines: Option<Vec<LineReport>>,
}

/// What is shown of a line, as plain values.
#[verifier::ext_equal]
pub struct LineShown {
    pub role: Seq<char>,
    pub name: Seq<char>,
    pub device: Option<Seq<char>>,
    pub source: Option<Seq<char>>,
    pub ua: Seq<char>,
    pub state: Seq<char>,
    pub detail: Seq<char>,
}

/// What is shown of the service, as plain values.
#[verifier::ext_equal]
pub struct Shown {
    pub updated: Seq<char>,
    pub lines: Option<Seq<LineShown>>,
}

impl View for LineReport {
    type V = LineShown;

    open spec fn view(&self) -> LineShown {
        LineShown {
            role: self.role@,
            name: self.name@,
            device: text::opt_text(self.device),
            source: text::opt_text(self.source),
            ua: self.ua@,
            state: self.state@,
            detail: self.detail@,
        }
    }
}

/// Lines that are shown, as plain values.
pub open spec fn shown_lines(v: Seq<LineReport>) -> Seq<LineShown> {
    v.map_values(|l: LineReport| l@)
}

impl View for Report {
    type V = Shown;

    open spec fn view(&self) -> Shown {
        Shown {
            updated: self.updated@,
            lines: match self.lines {
                Some(v) => Some(shown_lines(v@)),
                None => None,
            },
        }
    }
}

/// The text of a member, or `d` where it has none.
pub open spec fn member_text(j: json::Json, key: Seq<char>, d: Seq<char>) -> Seq<char> {
    match json::text_of(json::member(j, key)) {
        Some(s) => s,
        None => d,
    }
}

/// What is shown of the document of a line.
pub open spec fn line_shown(j: json::Json) -> LineShown {
    LineShown {
        role: member_text(j, "role"@, "?"@),
        name: member_text(j, "name"@, "?"@),
        device: json::text_of(json::member(j, "device"@)),
        source: json::text_of(json::member(j, "source"@)),
        ua: member_text(j, "ua"@, "?"@),
        state: member_text(j, "state"@, "?"@),
        detail: member_text(j, "detail"@, ""@),
    }
}

/// What is shown of the document of the service.
pub open spec fn shown(j: json::Json) -> Shown {
    Shown {
        updated: member_text(j, "updated_human"@, "?"@),
        lines: match json::member(j, "lines"@) {
            json::Json::Items(s) => Some(s.map_values(|l: json::Json| line_shown(l))),
            _ => None,
        },
    }
}

fn text_at(v: &serde_json::Value, key: &str, d: &str) -> (r: String)
    ensures
        r@ == member_text(json::held(*v), key@, d@),
{
    match json::as_text(json::at(v, key)) {
        Some(s) => s.to_owned(),
        None => d.to_owned(),
    }
}

fn opt_text_at(v: &serde_json::Value, key: &str) -> (r: Option<String>)
    ensures
        text::opt_text(r) == json::text_of(json::member(json::held(*v), key@)),
{
    match json::as_text(json::at(v, key)) {
        Some(s) => Some(s.to_owned()),
        None => None,
    }
}

fn line_report(v: &serde_json::Value) -> (r: LineReport)
    ensures
        r@ == line_shown(json::held(*v)),
{
    LineReport {
        role: text_at(v, "role", "?"),
        name: text_at(v, "name", "?"),
        device: opt_text_at(v, "device"),
        source: opt_text_at(v, "source"),
        ua: text_at(v, "ua", "?"),
        state: text_at(v, "state", "?"),
        detail: text_at(v, "detail", ""),
    }
}

/// What is shown of the document of the service.
pub fn report_of(v: &serde_json::Value) -> (r: Report)
    ensures
        r@ == shown(json::held(*v)),
{
    let updated: String = text_at(v, "updated_human", "?");
    match json::as_items(json::at(v, "lines")) {
        None => Report { updated, lines: None },
        Some(items) => {
            let ghost all = json::held_all(items@);
            let ghost want = all.map_values(|l: json::Json| line_shown(l));
            let mut lines: Vec<LineReport> = Vec::new();
            let mut i: usize = 0;
            while i < items.len()
                invariant
                    all == json::held_all(items@),
                    want == all.map_values(|l: json::Json| line_shown(l)),
                    i <= items@.len(),
                    shown_lines(lines@) == want.take(i as int),
                decreases items@.len() - i,
            {
                let ghost done = lines@;
                let l: LineReport = line_report(&items[i]);
                let ghost model = l@;
                lines.push(l);
                proof {
                    assert(all[i as int] == json::held(items@[i as int]));
                    assert(model == want[i as int]);
                    assert(shown_lines(lines@) =~= shown_lines(done).push(model));
                    assert(want.take(i + 1) =~= want.take(i as int).push(want[i as int]));
                }
                i += 1;
            }
            assert(want.take(i as int) =~= want);
            Report { updated, lines: Some(lines) }
        },
    }
}

/// What is shown of a status text, or what is wrong with it.
pub fn read_status(source: &str) -> (r: Result<Report, String>)
    ensures
        match r {
            Ok(report) => json::read(source@) is Ok && report@ == shown(json::read(source@)->Ok_0),
            Err(e) => json::fails(json::read(source@), e@),
        },
{
    match json::parse(source) {
        Ok(v) => Ok(report_of(&v)),
        Err(e) => Err(e),
    }
}

// ---------------------------------------------------------------------------
// Laws

/// What is shown of a line of the service.
pub open spec fn line_facts(m: daemon::LineModel) -> LineShown {
    LineShown {
        role: m.role,
        name: m.name,
        device: m.device,
        source: source_text(m.source),
        ua: m.ua,
        state: m.state.word(),
        detail: m.detail,
    }
}

proof fn lemma_line_shown(m: daemon::LineModel)
    ensures
        line_shown(line_document(m)) == line_facts(m),
{
    reveal_strlit("name");
    reveal_strlit("role");
    reveal_strlit("device");
    reveal_strlit("source");
    reveal_strlit("ua");
    reveal_strlit("state");
    reveal_strlit("detail");
    assert("name"@.len() == 4 && "role"@.len() == 4 && "device"@.len() == 6 && "source"@.len() == 6
        && "ua"@.len() == 2 && "state"@.len() == 5 && "detail"@.len() == 6);
    assert("name"@[0] != "role"@[0]);
    assert("device"@[2] != "source"@[2]);
    assert("device"@[2] != "detail"@[2]);
    assert("source"@[2] != "detail"@[2]);
    assert("name"@ != "role"@ && "name"@ != "device"@ && "name"@ != "source"@ && "name"@ != "ua"@
        && "name"@ != "state"@ && "name"@ != "detail"@);
    assert("role"@ != "device"@ && "role"@ != "source"@ && "role"@ != "ua"@ && "role"@ != "state"@
        && "role"@ != "detail"@);
    assert("device"@ != "source"@ && "device"@ != "ua"@ && "device"@ != "state"@ && "device"@
        != "detail"@);
    assert("source"@ != "ua"@ && "source"@ != "state"@ && "source"@ != "detail"@);
    assert("ua"@ != "state"@ && "ua"@ != "detail"@ && "state"@ != "detail"@);
}

/// Reading the document of the service shows its time and its lines, in their order, as they were.
/// With what `status_text` promises, reading a status that was written shows what was written.
pub proof fn law_status_reads_back(
    updated_human: Seq<char>,
    updated: nat,
    auto_retry: bool,
    retry_interval: nat,
    retry_count: nat,
    lines: Seq<daemon::LineModel>,
)
    ensures
        shown(
            document(updated_human, updated, auto_retry, retry_interval, retry_count, lines),
        ) == (Shown {
            updated: updated_human,
            lines: Some(lines.map_values(|m: daemon::LineModel| line_facts(m))),
        }),
{
    reveal_strlit("updated_human");
    reveal_strlit("updated");
    reveal_strlit("auto_retry");
    reveal_strlit("retry_interval");
    reveal_strlit("retry_count");
    reveal_strlit("lines");
    assert("updated_human"@.len() == 13 && "updated"@.len() == 7 && "auto_retry"@.len() == 10
        && "retry_interval"@.len() == 14 && "retry_count"@.len() == 11 && "lines"@.len() == 5);
    assert("updated_human"@ != "updated"@ && "updated_human"@ != "auto_retry"@ && "updated_human"@
        != "retry_interval"@ && "updated_human"@ != "retry_count"@ && "updated_human"@ != "lines"@);
    let docs = line_documents(lines);
    let seen = docs.map_values(|l: json::Json| line_shown(l));
    let want = lines.map_values(|m: daemon::LineModel| line_facts(m));
    assert forall|i: int| 0 <= i < lines.len() implies seen[i] == #[trigger] want[i] by {
        lemma_line_shown(lines[i]);
    }
    assert(seen =~= want);
}

/// The status tells neither the account nor the password of a line.
pub proof fn law_status_hides_credentials(
    m: daemon::LineModel,
    username: Seq<char>,
    password: Seq<char>,
)
    ensures
        line_document(m) == line_document(daemon::LineModel { username, password, ..m }),
{
}

/// What the status tells of the service, member by member.
pub proof fn law_status_tells_the_service(
    updated_human: Seq<char>,
    updated: nat,
    auto_retry: bool,
    retry_interval: nat,
    retry_count: nat,
    lines: Seq<daemon::LineModel>,
)
    ensures
        document(updated_human, updated, auto_retry, retry_interval, retry_count, lines)
            matches json::Json::Members(d) && {
            &&& d["updated_human"@] == json::Json::Text(updated_human)
            &&& d["updated"@] == json::Json::Uint(updated)
            &&& d["auto_retry"@] == json::Json::Bool(auto_retry)
            &&& d["retry_interval"@] == json::Json::Uint(retry_interval)
            &&& d["retry_count"@] == json::Json::Uint(retry_count)
            &&& d["lines"@] matches json::Json::Items(l) && l.len() == lines.len()
        },
{
    reveal_strlit("updated_human");
    reveal_strlit("updated");
    reveal_strlit("auto_retry");
    reveal_strlit("retry_interval");
    reveal_strlit("retry_count");
    reveal_strlit("lines");
    assert("updated_human"@.len() == 13 && "updated"@.len() == 7 && "auto_retry"@.len() == 10
        && "retry_interval"@.len() == 14 && "retry_count"@.len() == 11 && "lines"@.len() == 5);
}

/// What the status tells of a line, member by member: a device or a source address that is not
/// known is null.
pub proof fn law_status_tells_a_line(m: daemon::LineModel)
    ensures
        line_document(m) matches json::Json::Members(d) && {
            &&& d["name"@] == json::Json::Text(m.name)
            &&& d["role"@] == json::Json::Text(m.role)
            &&& d["device"@] == (match m.device {
                Some(s) => json::Json::Text(s),
                None => json::Json::Null,
            })
            &&& d["source"@] == (match m.source {
                Some(ip) => json::Json::Text(net::address_text(ip)),
                None => json::Json::Null,
            })
            &&& d["ua"@] == json::Json::Text(m.ua)
            &&& d["state"@] == json::Json::Text(m.state.word())
            &&& d["detail"@] == json::Json::Text(m.detail)
        },
{
    reveal_strlit("name");
    reveal_strlit("role");
    reveal_strlit("device");
    reveal_strlit("source");
    reveal_strlit("ua");
    reveal_strlit("state");
    reveal_strlit("detail");
    assert("name"@.len() == 4 && "name"@[0] == 'n');
    assert("role"@.len() == 4 && "role"@[0] == 'r');
    assert("device"@.len() == 6 && "device"@[2] == 'v');
    assert("source"@.len() == 6 && "source"@[0] == 's');
    assert("ua"@.len() == 2);
    assert("state"@.len() == 5);
    assert("detail"@.len() == 6 && "detail"@[2] == 't' && "detail"@[0] == 'd');
}

/// What a status does not tell, or tells as something else than a text, is shown as `?`; a detail is
/// left empty, a device or an address unknown.
pub proof fn law_missing_members_are_shown(j: json::Json)
    ensures
        json::text_of(json::member(j, "role"@)) is None ==> line_shown(j).role == "?"@,
        json::text_of(json::member(j, "name"@)) is None ==> line_shown(j).name == "?"@,
        json::text_of(json::member(j, "ua"@)) is None ==> line_shown(j).ua == "?"@,
        json::text_of(json::member(j, "state"@)) is None ==> line_shown(j).state == "?"@,
        json::text_of(json::member(j, "detail"@)) is None ==> line_shown(j).detail == ""@,
        json::text_of(json::member(j, "device"@)) is None ==> line_shown(j).device is None,
        json::text_of(json::member(j, "source"@)) is None ==> line_shown(j).source is None,
        json::text_of(json::member(j, "updated_human"@)) is None ==> shown(j).updated == "?"@,
        !(json::member(j, "lines"@) is Items) ==> shown(j).lines is None,
{
}

}
