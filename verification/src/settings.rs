//! What the configuration says: the settings of the service and of its lines, and the line of a
//! command that is run by hand.

use vstd::prelude::*;

use crate::daemon;
use crate::daemon::LineRun;
use crate::daemon::LineState;
use crate::net;
use crate::net::Ipv4;
use crate::number;
use crate::text;
use crate::uci;
use crate::uci::Config;
use crate::uci::Section;
use crate::urls;

verus! {

/// The version of the program.
pub const VERSION: &'static str = "1.0.0";

/// Where the configuration is read from.
pub const CONFIG_PATH: &'static str = "/etc/config/portalkeeper";

// ---------------------------------------------------------------------------
// Options

/// The value of an option of a section that may be missing.
pub open spec fn option(sec: Option<uci::SectionModel>, key: Seq<char>) -> Option<Seq<char>> {
    match sec {
        Some(s) => s.get(key),
        None => None,
    }
}

/// The value, where it is not empty.
pub open spec fn filled(v: Option<Seq<char>>) -> Option<Seq<char>> {
    match v {
        Some(s) => if s.len() > 0 {
            Some(s)
        } else {
            None
        },
        None => None,
    }
}

/// The first value, or else the second.
pub open spec fn either(a: Option<Seq<char>>, b: Option<Seq<char>>) -> Option<Seq<char>> {
    match a {
        Some(s) => Some(s),
        None => b,
    }
}

/// The value, or else `d`.
pub open spec fn otherwise(v: Option<Seq<char>>, d: Seq<char>) -> Seq<char> {
    match v {
        Some(s) => s,
        None => d,
    }
}

/// The number that a value stands for, or `d` where it stands for none up to `max`, brought
/// between `low` and `high`.
pub open spec fn bounded(v: Option<Seq<char>>, max: nat, d: nat, low: nat, high: nat) -> nat {
    let n = match v {
        Some(s) => match number::number(s, 10, max) {
            Some(n) => n,
            None => d,
        },
        None => d,
    };
    if n < low {
        low
    } else if n > high {
        high
    } else {
        n
    }
}

/// The address that a value stands for, where it is one.
pub open spec fn address(v: Option<Seq<char>>) -> Option<Ipv4> {
    match v {
        Some(s) => net::address_of(s),
        None => None,
    }
}

/// A section that may be missing, as plain values.
pub open spec fn opt_section(sec: Option<&Section>) -> Option<uci::SectionModel> {
    match sec {
        Some(s) => Some(s@),
        None => None,
    }
}

/// The value of an option of a section that may be missing.
pub fn option_of<'a>(sec: Option<&'a Section>, key: &str) -> (r: Option<&'a str>)
    ensures
        uci::opt_str(r) == option(opt_section(sec), key@),
{
    match sec {
        Some(s) => uci::get(s, key),
        None => None,
    }
}

/// The value, where it is not empty.
pub fn filled_of<'a>(v: Option<&'a str>) -> (r: Option<&'a str>)
    ensures
        uci::opt_str(r) == filled(uci::opt_str(v)),
{
    match v {
        Some(s) => if s.is_empty() {
            None
        } else {
            Some(s)
        },
        None => None,
    }
}

/// The first value, or else the second.
pub fn either_of<'a>(a: Option<&'a str>, b: Option<&'a str>) -> (r: Option<&'a str>)
    ensures
        uci::opt_str(r) == either(uci::opt_str(a), uci::opt_str(b)),
{
    match a {
        Some(s) => Some(s),
        None => b,
    }
}

/// A copy of an optional text.
pub fn owned(v: Option<&str>) -> (r: Option<String>)
    ensures
        text::opt_text(r) == uci::opt_str(v),
{
    match v {
        Some(s) => Some(s.to_owned()),
        None => None,
    }
}

/// A copy of the text, or else of `d`.
pub fn owned_or(v: Option<&str>, d: &str) -> (r: String)
    ensures
        r@ == otherwise(uci::opt_str(v), d@),
{
    match v {
        Some(s) => s.to_owned(),
        None => d.to_owned(),
    }
}

/// The number that a value stands for, or `d`, brought between `low` and `high`.
pub fn bounded_of(v: Option<&str>, max: u64, d: u64, low: u64, high: u64) -> (r: u64)
    ensures
        r as nat == bounded(uci::opt_str(v), max as nat, d as nat, low as nat, high as nat),
{
    let n: u64 = match v {
        Some(s) => match number::parse_number(s, 10, max) {
            Some(n) => n,
            None => d,
        },
        None => d,
    };
    if n < low {
        low
    } else if n > high {
        high
    } else {
        n
    }
}

/// The address that a value stands for, where it is one.
pub fn address_in(v: Option<&str>) -> (r: Option<Ipv4>)
    ensures
        r == address(uci::opt_str(v)),
{
    match v {
        Some(s) => net::parse_ipv4(s),
        None => None,
    }
}

// ---------------------------------------------------------------------------
// The service

/// The settings of the service. The source address of a line is the one that is configured.
#[derive(Debug)]
pub struct Settings {
    /// Whether lines are checked again and again.
    pub auto_retry: bool,
    /// Seconds between two checks.
    pub retry_interval: u64,
    /// How many authentications may fail in a row.
    pub retry_count: u32,
    /// The configured probe address.
    pub probe_url: String,
    /// The main line, and the extra line where it is enabled.
    pub lines: Vec<LineRun>,
}

/// A line before its first check.
pub open spec fn fresh(
    name: Seq<char>,
    role: Seq<char>,
    portal_url: Seq<char>,
    device: Option<Seq<char>>,
    source: Option<Ipv4>,
    ua: Seq<char>,
    username: Seq<char>,
    password: Seq<char>,
) -> daemon::LineModel {
    daemon::LineModel {
        name,
        portal_url,
        role,
        device,
        source,
        ua,
        username,
        password,
        state: LineState::Init,
        detail: "尚未检测"@,
        fail_count: 0,
        exhausted: false,
    }
}

/// The main line.
pub open spec fn main_line(main: Option<uci::SectionModel>) -> daemon::LineModel {
    fresh(
        "main"@,
        "主 WAN"@,
        otherwise(option(main, "portal_url"@), ""@),
        filled(option(main, "device"@)),
        address(filled(option(main, "source"@))),
        otherwise(option(main, "ua"@), "pc"@),
        otherwise(option(main, "username"@), ""@),
        otherwise(option(main, "password"@), ""@),
    )
}

/// The extra line. Where its account or password is empty, those of the main line count.
pub open spec fn extra_line(
    main: Option<uci::SectionModel>,
    sec: uci::SectionModel,
) -> daemon::LineModel {
    fresh(
        "extra"@,
        "扩展线路"@,
        otherwise(option(main, "portal_url"@), ""@),
        filled(sec.get("device"@)),
        address(filled(sec.get("source"@))),
        otherwise(filled(sec.get("ua"@)), "mobile"@),
        otherwise(filled(sec.get("username"@)), main_line(main).username),
        otherwise(filled(sec.get("password"@)), main_line(main).password),
    )
}

/// The first section of that name.
pub open spec fn named(c: Seq<uci::SectionModel>, name: Seq<char>) -> Option<uci::SectionModel>
    decreases c.len(),
{
    if c.len() == 0 {
        None
    } else if c[0].name == Some(name) {
        Some(c[0])
    } else {
        named(c.drop_first(), name)
    }
}

/// The lines of the service.
pub open spec fn service_lines(c: Seq<uci::SectionModel>) -> Seq<daemon::LineModel> {
    let main = uci::first_of(c, "portalkeeper"@);
    let extra = named(uci::all_of(c, "line"@), "extra"@);
    if option(extra, "enabled"@) == Some("1"@) {
        seq![main_line(main), extra_line(main, extra->0)]
    } else {
        seq![main_line(main)]
    }
}

fn fresh_line(
    name: &str,
    role: &str,
    portal_url: String,
    device: Option<String>,
    source: Option<Ipv4>,
    ua: String,
    username: String,
    password: String,
) -> (r: LineRun)
    ensures
        r@ == fresh(
            name@,
            role@,
            portal_url@,
            text::opt_text(device),
            source,
            ua@,
            username@,
            password@,
        ),
{
    LineRun {
        name: name.to_owned(),
        portal_url,
        role: role.to_owned(),
        device,
        source,
        ua,
        username,
        password,
        state: LineState::Init,
        detail: "尚未检测".to_owned(),
        fail_count: 0,
        exhausted: false,
    }
}

fn read_main(main: Option<&Section>) -> (r: LineRun)
    ensures
        r@ == main_line(opt_section(main)),
{
    fresh_line(
        "main",
        "主 WAN",
        owned_or(option_of(main, "portal_url"), ""),
        owned(filled_of(option_of(main, "device"))),
        address_in(filled_of(option_of(main, "source"))),
        owned_or(option_of(main, "ua"), "pc"),
        owned_or(option_of(main, "username"), ""),
        owned_or(option_of(main, "password"), ""),
    )
}

fn read_extra(main: Option<&Section>, sec: &Section) -> (r: LineRun)
    ensures
        r@ == extra_line(opt_section(main), sec@),
{
    let m: LineRun = read_main(main);
    fresh_line(
        "extra",
        "扩展线路",
        m.portal_url,
        owned(filled_of(uci::get(sec, "device"))),
        address_in(filled_of(uci::get(sec, "source"))),
        owned_or(filled_of(uci::get(sec, "ua")), "mobile"),
        owned_or(filled_of(uci::get(sec, "username")), m.username.as_str()),
        owned_or(filled_of(uci::get(sec, "password")), m.password.as_str()),
    )
}

fn find_named<'a>(secs: &Vec<&'a Section>, name: &str) -> (r: Option<&'a Section>)
    ensures
        opt_section(r) == named(secs@.map_values(|s: &Section| s@), name@),
{
    let ghost all = secs@.map_values(|s: &Section| s@);
    let mut i: usize = 0;
    assert(all.skip(0) =~= all);
    while i < secs.len()
        invariant
            all == secs@.map_values(|s: &Section| s@),
            i <= secs@.len(),
            named(all, name@) == named(all.skip(i as int), name@),
        decreases secs@.len() - i,
    {
        let sec: &'a Section = secs[i];
        proof {
            assert(all.skip(i as int)[0] == sec@);
            assert(all.skip(i as int).drop_first() =~= all.skip(i + 1));
        }
        if let Some(n) = &sec.name {
            if text::same(n.as_str(), name) {
                return Some(sec);
            }
        }
        i += 1;
    }
    None
}

/// Whether lines are checked again and again: unless the main section says otherwise.
pub open spec fn retries(c: Seq<uci::SectionModel>) -> bool {
    otherwise(option(uci::first_of(c, "portalkeeper"@), "auto_retry"@), "1"@) == "1"@
}

/// The seconds between two checks.
pub open spec fn interval(c: Seq<uci::SectionModel>) -> nat {
    bounded(
        option(uci::first_of(c, "portalkeeper"@), "retry_interval"@),
        u64::MAX as nat,
        60,
        15,
        86400,
    )
}

/// How many authentications may fail in a row.
pub open spec fn attempts(c: Seq<uci::SectionModel>) -> nat {
    bounded(
        option(uci::first_of(c, "portalkeeper"@), "retry_count"@),
        u32::MAX as nat,
        3,
        1,
        100,
    )
}

/// The configured probe address.
pub open spec fn probe_url(c: Seq<uci::SectionModel>) -> Seq<char> {
    otherwise(option(uci::first_of(c, "portalkeeper"@), "probe_url"@), ""@)
}

/// The settings that a configuration gives.
pub fn read_settings(cfg: &Config) -> (r: Settings)
    ensures
        r.auto_retry == retries(cfg@),
        r.retry_interval as nat == interval(cfg@),
        r.retry_count as nat == attempts(cfg@),
        r.probe_url@ == probe_url(cfg@),
        daemon::models(r.lines@) == service_lines(cfg@),
        15 <= r.retry_interval <= 86400,
        1 <= r.retry_count <= 100,
{
    let main: Option<&Section> = cfg.first("portalkeeper");
    let auto: String = owned_or(option_of(main, "auto_retry"), "1");
    let retry_interval: u64 = bounded_of(
        option_of(main, "retry_interval"),
        u64::MAX,
        60,
        15,
        86400,
    );
    let retry_count: u64 = bounded_of(
        option_of(main, "retry_count"),
        u32::MAX as u64,
        3,
        1,
        100,
    );
    let secs: Vec<&Section> = cfg.sections_of("line");
    let extra: Option<&Section> = find_named(&secs, "extra");
    let mut lines: Vec<LineRun> = Vec::new();
    lines.push(read_main(main));
    if let Some(sec) = extra {
        if let Some(e) = uci::get(sec, "enabled") {
            if text::same(e, "1") {
                lines.push(read_extra(main, sec));
            }
        }
    }
    assert(daemon::models(lines@) =~= service_lines(cfg@));
    Settings {
        auto_retry: text::same(auto.as_str(), "1"),
        retry_interval,
        retry_count: retry_count as u32,
        probe_url: owned_or(option_of(main, "probe_url"), ""),
        lines,
    }
}

/// What the log says when the service starts.
pub open spec fn start_text(
    pid: nat,
    lines: nat,
    auto_retry: bool,
    retry_interval: nat,
    retry_count: nat,
    probe_url: Seq<char>,
) -> Seq<char> {
    "服务启动: portalkeeperd "@ + VERSION@ + " (PID "@ + number::decimal(pid) + "), 线路 "@
        + number::decimal(lines) + " 条, 掉线自动重试="@ + (if auto_retry {
        "开"@
    } else {
        "关"@
    }) + "(间隔 "@ + number::decimal(retry_interval) + "s, 次数 "@ + number::decimal(retry_count)
        + ")"@ + (if urls::probe_address(probe_url) is Some {
        ", 自定义探测网站="@ + text::trim(probe_url)
    } else {
        seq![]
    }) + "; 不做周期发包保活"@
}

/// What the log says when the service starts.
pub fn announce_start(s: &Settings, pid: u32) -> (r: String)
    ensures
        r@ == start_text(
            pid as nat,
            s.lines@.len(),
            s.auto_retry,
            s.retry_interval as nat,
            s.retry_count as nat,
            s.probe_url@,
        ),
{
    let id: String = number::decimal_text(pid as u64);
    let n: String = number::decimal_text(s.lines.len() as u64);
    let interval: String = number::decimal_text(s.retry_interval);
    let count: String = number::decimal_text(s.retry_count as u64);
    let site: String = if urls::parse_probe_url(s.probe_url.as_str()).is_some() {
        text::concat(", 自定义探测网站=", text::trimmed(s.probe_url.as_str()).as_str())
    } else {
        String::new()
    };
    let mut out: String = text::concat3("服务启动: portalkeeperd ", VERSION, " (PID ");
    out.append(id.as_str());
    out.append("), 线路 ");
    out.append(n.as_str());
    out.append(" 条, 掉线自动重试=");
    out.append(
        if s.auto_retry {
            "开"
        } else {
            "关"
        },
    );
    out.append("(间隔 ");
    out.append(interval.as_str());
    out.append("s, 次数 ");
    out.append(count.as_str());
    out.append(")");
    out.append(site.as_str());
    out.append("; 不做周期发包保活");
    assert(out@ =~= start_text(
        pid as nat,
        s.lines@.len(),
        s.auto_retry,
        s.retry_interval as nat,
        s.retry_count as nat,
        s.probe_url@,
    ));
    out
}

// ---------------------------------------------------------------------------
// Laws

/// The service has one line or two. The first is the main line; there is a second exactly where the
/// extra section is enabled.
pub proof fn law_extra_line_is_opt_in(c: Seq<uci::SectionModel>)
    ensures
        1 <= service_lines(c).len() <= 2,
        service_lines(c)[0] == main_line(uci::first_of(c, "portalkeeper"@)),
        service_lines(c).len() == 2 <==> option(named(uci::all_of(c, "line"@), "extra"@), "enabled"@)
            == Some("1"@),
{
}

/// Every line starts unchecked and with all its attempts.
pub proof fn law_lines_start_fresh(c: Seq<uci::SectionModel>, i: int, retry_count: u32)
    requires
        0 <= i < service_lines(c).len(),
        1 <= retry_count,
    ensures
        service_lines(c)[i].state == LineState::Init,
        service_lines(c)[i].fail_count == 0,
        daemon::counted(service_lines(c)[i], retry_count),
{
}

/// The extra line signs in with its own account and password where it has them, and else with
/// those of the main line.
pub proof fn law_extra_line_falls_back(main: Option<uci::SectionModel>, sec: uci::SectionModel)
    ensures
        match filled(sec.get("username"@)) {
            Some(u) => extra_line(main, sec).username == u,
            None => extra_line(main, sec).username == main_line(main).username,
        },
        match filled(sec.get("password"@)) {
            Some(p) => extra_line(main, sec).password == p,
            None => extra_line(main, sec).password == main_line(main).password,
        },
{
}

/// A configuration that says nothing gives the defaults.
pub proof fn law_defaults(max: nat)
    ensures
        bounded(None, max, 60, 15, 86400) == 60,
        bounded(None, max, 3, 1, 100) == 3,
        otherwise(option(None, "auto_retry"@), "1"@) == "1"@,
        main_line(None).ua == "pc"@,
        main_line(None).device is None,
        main_line(None).source is None,
{
}

/// What the first `portalkeeper` section sets is what the main line has: each of its fields is the
/// value of the option of that name, to the letter. Only where an option is not set does its
/// default count; an empty device or source counts as not set.
pub proof fn law_main_line_follows_its_options(
    front: Seq<uci::SectionModel>,
    sec: uci::SectionModel,
    back: Seq<uci::SectionModel>,
    value: Seq<char>,
)
    requires
        sec.stype == "portalkeeper"@,
        forall|i: int| 0 <= i < front.len() ==> (#[trigger] front[i]).stype != "portalkeeper"@,
    ensures
        ({
            let line = service_lines(front + seq![sec] + back)[0];
            &&& line.name == "main"@
            &&& line.role == "主 WAN"@
            &&& sec.get("ua"@) == Some(value) ==> line.ua == value
            &&& sec.get("ua"@) is None ==> line.ua == "pc"@
            &&& sec.get("username"@) == Some(value) ==> line.username == value
            &&& sec.get("username"@) is None ==> line.username == ""@
            &&& sec.get("password"@) == Some(value) ==> line.password == value
            &&& sec.get("password"@) is None ==> line.password == ""@
            &&& sec.get("portal_url"@) == Some(value) ==> line.portal_url == value
            &&& sec.get("portal_url"@) is None ==> line.portal_url == ""@
            &&& sec.get("device"@) == Some(value) && value.len() > 0 ==> line.device == Some(value)
            &&& sec.get("device"@) is None || sec.get("device"@)->0.len() == 0 ==> line.device is None
            &&& sec.get("source"@) == Some(value) && value.len() > 0 ==> line.source
                == net::address_of(value)
            &&& sec.get("source"@) is None || sec.get("source"@)->0.len() == 0 ==> line.source is None
        }),
{
    uci::law_first_section_of_a_type(front, sec, back);
}

/// A section that is not of type `line` or not named `extra` is not the extra line's.
pub open spec fn is_extra(s: uci::SectionModel) -> bool {
    s.stype == "line"@ && s.name == Some("extra"@)
}

proof fn lemma_named(front: Seq<uci::SectionModel>, sec: uci::SectionModel, back: Seq<uci::SectionModel>)
    requires
        is_extra(sec),
        forall|i: int| 0 <= i < front.len() ==> !is_extra(#[trigger] front[i]),
    ensures
        named(uci::all_of(front + seq![sec] + back, "line"@), "extra"@) == Some(sec),
{
    uci::law_all_sections_of_a_type(front, sec, back, "line"@);
    let a = uci::all_of(front, "line"@);
    let b = uci::all_of(back, "line"@);
    lemma_none_extra(front);
    lemma_named_behind(a, sec, b);
}

proof fn lemma_none_extra(c: Seq<uci::SectionModel>)
    requires
        forall|i: int| 0 <= i < c.len() ==> !is_extra(#[trigger] c[i]),
    ensures
        forall|i: int|
            0 <= i < uci::all_of(c, "line"@).len() ==> (#[trigger] uci::all_of(c, "line"@)[i]).name
                != Some("extra"@),
    decreases c.len(),
{
    if c.len() > 0 {
        lemma_none_extra(c.drop_last());
        assert(!is_extra(c[c.len() - 1]));
    }
}

proof fn lemma_named_behind(
    a: Seq<uci::SectionModel>,
    sec: uci::SectionModel,
    b: Seq<uci::SectionModel>,
)
    requires
        sec.name == Some("extra"@),
        forall|i: int| 0 <= i < a.len() ==> (#[trigger] a[i]).name != Some("extra"@),
    ensures
        named(a + seq![sec] + b, "extra"@) == Some(sec),
    decreases a.len(),
{
    let all = a + seq![sec] + b;
    if a.len() == 0 {
        assert(all[0] == sec);
    } else {
        assert(all[0] == a[0]);
        assert(all.drop_first() =~= a.drop_first() + seq![sec] + b);
        assert forall|i: int| 0 <= i < a.drop_first().len() implies (
        #[trigger] a.drop_first()[i]).name != Some("extra"@) by {
            assert(a[i + 1].name != Some("extra"@));
        }
        lemma_named_behind(a.drop_first(), sec, b);
    }
}

/// The first `line` section named `extra` makes a second line exactly where it sets `enabled` to
/// `1`. Each field of that line is the value of the option of that name where it is set and not
/// empty; the slot is `mobile` else, account and password are those of the main line else, and the
/// portal is that of the main line in any case.
pub proof fn law_extra_line_follows_its_options(
    front: Seq<uci::SectionModel>,
    sec: uci::SectionModel,
    back: Seq<uci::SectionModel>,
    value: Seq<char>,
)
    requires
        is_extra(sec),
        forall|i: int| 0 <= i < front.len() ==> !is_extra(#[trigger] front[i]),
    ensures
        ({
            let lines = service_lines(front + seq![sec] + back);
            &&& lines.len() == 2 <==> sec.get("enabled"@) == Some("1"@)
            &&& lines.len() == 1 <==> sec.get("enabled"@) != Some("1"@)
            &&& lines.len() == 2 ==> {
                let line = lines[1];
                &&& line.name == "extra"@
                &&& line.role == "扩展线路"@
                &&& line.portal_url == lines[0].portal_url
                &&& sec.get("ua"@) == Some(value) && value.len() > 0 ==> line.ua == value
                &&& sec.get("ua"@) is None || sec.get("ua"@)->0.len() == 0 ==> line.ua == "mobile"@
                &&& sec.get("username"@) == Some(value) && value.len() > 0 ==> line.username
                    == value
                &&& sec.get("username"@) is None || sec.get("username"@)->0.len() == 0
                    ==> line.username == lines[0].username
                &&& sec.get("password"@) == Some(value) && value.len() > 0 ==> line.password
                    == value
                &&& sec.get("password"@) is None || sec.get("password"@)->0.len() == 0
                    ==> line.password == lines[0].password
                &&& sec.get("device"@) == Some(value) && value.len() > 0 ==> line.device == Some(
                    value,
                )
                &&& sec.get("device"@) is None || sec.get("device"@)->0.len() == 0
                    ==> line.device is None
                &&& sec.get("source"@) == Some(value) && value.len() > 0 ==> line.source
                    == net::address_of(value)
                &&& sec.get("source"@) is None || sec.get("source"@)->0.len() == 0
                    ==> line.source is None
            }
        }),
{
    lemma_named(front, sec, back);
}

/// Without such a section there is the main line alone.
pub proof fn law_main_line_alone(c: Seq<uci::SectionModel>)
    requires
        forall|i: int| 0 <= i < c.len() ==> !is_extra(#[trigger] c[i]),
    ensures
        service_lines(c).len() == 1,
{
    lemma_none_extra(c);
    lemma_none_named(uci::all_of(c, "line"@));
}

proof fn lemma_none_named(c: Seq<uci::SectionModel>)
    requires
        forall|i: int| 0 <= i < c.len() ==> (#[trigger] c[i]).name != Some("extra"@),
    ensures
        named(c, "extra"@) is None,
    decreases c.len(),
{
    if c.len() > 0 {
        assert(c[0].name != Some("extra"@));
        assert forall|i: int| 0 <= i < c.drop_first().len() implies (
        #[trigger] c.drop_first()[i]).name != Some("extra"@) by {
            assert(c[i + 1].name != Some("extra"@));
        }
        lemma_none_named(c.drop_first());
    }
}

/// What the first `portalkeeper` section says of the service counts: the interval in seconds, no
/// less than 15 and no more than a day, 60 where it is not set or no number; the attempts, from 1
/// to 100, 3 where they are not set or no number; the probe address to the letter. Lines are
/// checked again and again unless `auto_retry` is set to something other than `1`.
pub proof fn law_service_follows_its_options(
    front: Seq<uci::SectionModel>,
    sec: uci::SectionModel,
    back: Seq<uci::SectionModel>,
    value: Seq<char>,
    n: nat,
)
    requires
        sec.stype == "portalkeeper"@,
        forall|i: int| 0 <= i < front.len() ==> (#[trigger] front[i]).stype != "portalkeeper"@,
    ensures
        ({
            let c = front + seq![sec] + back;
            &&& sec.get("retry_interval"@) == Some(number::decimal(n)) && n <= u64::MAX ==> {
                &&& 15 <= n <= 86400 ==> interval(c) == n
                &&& n < 15 ==> interval(c) == 15
                &&& n > 86400 ==> interval(c) == 86400
            }
            &&& sec.get("retry_interval"@) is None ==> interval(c) == 60
            &&& sec.get("retry_interval"@) == Some(value) && number::number(
                value,
                10,
                u64::MAX as nat,
            ) is None ==> interval(c) == 60
            &&& sec.get("retry_count"@) == Some(number::decimal(n)) && n <= u32::MAX ==> {
                &&& 1 <= n <= 100 ==> attempts(c) == n
                &&& n < 1 ==> attempts(c) == 1
                &&& n > 100 ==> attempts(c) == 100
            }
            &&& sec.get("retry_count"@) is None ==> attempts(c) == 3
            &&& sec.get("retry_count"@) == Some(value) && number::number(
                value,
                10,
                u32::MAX as nat,
            ) is None ==> attempts(c) == 3
            &&& sec.get("probe_url"@) == Some(value) ==> probe_url(c) == value
            &&& sec.get("probe_url"@) is None ==> probe_url(c) == ""@
            &&& sec.get("auto_retry"@) == Some(value) ==> (retries(c) <==> value == "1"@)
            &&& sec.get("auto_retry"@) is None ==> retries(c)
        }),
{
    uci::law_first_section_of_a_type(front, sec, back);
    if n <= u64::MAX {
        number::law_decimal_reads_back(n, u64::MAX as nat);
    }
    if n <= u32::MAX {
        number::law_decimal_reads_back(n, u32::MAX as nat);
    }
}

/// A configuration without a `portalkeeper` section gives the defaults.
pub proof fn law_service_without_a_section(c: Seq<uci::SectionModel>)
    requires
        forall|i: int| 0 <= i < c.len() ==> (#[trigger] c[i]).stype != "portalkeeper"@,
    ensures
        interval(c) == 60,
        attempts(c) == 3,
        retries(c),
        probe_url(c) == ""@,
        service_lines(c)[0].ua == "pc"@,
        service_lines(c)[0].username == ""@,
        service_lines(c)[0].password == ""@,
        service_lines(c)[0].device is None,
        service_lines(c)[0].source is None,
{
    uci::law_no_section_of_a_type(c, "portalkeeper"@);
}

}
