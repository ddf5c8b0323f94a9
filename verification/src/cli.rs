//! The commands that are run by hand: their options, the line they work on, and what they
//! conclude.

use vstd::prelude::*;

use crate::auth::Code;
use crate::auth::LineCfg;
use crate::daemon;
use crate::net;
use crate::net::Ipv4;
use crate::number;
use crate::settings;
use crate::text;
use crate::uci;
use crate::uci::Config;
use crate::uci::Section;
use crate::urls;

verus! {

// ---------------------------------------------------------------------------
// Options

/// The value of an option: the argument behind the first one that is `key`.
pub open spec fn argument(args: Seq<Seq<char>>, key: Seq<char>) -> Option<Seq<char>>
    decreases args.len(),
{
    if args.len() == 0 {
        None
    } else if args[0] == key {
        if args.len() > 1 {
            Some(args[1])
        } else {
            None
        }
    } else {
        argument(args.drop_first(), key)
    }
}

/// The value of an option.
pub fn arg_value<'a>(rest: &'a Vec<String>, key: &str) -> (r: Option<&'a str>)
    ensures
        uci::opt_str(r) == argument(text::texts(rest@), key@),
{
    let ghost all = text::texts(rest@);
    let n: usize = rest.len();
    let mut i: usize = 0;
    assert(all.skip(0) =~= all);
    while i < n
        invariant
            n == rest@.len(),
            all == text::texts(rest@),
            i <= n,
            argument(all, key@) == argument(all.skip(i as int), key@),
        decreases n - i,
    {
        proof {
            assert(all.skip(i as int)[0] == rest@[i as int]@);
            assert(all.skip(i as int).drop_first() =~= all.skip(i + 1));
        }
        if text::same(rest[i].as_str(), key) {
            if i + 1 < n {
                assert(all.skip(i as int)[1] == rest@[i + 1]@);
                return Some(rest[i + 1].as_str());
            }
            return None;
        }
        i += 1;
    }
    None
}

/// The seconds that a request may take.
pub open spec fn timeout(args: Seq<Seq<char>>) -> nat {
    settings::bounded(argument(args, "--timeout"@), u64::MAX as nat, 5, 2, 30)
}

/// Where the configuration is.
pub open spec fn config_at(args: Seq<Seq<char>>) -> Seq<char> {
    settings::otherwise(argument(args, "--config"@), settings::CONFIG_PATH@)
}

/// The seconds that a request may take: five, or what `--timeout` says, between two and thirty.
pub fn timeout_of(rest: &Vec<String>) -> (r: u64)
    ensures
        r as nat == timeout(text::texts(rest@)),
        2 <= r <= 30,
{
    settings::bounded_of(arg_value(rest, "--timeout"), u64::MAX, 5, 2, 30)
}

/// Where the configuration is: what `--config` says, or else the usual place.
pub fn config_path(rest: &Vec<String>) -> (r: String)
    ensures
        r@ == config_at(text::texts(rest@)),
{
    settings::owned_or(arg_value(rest, "--config"), settings::CONFIG_PATH)
}

// ---------------------------------------------------------------------------
// The line

/// The first section that is not disabled.
pub open spec fn enabled(c: Seq<uci::SectionModel>) -> Option<uci::SectionModel>
    decreases c.len(),
{
    if c.len() == 0 {
        None
    } else if c[0].get("enabled"@) != Some("0"@) {
        Some(c[0])
    } else {
        enabled(c.drop_first())
    }
}

/// A slot that can be asked for.
pub open spec fn slot(v: Option<Seq<char>>) -> Option<Seq<char>> {
    if v == Some("pc"@) || v == Some("mobile"@) {
        v
    } else {
        None
    }
}

/// A line as plain values.
#[verifier::ext_equal]
pub struct Chosen {
    pub name: Seq<char>,
    pub portal_url: Seq<char>,
    pub device: Option<Seq<char>>,
    pub source: Option<Ipv4>,
    pub username: Seq<char>,
    pub password: Seq<char>,
    pub ua: Seq<char>,
}

/// A line as plain values.
pub open spec fn chosen(l: LineCfg) -> Chosen {
    Chosen {
        name: l.name@,
        portal_url: l.portal_url@,
        device: text::opt_text(l.device),
        source: l.source,
        username: l.username@,
        password: l.password@,
        ua: l.ua@,
    }
}

/// The line of a command: the arguments come first, then the first line section that is not
/// disabled, then the main section. Its source address is the one that the arguments give.
pub open spec fn line_of(args: Seq<Seq<char>>, c: Seq<uci::SectionModel>) -> Chosen {
    let main = uci::first_of(c, "portalkeeper"@);
    let line = enabled(uci::all_of(c, "line"@));
    Chosen {
        name: "cli"@,
        portal_url: settings::otherwise(settings::option(main, "portal_url"@), ""@),
        device: settings::either(
            argument(args, "--device"@),
            settings::either(
                settings::filled(settings::option(line, "device"@)),
                settings::filled(settings::option(main, "device"@)),
            ),
        ),
        source: settings::address(argument(args, "--source"@)),
        username: settings::otherwise(
            settings::either(
                settings::filled(settings::option(line, "username"@)),
                settings::option(main, "username"@),
            ),
            ""@,
        ),
        password: settings::otherwise(
            settings::either(
                settings::filled(settings::option(line, "password"@)),
                settings::option(main, "password"@),
            ),
            ""@,
        ),
        ua: settings::otherwise(
            settings::either(
                slot(argument(args, "--ua"@)),
                settings::either(
                    settings::option(line, "ua"@),
                    settings::option(main, "ua"@),
                ),
            ),
            "pc"@,
        ),
    }
}

fn first_enabled<'a>(secs: &Vec<&'a Section>) -> (r: Option<&'a Section>)
    ensures
        settings::opt_section(r) == enabled(secs@.map_values(|s: &Section| s@)),
{
    let ghost all = secs@.map_values(|s: &Section| s@);
    let mut i: usize = 0;
    assert(all.skip(0) =~= all);
    while i < secs.len()
        invariant
            all == secs@.map_values(|s: &Section| s@),
            i <= secs@.len(),
            enabled(all) == enabled(all.skip(i as int)),
        decreases secs@.len() - i,
    {
        let sec: &'a Section = secs[i];
        proof {
            assert(all.skip(i as int)[0] == sec@);
            assert(all.skip(i as int).drop_first() =~= all.skip(i + 1));
        }
        match uci::get(sec, "enabled") {
            Some(e) => {
                if !text::same(e, "0") {
                    return Some(sec);
                }
            },
            None => {
                return Some(sec);
            },
        }
        i += 1;
    }
    None
}

fn asked_slot<'a>(v: Option<&'a str>) -> (r: Option<&'a str>)
    ensures
        uci::opt_str(r) == slot(uci::opt_str(v)),
{
    match v {
        Some(s) => if text::same(s, "pc") || text::same(s, "mobile") {
            Some(s)
        } else {
            None
        },
        None => None,
    }
}

/// The line of a command and the configured probe address.
pub fn resolve_line(rest: &Vec<String>, cfg: &Config) -> (r: (LineCfg, String))
    ensures
        chosen(r.0) == line_of(text::texts(rest@), cfg@),
        r.1@ == settings::probe_url(cfg@),
{
    let main: Option<&Section> = cfg.first("portalkeeper");
    let secs: Vec<&Section> = cfg.sections_of("line");
    let line: Option<&Section> = first_enabled(&secs);
    let username: String = settings::owned_or(
        settings::either_of(
            settings::filled_of(settings::option_of(line, "username")),
            settings::option_of(main, "username"),
        ),
        "",
    );
    let password: String = settings::owned_or(
        settings::either_of(
            settings::filled_of(settings::option_of(line, "password")),
            settings::option_of(main, "password"),
        ),
        "",
    );
    let ua: String = settings::owned_or(
        settings::either_of(
            asked_slot(arg_value(rest, "--ua")),
            settings::either_of(
                settings::option_of(line, "ua"),
                settings::option_of(main, "ua"),
            ),
        ),
        "pc",
    );
    let device: Option<String> = settings::owned(
        settings::either_of(
            arg_value(rest, "--device"),
            settings::either_of(
                settings::filled_of(settings::option_of(line, "device")),
                settings::filled_of(settings::option_of(main, "device")),
            ),
        ),
    );
    let source: Option<Ipv4> = settings::address_in(arg_value(rest, "--source"));
    let cfg: LineCfg = LineCfg {
        name: "cli".to_owned(),
        portal_url: settings::owned_or(settings::option_of(main, "portal_url"), ""),
        device,
        source,
        username,
        password,
        ua,
    };
    (cfg, settings::owned_or(settings::option_of(main, "probe_url"), ""))
}

// ---------------------------------------------------------------------------
// Conclusions

/// What a check announces.
pub open spec fn check_banner(l: Chosen, probe_url: Seq<char>) -> Seq<char> {
    "联通测试开始: 设备="@ + settings::otherwise(l.device, "自动"@) + " 源IP="@ + (match l.source {
        Some(ip) => net::address_text(ip),
        None => "自动检测"@,
    }) + " 槽位="@ + l.ua + " 探测网站="@ + if urls::probe_address(probe_url) is Some {
        text::trim(probe_url)
    } else {
        "内置(默认)"@
    }
}

/// What a check announces.
pub fn announce_check(l: &LineCfg, probe_url: &str) -> (r: String)
    ensures
        r@ == check_banner(chosen(*l), probe_url@),
{
    let site: String = if urls::parse_probe_url(probe_url).is_some() {
        text::trimmed(probe_url)
    } else {
        "内置(默认)".to_owned()
    };
    let source: String = match l.source {
        Some(ip) => net::ipv4_text(ip),
        None => "自动检测".to_owned(),
    };
    let device: &str = match &l.device {
        Some(d) => d.as_str(),
        None => "自动",
    };
    let mut out: String = text::concat3("联通测试开始: 设备=", device, " 源IP=");
    out.append(source.as_str());
    out.append(" 槽位=");
    out.append(l.ua.as_str());
    out.append(" 探测网站=");
    out.append(site.as_str());
    out
}

/// The conclusion of a check, and the code with which it exits: 0 online, 1 held by a portal,
/// 2 undecided.
pub open spec fn check_end(verdict: Option<bool>, detail: Seq<char>) -> (Seq<char>, i32) {
    match verdict {
        Some(true) => ("结论: 已联网(已认证), 无需登录 — "@ + detail, 0),
        Some(false) => ("结论: 未认证(被门户劫持), 可执行登录 — "@ + detail, 1),
        None => ("结论: 无法判定, 网络可能不通 — "@ + detail, 2),
    }
}

/// The conclusion of a check, and the code with which it exits.
pub fn conclude_check(verdict: Option<bool>, detail: &str) -> (r: (String, i32))
    ensures
        (r.0@, r.1) == check_end(verdict, detail@),
{
    match verdict {
        Some(true) => (text::concat("结论: 已联网(已认证), 无需登录 — ", detail), 0),
        Some(false) => (text::concat("结论: 未认证(被门户劫持), 可执行登录 — ", detail), 1),
        None => (text::concat("结论: 无法判定, 网络可能不通 — ", detail), 2),
    }
}

/// A line that can be signed in.
pub open spec fn has_credentials(l: Chosen) -> bool {
    l.username.len() > 0 && l.password.len() > 0
}

/// Whether a line can be signed in: it has an account and a password.
pub fn can_login(l: &LineCfg) -> (r: bool)
    ensures
        r == has_credentials(chosen(*l)),
{
    !l.username.as_str().is_empty() && !l.password.as_str().is_empty()
}

/// The conclusion of an authentication, and the code with which it exits: 0 online, 3 the slot is
/// held by another device, 1 any other failure.
pub open spec fn login_end(ok: bool, code: Code, detail: Seq<char>) -> (Seq<char>, i32) {
    if ok {
        if code == Code::Already {
            ("结论: 本机已在线, 无需操作"@, 0)
        } else {
            ("结论: 认证成功"@, 0)
        }
    } else if code == Code::Conflict {
        ("结论: 槽位被占用, 请打开自助管理后台手动下线后重试"@, 3)
    } else if code == Code::BadPass {
        ("结论: 密码错误"@, 1)
    } else {
        ("结论: 认证失败 ("@ + detail + ")"@, 1)
    }
}

/// The conclusion of an authentication, and the code with which it exits.
pub fn conclude_login(ok: bool, code: Code, detail: &str) -> (r: (String, i32))
    ensures
        (r.0@, r.1) == login_end(ok, code, detail@),
{
    if ok {
        if code == Code::Already {
            ("结论: 本机已在线, 无需操作".to_owned(), 0)
        } else {
            ("结论: 认证成功".to_owned(), 0)
        }
    } else if code == Code::Conflict {
        ("结论: 槽位被占用, 请打开自助管理后台手动下线后重试".to_owned(), 3)
    } else if code == Code::BadPass {
        ("结论: 密码错误".to_owned(), 1)
    } else {
        (text::concat3("结论: 认证失败 (", detail, ")"), 1)
    }
}

// ---------------------------------------------------------------------------
// Laws

/// What an argument says of the line counts, whatever the configuration says.
pub proof fn law_arguments_come_first(args: Seq<Seq<char>>, c: Seq<uci::SectionModel>)
    ensures
        argument(args, "--device"@) is Some ==> line_of(args, c).device == argument(
            args,
            "--device"@,
        ),
        slot(argument(args, "--ua"@)) is Some ==> line_of(args, c).ua == argument(
            args,
            "--ua"@,
        )->0,
        line_of(args, c).source == settings::address(argument(args, "--source"@)),
{
}

/// A command exits with 0 exactly where the line is online.
pub proof fn law_zero_means_online(
    verdict: Option<bool>,
    ok: bool,
    code: Code,
    detail: Seq<char>,
)
    ensures
        check_end(verdict, detail).1 == 0 <==> verdict == Some(true),
        login_end(ok, code, detail).1 == 0 <==> ok,
{
}

/// The value of an option is the argument behind its first occurrence; an option that is the last
/// argument, or that is not there, has none.
pub proof fn law_value_stands_behind_its_option(
    front: Seq<Seq<char>>,
    key: Seq<char>,
    value: Seq<char>,
    back: Seq<Seq<char>>,
)
    requires
        !front.contains(key),
    ensures
        argument(front + seq![key, value] + back, key) == Some(value),
        argument(front + seq![key], key) is None,
        argument(front, key) is None,
    decreases front.len(),
{
    let all = front + seq![key, value] + back;
    let short = front + seq![key];
    if front.len() == 0 {
        assert(all[0] == key && all[1] == value);
        assert(short[0] == key);
    } else {
        assert(front.contains(front[0]));
        assert(all[0] == front[0] && short[0] == front[0]);
        assert(all.drop_first() =~= front.drop_first() + seq![key, value] + back);
        assert(short.drop_first() =~= front.drop_first() + seq![key]);
        assert forall|i: int| 0 <= i < front.drop_first().len() implies front.drop_first()[i]
            != key by {
            assert(front.contains(front[i + 1]));
        }
        law_value_stands_behind_its_option(front.drop_first(), key, value, back);
    }
}

/// A request may take the seconds that `--timeout` gives, no less than 2 and no more than 30, and 5
/// where it gives no number; the configuration is where `--config` says.
pub proof fn law_options_of_a_command(args: Seq<Seq<char>>, n: nat, value: Seq<char>)
    requires
        n <= u64::MAX,
    ensures
        argument(args, "--timeout"@) == Some(number::decimal(n)) ==> {
            &&& 2 <= n <= 30 ==> timeout(args) == n
            &&& n < 2 ==> timeout(args) == 2
            &&& n > 30 ==> timeout(args) == 30
        },
        argument(args, "--timeout"@) is None ==> timeout(args) == 5,
        argument(args, "--timeout"@) == Some(value) && number::number(
            value,
            10,
            u64::MAX as nat,
        ) is None ==> timeout(args) == 5,
        argument(args, "--config"@) == Some(value) ==> config_at(args) == value,
        argument(args, "--config"@) is None ==> config_at(args) == "/etc/config/portalkeeper"@,
{
    number::law_decimal_reads_back(n, u64::MAX as nat);
}

/// The first `line` section that does not set `enabled` to `0` is the one that counts.
pub proof fn law_first_enabled_section(
    front: Seq<uci::SectionModel>,
    sec: uci::SectionModel,
    back: Seq<uci::SectionModel>,
)
    requires
        forall|i: int| 0 <= i < front.len() ==> (#[trigger] front[i]).get("enabled"@) == Some("0"@),
        sec.get("enabled"@) != Some("0"@),
    ensures
        enabled(front + seq![sec] + back) == Some(sec),
        enabled(front) is None,
    decreases front.len(),
{
    let all = front + seq![sec] + back;
    if front.len() == 0 {
        assert(all[0] == sec);
    } else {
        assert(all[0] == front[0]);
        assert(all.drop_first() =~= front.drop_first() + seq![sec] + back);
        assert forall|i: int| 0 <= i < front.drop_first().len() implies (
        #[trigger] front.drop_first()[i]).get("enabled"@) == Some("0"@) by {
            assert(front[i + 1].get("enabled"@) == Some("0"@));
        }
        law_first_enabled_section(front.drop_first(), sec, back);
    }
}

/// The section sets the option to that value.
pub open spec fn sets(sec: Option<uci::SectionModel>, key: Seq<char>, value: Seq<char>) -> bool {
    sec is Some && sec->0.get(key) == Some(value)
}

/// There is no such section, or it does not set the option.
pub open spec fn unset(sec: Option<uci::SectionModel>, key: Seq<char>) -> bool {
    sec is None || sec->0.get(key) is None
}

/// There is no such section, or it does not set the option or leaves it empty.
pub open spec fn blank(sec: Option<uci::SectionModel>, key: Seq<char>) -> bool {
    unset(sec, key) || sec->0.get(key)->0.len() == 0
}

/// Without arguments the line of a command is what the enabled section sets; an account, a password
/// or a device that it leaves empty, and a slot that it does not set, are those of the main section,
/// which also gives the portal. A slot that nothing sets is `pc`.
pub proof fn law_line_of_a_command(
    args: Seq<Seq<char>>,
    c: Seq<uci::SectionModel>,
    value: Seq<char>,
)
    requires
        argument(args, "--device"@) is None,
        argument(args, "--ua"@) is None,
        argument(args, "--source"@) is None,
    ensures
        ({
            let line = line_of(args, c);
            let main = uci::first_of(c, "portalkeeper"@);
            let sec = enabled(uci::all_of(c, "line"@));
            &&& line.name == "cli"@
            &&& line.source is None
            &&& sets(main, "portal_url"@, value) ==> line.portal_url == value
            &&& unset(main, "portal_url"@) ==> line.portal_url == ""@
            &&& sets(sec, "username"@, value) && value.len() > 0 ==> line.username == value
            &&& blank(sec, "username"@) && sets(main, "username"@, value) ==> line.username == value
            &&& blank(sec, "username"@) && unset(main, "username"@) ==> line.username == ""@
            &&& sets(sec, "password"@, value) && value.len() > 0 ==> line.password == value
            &&& blank(sec, "password"@) && sets(main, "password"@, value) ==> line.password == value
            &&& blank(sec, "password"@) && unset(main, "password"@) ==> line.password == ""@
            &&& sets(sec, "ua"@, value) ==> line.ua == value
            &&& unset(sec, "ua"@) && sets(main, "ua"@, value) ==> line.ua == value
            &&& unset(sec, "ua"@) && unset(main, "ua"@) ==> line.ua == "pc"@
            &&& sets(sec, "device"@, value) && value.len() > 0 ==> line.device == Some(value)
            &&& blank(sec, "device"@) && sets(main, "device"@, value) && value.len() > 0
                ==> line.device == Some(value)
            &&& blank(sec, "device"@) && blank(main, "device"@) ==> line.device is None
        }),
{
}

/// What an argument says counts, whatever the configuration says: a device and a source address as
/// they are given, a slot where it is one of the two that there are.
pub proof fn law_arguments_are_taken(
    args: Seq<Seq<char>>,
    c: Seq<uci::SectionModel>,
    value: Seq<char>,
)
    ensures
        argument(args, "--device"@) == Some(value) ==> line_of(args, c).device == Some(value),
        argument(args, "--source"@) == Some(value) ==> line_of(args, c).source == net::address_of(
            value,
        ),
        argument(args, "--ua"@) == Some("pc"@) ==> line_of(args, c).ua == "pc"@,
        argument(args, "--ua"@) == Some("mobile"@) ==> line_of(args, c).ua == "mobile"@,
        argument(args, "--ua"@) == Some(value) && value != "pc"@ && value != "mobile"@ ==> line_of(
            args,
            c,
        ).ua == line_of(seq![], c).ua,
{
}

/// What a check and an authentication exit with. A check tells what its probes said, and a failed
/// authentication why it failed.
pub proof fn law_exit_codes(detail: Seq<char>, verdict: Option<bool>, code: Code)
    ensures
        check_end(Some(true), detail).1 == 0,
        check_end(Some(false), detail).1 == 1,
        check_end(None, detail).1 == 2,
        text::contains(check_end(verdict, detail).0, detail),
        login_end(true, code, detail).1 == 0,
        login_end(false, code, detail).1 == (if code == Code::Conflict {
            3int
        } else {
            1int
        }),
        code != Code::Conflict && code != Code::BadPass ==> text::contains(
            login_end(false, code, detail).0,
            detail,
        ),
{
    let front = match verdict {
        Some(true) => "结论: 已联网(已认证), 无需登录 — "@,
        Some(false) => "结论: 未认证(被门户劫持), 可执行登录 — "@,
        None => "结论: 无法判定, 网络可能不通 — "@,
    };
    text::law_part_is_contained(front, detail, seq![]);
    assert(check_end(verdict, detail).0 =~= front + detail + seq![]);
    text::law_part_is_contained("结论: 认证失败 ("@, detail, ")"@);
}

/// A line can be signed in by hand exactly where it has an account and a password, which is where
/// the service would check it.
pub proof fn law_who_can_sign_in(l: Chosen, m: daemon::LineModel)
    ensures
        l.username.len() > 0 && l.password.len() > 0 ==> has_credentials(l),
        l.username.len() == 0 || l.password.len() == 0 ==> !has_credentials(l),
        has_credentials(daemon::handed_over(m)) <==> !daemon::lacks_credentials(m),
{
}

}
