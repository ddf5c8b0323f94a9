//! The life of a line under the service: what a check of it and an authentication change, when
//! the service gives up on it, and what the service does at each tick.

use vstd::prelude::*;

use crate::auth::Code;
use crate::auth::LineCfg;
use crate::cli;
use crate::clock;
use crate::net::Ipv4;
use crate::number;
use crate::split;
use crate::text;
use crate::urls;

verus! {

/// Where the service writes the state of its lines.
pub const STATUS_PATH: &'static str = "/tmp/portalkeeper.status";

/// The file that asks the service to check its lines at once.
pub const TRIGGER_PATH: &'static str = "/tmp/portalkeeper.trigger";

/// Where the service writes its log.
pub const LOG_PATH: &'static str = "/tmp/portalkeeper.log";

/// The size from which on the log is cut.
pub const LOG_MAX_BYTES: u64 = 262144;

/// The length of a tick.
pub const TICK_SECS: u64 = 1;

// ---------------------------------------------------------------------------
// Lines

/// The state of a line.
#[derive(Debug, Clone, Copy, PartialEq, Eq, Structural)]
pub enum LineState {
    /// Not checked yet.
    Init,
    /// Account or password is missing.
    NoCredentials,
    /// Online.
    Online,
    /// The last authentication failed, and there are attempts left.
    Retrying,
    /// There are no attempts left.
    Exhausted,
    /// No probe decided.
    Unreachable,
}

impl LineState {
    /// The word for the status.
    pub open spec fn word(self) -> Seq<char> {
        match self {
            LineState::Init => "init"@,
            LineState::NoCredentials => "no-credentials"@,
            LineState::Online => "online"@,
            LineState::Retrying => "retrying"@,
            LineState::Exhausted => "exhausted"@,
            LineState::Unreachable => "unreachable"@,
        }
    }

    /// The word for the status.
    pub fn as_str(self) -> (r: &'static str)
        ensures
            r@ == self.word(),
    {
        match self {
            LineState::Init => "init",
            LineState::NoCredentials => "no-credentials",
            LineState::Online => "online",
            LineState::Retrying => "retrying",
            LineState::Exhausted => "exhausted",
            LineState::Unreachable => "unreachable",
        }
    }
}

/// A line of the service.
#[derive(Debug)]
pub struct LineRun {
    /// The name of its section.
    pub name: String,
    /// The configured address of the portal.
    pub portal_url: String,
    /// What the log calls it.
    pub role: String,
    pub device: Option<String>,
    pub source: Option<Ipv4>,
    /// The slot: `pc` or `mobile`.
    pub ua: String,
    pub username: String,
    pub password: String,
    pub state: LineState,
    pub detail: String,
    /// How many authentications failed in a row.
    pub fail_count: u32,
    /// Whether the service has given up on it.
    pub exhausted: bool,
}

/// A line as plain values.
#[verifier::ext_equal]
pub struct LineModel {
    pub name: Seq<char>,
    pub portal_url: Seq<char>,
    pub role: Seq<char>,
    pub device: Option<Seq<char>>,
    pub source: Option<Ipv4>,
    pub ua: Seq<char>,
    pub username: Seq<char>,
    pub password: Seq<char>,
    pub state: LineState,
    pub detail: Seq<char>,
    pub fail_count: nat,
    pub exhausted: bool,
}

impl View for LineRun {
    type V = LineModel;

    open spec fn view(&self) -> LineModel {
        LineModel {
            name: self.name@,
            portal_url: self.portal_url@,
            role: self.role@,
            device: text::opt_text(self.device),
            source: self.source,
            ua: self.ua@,
            username: self.username@,
            password: self.password@,
            state: self.state,
            detail: self.detail@,
            fail_count: self.fail_count as nat,
            exhausted: self.exhausted,
        }
    }
}

/// Lines, seen as plain values.
pub open spec fn models(v: Seq<LineRun>) -> Seq<LineModel> {
    v.map_values(|l: LineRun| l@)
}

/// The service has given up on a line exactly where as many authentications failed in a row as
/// are allowed.
pub open spec fn counted(m: LineModel, retry_count: u32) -> bool {
    &&& 1 <= retry_count
    &&& m.fail_count <= retry_count
    &&& m.exhausted <==> m.fail_count == retry_count
}

// ---------------------------------------------------------------------------
// The check of a line

/// Account or password is missing.
pub open spec fn lacks_credentials(m: LineModel) -> bool {
    m.username.len() == 0 || m.password.len() == 0
}

/// The line after the check for credentials. Only a line that has them is probed.
pub open spec fn begun(m: LineModel) -> LineModel {
    if lacks_credentials(m) {
        LineModel { state: LineState::NoCredentials, detail: "未配置账号密码"@, ..m }
    } else {
        m
    }
}

/// What the log says of a line.
pub open spec fn noted(m: LineModel, note: Seq<char>) -> Seq<char> {
    "["@ + m.role + "] "@ + note
}

/// What the log says at the check for credentials: only a line that just lost them is noted.
pub open spec fn begin_note(m: LineModel) -> Option<Seq<char>> {
    if lacks_credentials(m) && m.state != LineState::NoCredentials {
        Some(noted(m, "跳过: 未配置账号密码"@))
    } else {
        None
    }
}

/// The line after its probes. `Some(true)` stands for online, `Some(false)` for held by a portal.
pub open spec fn judged(m: LineModel, verdict: Option<bool>, det: Seq<char>) -> LineModel {
    match verdict {
        Some(true) => LineModel {
            state: LineState::Online,
            detail: "已认证在线"@,
            fail_count: 0,
            exhausted: false,
            ..m
        },
        Some(false) => if m.exhausted {
            LineModel {
                state: LineState::Exhausted,
                detail: "自动重试次数已用完: 请排查后点「立即检测并认证」或重启服务重置"@,
                ..m
            }
        } else {
            m
        },
        None => LineModel {
            state: LineState::Unreachable,
            detail: "无法判定(线路可能未接好): "@ + det,
            ..m
        },
    }
}

/// Whether a line is authenticated after its probes: it is held by a portal, has attempts left,
/// and the service is not about to stop.
pub open spec fn authenticates(m: LineModel, verdict: Option<bool>, stopping: bool) -> bool {
    verdict == Some(false) && !m.exhausted && !stopping
}

/// What the log says after the probes of a line.
pub open spec fn verdict_note(
    m: LineModel,
    verdict: Option<bool>,
    det: Seq<char>,
    stopping: bool,
) -> Option<Seq<char>> {
    match verdict {
        Some(true) => if m.state != LineState::Online {
            Some(noted(m, "已在线(探测通过)"@))
        } else {
            None
        },
        Some(false) => if m.exhausted {
            Some(noted(m, "处于暂停重试状态, 跳过本轮"@))
        } else if stopping {
            None
        } else {
            Some(noted(m, "检测到掉线(被门户劫持), 开始认证..."@))
        },
        None => Some(noted(m, "探测无法判定: "@ + det)),
    }
}

/// The detail of a line after its last attempt.
pub open spec fn exhausted_detail(retry_count: nat, code: Code, detail: Seq<char>) -> Seq<char> {
    "连续 "@ + number::decimal(retry_count) + " 次认证失败, 已暂停自动重试 — 最后状态("@ + code.word()
        + "): "@ + detail + "。可到自助后台("@ + urls::SELF_SERVICE_URL@ + ")检查槽位"@
}

/// The detail of a line after an attempt that is not the last.
pub open spec fn retrying_detail(
    failed: nat,
    retry_count: nat,
    code: Code,
    detail: Seq<char>,
) -> Seq<char> {
    "第 "@ + number::decimal(failed) + "/"@ + number::decimal(retry_count) + " 次认证失败("@
        + code.word() + "): "@ + detail + ", 将在下次检测时重试"@
}

/// The line after an authentication.
pub open spec fn logged_in(
    m: LineModel,
    retry_count: u32,
    ok: bool,
    code: Code,
    detail: Seq<char>,
) -> LineModel {
    let failed = m.fail_count + 1;
    if ok {
        LineModel {
            state: LineState::Online,
            detail: if code == Code::Already {
                "本就已在线"@
            } else {
                "认证成功"@
            },
            fail_count: 0,
            exhausted: false,
            ..m
        }
    } else if failed >= retry_count {
        LineModel {
            state: LineState::Exhausted,
            detail: exhausted_detail(retry_count as nat, code, detail),
            fail_count: failed,
            exhausted: true,
            ..m
        }
    } else {
        LineModel {
            state: LineState::Retrying,
            detail: retrying_detail(failed, retry_count as nat, code, detail),
            fail_count: failed,
            ..m
        }
    }
}

/// The line after the count of its attempts was set back.
pub open spec fn reset(m: LineModel) -> LineModel {
    LineModel { fail_count: 0, exhausted: false, ..m }
}

fn note_of(role: &str, note: &str) -> (r: String)
    ensures
        r@ == "["@ + role@ + "] "@ + note@,
{
    let front: String = text::concat3("[", role, "] ");
    text::concat(front.as_str(), note)
}

/// Starts the check of a line. Returns whether the line is to be probed, and what to log.
pub fn begin_check(lr: &mut LineRun) -> (r: (bool, Option<String>))
    ensures
        final(lr)@ == begun(old(lr)@),
        r.0 == !lacks_credentials(old(lr)@),
        text::opt_text(r.1) == begin_note(old(lr)@),
{
    if lr.username.as_str().is_empty() || lr.password.as_str().is_empty() {
        let note: Option<String> = if lr.state != LineState::NoCredentials {
            Some(note_of(lr.role.as_str(), "跳过: 未配置账号密码"))
        } else {
            None
        };
        lr.state = LineState::NoCredentials;
        lr.detail = "未配置账号密码".to_owned();
        (false, note)
    } else {
        (true, None)
    }
}

/// Takes in the verdict of the probes of a line. Returns whether the line is to be authenticated,
/// and what to log.
pub fn judge_verdict(lr: &mut LineRun, verdict: Option<bool>, det: &str, stopping: bool) -> (r: (
    bool,
    Option<String>,
))
    ensures
        final(lr)@ == judged(old(lr)@, verdict, det@),
        r.0 == authenticates(old(lr)@, verdict, stopping),
        text::opt_text(r.1) == verdict_note(old(lr)@, verdict, det@, stopping),
{
    match verdict {
        Some(true) => {
            let note: Option<String> = if lr.state != LineState::Online {
                Some(note_of(lr.role.as_str(), "已在线(探测通过)"))
            } else {
                None
            };
            lr.state = LineState::Online;
            lr.detail = "已认证在线".to_owned();
            lr.fail_count = 0;
            lr.exhausted = false;
            (false, note)
        },
        Some(false) => {
            if lr.exhausted {
                lr.state = LineState::Exhausted;
                lr.detail =
                "自动重试次数已用完: 请排查后点「立即检测并认证」或重启服务重置".to_owned();
                (false, Some(note_of(lr.role.as_str(), "处于暂停重试状态, 跳过本轮")))
            } else if stopping {
                (false, None)
            } else {
                (
                    true,
                    Some(note_of(lr.role.as_str(), "检测到掉线(被门户劫持), 开始认证...")),
                )
            }
        },
        None => {
            lr.state = LineState::Unreachable;
            lr.detail = text::concat("无法判定(线路可能未接好): ", det);
            let what: String = text::concat("探测无法判定: ", det);
            (false, Some(note_of(lr.role.as_str(), what.as_str())))
        },
    }
}

fn exhausted_text(retry_count: u32, code: Code, detail: &str) -> (r: String)
    ensures
        r@ == exhausted_detail(retry_count as nat, code, detail@),
{
    let count: String = number::decimal_text(retry_count as u64);
    let mut out: String = text::concat3(
        "连续 ",
        count.as_str(),
        " 次认证失败, 已暂停自动重试 — 最后状态(",
    );
    out.append(code.as_str());
    out.append("): ");
    out.append(detail);
    out.append("。可到自助后台(");
    out.append(urls::SELF_SERVICE_URL);
    out.append(")检查槽位");
    out
}

fn retrying_text(failed: u32, retry_count: u32, code: Code, detail: &str) -> (r: String)
    ensures
        r@ == retrying_detail(failed as nat, retry_count as nat, code, detail@),
{
    let n: String = number::decimal_text(failed as u64);
    let count: String = number::decimal_text(retry_count as u64);
    let mut out: String = text::concat3("第 ", n.as_str(), "/");
    out.append(count.as_str());
    out.append(" 次认证失败(");
    out.append(code.as_str());
    out.append("): ");
    out.append(detail);
    out.append(", 将在下次检测时重试");
    out
}

/// Takes in the result of an authentication of a line. Returns what to log.
pub fn judge_login(lr: &mut LineRun, retry_count: u32, ok: bool, code: Code, detail: &str) -> (r:
    Option<String>)
    requires
        counted(old(lr)@, retry_count),
        !old(lr).exhausted,
    ensures
        final(lr)@ == logged_in(old(lr)@, retry_count, ok, code, detail@),
        counted(final(lr)@, retry_count),
        text::opt_text(r) == if ok {
            None
        } else {
            Some(noted(old(lr)@, final(lr)@.detail))
        },
{
    if ok {
        lr.state = LineState::Online;
        lr.detail = if code == Code::Already {
            "本就已在线".to_owned()
        } else {
            "认证成功".to_owned()
        };
        lr.fail_count = 0;
        lr.exhausted = false;
        return None;
    }
    lr.fail_count = lr.fail_count + 1;
    if lr.fail_count >= retry_count {
        lr.exhausted = true;
        lr.state = LineState::Exhausted;
        lr.detail = exhausted_text(retry_count, code, detail);
    } else {
        lr.state = LineState::Retrying;
        lr.detail = retrying_text(lr.fail_count, retry_count, code, detail);
    }
    Some(note_of(lr.role.as_str(), lr.detail.as_str()))
}

/// Sets the count of the attempts of all lines back.
pub fn reset_retry(lines: &mut Vec<LineRun>)
    ensures
        final(lines)@.len() == old(lines)@.len(),
        models(final(lines)@) == models(old(lines)@).map_values(|m: LineModel| reset(m)),
{
    let ghost before = lines@;
    let mut i: usize = 0;
    while i < lines.len()
        invariant
            i <= lines@.len(),
            lines@.len() == before.len(),
            forall|j: int| 0 <= j < i ==> (#[trigger] lines@[j])@ == reset(before[j]@),
            forall|j: int| i <= j < lines@.len() ==> (#[trigger] lines@[j]) == before[j],
        decreases lines@.len() - i,
    {
        lines[i].exhausted = false;
        lines[i].fail_count = 0;
        i += 1;
    }
    assert(models(lines@) =~= models(before).map_values(|m: LineModel| reset(m)));
}

/// What an authentication gets of a line.
pub open spec fn handed_over(m: LineModel) -> cli::Chosen {
    cli::Chosen {
        name: m.name,
        portal_url: m.portal_url,
        device: m.device,
        source: m.source,
        username: m.username,
        password: m.password,
        ua: m.ua,
    }
}

/// What an authentication needs of a line.
pub fn line_cfg(lr: &LineRun) -> (r: LineCfg)
    ensures
        r.name@ == lr.name@,
        r.portal_url@ == lr.portal_url@,
        text::opt_text(r.device) == text::opt_text(lr.device),
        r.source == lr.source,
        r.username@ == lr.username@,
        r.password@ == lr.password@,
        r.ua@ == lr.ua@,
        cli::chosen(r) == handed_over(lr@),
{
    let device: Option<String> = match &lr.device {
        Some(d) => Some(d.clone()),
        None => None,
    };
    LineCfg {
        name: lr.name.clone(),
        portal_url: lr.portal_url.clone(),
        device,
        source: lr.source,
        username: lr.username.clone(),
        password: lr.password.clone(),
        ua: lr.ua.clone(),
    }
}

// ---------------------------------------------------------------------------
// Laws of a line

/// Every step of a check keeps the count of failures right.
pub proof fn law_count_is_kept(
    m: LineModel,
    retry_count: u32,
    verdict: Option<bool>,
    det: Seq<char>,
    ok: bool,
    code: Code,
    detail: Seq<char>,
)
    requires
        counted(m, retry_count),
    ensures
        counted(begun(m), retry_count),
        counted(judged(m, verdict, det), retry_count),
        counted(reset(m), retry_count),
        !m.exhausted ==> counted(logged_in(m, retry_count, ok, code, detail), retry_count),
{
}

/// A line that the service has given up on is not authenticated, whatever its probes say, and
/// stays given up until it is online or the count is set back.
pub proof fn law_given_up_line_rests(
    m: LineModel,
    verdict: Option<bool>,
    det: Seq<char>,
    stopping: bool,
)
    requires
        m.exhausted,
    ensures
        !authenticates(m, verdict, stopping),
        judged(m, verdict, det).exhausted <==> verdict != Some(true),
        begun(m).exhausted,
        !reset(m).exhausted,
{
}

/// A line that is online is left alone: it is not authenticated, and its failures are forgotten.
pub proof fn law_online_line_is_left_alone(m: LineModel, det: Seq<char>, stopping: bool)
    ensures
        !authenticates(m, Some(true), stopping),
        judged(m, Some(true), det).state == LineState::Online,
        judged(m, Some(true), det).detail == "已认证在线"@,
        judged(m, Some(true), det).fail_count == 0,
        !judged(m, Some(true), det).exhausted,
{
}

/// A line after failed authentications, in their order.
pub open spec fn after_failures(
    m: LineModel,
    retry_count: u32,
    failures: Seq<(Code, Seq<char>)>,
) -> LineModel
    decreases failures.len(),
{
    if failures.len() == 0 {
        m
    } else {
        logged_in(
            after_failures(m, retry_count, failures.drop_last()),
            retry_count,
            false,
            failures.last().0,
            failures.last().1,
        )
    }
}

/// The service gives up on a line after exactly as many failures in a row as are allowed, and
/// counts them on the way.
pub proof fn law_gives_up_after_the_last_attempt(
    m: LineModel,
    retry_count: u32,
    failures: Seq<(Code, Seq<char>)>,
)
    requires
        counted(m, retry_count),
        m.fail_count == 0,
        failures.len() <= retry_count,
    ensures
        after_failures(m, retry_count, failures).fail_count == failures.len(),
        after_failures(m, retry_count, failures).exhausted <==> failures.len() == retry_count,
        0 < failures.len() < retry_count ==> after_failures(m, retry_count, failures).state
            == LineState::Retrying,
        failures.len() == retry_count ==> after_failures(m, retry_count, failures).state
            == LineState::Exhausted,
    decreases failures.len(),
{
    if failures.len() > 0 {
        law_gives_up_after_the_last_attempt(m, retry_count, failures.drop_last());
    }
}

/// A line that a portal holds goes into its authentication as it was: where it has attempts left,
/// nothing of it changes, and where it has none, the count of its failures does not. A check that
/// decides nothing keeps the count too, and so does the check for credentials.
pub proof fn law_only_an_answer_changes_the_count(m: LineModel, det: Seq<char>)
    ensures
        !m.exhausted ==> judged(m, Some(false), det) == m,
        judged(m, Some(false), det).fail_count == m.fail_count,
        judged(m, Some(false), det).exhausted == m.exhausted,
        m.exhausted ==> judged(m, Some(false), det).state == LineState::Exhausted,
        judged(m, None, det).fail_count == m.fail_count,
        judged(m, None, det).exhausted == m.exhausted,
        judged(m, None, det).state == LineState::Unreachable,
        text::contains(judged(m, None, det).detail, det),
        begun(m).fail_count == m.fail_count,
        begun(m).exhausted == m.exhausted,
{
    text::law_part_is_contained("无法判定(线路可能未接好): "@, det, seq![]);
    assert(judged(m, None, det).detail =~= "无法判定(线路可能未接好): "@ + det + seq![]);
}

/// A line is authenticated exactly where a portal holds it, attempts are left and the service is
/// not about to stop.
pub proof fn law_held_line_is_authenticated(m: LineModel, verdict: Option<bool>, stopping: bool)
    ensures
        authenticates(m, verdict, stopping) <==> {
            &&& verdict == Some(false)
            &&& !m.exhausted
            &&& !stopping
        },
{
}

/// Without an account or a password a line is not probed, and says so; with both, the check for
/// them changes nothing.
pub proof fn law_only_lines_with_credentials_are_checked(m: LineModel)
    ensures
        m.username.len() > 0 && m.password.len() > 0 ==> !lacks_credentials(m) && begun(m) == m,
        m.username.len() == 0 || m.password.len() == 0 ==> lacks_credentials(m) && begun(m).state
            == LineState::NoCredentials && begun(m).detail == "未配置账号密码"@,
{
}

/// A failed authentication counts one failure more and is told with its code and its message; one
/// that succeeded forgets all failures.
pub proof fn law_result_of_an_authentication(
    m: LineModel,
    retry_count: u32,
    code: Code,
    detail: Seq<char>,
)
    requires
        counted(m, retry_count),
        !m.exhausted,
    ensures
        logged_in(m, retry_count, true, code, detail).state == LineState::Online,
        code == Code::Already ==> logged_in(m, retry_count, true, code, detail).detail == "本就已在线"@,
        code != Code::Already ==> logged_in(m, retry_count, true, code, detail).detail == "认证成功"@,
        logged_in(m, retry_count, true, code, detail).fail_count == 0,
        !logged_in(m, retry_count, true, code, detail).exhausted,
        logged_in(m, retry_count, false, code, detail).fail_count == m.fail_count + 1,
        logged_in(m, retry_count, false, code, detail).exhausted <==> m.fail_count + 1
            == retry_count,
        logged_in(m, retry_count, false, code, detail).state == (if m.fail_count + 1
            == retry_count {
            LineState::Exhausted
        } else {
            LineState::Retrying
        }),
        text::contains(logged_in(m, retry_count, false, code, detail).detail, detail),
        text::contains(logged_in(m, retry_count, false, code, detail).detail, code.word()),
        text::contains(
            logged_in(m, retry_count, false, code, detail).detail,
            number::decimal(retry_count as nat),
        ),
        m.fail_count + 1 < retry_count ==> text::contains(
            logged_in(m, retry_count, false, code, detail).detail,
            number::decimal(m.fail_count + 1) + "/"@ + number::decimal(retry_count as nat),
        ),
{
    let failed = m.fail_count + 1;
    let n = number::decimal(retry_count as nat);
    let told = logged_in(m, retry_count, false, code, detail).detail;
    if failed >= retry_count {
        let a = "连续 "@;
        let b = " 次认证失败, 已暂停自动重试 — 最后状态("@;
        let c = "): "@;
        let d = "。可到自助后台("@ + urls::SELF_SERVICE_URL@ + ")检查槽位"@;
        text::law_part_is_contained(a, n, b + code.word() + c + detail + d);
        assert(told =~= a + n + (b + code.word() + c + detail + d));
        text::law_part_is_contained(a + n + b, code.word(), c + detail + d);
        assert(told =~= a + n + b + code.word() + (c + detail + d));
        text::law_part_is_contained(a + n + b + code.word() + c, detail, d);
        assert(told =~= a + n + b + code.word() + c + detail + d);
    } else {
        let a = "第 "@;
        let k = number::decimal(failed) + "/"@ + n;
        let b = " 次认证失败("@;
        let c = "): "@;
        let d = ", 将在下次检测时重试"@;
        text::law_part_is_contained(a, k, b + code.word() + c + detail + d);
        assert(told =~= a + k + (b + code.word() + c + detail + d));
        text::law_part_is_contained(
            a + number::decimal(failed) + "/"@,
            n,
            b + code.word() + c + detail + d,
        );
        assert(told =~= a + number::decimal(failed) + "/"@ + n + (b + code.word() + c + detail
            + d));
        text::law_part_is_contained(a + k + b, code.word(), c + detail + d);
        assert(told =~= a + k + b + code.word() + (c + detail + d));
        text::law_part_is_contained(a + k + b + code.word() + c, detail, d);
        assert(told =~= a + k + b + code.word() + c + detail + d);
    }
}

/// A line after a round in which a portal holds it and its authentication fails. A failure is what
/// the probes tell, the code and the message.
pub open spec fn after_failed_round(
    m: LineModel,
    retry_count: u32,
    failure: (Seq<char>, Code, Seq<char>),
) -> LineModel {
    logged_in(
        judged(begun(m), Some(false), failure.0),
        retry_count,
        false,
        failure.1,
        failure.2,
    )
}

/// A line after such rounds, in their order.
pub open spec fn after_failed_rounds(
    m: LineModel,
    retry_count: u32,
    failures: Seq<(Seq<char>, Code, Seq<char>)>,
) -> LineModel
    decreases failures.len(),
{
    if failures.len() == 0 {
        m
    } else {
        after_failed_round(
            after_failed_rounds(m, retry_count, failures.drop_last()),
            retry_count,
            failures.last(),
        )
    }
}

/// Over whole rounds, too, the service gives up on a line after exactly as many failures in a row
/// as are allowed: every round before that counts one more and leads to an authentication, and no
/// round after it does.
pub proof fn law_gives_up_after_failed_rounds(
    m: LineModel,
    retry_count: u32,
    failures: Seq<(Seq<char>, Code, Seq<char>)>,
)
    requires
        counted(m, retry_count),
        m.fail_count == 0,
        m.username.len() > 0,
        m.password.len() > 0,
        failures.len() <= retry_count,
    ensures
        after_failed_rounds(m, retry_count, failures).fail_count == failures.len(),
        after_failed_rounds(m, retry_count, failures).exhausted <==> failures.len() == retry_count,
        authenticates(after_failed_rounds(m, retry_count, failures), Some(false), false)
            <==> failures.len() < retry_count,
        0 < failures.len() < retry_count ==> after_failed_rounds(m, retry_count, failures).state
            == LineState::Retrying,
        failures.len() == retry_count ==> after_failed_rounds(m, retry_count, failures).state
            == LineState::Exhausted,
    decreases failures.len(),
{
    if failures.len() > 0 {
        law_gives_up_after_failed_rounds(m, retry_count, failures.drop_last());
    }
}

/// Setting the count back gives a line all its attempts again, and changes nothing else.
pub proof fn law_reset_gives_all_attempts_back(m: LineModel, stopping: bool)
    ensures
        reset(m).fail_count == 0,
        !reset(m).exhausted,
        reset(m).state == m.state,
        reset(m).detail == m.detail,
        authenticates(reset(m), Some(false), false),
{
}

/// The log names the line, and tells of a change only: of credentials that are gone, of a line
/// that came online, of every line that is held or cannot be judged, but of no authentication
/// that the end of the service forestalls.
pub proof fn law_log_tells_of_changes(
    m: LineModel,
    det: Seq<char>,
    stopping: bool,
    verdict: Option<bool>,
)
    ensures
        begin_note(m) is Some <==> (m.username.len() == 0 || m.password.len() == 0) && m.state
            != LineState::NoCredentials,
        begin_note(m) is Some ==> text::starts_with(begin_note(m)->0, "["@ + m.role + "] "@),
        verdict_note(m, Some(true), det, stopping) is Some <==> m.state != LineState::Online,
        verdict_note(m, Some(false), det, stopping) is None <==> !m.exhausted && stopping,
        verdict_note(m, None, det, stopping) is Some,
        text::contains(verdict_note(m, None, det, stopping)->0, det),
        verdict_note(m, verdict, det, stopping) is Some ==> text::starts_with(
            verdict_note(m, verdict, det, stopping)->0,
            "["@ + m.role + "] "@,
        ),
{
    let front = "["@ + m.role + "] "@;
    assert forall|note: Seq<char>| text::starts_with(#[trigger] noted(m, note), front) by {
        assert(noted(m, note).subrange(0, front.len() as int) =~= front);
    }
    text::law_part_is_contained(front + "探测无法判定: "@, det, seq![]);
    assert(verdict_note(m, None, det, stopping)->0 =~= front + "探测无法判定: "@ + det + seq![]);
}

/// The words for the states, by which the status is read.
pub proof fn law_words_of_states(s: LineState)
    ensures
        s.word() == "init"@ <==> s == LineState::Init,
        s.word() == "no-credentials"@ <==> s == LineState::NoCredentials,
        s.word() == "online"@ <==> s == LineState::Online,
        s.word() == "retrying"@ <==> s == LineState::Retrying,
        s.word() == "exhausted"@ <==> s == LineState::Exhausted,
        s.word() == "unreachable"@ <==> s == LineState::Unreachable,
{
    reveal_strlit("init");
    reveal_strlit("no-credentials");
    reveal_strlit("online");
    reveal_strlit("retrying");
    reveal_strlit("exhausted");
    reveal_strlit("unreachable");
    assert("exhausted"@[0] == 'e');
    assert("init"@[0] == 'i');
    assert("no-credentials"@[0] == 'n');
    assert("online"@[0] == 'o');
    assert("retrying"@[0] == 'r');
    assert("unreachable"@[0] == 'u');
}

/// An authentication gets what is configured of its line, whatever happened to the line before.
pub proof fn law_line_is_handed_over_whole(a: LineModel, b: LineModel)
    ensures
        handed_over(a).name == a.name,
        handed_over(a).portal_url == a.portal_url,
        handed_over(a).device == a.device,
        handed_over(a).source == a.source,
        handed_over(a).username == a.username,
        handed_over(a).password == a.password,
        handed_over(a).ua == a.ua,
        same_settings(a, b) ==> handed_over(a) == handed_over(b),
{
}

/// No step of a check changes what is configured of a line.
pub proof fn law_settings_are_kept(
    m: LineModel,
    retry_count: u32,
    verdict: Option<bool>,
    det: Seq<char>,
    ok: bool,
    code: Code,
    detail: Seq<char>,
)
    ensures
        same_settings(begun(m), m),
        same_settings(judged(m, verdict, det), m),
        same_settings(logged_in(m, retry_count, ok, code, detail), m),
        same_settings(reset(m), m),
{
}

/// Two lines are configured alike.
pub open spec fn same_settings(a: LineModel, b: LineModel) -> bool {
    &&& a.name == b.name
    &&& a.portal_url == b.portal_url
    &&& a.role == b.role
    &&& a.device == b.device
    &&& a.source == b.source
    &&& a.ua == b.ua
    &&& a.username == b.username
    &&& a.password == b.password
}

// ---------------------------------------------------------------------------
// The service

/// What the service does at a tick.
#[derive(Debug, Clone, Copy, PartialEq, Eq, Structural)]
pub enum Tick {
    /// It ends.
    Stop,
    /// It checks all lines, and sets the count of their attempts back before.
    CheckAfresh,
    /// It checks all lines.
    Check,
    /// Nothing.
    Rest,
}

/// What the service does at a tick: a signal to stop comes first, then a trigger, then the time
/// of the next check. Without automatic retries only a trigger starts a check.
pub open spec fn tick_action(
    stopping: bool,
    triggered: bool,
    auto_retry: bool,
    now: u64,
    next: u64,
) -> Tick {
    if stopping {
        Tick::Stop
    } else if triggered {
        Tick::CheckAfresh
    } else if auto_retry && now >= next {
        Tick::Check
    } else {
        Tick::Rest
    }
}

/// What the service does at a tick.
pub fn tick(stopping: bool, triggered: bool, auto_retry: bool, now: u64, next: u64) -> (r: Tick)
    ensures
        r == tick_action(stopping, triggered, auto_retry, now, next),
{
    if stopping {
        Tick::Stop
    } else if triggered {
        Tick::CheckAfresh
    } else if auto_retry && now >= next {
        Tick::Check
    } else {
        Tick::Rest
    }
}

/// The time of the next check; none where the clock cannot reach it.
pub open spec fn due_time(now: u64, retry_interval: u64) -> Option<u64> {
    if now + retry_interval <= u64::MAX {
        Some((now + retry_interval) as u64)
    } else {
        None
    }
}

/// The time of the next check; none where the clock cannot reach it.
pub fn next_check(now: u64, retry_interval: u64) -> (r: Option<u64>)
    ensures
        match r {
            Some(t) => t == now + retry_interval,
            None => now + retry_interval > u64::MAX,
        },
        r == due_time(now, retry_interval),
{
    now.checked_add(retry_interval)
}

/// Without automatic retries nothing but a trigger or a signal makes the service act.
pub proof fn law_waits_for_a_trigger(now: u64, next: u64)
    ensures
        tick_action(false, false, false, now, next) == Tick::Rest,
        tick_action(false, true, false, now, next) == Tick::CheckAfresh,
{
}

/// With automatic retries a line is checked no sooner than an interval after the last check.
pub proof fn law_checks_keep_their_distance(last: u64, retry_interval: u64, now: u64)
    requires
        last + retry_interval <= u64::MAX,
    ensures
        tick_action(false, false, true, now, (last + retry_interval) as u64) == Tick::Check <==> now
            >= last + retry_interval,
{
}

/// Between a check and the next one lies one interval: until then the service rests, and then it
/// checks.
pub proof fn law_next_check_is_an_interval_away(now: u64, retry_interval: u64, later: u64)
    ensures
        due_time(now, retry_interval) is None <==> now + retry_interval > u64::MAX,
        due_time(now, retry_interval) matches Some(t) ==> t - now == retry_interval && (tick_action(
            false,
            false,
            true,
            later,
            t,
        ) == Tick::Check <==> later - now >= retry_interval),
{
}

/// A signal to stop goes before everything. A trigger goes before the time of the next check, and
/// sets the count of the attempts back; a check at its time does not.
pub proof fn law_order_of_a_tick(triggered: bool, auto_retry: bool, now: u64, next: u64)
    ensures
        tick_action(true, triggered, auto_retry, now, next) == Tick::Stop,
        tick_action(false, true, auto_retry, now, next) == Tick::CheckAfresh,
        now >= next ==> tick_action(false, false, true, now, next) == Tick::Check,
        now < next ==> tick_action(false, false, auto_retry, now, next) == Tick::Rest,
        tick_action(false, false, false, now, next) == Tick::Rest,
{
}

/// The name of a signal.
pub open spec fn signal_name(sig: i32) -> Seq<char> {
    if sig == 15 {
        "SIGTERM(服务停止或重启)"@
    } else if sig == 2 {
        "SIGINT(Ctrl+C)"@
    } else {
        "停止信号"@
    }
}

/// What the log says when a signal ends the service; nothing without a signal.
pub open spec fn stop_text(sig: i32, pid: u32, started: u64, now: u64) -> Option<Seq<char>> {
    if sig == 0 {
        None
    } else {
        Some(
            "守护进程退出: 收到 "@ + signal_name(sig) + ", PID "@ + number::decimal(pid as nat)
                + ", 本次运行时长 "@ + clock::duration_text(
                if now >= started {
                    (now - started) as nat
                } else {
                    0
                },
            ),
        )
    }
}

fn name_of_signal(sig: i32) -> (r: &'static str)
    ensures
        r@ == signal_name(sig),
{
    if sig == 15 {
        "SIGTERM(服务停止或重启)"
    } else if sig == 2 {
        "SIGINT(Ctrl+C)"
    } else {
        "停止信号"
    }
}

/// Whether a signal asks the service to end.
pub fn stop_pending(sig: i32) -> (r: bool)
    ensures
        r == (sig != 0),
        forall|pid: u32, started: u64, now: u64|
            r == #[trigger] stop_text(sig, pid, started, now) is Some,
{
    sig != 0
}

/// What the log says when a signal ends the service; nothing without a signal.
pub fn stop_requested(sig: i32, pid: u32, started: u64, now: u64) -> (r: Option<String>)
    ensures
        text::opt_text(r) == stop_text(sig, pid, started, now),
{
    if sig == 0 {
        return None;
    }
    let ran: u64 = if now >= started {
        now - started
    } else {
        0
    };
    let id: String = number::decimal_text(pid as u64);
    let time: String = clock::human_duration(ran);
    let mut out: String = text::concat3("守护进程退出: 收到 ", name_of_signal(sig), ", PID ");
    out.append(id.as_str());
    out.append(", 本次运行时长 ");
    out.append(time.as_str());
    Some(out)
}

/// The log tells of every signal that ends the service, with the signal's name, the process and
/// how long it ran; a clock that was set back counts as no time.
pub proof fn law_stop_is_told(sig: i32, pid: u32, started: u64, now: u64)
    ensures
        stop_text(sig, pid, started, now) is None <==> sig == 0,
        sig == 15 ==> text::contains(stop_text(sig, pid, started, now)->0, "SIGTERM"@),
        sig == 2 ==> text::contains(stop_text(sig, pid, started, now)->0, "SIGINT"@),
        sig != 0 ==> text::contains(
            stop_text(sig, pid, started, now)->0,
            "PID "@ + number::decimal(pid as nat) + ","@,
        ),
        sig != 0 && now >= started ==> text::contains(
            stop_text(sig, pid, started, now)->0,
            clock::duration_text((now - started) as nat),
        ),
        sig != 0 && now < started ==> text::contains(
            stop_text(sig, pid, started, now)->0,
            clock::duration_text(0),
        ),
{
    if sig != 0 {
        let told = stop_text(sig, pid, started, now)->0;
        let a = "守护进程退出: 收到 "@;
        let name = signal_name(sig);
        let id = number::decimal(pid as nat);
        let time = clock::duration_text(
            if now >= started {
                (now - started) as nat
            } else {
                0
            },
        );
        reveal_strlit("SIGTERM");
        reveal_strlit("SIGTERM(服务停止或重启)");
        reveal_strlit("SIGINT");
        reveal_strlit("SIGINT(Ctrl+C)");
        reveal_strlit("PID ");
        reveal_strlit(", PID ");
        reveal_strlit(", 本次运行时长 ");
        reveal_strlit(",");
        let rest = ", PID "@ + id + ", 本次运行时长 "@ + time;
        if sig == 15 {
            let tail = name.skip(7) + rest;
            assert(name =~= "SIGTERM"@ + name.skip(7));
            text::law_part_is_contained(a, "SIGTERM"@, tail);
            assert(told =~= a + "SIGTERM"@ + tail);
        }
        if sig == 2 {
            let tail = name.skip(6) + rest;
            assert(name =~= "SIGINT"@ + name.skip(6));
            text::law_part_is_contained(a, "SIGINT"@, tail);
            assert(told =~= a + "SIGINT"@ + tail);
        }
        let told_id = "PID "@ + id + ","@;
        let tail = ", 本次运行时长 "@.skip(1) + time;
        text::law_part_is_contained(a + name + ", "@, told_id, tail);
        reveal_strlit(", ");
        assert(", "@ + "PID "@ =~= ", PID "@);
        assert(","@ + ", 本次运行时长 "@.skip(1) =~= ", 本次运行时长 "@);
        assert(told =~= a + name + (", "@ + "PID "@) + id + (","@ + ", 本次运行时长 "@.skip(1)) + time);
        assert(told =~= a + name + ", "@ + told_id + tail);
        text::law_part_is_contained(a + name + ", PID "@ + id + ", 本次运行时长 "@, time, seq![]);
        assert(told =~= a + name + ", PID "@ + id + ", 本次运行时长 "@ + time + seq![]);
    }
}

/// What the main line lacks, for the log.
pub open spec fn missing_words(username: Seq<char>, password: Seq<char>) -> Seq<Seq<char>> {
    (if text::trim(username).len() == 0 {
        seq!["账号(username)"@]
    } else {
        seq![]
    }) + (if password.len() == 0 {
        seq!["密码(password)"@]
    } else {
        seq![]
    })
}

/// What the log says where the main line lacks an account or a password, and the service does not
/// start; nothing where it has both.
pub open spec fn missing_text(username: Seq<char>, password: Seq<char>) -> Option<Seq<char>> {
    let words = missing_words(username, password);
    if words.len() == 0 {
        None
    } else {
        Some(
            "服务未启动: 主线路缺少必需配置 "@ + split::joined(words, " + "@)
                + " —— 认证需要账号+密码, 其余参数都可留空(留空即自动检测/用默认值)。配置方式: ① LuCI「概览 → 认证服务」填好后点「保存并应用」; ② 或命令行 uci set portalkeeper.main.username='账号' / uci set portalkeeper.main.password='密码' 后 uci commit portalkeeper && /etc/init.d/portalkeeper restart。补齐前守护进程不会启动。"@,
        )
    }
}

/// What the log says where the service cannot start.
pub fn missing_settings(username: &str, password: &str) -> (r: Option<String>)
    ensures
        text::opt_text(r) == missing_text(username@, password@),
{
    let mut words: Vec<String> = Vec::new();
    let account: String = text::trimmed(username);
    if account.as_str().is_empty() {
        words.push("账号(username)".to_owned());
    }
    if password.is_empty() {
        words.push("密码(password)".to_owned());
    }
    assert(text::texts(words@) =~= missing_words(username@, password@));
    if words.len() == 0 {
        return None;
    }
    let list: String = split::join(&words, " + ");
    Some(
        text::concat3(
            "服务未启动: 主线路缺少必需配置 ",
            list.as_str(),
            " —— 认证需要账号+密码, 其余参数都可留空(留空即自动检测/用默认值)。配置方式: ① LuCI「概览 → 认证服务」填好后点「保存并应用」; ② 或命令行 uci set portalkeeper.main.username='账号' / uci set portalkeeper.main.password='密码' 后 uci commit portalkeeper && /etc/init.d/portalkeeper restart。补齐前守护进程不会启动。",
        ),
    )
}

/// What is missing is named, and what is there is not.
pub proof fn law_missing_settings_are_named(username: Seq<char>, password: Seq<char>)
    requires
        text::trim(username).len() == 0 || password.len() == 0,
    ensures
        missing_text(username, password) is Some,
        text::trim(username).len() == 0 && password.len() > 0 ==> text::contains(
            missing_text(username, password)->0,
            "必需配置 账号(username) ——"@,
        ),
        text::trim(username).len() > 0 && password.len() == 0 ==> text::contains(
            missing_text(username, password)->0,
            "必需配置 密码(password) ——"@,
        ),
        text::trim(username).len() == 0 && password.len() == 0 ==> text::contains(
            missing_text(username, password)->0,
            "必需配置 账号(username) + 密码(password) ——"@,
        ),
{
    let words = missing_words(username, password);
    let list = split::joined(words, " + "@);
    reveal_with_fuel(split::joined, 2);
    let a = "服务未启动: 主线路缺少必需配置 "@;
    let b = " —— 认证需要账号+密码, 其余参数都可留空(留空即自动检测/用默认值)。配置方式: ① LuCI「概览 → 认证服务」填好后点「保存并应用」; ② 或命令行 uci set portalkeeper.main.username='账号' / uci set portalkeeper.main.password='密码' 后 uci commit portalkeeper && /etc/init.d/portalkeeper restart。补齐前守护进程不会启动。"@;
    let told = missing_text(username, password)->0;
    reveal_strlit("服务未启动: 主线路缺少必需配置 ");
    reveal_strlit("必需配置 ");
    reveal_strlit(" ——");
    reveal_strlit(" —— 认证需要账号+密码, 其余参数都可留空(留空即自动检测/用默认值)。配置方式: ① LuCI「概览 → 认证服务」填好后点「保存并应用」; ② 或命令行 uci set portalkeeper.main.username='账号' / uci set portalkeeper.main.password='密码' 后 uci commit portalkeeper && /etc/init.d/portalkeeper restart。补齐前守护进程不会启动。");
    assert(a =~= a.take(12) + "必需配置 "@);
    assert(b =~= " ——"@ + b.skip(3));
    let part = "必需配置 "@ + list + " ——"@;
    text::law_part_is_contained(a.take(12), part, b.skip(3));
    assert(told =~= (a.take(12) + "必需配置 "@) + list + (" ——"@ + b.skip(3)));
    assert(told =~= a.take(12) + part + b.skip(3));
    reveal_strlit("账号(username)");
    reveal_strlit("密码(password)");
    reveal_strlit(" + ");
    reveal_strlit("必需配置 账号(username) ——");
    reveal_strlit("必需配置 密码(password) ——");
    reveal_strlit("必需配置 账号(username) + 密码(password) ——");
    if text::trim(username).len() == 0 && password.len() > 0 {
        assert(list =~= "账号(username)"@);
        assert(part =~= "必需配置 账号(username) ——"@);
    } else if text::trim(username).len() > 0 {
        assert(list =~= "密码(password)"@);
        assert(part =~= "必需配置 密码(password) ——"@);
    } else {
        assert(words.drop_last() =~= seq!["账号(username)"@]);
        assert(list =~= "账号(username)"@ + " + "@ + "密码(password)"@);
        assert(part =~= "必需配置 账号(username) + 密码(password) ——"@);
    }
}

/// The service starts exactly where the main line has an account that is not blank and a password.
pub proof fn law_starts_with_credentials(username: Seq<char>, password: Seq<char>)
    ensures
        missing_text(username, password) is None <==> text::trim(username).len() > 0
            && password.len() > 0,
{
}

}
