//! One authentication: probe, fetch the login page, send the form, and check that the line is
//! through. Every step waits for the reply to one request.

use vstd::prelude::*;

use crate::agent;
use crate::charset;
use crate::forms;
use crate::http;
use crate::http::HttpResponse;
use crate::login;
use crate::login::FetchStep;
use crate::net::Ipv4;
use crate::pages;
use crate::probe;
use crate::probe::ProbeState;
use crate::text;
use crate::uci;
use crate::urls;

verus! {

/// A line to be authenticated.
#[derive(Debug, Clone)]
pub struct LineCfg {
    pub name: String,
    /// The configured address of the portal; empty where only redirects tell it.
    pub portal_url: String,
    /// The network device of the line.
    pub device: Option<String>,
    /// The source address of the line.
    pub source: Option<Ipv4>,
    pub username: String,
    pub password: String,
    /// The slot: `pc` or `mobile`.
    pub ua: String,
}

/// How an authentication ended.
#[derive(Debug, Clone, Copy, PartialEq, Eq, Structural)]
pub enum Code {
    /// The line was online before.
    Already,
    /// The line is through.
    Through,
    /// The portal refused the password.
    BadPass,
    /// Another device holds the slot.
    Conflict,
    /// No portal was found, or its login page could not be had.
    Unreachable,
    /// The form could not be sent, or the line is not through.
    Fail,
}

impl Code {
    /// The word for the log and the status.
    pub open spec fn word(self) -> Seq<char> {
        match self {
            Code::Already => "already"@,
            Code::Through => "ok"@,
            Code::BadPass => "badpass"@,
            Code::Conflict => "conflict"@,
            Code::Unreachable => "unreachable"@,
            Code::Fail => "fail"@,
        }
    }

    /// The word for the log and the status.
    pub fn as_str(self) -> (r: &'static str)
        ensures
            r@ == self.word(),
    {
        match self {
            Code::Already => "already",
            Code::Through => "ok",
            Code::BadPass => "badpass",
            Code::Conflict => "conflict",
            Code::Unreachable => "unreachable",
            Code::Fail => "fail",
        }
    }
}

// ---------------------------------------------------------------------------
// Steps

/// What stays the same during an authentication.
#[derive(Debug)]
pub struct Session {
    pub line: LineCfg,
    /// The `User-Agent` of every request to the portal.
    pub agent: String,
    /// The addresses that are probed.
    pub targets: Vec<(String, String)>,
}

/// A session as plain values.
pub struct SessionModel {
    pub portal_url: Seq<char>,
    pub username: Seq<char>,
    pub password: Seq<char>,
    pub slot: Seq<char>,
    pub agent: Seq<char>,
    pub targets: Seq<(Seq<char>, Seq<char>)>,
}

impl View for Session {
    type V = SessionModel;

    open spec fn view(&self) -> SessionModel {
        SessionModel {
            portal_url: self.line.portal_url@,
            username: self.line.username@,
            password: self.line.password@,
            slot: self.line.ua@,
            agent: self.agent@,
            targets: text::pairs(self.targets@),
        }
    }
}

/// Where an authentication stands: which reply it waits for.
#[derive(Debug)]
pub enum AuthStep {
    /// The reply to the probe of a target.
    Probe { index: usize },
    /// The reply to request number `hop` for the login page.
    Fetch { url: String, hop: u32 },
    /// The reply to the form.
    Submit { url: String, cookie: String, body: String },
    /// The reply to a probe of the first target after a pause.
    Review { attempt: u32, message: String },
    /// None: the authentication ended.
    Done { ok: bool, code: Code, detail: String },
}

/// Where an authentication stands, as plain values.
pub enum Step {
    Probe { index: int },
    Fetch { url: Seq<char>, hop: nat },
    Submit { url: Seq<char>, cookie: Seq<char>, body: Seq<char> },
    Review { attempt: nat, message: Seq<char> },
    Done { ok: bool, code: Code, detail: Seq<char> },
}

impl View for AuthStep {
    type V = Step;

    open spec fn view(&self) -> Step {
        match *self {
            AuthStep::Probe { index } => Step::Probe { index: index as int },
            AuthStep::Fetch { url, hop } => Step::Fetch { url: url@, hop: hop as nat },
            AuthStep::Submit { url, cookie, body } => Step::Submit {
                url: url@,
                cookie: cookie@,
                body: body@,
            },
            AuthStep::Review { attempt, message } => Step::Review {
                attempt: attempt as nat,
                message: message@,
            },
            AuthStep::Done { ok, code, detail } => Step::Done { ok, code, detail: detail@ },
        }
    }
}

/// The step belongs to the session.
pub open spec fn step_ok(s: SessionModel, step: Step) -> bool {
    &&& s.targets.len() > 0
    &&& match step {
        Step::Probe { index } => 0 <= index < s.targets.len(),
        Step::Fetch { hop, .. } => hop <= 2,
        Step::Review { attempt, .. } => 1 <= attempt <= 2,
        _ => true,
    }
}

/// The message tells a wrong password.
pub open spec fn tells_bad_password(message: Seq<char>) -> bool {
    text::contains(message, "密码错误"@)
}

/// The message tells that another device holds the slot.
pub open spec fn tells_conflict(message: Seq<char>) -> bool {
    ||| text::contains(message, "已在线"@)
    ||| text::contains(message, "重复"@)
    ||| text::contains(message, "超限"@)
    ||| text::contains(message, "终端"@)
    ||| text::contains(message, "绑定"@)
    ||| text::contains(message, "占用"@)
}

/// The step after the last probe that found nothing: the configured portal, if there is one.
pub open spec fn without_redirect(s: SessionModel) -> Step {
    match urls::portal_address(s.portal_url) {
        Some(url) => Step::Fetch { url, hop: 0 },
        None => Step::Done {
            ok: false,
            code: Code::Unreachable,
            detail: "未探测到门户, 请手动填写门户地址(portal_url)"@,
        },
    }
}

/// The step after a probe of target `index`.
pub open spec fn after_probe(s: SessionModel, index: int, found: probe::Probe) -> Step {
    match found {
        probe::Probe::Online => Step::Done { ok: true, code: Code::Already, detail: "已在线"@ },
        probe::Probe::Captive(url) => Step::Fetch { url, hop: 0 },
        _ => if index + 1 < s.targets.len() {
            Step::Probe { index: index + 1 }
        } else {
            without_redirect(s)
        },
    }
}

/// The step after a reply to a request for the login page.
pub open spec fn after_fetch(s: SessionModel, hop: nat, got: login::Fetched) -> Step {
    match got {
        login::Fetched::Follow(url) => Step::Fetch { url, hop: hop + 1 },
        login::Fetched::Failed(e) => Step::Done {
            ok: false,
            code: Code::Unreachable,
            detail: "门户连接失败: "@ + e,
        },
        login::Fetched::Page { url, html, cookie } => Step::Submit {
            url,
            cookie,
            body: login::form_body(login::login_fields(html, s.slot, s.username, s.password)),
        },
    }
}

/// The step after the portal's message to the form.
pub open spec fn after_message(message: Seq<char>) -> Step {
    if tells_bad_password(message) {
        Step::Done { ok: false, code: Code::BadPass, detail: message }
    } else if tells_conflict(message) {
        Step::Done { ok: false, code: Code::Conflict, detail: message }
    } else {
        Step::Review { attempt: 1, message }
    }
}

/// The step after the reply to the form.
pub open spec fn after_submit(reply: Result<http::Response, Seq<char>>) -> Step {
    match reply {
        Err(e) => Step::Done { ok: false, code: Code::Fail, detail: "POST 失败: "@ + e },
        Ok(resp) => after_message(forms::message_in(forms::tags(charset::body_text(resp.body)))),
    }
}

/// The step after a probe that checks whether the line is through.
pub open spec fn after_review(attempt: nat, message: Seq<char>, found: probe::Probe) -> Step {
    if found == probe::Probe::Online {
        Step::Done { ok: true, code: Code::Through, detail: message }
    } else if attempt < 2 {
        Step::Review { attempt: attempt + 1, message }
    } else {
        Step::Done {
            ok: false,
            code: Code::Fail,
            detail: if message.len() == 0 {
                "复核未放行"@
            } else {
                message
            },
        }
    }
}

/// The step after a reply.
pub open spec fn next_step(
    s: SessionModel,
    step: Step,
    reply: Result<http::Response, Seq<char>>,
) -> Step {
    match step {
        Step::Probe { index } => after_probe(s, index, probe::probed(s.targets[index].0, reply)),
        Step::Fetch { url, hop } => after_fetch(s, hop, login::fetched(url, hop, reply)),
        Step::Submit { .. } => after_submit(reply),
        Step::Review { attempt, message } => after_review(
            attempt,
            message,
            probe::probed(s.targets[0].0, reply),
        ),
        Step::Done { .. } => step,
    }
}

/// Opens the authentication of a line. The clock and the number of the process choose the phone of
/// a `mobile` slot; `setting` can name other addresses to probe.
pub fn open_session(
    line: LineCfg,
    clock: Option<(u64, u32)>,
    pid: u32,
    setting: Option<&str>,
) -> (r: Session)
    ensures
        r.line == line,
        r.agent@ == agent::agent_of(line.ua@, clock, pid),
        text::pairs(r.targets@) == urls::login_targets(uci::opt_str(setting)),
        step_ok(r@, Step::Probe { index: 0 }),
{
    let agent: String = agent::slot_agent(line.ua.as_str(), clock, pid);
    let targets: Vec<(String, String)> = urls::login_probe_targets(setting);
    Session { line, agent, targets }
}

/// The first step.
pub fn begin() -> (r: AuthStep)
    ensures
        r@ == (Step::Probe { index: 0 }),
{
    AuthStep::Probe { index: 0 }
}

fn bad_password(message: &str) -> (r: bool)
    ensures
        r == tells_bad_password(message@),
{
    text::has(message, "密码错误")
}

fn conflict(message: &str) -> (r: bool)
    ensures
        r == tells_conflict(message@),
{
    text::has(message, "已在线") || text::has(message, "重复") || text::has(message, "超限")
        || text::has(message, "终端") || text::has(message, "绑定") || text::has(message, "占用")
}

/// The step after the portal's message to the form.
pub fn judge_message(message: String) -> (r: AuthStep)
    ensures
        r@ == after_message(message@),
{
    if bad_password(message.as_str()) {
        AuthStep::Done { ok: false, code: Code::BadPass, detail: message }
    } else if conflict(message.as_str()) {
        AuthStep::Done { ok: false, code: Code::Conflict, detail: message }
    } else {
        AuthStep::Review { attempt: 1, message }
    }
}

/// The step after a probe of target `index`.
pub fn judge_probe(s: &Session, index: usize, found: ProbeState) -> (r: AuthStep)
    requires
        index < s.targets@.len(),
    ensures
        r@ == after_probe(s@, index as int, found@),
{
    let n: usize = s.targets.len();
    assert(s@.targets.len() == n);
    match found {
        ProbeState::Online => AuthStep::Done {
            ok: true,
            code: Code::Already,
            detail: "已在线".to_owned(),
        },
        ProbeState::Captive(url) => AuthStep::Fetch { url, hop: 0 },
        _ => {
            if index + 1 < n {
                return AuthStep::Probe { index: index + 1 };
            }
            match urls::parse_portal_url(s.line.portal_url.as_str()) {
                Some(url) => AuthStep::Fetch { url, hop: 0 },
                None => AuthStep::Done {
                    ok: false,
                    code: Code::Unreachable,
                    detail: "未探测到门户, 请手动填写门户地址(portal_url)".to_owned(),
                },
            }
        },
    }
}

/// The step after a reply to a request for the login page.
pub fn judge_page(s: &Session, hop: u32, got: FetchStep) -> (r: AuthStep)
    requires
        hop < u32::MAX,
    ensures
        r@ == after_fetch(s@, hop as nat, got@),
{
    match got {
        FetchStep::Follow(url) => AuthStep::Fetch { url, hop: hop + 1 },
        FetchStep::Failed(e) => AuthStep::Done {
            ok: false,
            code: Code::Unreachable,
            detail: text::concat("门户连接失败: ", e.as_str()),
        },
        FetchStep::Page { url, html, cookie } => {
            let fields: Vec<(String, String)> = login::fill_form(
                html.as_str(),
                s.line.ua.as_str(),
                s.line.username.as_str(),
                s.line.password.as_str(),
            );
            AuthStep::Submit { url, cookie, body: login::encode_form(&fields) }
        },
    }
}

/// The step after a probe that checks whether the line is through.
pub fn judge_review(attempt: u32, message: String, found: ProbeState) -> (r: AuthStep)
    ensures
        r@ == after_review(attempt as nat, message@, found@),
{
    match found {
        ProbeState::Online => AuthStep::Done { ok: true, code: Code::Through, detail: message },
        _ => {
            if attempt < 2 {
                AuthStep::Review { attempt: attempt + 1, message }
            } else {
                AuthStep::Done {
                    ok: false,
                    code: Code::Fail,
                    detail: if message.as_str().is_empty() {
                        "复核未放行".to_owned()
                    } else {
                        message
                    },
                }
            }
        },
    }
}

/// The step after a reply.
pub fn advance(s: &Session, step: &AuthStep, reply: &Result<HttpResponse, String>) -> (r: AuthStep)
    requires
        step_ok(s@, step@),
        login::readable(*reply),
    ensures
        r@ == next_step(s@, step@, http::outcome(*reply)),
        step_ok(s@, r@),
{
    assert(s@.targets.len() == s.targets@.len());
    match step {
        AuthStep::Probe { index } => {
            assert(s@.targets[*index as int].0 == s.targets@[*index as int].0@);
            let found: ProbeState = probe::probe_one(s.targets[*index].0.as_str(), reply);
            judge_probe(s, *index, found)
        },
        AuthStep::Fetch { url, hop } => {
            let got: FetchStep = login::fetch_login_page(url.as_str(), *hop, reply);
            judge_page(s, *hop, got)
        },
        AuthStep::Submit { .. } => match reply {
            Err(e) => AuthStep::Done {
                ok: false,
                code: Code::Fail,
                detail: text::concat("POST 失败: ", e.as_str()),
            },
            Ok(resp) => {
                let page: String = charset::decode_body(resp.body.as_slice());
                judge_message(forms::extract_err_message(page.as_str()))
            },
        },
        AuthStep::Review { attempt, message } => {
            assert(s@.targets[0].0 == s.targets@[0].0@);
            let found: ProbeState = probe::probe_one(s.targets[0].0.as_str(), reply);
            judge_review(*attempt, message.clone(), found)
        },
        AuthStep::Done { ok, code, detail } => AuthStep::Done {
            ok: *ok,
            code: *code,
            detail: detail.clone(),
        },
    }
}

// ---------------------------------------------------------------------------
// Requests

/// A request that is to be sent after a pause.
#[derive(Debug)]
pub struct Outgoing {
    pub wait_secs: u64,
    pub method: String,
    pub url: String,
    pub headers: Vec<(String, String)>,
    pub body: Option<String>,
}

/// A request, as plain values.
#[verifier::ext_equal]
pub struct Request {
    pub wait_secs: nat,
    pub method: Seq<char>,
    pub url: Seq<char>,
    pub headers: Seq<(Seq<char>, Seq<char>)>,
    pub body: Option<Seq<char>>,
}

impl View for Outgoing {
    type V = Request;

    open spec fn view(&self) -> Request {
        Request {
            wait_secs: self.wait_secs as nat,
            method: self.method@,
            url: self.url@,
            headers: text::pairs(self.headers@),
            body: text::opt_text(self.body),
        }
    }
}

/// The probe of an address.
pub open spec fn probe_request(target: (Seq<char>, Seq<char>), wait_secs: nat) -> Request {
    Request {
        wait_secs,
        method: "GET"@,
        url: "http://"@ + target.0 + target.1,
        headers: seq![("Accept"@, "*/*"@)],
        body: None,
    }
}

/// The request for a login page.
pub open spec fn page_request(url: Seq<char>, agent: Seq<char>) -> Request {
    Request {
        wait_secs: 0,
        method: "GET"@,
        url,
        headers: seq![
            ("User-Agent"@, agent),
            ("Accept"@, "text/html,application/xhtml+xml,application/xml;q=0.9,*/*;q=0.8"@),
            ("Accept-Language"@, "zh-CN,zh;q=0.9"@),
        ],
        body: None,
    }
}

/// The request that carries the form, to the address of the login page.
pub open spec fn form_request(
    url: Seq<char>,
    agent: Seq<char>,
    cookie: Seq<char>,
    body: Seq<char>,
) -> Request {
    Request {
        wait_secs: 0,
        method: "POST"@,
        url,
        headers: seq![
            ("User-Agent"@, agent),
            ("Accept"@, "text/html,application/xhtml+xml,application/xml;q=0.9,*/*;q=0.8"@),
            ("Accept-Language"@, "zh-CN,zh;q=0.9"@),
            ("Content-Type"@, "application/x-www-form-urlencoded"@),
            ("Referer"@, url),
            ("Cookie"@, cookie),
        ],
        body: Some(body),
    }
}

/// The request whose reply a step waits for; none at the end.
pub open spec fn request_of(s: SessionModel, step: Step) -> Option<Request> {
    match step {
        Step::Probe { index } => Some(probe_request(s.targets[index], 0)),
        Step::Fetch { url, .. } => Some(page_request(url, s.agent)),
        Step::Submit { url, cookie, body } => Some(form_request(url, s.agent, cookie, body)),
        Step::Review { .. } => Some(probe_request(s.targets[0], 3)),
        Step::Done { .. } => None,
    }
}

fn pair(name: &str, value: &str) -> (r: (String, String))
    ensures
        (r.0@, r.1@) == (name@, value@),
{
    (name.to_owned(), value.to_owned())
}

/// The probe of an address after a pause.
pub fn probe_outgoing(target: &(String, String), wait_secs: u64) -> (r: Outgoing)
    ensures
        r@ == probe_request((target.0@, target.1@), wait_secs as nat),
{
    let mut headers: Vec<(String, String)> = Vec::new();
    headers.push(pair("Accept", "*/*"));
    let r: Outgoing = Outgoing {
        wait_secs,
        method: "GET".to_owned(),
        url: text::concat3("http://", target.0.as_str(), target.1.as_str()),
        headers,
        body: None,
    };
    assert(r@ =~= probe_request((target.0@, target.1@), wait_secs as nat));
    r
}

/// The request for a login page.
pub fn page_outgoing(url: &str, agent: &str) -> (r: Outgoing)
    ensures
        r@ == page_request(url@, agent@),
{
    let mut headers: Vec<(String, String)> = Vec::new();
    headers.push(pair("User-Agent", agent));
    headers.push(
        pair("Accept", "text/html,application/xhtml+xml,application/xml;q=0.9,*/*;q=0.8"),
    );
    headers.push(pair("Accept-Language", "zh-CN,zh;q=0.9"));
    let r: Outgoing = Outgoing {
        wait_secs: 0,
        method: "GET".to_owned(),
        url: url.to_owned(),
        headers,
        body: None,
    };
    assert(r@ =~= page_request(url@, agent@));
    r
}

/// The request that carries the form.
pub fn form_outgoing(url: &str, agent: &str, cookie: &str, body: &str) -> (r: Outgoing)
    ensures
        r@ == form_request(url@, agent@, cookie@, body@),
{
    let mut headers: Vec<(String, String)> = Vec::new();
    headers.push(pair("User-Agent", agent));
    headers.push(
        pair("Accept", "text/html,application/xhtml+xml,application/xml;q=0.9,*/*;q=0.8"),
    );
    headers.push(pair("Accept-Language", "zh-CN,zh;q=0.9"));
    headers.push(pair("Content-Type", "application/x-www-form-urlencoded"));
    headers.push(pair("Referer", url));
    headers.push(pair("Cookie", cookie));
    let r: Outgoing = Outgoing {
        wait_secs: 0,
        method: "POST".to_owned(),
        url: url.to_owned(),
        headers,
        body: Some(body.to_owned()),
    };
    assert(r@ =~= form_request(url@, agent@, cookie@, body@));
    r
}

/// The request whose reply a step waits for; none at the end.
pub fn outgoing(s: &Session, step: &AuthStep) -> (r: Option<Outgoing>)
    requires
        step_ok(s@, step@),
    ensures
        match request_of(s@, step@) {
            Some(q) => r matches Some(o) && o@ == q,
            None => r is None,
        },
{
    assert(s@.targets.len() == s.targets@.len());
    match step {
        AuthStep::Probe { index } => {
            assert(s@.targets[*index as int] == (
                s.targets@[*index as int].0@,
                s.targets@[*index as int].1@,
            ));
            Some(probe_outgoing(&s.targets[*index], 0))
        },
        AuthStep::Fetch { url, .. } => Some(page_outgoing(url.as_str(), s.agent.as_str())),
        AuthStep::Submit { url, cookie, body } => Some(
            form_outgoing(url.as_str(), s.agent.as_str(), cookie.as_str(), body.as_str()),
        ),
        AuthStep::Review { .. } => {
            assert(s@.targets[0] == (s.targets@[0].0@, s.targets@[0].1@));
            Some(probe_outgoing(&s.targets[0], 3))
        },
        AuthStep::Done { .. } => None,
    }
}

// ---------------------------------------------------------------------------
// Laws

/// The reply has status 200 or 204 and redirects nowhere.
pub open spec fn is_open(reply: Result<http::Response, Seq<char>>) -> bool {
    reply matches Ok(resp) && resp.header("Location"@) is None && (resp.status == 200
        || resp.status == 204)
}

/// An authentication succeeds only on the reply to a probe, and only where the head of that reply
/// shows that the line is open: `already` before the form is sent, `ok` after it.
pub proof fn law_success_is_an_open_probe(
    s: SessionModel,
    step: Step,
    reply: Result<http::Response, Seq<char>>,
)
    requires
        step_ok(s, step),
        !(step is Done),
        next_step(s, step, reply) is Done,
        next_step(s, step, reply)->Done_ok,
    ensures
        is_open(reply),
        (step is Probe && next_step(s, step, reply)->Done_code == Code::Already) || (step is Review
            && next_step(s, step, reply)->Done_code == Code::Through),
{
}

/// Every word for the end of an authentication is one of six.
pub proof fn law_words_of_ends(code: Code)
    ensures
        code.word() == "already"@ || code.word() == "ok"@ || code.word() == "badpass"@
            || code.word() == "conflict"@ || code.word() == "unreachable"@ || code.word() == "fail"@,
{
}

/// The flag and the code of an end agree.
pub open spec fn end_agrees(step: Step) -> bool {
    step matches Step::Done { ok, code, .. } ==> (ok <==> code == Code::Already || code
        == Code::Through)
}

/// An authentication that ends has succeeded exactly where its code is `already` or `ok`.
pub proof fn law_code_tells_success(
    s: SessionModel,
    step: Step,
    reply: Result<http::Response, Seq<char>>,
)
    requires
        end_agrees(step),
    ensures
        end_agrees(next_step(s, step, reply)),
{
}

/// A whole authentication ends with one of the six words, and its word is `already` or `ok` exactly
/// where it succeeded.
pub proof fn law_end_of_a_run(
    s: SessionModel,
    step: Step,
    replies: Seq<Result<http::Response, Seq<char>>>,
)
    requires
        step_ok(s, step),
        rank(s, step) <= replies.len(),
        end_agrees(step),
    ensures
        run(s, step, replies) is Done,
        end_agrees(run(s, step, replies)),
        run(s, step, replies)->Done_ok <==> run(s, step, replies)->code.word() == "already"@ || run(
            s,
            step,
            replies,
        )->code.word() == "ok"@,
    decreases replies.len(),
{
    if replies.len() > 0 {
        law_authentication_ends(s, step, replies[0]);
        law_code_tells_success(s, step, replies[0]);
        law_end_of_a_run(s, next_step(s, step, replies[0]), replies.drop_first());
    } else {
        lemma_words_of_success(step->code);
    }
}

/// Only success is called `already` or `ok`.
proof fn lemma_words_of_success(code: Code)
    ensures
        code.word() == "already"@ || code.word() == "ok"@ <==> code == Code::Already || code
            == Code::Through,
{
    reveal_strlit("already");
    reveal_strlit("ok");
    reveal_strlit("badpass");
    reveal_strlit("conflict");
    reveal_strlit("unreachable");
    reveal_strlit("fail");
    assert("already"@.len() == 7 && "ok"@.len() == 2 && "badpass"@.len() == 7 && "conflict"@.len()
        == 8 && "unreachable"@.len() == 11 && "fail"@.len() == 4);
    assert("already"@[0] != "badpass"@[0]);
}

/// A line that is open at a review is through, whatever the portal said.
pub proof fn law_open_review_succeeds(
    s: SessionModel,
    attempt: nat,
    message: Seq<char>,
    reply: Result<http::Response, Seq<char>>,
)
    requires
        is_open(reply),
    ensures
        next_step(s, Step::Review { attempt, message }, reply) == (Step::Done {
            ok: true,
            code: Code::Through,
            detail: message,
        }),
{
}

/// How many requests an authentication can still send.
pub open spec fn rank(s: SessionModel, step: Step) -> int {
    match step {
        Step::Probe { index } => 6 + s.targets.len() - index,
        Step::Fetch { hop, .. } => 6 - hop,
        Step::Submit { .. } => 3,
        Step::Review { attempt, .. } => 3 - attempt,
        Step::Done { .. } => 0,
    }
}

/// Every reply brings an authentication nearer to its end: it sends no more requests than there
/// are targets, and six.
pub proof fn law_authentication_ends(
    s: SessionModel,
    step: Step,
    reply: Result<http::Response, Seq<char>>,
)
    requires
        step_ok(s, step),
    ensures
        step_ok(s, next_step(s, step, reply)),
        rank(s, Step::Probe { index: 0 }) == s.targets.len() + 6,
        0 <= rank(s, next_step(s, step, reply)),
        request_of(s, step) is Some ==> rank(s, next_step(s, step, reply)) < rank(s, step),
        request_of(s, step) is None ==> next_step(s, step, reply) == step,
{
}

/// The form is sent to the very address that gave the login page, and only after that page was
/// read.
pub proof fn law_form_goes_to_its_page(
    s: SessionModel,
    step: Step,
    reply: Result<http::Response, Seq<char>>,
)
    requires
        step_ok(s, step),
        next_step(s, step, reply) is Submit,
    ensures
        step is Fetch,
        next_step(s, step, reply)->Submit_url == step->Fetch_url,
        request_of(s, next_step(s, step, reply)) is Some,
        (request_of(s, next_step(s, step, reply))->0).url == step->Fetch_url,
{
}

/// Where an authentication stands after replies.
pub open spec fn run(
    s: SessionModel,
    step: Step,
    replies: Seq<Result<http::Response, Seq<char>>>,
) -> Step
    decreases replies.len(),
{
    if replies.len() == 0 {
        step
    } else {
        run(s, next_step(s, step, replies[0]), replies.drop_first())
    }
}

/// How many forms an authentication sends for replies.
pub open spec fn forms_sent(
    s: SessionModel,
    step: Step,
    replies: Seq<Result<http::Response, Seq<char>>>,
) -> nat
    decreases replies.len(),
{
    if replies.len() == 0 {
        0
    } else {
        (if step is Submit {
            1nat
        } else {
            0nat
        }) + forms_sent(s, next_step(s, step, replies[0]), replies.drop_first())
    }
}

/// An authentication is at its end after as many replies as it can still ask for, whatever they
/// are.
pub proof fn law_every_run_ends(
    s: SessionModel,
    step: Step,
    replies: Seq<Result<http::Response, Seq<char>>>,
)
    requires
        step_ok(s, step),
        rank(s, step) <= replies.len(),
    ensures
        run(s, step, replies) is Done,
    decreases replies.len(),
{
    if replies.len() > 0 {
        law_authentication_ends(s, step, replies[0]);
        law_every_run_ends(s, next_step(s, step, replies[0]), replies.drop_first());
    }
}

proof fn lemma_no_form_after_the_first(
    s: SessionModel,
    step: Step,
    replies: Seq<Result<http::Response, Seq<char>>>,
)
    requires
        step_ok(s, step),
        rank(s, step) <= 3,
        !(step is Submit),
    ensures
        forms_sent(s, step, replies) == 0,
    decreases replies.len(),
{
    if replies.len() > 0 {
        law_authentication_ends(s, step, replies[0]);
        lemma_no_form_after_the_first(s, next_step(s, step, replies[0]), replies.drop_first());
    }
}

/// The form is sent at most once in an authentication.
pub proof fn law_form_is_sent_once(
    s: SessionModel,
    step: Step,
    replies: Seq<Result<http::Response, Seq<char>>>,
)
    requires
        step_ok(s, step),
    ensures
        forms_sent(s, step, replies) <= 1,
    decreases replies.len(),
{
    if replies.len() > 0 {
        let next = next_step(s, step, replies[0]);
        law_authentication_ends(s, step, replies[0]);
        if step is Submit {
            lemma_no_form_after_the_first(s, next, replies.drop_first());
        } else {
            law_form_is_sent_once(s, next, replies.drop_first());
        }
    }
}

/// Where the portal says that another device holds the slot, the authentication ends: nothing more
/// is sent, and no device is signed off.
pub proof fn law_conflict_is_left_alone(
    s: SessionModel,
    step: Step,
    reply: Result<http::Response, Seq<char>>,
)
    requires
        step is Submit,
        reply is Ok,
        tells_conflict(
            forms::message_in(forms::tags(charset::body_text(reply->Ok_0.body))),
        ),
    ensures
        next_step(s, step, reply) is Done,
        !next_step(s, step, reply)->Done_ok,
        next_step(s, step, reply)->Done_code == Code::Conflict || next_step(
            s,
            step,
            reply,
        )->Done_code == Code::BadPass,
        request_of(s, next_step(s, step, reply)) is None,
{
}

/// Every request carries exactly one `User-Agent`, and to the portal it is that of the slot.
pub proof fn law_one_agent_per_request(s: SessionModel, step: Step)
    requires
        step_ok(s, step),
        request_of(s, step) is Some,
    ensures
        crate::request::agents(
            crate::request::sent_headers((request_of(s, step)->0).headers),
        ) == 1,
        (step is Fetch || step is Submit) ==> (request_of(s, step)->0).headers[0] == (
            "User-Agent"@,
            s.agent,
        ),
{
    let headers = (request_of(s, step)->0).headers;
    reveal_strlit("User-Agent");
    reveal_strlit("user-agent");
    reveal_strlit("Accept");
    reveal_strlit("Accept-Language");
    reveal_strlit("Content-Type");
    reveal_strlit("Referer");
    reveal_strlit("Cookie");
    lemma_other_name("Accept"@);
    lemma_other_name("Accept-Language"@);
    lemma_other_name("Content-Type"@);
    lemma_other_name("Referer"@);
    lemma_other_name("Cookie"@);
    assert(text::lower("User-Agent"@) =~= text::lower("user-agent"@));
    reveal_with_fuel(crate::request::agents, 7);
    if headers.len() == 6 {
        let h5 = headers.drop_last();
        let h4 = h5.drop_last();
        let h3 = h4.drop_last();
        let h2 = h3.drop_last();
        let h1 = h2.drop_last();
        assert(h1.drop_last().len() == 0);
    } else if headers.len() == 3 {
        let h2 = headers.drop_last();
        let h1 = h2.drop_last();
        assert(h1.drop_last().len() == 0);
    } else {
        assert(headers.drop_last().len() == 0);
    }
    assert(crate::request::agents(headers) <= 1);
    crate::request::law_one_user_agent(headers);
}

/// A name of another length is no `User-Agent`.
proof fn lemma_other_name(name: Seq<char>)
    requires
        name.len() != "user-agent"@.len(),
    ensures
        !text::same_ignoring_case(name, "user-agent"@),
{
    assert(text::lower(name).len() == name.len());
    assert(text::lower("user-agent"@).len() == "user-agent"@.len());
}

/// A probe that is redirected to another host makes the authentication ask for that very address,
/// with the parameters that bind the session.
pub proof fn law_redirect_is_followed_to_the_letter(
    s: SessionModel,
    index: int,
    resp: http::Response,
    location: Seq<char>,
)
    requires
        0 <= index < s.targets.len(),
        resp.header("Location"@) == Some(location),
        urls::has_scheme(text::trim(location)),
        urls::host_of(text::trim(location)).len() > 0,
        !text::same_ignoring_case(urls::host_of(text::trim(location)), s.targets[index].0),
    ensures
        next_step(s, Step::Probe { index }, Ok(resp)) == (Step::Fetch {
            url: text::trim(location),
            hop: 0,
        }),
        request_of(s, next_step(s, Step::Probe { index }, Ok(resp))) matches Some(q) && q.url
            == text::trim(location),
{
    urls::lemma_plain_scheme(text::trim(location));
    urls::law_other_host_is_captive(s.targets[index].0, location);
}

/// The form that is sent carries the fields of the login page, the account and the password: a
/// portal that decodes the body gets them.
pub proof fn law_submitted_form_is_decoded(
    s: SessionModel,
    url: Seq<char>,
    hop: nat,
    resp: http::Response,
)
    requires
        hop <= 2,
        resp.header("Location"@) is None,
        resp.status == 200,
    ensures
        next_step(s, Step::Fetch { url, hop }, Ok(resp)) is Submit,
        login::decoded_form(next_step(s, Step::Fetch { url, hop }, Ok(resp))->body)
            == login::login_fields(
            charset::body_text(resp.body),
            s.slot,
            s.username,
            s.password,
        ).map_values(
            |f: (Seq<char>, Seq<char>)|
                (vstd::utf8::encode_utf8(f.0), vstd::utf8::encode_utf8(f.1)),
        ),
{
    let html = charset::body_text(resp.body);
    let fields = login::login_fields(html, s.slot, s.username, s.password);
    login::law_base_fields_are_sent(html, s.slot, s.username, s.password, 0);
    assert(fields.len() > 0);
    login::law_form_body_is_decoded(fields);
}

/// The words by which the portal tells that another device holds the slot.
pub open spec fn conflict_words() -> Seq<Seq<char>> {
    seq!["已在线"@, "重复"@, "超限"@, "终端"@, "绑定"@, "占用"@]
}

/// One of these words stands in the message.
pub open spec fn speaks_of_a_conflict(message: Seq<char>) -> bool {
    exists|w: int|
        0 <= w < conflict_words().len() && text::contains(message, #[trigger] conflict_words()[w])
}

/// A message that tells a wrong password ends the authentication, and so does one that tells a
/// conflict and no wrong password, each with the message as its detail. After any other message,
/// or none, the line is probed again.
pub proof fn law_message_decides(message: Seq<char>)
    ensures
        text::contains(message, "密码错误"@) ==> after_message(message) == (Step::Done {
            ok: false,
            code: Code::BadPass,
            detail: message,
        }),
        !text::contains(message, "密码错误"@) && speaks_of_a_conflict(message) ==> after_message(
            message,
        ) == (Step::Done { ok: false, code: Code::Conflict, detail: message }),
        !text::contains(message, "密码错误"@) && !speaks_of_a_conflict(message) ==> after_message(
            message,
        ) == (Step::Review { attempt: 1, message }),
{
    let w = conflict_words();
    assert(w[0] == "已在线"@ && w[1] == "重复"@ && w[2] == "超限"@ && w[3] == "终端"@ && w[4]
        == "绑定"@ && w[5] == "占用"@);
}

/// The reply to the form decides by its message, which is the value of the first `<input>` of its
/// page whose id is `errMessage`, whatever other attributes that tag has. The status of the reply
/// does not matter.
pub proof fn law_message_of_the_reply_decides(
    s: SessionModel,
    url: Seq<char>,
    cookie: Seq<char>,
    body: Seq<char>,
    resp: http::Response,
    front: Seq<char>,
    before: Seq<char>,
    key: Seq<char>,
    quote: char,
    message: Seq<char>,
    after: Seq<char>,
    back: Seq<char>,
)
    requires
        charset::body_text(resp.body) == front + (pages::valued_tag(
            before,
            key,
            quote,
            message,
            after,
        ) + seq!['>'] + back),
        front.len() == 0 || front.last() == '>',
        !text::contains(text::lower(front), "errmessage"@),
        text::starts_with(
            text::lower(pages::valued_tag(before, key, quote, message, after)),
            "<input"@,
        ),
        !pages::valued_tag(before, key, quote, message, after).contains('>'),
        pages::has_message_id(pages::valued_tag(before, key, quote, message, after)),
        pages::is_first_value(before, key, quote, message),
        !message.contains('&'),
    ensures
        ({
            let next = next_step(s, Step::Submit { url, cookie, body }, Ok(resp));
            &&& text::contains(message, "密码错误"@) ==> next == (Step::Done {
                ok: false,
                code: Code::BadPass,
                detail: message,
            })
            &&& !text::contains(message, "密码错误"@) && speaks_of_a_conflict(message) ==> next == (
            Step::Done { ok: false, code: Code::Conflict, detail: message })
            &&& !text::contains(message, "密码错误"@) && !speaks_of_a_conflict(message) ==> next == (
            Step::Review { attempt: 1, message })
        }),
{
    pages::law_message_of_a_page(front, before, key, quote, message, after, back);
    law_message_decides(message);
}

/// A reply to the form whose page does not speak of `errMessage` leads to a probe; a form that had
/// no reply ends the authentication with the error.
pub proof fn law_reply_without_a_message(
    s: SessionModel,
    url: Seq<char>,
    cookie: Seq<char>,
    body: Seq<char>,
    resp: http::Response,
    error: Seq<char>,
)
    ensures
        !text::contains(text::lower(charset::body_text(resp.body)), "errmessage"@) ==> next_step(
            s,
            Step::Submit { url, cookie, body },
            Ok(resp),
        ) == (Step::Review { attempt: 1, message: seq![] }),
        next_step(s, Step::Submit { url, cookie, body }, Err(error)) matches Step::Done {
            ok,
            code,
            detail,
        } && !ok && code == Code::Fail && text::contains(detail, error),
{
    if !text::contains(text::lower(charset::body_text(resp.body)), "errmessage"@) {
        pages::law_page_without_a_message(charset::body_text(resp.body));
        let none = Seq::<char>::empty();
        law_message_decides(none);
        reveal_strlit("密码错误");
        reveal_strlit("已在线");
        reveal_strlit("重复");
        reveal_strlit("超限");
        reveal_strlit("终端");
        reveal_strlit("绑定");
        reveal_strlit("占用");
        assert(forall|i: int| !text::occurs_at(none, "密码错误"@, i));
        assert(!speaks_of_a_conflict(none));
    }
    text::law_part_is_contained("POST 失败: "@, error, seq![]);
    assert("POST 失败: "@ + error =~= "POST 失败: "@ + error + seq![]);
}

/// The targets are probed in turn until one of them decides. An open one ends the authentication:
/// the line is online already. A redirect to the portal is followed. Behind the last target comes
/// the configured portal; without one the authentication ends.
pub proof fn law_targets_are_probed_in_turn(
    s: SessionModel,
    index: int,
    reply: Result<http::Response, Seq<char>>,
    portal: Seq<char>,
)
    requires
        0 <= index < s.targets.len(),
    ensures
        ({
            let next = next_step(s, Step::Probe { index }, reply);
            let found = probe::probed(s.targets[index].0, reply);
            &&& is_open(reply) ==> (next matches Step::Done { ok, code, detail } && ok && code
                == Code::Already && detail == "已在线"@)
            &&& found == probe::Probe::Captive(portal) ==> next == (Step::Fetch {
                url: portal,
                hop: 0,
            })
            &&& probe::decides_nothing(found) && index + 1 < s.targets.len() ==> next == (
            Step::Probe { index: index + 1 })
            &&& probe::decides_nothing(found) && index + 1 == s.targets.len()
                && urls::portal_address(s.portal_url) == Some(portal) ==> next == (Step::Fetch {
                url: portal,
                hop: 0,
            })
            &&& probe::decides_nothing(found) && index + 1 == s.targets.len()
                && urls::portal_address(s.portal_url) is None ==> (next matches Step::Done {
                ok,
                code,
                ..
            } && !ok && code == Code::Unreachable)
        }),
{
}

/// The login page leads to its form: it goes to the address of the page, with the cookie that the
/// page sets and the fields that the slot, the account and the password of the session give. A
/// redirect leads to one more request, and a page that cannot be had ends the authentication with
/// the reason.
pub proof fn law_page_leads_to_its_form(
    s: SessionModel,
    url: Seq<char>,
    hop: nat,
    reply: Result<http::Response, Seq<char>>,
    target: Seq<char>,
    reason: Seq<char>,
)
    ensures
        ({
            let next = next_step(s, Step::Fetch { url, hop }, reply);
            let got = login::fetched(url, hop, reply);
            &&& got == login::Fetched::Follow(target) ==> next == (Step::Fetch {
                url: target,
                hop: hop + 1,
            })
            &&& got == login::Fetched::Failed(reason) ==> (next matches Step::Done {
                ok,
                code,
                detail,
            } && !ok && code == Code::Unreachable && text::contains(detail, reason))
            &&& got matches login::Fetched::Page { url: at, html, cookie } ==> next == (
            Step::Submit {
                url: at,
                cookie,
                body: login::form_body(login::login_fields(html, s.slot, s.username, s.password)),
            })
        }),
{
    text::law_part_is_contained("门户连接失败: "@, reason, seq![]);
    assert("门户连接失败: "@ + reason =~= "门户连接失败: "@ + reason + seq![]);
}

/// After the form the line is probed up to twice, at the first target and each time after three
/// seconds. An open reply means success, with the message of the portal; after the second reply
/// that is not open the authentication has failed, with that message or else a fixed one.
pub proof fn law_line_is_reviewed_twice(
    s: SessionModel,
    message: Seq<char>,
    reply: Result<http::Response, Seq<char>>,
)
    requires
        s.targets.len() > 0,
    ensures
        is_open(reply) ==> next_step(s, Step::Review { attempt: 1, message }, reply) == (
        Step::Done { ok: true, code: Code::Through, detail: message }),
        is_open(reply) ==> next_step(s, Step::Review { attempt: 2, message }, reply) == (
        Step::Done { ok: true, code: Code::Through, detail: message }),
        !is_open(reply) ==> next_step(s, Step::Review { attempt: 1, message }, reply) == (
        Step::Review { attempt: 2, message }),
        !is_open(reply) ==> (next_step(s, Step::Review { attempt: 2, message }, reply)
            matches Step::Done { ok, code, detail } && !ok && code == Code::Fail && detail.len() > 0
            && (message.len() > 0 ==> detail == message)),
        request_of(s, Step::Review { attempt: 1, message }) matches Some(q) && q.wait_secs == 3
            && q.url == "http://"@ + s.targets[0].0 + s.targets[0].1,
        request_of(s, Step::Review { attempt: 2, message }) == request_of(
            s,
            Step::Review { attempt: 1, message },
        ),
{
    reveal_strlit("复核未放行");
}

/// What is sent: a probe asks for its target, at once; a page is asked for at its address; the form
/// goes by `POST` to the address of its page, names that address and the cookie, and carries its
/// body. Every request to the portal has the agent of the session.
pub proof fn law_what_is_sent(
    s: SessionModel,
    index: int,
    url: Seq<char>,
    hop: nat,
    cookie: Seq<char>,
    body: Seq<char>,
)
    ensures
        request_of(s, Step::Probe { index }) matches Some(q) && q.wait_secs == 0 && q.method
            == "GET"@ && q.url == "http://"@ + s.targets[index].0 + s.targets[index].1
            && q.body is None,
        request_of(s, Step::Fetch { url, hop }) matches Some(q) && q.wait_secs == 0 && q.method
            == "GET"@ && q.url == url && q.body is None && q.headers.contains(
            ("User-Agent"@, s.agent),
        ),
        request_of(s, Step::Submit { url, cookie, body }) matches Some(q) && q.wait_secs == 0
            && q.method == "POST"@ && q.url == url && q.body == Some(body) && q.headers.contains(
            ("User-Agent"@, s.agent),
        ) && q.headers.contains(("Referer"@, url)) && q.headers.contains(("Cookie"@, cookie))
            && q.headers.contains(("Content-Type"@, "application/x-www-form-urlencoded"@)),
{
    let page = page_request(url, s.agent).headers;
    assert(page[0] == ("User-Agent"@, s.agent));
    let form = form_request(url, s.agent, cookie, body).headers;
    assert(form[0] == ("User-Agent"@, s.agent));
    assert(form[3] == ("Content-Type"@, "application/x-www-form-urlencoded"@));
    assert(form[4] == ("Referer"@, url));
    assert(form[5] == ("Cookie"@, cookie));
}

}
