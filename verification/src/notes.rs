//! What the log says of an authentication and of a search for the portal.

use vstd::prelude::*;

use crate::auth;
use crate::auth::AuthStep;
use crate::auth::Code;
use crate::auth::Session;
use crate::charset;
use crate::detect;
use crate::detect::DetectStep;
use crate::forms;
use crate::http;
use crate::http::HttpResponse;
use crate::login;
use crate::login::FetchStep;
use crate::number;
use crate::probe;
use crate::probe::ProbeState;
use crate::table;
use crate::text;
use crate::urls;

verus! {

// ---------------------------------------------------------------------------
// The way to a login page

/// What the log says where a reply redirects on the way to a login page.
pub open spec fn redirect_notes(url: Seq<char>, reply: Result<http::Response, Seq<char>>) -> Seq<
    Seq<char>,
> {
    match reply {
        Ok(resp) => match resp.header("Location"@) {
            Some(loc) => seq!["  跳转 "@ + url + " -> "@ + login::next_url(url, loc)],
            None => seq![],
        },
        Err(_) => seq![],
    }
}

fn add_redirect(notes: &mut Vec<String>, url: &str, reply: &Result<HttpResponse, String>)
    ensures
        text::texts(final(notes)@) == text::texts(old(notes)@) + redirect_notes(
            url@,
            http::outcome(*reply),
        ),
{
    let ghost before = notes@;
    if let Ok(resp) = reply {
        if let Some(loc) = resp.header("Location") {
            let next: String = login::redirect_target(url, loc);
            let mut note: String = text::concat3("  跳转 ", url, " -> ");
            note.append(next.as_str());
            notes.push(note);
        }
    }
    assert(text::texts(notes@) =~= text::texts(before) + redirect_notes(
        url@,
        http::outcome(*reply),
    ));
}

fn add_note(notes: &mut Vec<String>, note: String)
    ensures
        text::texts(final(notes)@) == text::texts(old(notes)@) + seq![note@],
{
    let ghost before = notes@;
    let ghost last = note@;
    notes.push(note);
    assert(text::texts(notes@) =~= text::texts(before) + seq![last]);
}

// ---------------------------------------------------------------------------
// An authentication

/// What the log says before the request of a step.
pub open spec fn wait_note(step: auth::Step) -> Option<Seq<char>> {
    match step {
        auth::Step::Review { attempt, .. } => Some(
            "第 4 步: 等待 3 秒后复核放行 (第 "@ + number::decimal(attempt) + "/2 次)..."@,
        ),
        _ => None,
    }
}

/// What the log says after the probe of target `index`.
pub open spec fn probe_notes(s: auth::SessionModel, index: int, found: probe::Probe) -> Seq<
    Seq<char>,
> {
    match auth::after_probe(s, index, found) {
        auth::Step::Done { ok, .. } => if ok {
            seq!["探测: 已放行, 本机已在线, 无需认证"@]
        } else {
            seq![
                "!! 探测不到门户劫持响应, 且未配置门户地址(portal_url)"@,
                "   手动获取办法: 浏览器打开任意 http 网站(如 http://www.msftconnecttest.com/connecttest.txt),"@,
                "   地址栏会跳到校园网认证页 — 把那个地址整条填进 LuCI「认证服务 → 门户地址」或用 uci 设置 portal_url"@,
            ]
        },
        auth::Step::Fetch { url, .. } => (if found is Captive {
            seq![]
        } else {
            seq!["探测不到劫持响应, 改用配置的门户地址: "@ + url]
        }) + seq!["第 1 步完成: 已取得会话绑定参数  Location = "@ + url],
        _ => seq![],
    }
}

/// The name of a cookie.
pub open spec fn cookie_name(cookie: Seq<char>) -> Seq<char> {
    if cookie.len() == 0 {
        "无"@
    } else {
        cookie.take(text::scan_to(cookie, seq!['='], 0))
    }
}

/// What the log says of a login page: its cookie, two traits of it, the fields for account and
/// password, and the form without the value of a field named `passwd`.
pub open spec fn page_notes(s: auth::SessionModel, html: Seq<char>, cookie: Seq<char>) -> Seq<
    Seq<char>,
> {
    seq![
        "第 2 步完成: 会话 Cookie ("@ + cookie_name(cookie) + ")"@,
        "  登录页字段: hostIp="@ + forms::or_empty(
            table::first_value(forms::form_fields(html), "hostIp"@),
        ) + " 门户模板="@ + login::template_name(html),
        "  表单身份字段: 账号="@ + login::user_field(html) + " 密码="@ + login::pass_field(html),
        "  表单明细: "@ + login::form_summary(
            login::login_fields(html, s.slot, s.username, s.password),
        ),
    ]
}

/// What the log says after a reply to a request for the login page.
pub open spec fn fetch_notes(
    s: auth::SessionModel,
    url: Seq<char>,
    hop: nat,
    reply: Result<http::Response, Seq<char>>,
) -> Seq<Seq<char>> {
    redirect_notes(url, reply) + match login::fetched(url, hop, reply) {
        login::Fetched::Failed(e) => seq!["!! 获取登录页失败: "@ + e],
        login::Fetched::Page { html, cookie, .. } => page_notes(s, html, cookie),
        login::Fetched::Follow(_) => seq![],
    }
}

/// What the log says of the portal's message to the form.
pub open spec fn message_notes(message: Seq<char>) -> Seq<Seq<char>> {
    (if message.len() == 0 {
        seq![]
    } else {
        seq!["  门户返回消息: "@ + message]
    }) + (if auth::after_message(message) is Done && auth::after_message(message)->code
        == Code::Conflict {
        seq!["!! 槽位冲突: 请到自助管理后台手动下线(本程序绝不自动顶号)"@]
    } else {
        seq![]
    })
}

/// What the log says after the reply to the form.
pub open spec fn submit_notes(reply: Result<http::Response, Seq<char>>) -> Seq<Seq<char>> {
    match reply {
        Err(e) => seq!["!! 提交认证请求失败: "@ + e],
        Ok(resp) => seq![
            "第 3 步完成: 认证请求已提交 (HTTP "@ + number::decimal(resp.status) + ", "@
                + number::decimal(resp.body.len()) + " 字节)"@,
        ] + message_notes(forms::message_in(forms::tags(charset::body_text(resp.body)))),
    }
}

/// What the log says after a probe that checks whether the line is through.
pub open spec fn review_notes(attempt: nat, found: probe::Probe) -> Seq<Seq<char>> {
    if found == probe::Probe::Online {
        seq!["复核: 200/204 无重定向 -> 已放行"@, "=== 认证成功, 已上线! ==="@]
    } else {
        seq!["复核第 "@ + number::decimal(attempt) + " 次: 仍未放行, 继续等待..."@] + (if attempt
            < 2 {
            seq![]
        } else {
            seq!["=== 认证失败: 复核仍未放行 ==="@]
        })
    }
}

/// What the log says after the reply that a step waited for.
pub open spec fn reply_notes(
    s: auth::SessionModel,
    step: auth::Step,
    reply: Result<http::Response, Seq<char>>,
) -> Seq<Seq<char>> {
    match step {
        auth::Step::Probe { index } => probe_notes(
            s,
            index,
            probe::probed(s.targets[index].0, reply),
        ),
        auth::Step::Fetch { url, hop } => fetch_notes(s, url, hop, reply),
        auth::Step::Submit { .. } => submit_notes(reply),
        auth::Step::Review { attempt, .. } => review_notes(
            attempt,
            probe::probed(s.targets[0].0, reply),
        ),
        auth::Step::Done { .. } => seq![],
    }
}

/// What the log says before the request of a step.
pub fn before_request(step: &AuthStep) -> (r: Option<String>)
    ensures
        text::opt_text(r) == wait_note(step@),
{
    match step {
        AuthStep::Review { attempt, .. } => {
            let n: String = number::decimal_text(*attempt as u64);
            Some(text::concat3("第 4 步: 等待 3 秒后复核放行 (第 ", n.as_str(), "/2 次)..."))
        },
        _ => None,
    }
}

fn on_probe(s: &Session, index: usize, found: ProbeState) -> (r: Vec<String>)
    requires
        index < s.targets@.len(),
    ensures
        text::texts(r@) == probe_notes(s@, index as int, found@),
{
    let redirected: bool = match &found {
        ProbeState::Captive(_) => true,
        _ => false,
    };
    let ghost state = found@;
    let mut notes: Vec<String> = Vec::new();
    match auth::judge_probe(s, index, found) {
        AuthStep::Done { ok, .. } => {
            if ok {
                notes.push("探测: 已放行, 本机已在线, 无需认证".to_owned());
            } else {
                notes.push("!! 探测不到门户劫持响应, 且未配置门户地址(portal_url)".to_owned());
                notes.push(
                    "   手动获取办法: 浏览器打开任意 http 网站(如 http://www.msftconnecttest.com/connecttest.txt),".to_owned(),
                );
                notes.push(
                    "   地址栏会跳到校园网认证页 — 把那个地址整条填进 LuCI「认证服务 → 门户地址」或用 uci 设置 portal_url".to_owned(),
                );
            }
        },
        AuthStep::Fetch { url, .. } => {
            if !redirected {
                notes.push(
                    text::concat("探测不到劫持响应, 改用配置的门户地址: ", url.as_str()),
                );
            }
            notes.push(
                text::concat("第 1 步完成: 已取得会话绑定参数  Location = ", url.as_str()),
            );
        },
        _ => {},
    }
    assert(text::texts(notes@) =~= probe_notes(s@, index as int, state));
    notes
}

fn name_of_cookie(cookie: &str) -> (r: String)
    ensures
        r@ == cookie_name(cookie@),
{
    if cookie.is_empty() {
        return "无".to_owned();
    }
    let v: Vec<char> = text::chars_of(cookie);
    let stops: [char; 1] = ['='];
    assert(stops@ =~= seq!['=']);
    let end: usize = text::scan(v.as_slice(), stops.as_slice(), 0);
    let name: String = text::text_of(v.as_slice(), 0, end);
    assert(name@ =~= cookie@.take(end as int));
    name
}

fn on_page(s: &Session, html: &str, cookie: &str) -> (r: Vec<String>)
    ensures
        text::texts(r@) == page_notes(s@, html@, cookie@),
{
    let name: String = name_of_cookie(cookie);
    let fields: Vec<(String, String)> = forms::parse_form_fields(html);
    let host_ip: String = match table::first_index(&fields, "hostIp") {
        Some(i) => fields[i].1.clone(),
        None => String::new(),
    };
    assert(host_ip@ =~= forms::or_empty(
        table::first_value(forms::form_fields(html@), "hostIp"@),
    ));
    let (user, pass) = login::credential_names(html);
    let form: Vec<(String, String)> = login::fill_form(
        html,
        s.line.ua.as_str(),
        s.line.username.as_str(),
        s.line.password.as_str(),
    );
    let summary: String = login::summarise_form(&form);
    let mut notes: Vec<String> = Vec::new();
    notes.push(text::concat3("第 2 步完成: 会话 Cookie (", name.as_str(), ")"));
    let mut traits: String = text::concat3(
        "  登录页字段: hostIp=",
        host_ip.as_str(),
        " 门户模板=",
    );
    traits.append(login::template_label(html));
    notes.push(traits);
    let mut names: String = text::concat3("  表单身份字段: 账号=", user.as_str(), " 密码=");
    names.append(pass.as_str());
    notes.push(names);
    notes.push(text::concat("  表单明细: ", summary.as_str()));
    assert(text::texts(notes@) =~= page_notes(s@, html@, cookie@));
    notes
}

fn on_fetch(s: &Session, url: &str, hop: u32, reply: &Result<HttpResponse, String>) -> (r: Vec<
    String,
>)
    requires
        login::readable(*reply),
    ensures
        text::texts(r@) == fetch_notes(s@, url@, hop as nat, http::outcome(*reply)),
{
    let mut notes: Vec<String> = Vec::new();
    add_redirect(&mut notes, url, reply);
    let ghost front = text::texts(notes@);
    assert(front =~= redirect_notes(url@, http::outcome(*reply)));
    match login::fetch_login_page(url, hop, reply) {
        FetchStep::Failed(e) => {
            add_note(&mut notes, text::concat("!! 获取登录页失败: ", e.as_str()));
        },
        FetchStep::Page { html, cookie, .. } => {
            let mut page: Vec<String> = on_page(s, html.as_str(), cookie.as_str());
            let ghost back = page@;
            let ghost held = notes@;
            notes.append(&mut page);
            assert(notes@ =~= held + back);
            assert(text::texts(notes@) =~= front + text::texts(back));
        },
        FetchStep::Follow(_) => {},
    }
    assert(text::texts(notes@) =~= fetch_notes(s@, url@, hop as nat, http::outcome(*reply)));
    notes
}

fn on_submit(reply: &Result<HttpResponse, String>) -> (r: Vec<String>)
    requires
        login::readable(*reply),
    ensures
        text::texts(r@) == submit_notes(http::outcome(*reply)),
{
    let mut notes: Vec<String> = Vec::new();
    match reply {
        Err(e) => {
            notes.push(text::concat("!! 提交认证请求失败: ", e.as_str()));
        },
        Ok(resp) => {
            let status: String = number::decimal_text(resp.status as u64);
            let size: String = number::decimal_text(resp.body.len() as u64);
            let mut first: String = text::concat3(
                "第 3 步完成: 认证请求已提交 (HTTP ",
                status.as_str(),
                ", ",
            );
            first.append(size.as_str());
            first.append(" 字节)");
            notes.push(first);
            let page: String = charset::decode_body(resp.body.as_slice());
            let message: String = forms::extract_err_message(page.as_str());
            if !message.as_str().is_empty() {
                notes.push(text::concat("  门户返回消息: ", message.as_str()));
            }
            if let AuthStep::Done { code, .. } = auth::judge_message(message) {
                if code == Code::Conflict {
                    notes.push("!! 槽位冲突: 请到自助管理后台手动下线(本程序绝不自动顶号)".to_owned());
                }
            }
        },
    }
    assert(text::texts(notes@) =~= submit_notes(http::outcome(*reply)));
    notes
}

fn on_review(attempt: u32, found: &ProbeState) -> (r: Vec<String>)
    ensures
        text::texts(r@) == review_notes(attempt as nat, found@),
{
    let mut notes: Vec<String> = Vec::new();
    match found {
        ProbeState::Online => {
            notes.push("复核: 200/204 无重定向 -> 已放行".to_owned());
            notes.push("=== 认证成功, 已上线! ===".to_owned());
        },
        _ => {
            let n: String = number::decimal_text(attempt as u64);
            notes.push(text::concat3("复核第 ", n.as_str(), " 次: 仍未放行, 继续等待..."));
            if attempt >= 2 {
                notes.push("=== 认证失败: 复核仍未放行 ===".to_owned());
            }
        },
    }
    assert(text::texts(notes@) =~= review_notes(attempt as nat, found@));
    notes
}

/// What the log says after the reply that a step waited for.
pub fn after_reply(s: &Session, step: &AuthStep, reply: &Result<HttpResponse, String>) -> (r: Vec<
    String,
>)
    requires
        auth::step_ok(s@, step@),
        login::readable(*reply),
    ensures
        text::texts(r@) == reply_notes(s@, step@, http::outcome(*reply)),
{
    assert(s@.targets.len() == s.targets@.len());
    match step {
        AuthStep::Probe { index } => {
            assert(s@.targets[*index as int].0 == s.targets@[*index as int].0@);
            on_probe(s, *index, probe::probe_one(s.targets[*index].0.as_str(), reply))
        },
        AuthStep::Fetch { url, hop } => on_fetch(s, url.as_str(), *hop, reply),
        AuthStep::Submit { .. } => on_submit(reply),
        AuthStep::Review { attempt, .. } => {
            assert(s@.targets[0].0 == s.targets@[0].0@);
            on_review(*attempt, &probe::probe_one(s.targets[0].0.as_str(), reply))
        },
        AuthStep::Done { .. } => {
            let r: Vec<String> = Vec::new();
            assert(text::texts(r@) =~= seq![]);
            r
        },
    }
}

// ---------------------------------------------------------------------------
// A search

/// What the log says after a reply to a request for the login page. `known` tells that a redirect
/// led to the page.
pub open spec fn search_page_notes(
    known: bool,
    url: Seq<char>,
    hop: nat,
    reply: Result<http::Response, Seq<char>>,
) -> Seq<Seq<char>> {
    redirect_notes(url, reply) + match login::fetched(url, hop, reply) {
        login::Fetched::Page { url, html, .. } => seq![
            (if known {
                "  登录页"@
            } else {
                "  可达, "@
            }) + detect::page_note(html, known) + " (最终地址 "@ + url + ")"@,
        ],
        login::Fetched::Failed(e) => if known {
            seq!["  登录页抓取失败: "@ + e]
        } else {
            seq![]
        },
        login::Fetched::Follow(_) => seq![],
    }
}

/// What the log says after the reply that a step of a search waited for.
pub open spec fn search_notes(
    targets: Seq<(Seq<char>, Seq<char>)>,
    portal_url: Seq<char>,
    step: detect::Search,
    reply: Result<http::Response, Seq<char>>,
) -> Seq<Seq<char>> {
    match step {
        detect::Search::Probe { index } => match probe::probed(targets[index].0, reply) {
            probe::Probe::Captive(url) => seq![
                "探测 "@ + targets[index].0 + targets[index].1 + " -> 302 被劫持: "@ + url,
            ],
            _ => match urls::portal_address(portal_url) {
                Some(url) => if index + 1 < targets.len() {
                    seq![]
                } else {
                    seq!["无劫持响应, 验证手填的门户地址: "@ + url]
                },
                None => seq![],
            },
        },
        detect::Search::Fetch { url, hop, known } => search_page_notes(
            known is Some,
            url,
            hop,
            reply,
        ),
        detect::Search::Done { .. } => seq![],
    }
}

fn on_search_page(known: bool, url: &str, hop: u32, reply: &Result<HttpResponse, String>) -> (r: Vec<
    String,
>)
    requires
        login::readable(*reply),
    ensures
        text::texts(r@) == search_page_notes(known, url@, hop as nat, http::outcome(*reply)),
{
    let mut notes: Vec<String> = Vec::new();
    add_redirect(&mut notes, url, reply);
    let ghost front = redirect_notes(url@, http::outcome(*reply));
    assert(text::texts(notes@) =~= front);
    assert(front + Seq::<Seq<char>>::empty() =~= front);
    match login::fetch_login_page(url, hop, reply) {
        FetchStep::Page { url, html, .. } => {
            let mut note: String = text::concat3(
                if known {
                    "  登录页"
                } else {
                    "  可达, "
                },
                detect::note_page(html.as_str(), known),
                " (最终地址 ",
            );
            note.append(url.as_str());
            note.append(")");
            add_note(&mut notes, note);
        },
        FetchStep::Failed(e) => {
            if known {
                add_note(&mut notes, text::concat("  登录页抓取失败: ", e.as_str()));
            }
        },
        FetchStep::Follow(_) => {},
    }
    notes
}

/// What the log says after the reply that a step of a search waited for.
pub fn after_search_reply(
    targets: &Vec<(String, String)>,
    portal_url: &str,
    step: &DetectStep,
    reply: &Result<HttpResponse, String>,
) -> (r: Vec<String>)
    requires
        detect::search_ok(text::pairs(targets@), step@),
        login::readable(*reply),
    ensures
        text::texts(r@) == search_notes(
            text::pairs(targets@),
            portal_url@,
            step@,
            http::outcome(*reply),
        ),
{
    let n: usize = targets.len();
    let mut notes: Vec<String> = Vec::new();
    match step {
        DetectStep::Probe { index } => {
            let target: &(String, String) = &targets[*index];
            assert(text::pairs(targets@)[*index as int] == (target.0@, target.1@));
            match probe::probe_one(target.0.as_str(), reply) {
                ProbeState::Captive(url) => {
                    let mut note: String = text::concat3(
                        "探测 ",
                        target.0.as_str(),
                        target.1.as_str(),
                    );
                    note.append(" -> 302 被劫持: ");
                    note.append(url.as_str());
                    notes.push(note);
                },
                _ => {
                    if *index + 1 >= n {
                        if let Some(url) = urls::parse_portal_url(portal_url) {
                            notes.push(
                                text::concat("无劫持响应, 验证手填的门户地址: ", url.as_str()),
                            );
                        }
                    }
                },
            }
        },
        DetectStep::Fetch { url, hop, known } => {
            return on_search_page(known.is_some(), url.as_str(), *hop, reply);
        },
        DetectStep::Done { .. } => {},
    }
    assert(text::texts(notes@) =~= search_notes(
        text::pairs(targets@),
        portal_url@,
        step@,
        http::outcome(*reply),
    ));
    notes
}

// ---------------------------------------------------------------------------
// Laws

/// A redirect is told once, with where it leads; a reply without one is not.
pub proof fn law_redirects_are_told(
    url: Seq<char>,
    hop: nat,
    resp: http::Response,
    target: Seq<char>,
)
    requires
        login::fetched(url, hop, Ok(resp)) == login::Fetched::Follow(target),
    ensures
        redirect_notes(url, Ok(resp)).len() == 1,
        text::contains(redirect_notes(url, Ok(resp))[0], url + " -> "@ + target),
{
    lemma_end_is_told("  跳转 "@, url, " -> "@, target);
}

proof fn lemma_end_is_told(a: Seq<char>, b: Seq<char>, c: Seq<char>, d: Seq<char>)
    ensures
        text::contains(a + b + c + d, b + c + d),
{
    let part = b + c + d;
    let k = a.len() as int;
    assert(a + b + c + d =~= a + part);
    assert((a + part).subrange(k, k + part.len()) =~= part);
    assert(text::occurs_at(a + part, part, k));
}

/// The message of the portal is told where there is one, and a conflict is told behind it, but no
/// other end.
pub proof fn law_messages_are_told(message: Seq<char>)
    ensures
        message.len() > 0 ==> message_notes(message).len() > 0 && text::contains(
            message_notes(message)[0],
            message,
        ),
        ({
            let conflict = !text::contains(message, "密码错误"@) && auth::speaks_of_a_conflict(
                message,
            );
            message_notes(message).len() == (if message.len() > 0 {
                1int
            } else {
                0int
            }) + (if conflict {
                1int
            } else {
                0int
            })
        }),
{
    auth::law_message_decides(message);
    text::law_part_is_contained("  门户返回消息: "@, message, seq![]);
    assert("  门户返回消息: "@ + message =~= "  门户返回消息: "@ + message + seq![]);
}

/// The reply to the form is told with its status and its size, and a form that had no reply with
/// the error.
pub proof fn law_reply_to_the_form_is_told(resp: http::Response, error: Seq<char>)
    ensures
        submit_notes(Ok(resp)).len() >= 1,
        text::contains(
            submit_notes(Ok(resp))[0],
            number::decimal(resp.status) + ", "@ + number::decimal(resp.body.len()),
        ),
        submit_notes(Err(error)).len() == 1,
        text::contains(submit_notes(Err(error))[0], error),
{
    let a = "第 3 步完成: 认证请求已提交 (HTTP "@;
    let part = number::decimal(resp.status) + ", "@ + number::decimal(resp.body.len());
    text::law_part_is_contained(a, part, " 字节)"@);
    assert(submit_notes(Ok(resp))[0] =~= a + part + " 字节)"@);
    text::law_part_is_contained("!! 提交认证请求失败: "@, error, seq![]);
    assert("!! 提交认证请求失败: "@ + error =~= "!! 提交认证请求失败: "@ + error + seq![]);
}

/// A review is told with its number before and after it; the last one that fails ends the log of
/// the authentication, as does one that succeeds.
pub proof fn law_reviews_are_told(attempt: nat, message: Seq<char>, found: probe::Probe)
    ensures
        wait_note(auth::Step::Review { attempt, message }) matches Some(n) && text::contains(
            n,
            number::decimal(attempt),
        ),
        found == probe::Probe::Online ==> review_notes(attempt, found).len() == 2
            && review_notes(attempt, found)[1] == "=== 认证成功, 已上线! ==="@,
        found != probe::Probe::Online ==> text::contains(
            review_notes(attempt, found)[0],
            number::decimal(attempt),
        ),
        found != probe::Probe::Online && attempt < 2 ==> review_notes(attempt, found).len() == 1,
        found != probe::Probe::Online && attempt >= 2 ==> review_notes(attempt, found).len() == 2
            && review_notes(attempt, found)[1] == "=== 认证失败: 复核仍未放行 ==="@,
{
    let n = number::decimal(attempt);
    text::law_part_is_contained("第 4 步: 等待 3 秒后复核放行 (第 "@, n, "/2 次)..."@);
    text::law_part_is_contained("复核第 "@, n, " 次: 仍未放行, 继续等待..."@);
}

/// The page is told with the names of its fields for the account and the password, and with the
/// form that will be sent; of the cookie only its name is told.
pub proof fn law_page_is_told(
    s: auth::SessionModel,
    html: Seq<char>,
    name: Seq<char>,
    secret: Seq<char>,
)
    requires
        name.len() > 0,
        !name.contains('='),
    ensures
        ({
            let notes = page_notes(s, html, name + seq!['='] + secret);
            &&& notes.len() == 4
            &&& text::contains(notes[0], "("@ + name + ")"@)
            &&& notes[0] == page_notes(s, html, name)[0]
            &&& text::contains(notes[2], "账号="@ + login::user_field(html))
            &&& text::contains(notes[2], "密码="@ + login::pass_field(html))
            &&& text::contains(
                notes[3],
                login::form_summary(login::login_fields(html, s.slot, s.username, s.password)),
            )
        }),
{
    let cookie = name + seq!['='] + secret;
    let notes = page_notes(s, html, cookie);
    lemma_cookie_name(name, secret);
    lemma_cookie_told(name);
    lemma_names_told(login::user_field(html), login::pass_field(html));
    let form = login::form_summary(login::login_fields(html, s.slot, s.username, s.password));
    text::law_part_is_contained("  表单明细: "@, form, seq![]);
    assert("  表单明细: "@ + form =~= "  表单明细: "@ + form + seq![]);
}

proof fn lemma_cookie_name(name: Seq<char>, secret: Seq<char>)
    requires
        name.len() > 0,
        !name.contains('='),
    ensures
        cookie_name(name + seq!['='] + secret) == name,
        cookie_name(name) == name,
{
    let cookie = name + seq!['='] + secret;
    let stops = seq!['='];
    let n = name.len() as int;
    assert(stops[0] == '=');
    assert forall|j: int| 0 <= j < n implies !stops.contains(#[trigger] cookie[j]) by {
        assert(cookie[j] == name[j]);
        assert(name.contains(name[j]));
    }
    assert(cookie[n] == '=');
    assert(stops.contains(cookie[n]));
    text::lemma_scan_stops(cookie, stops, 0, n);
    assert(cookie.take(n) =~= name);
    text::lemma_scan_to(name, stops, 0);
    let e = text::scan_to(name, stops, 0);
    if e < n {
        assert(name.contains(name[e]));
    }
    assert(name.take(n) =~= name);
}

proof fn lemma_cookie_told(name: Seq<char>)
    ensures
        text::contains("第 2 步完成: 会话 Cookie ("@ + name + ")"@, "("@ + name + ")"@),
{
    reveal_strlit("第 2 步完成: 会话 Cookie (");
    reveal_strlit("(");
    let a = "第 2 步完成: 会话 Cookie ("@;
    let front = a.take(a.len() - 1);
    assert(a =~= front + "("@);
    lemma_end_is_told(front, "("@, name, ")"@);
}

proof fn lemma_middle_is_told(
    a: Seq<char>,
    b: Seq<char>,
    c: Seq<char>,
    d: Seq<char>,
    e: Seq<char>,
)
    ensures
        text::contains((a + b) + c + d + e, b + c),
{
    let part = b + c;
    let k = a.len() as int;
    let all = (a + b) + c + d + e;
    assert((a + b) + c =~= a + part);
    assert((a + part) + d + e =~= a + part + (d + e));
    assert((a + part + (d + e)).subrange(k, k + part.len()) =~= part);
    assert(text::occurs_at(all, part, k));
}

proof fn lemma_last_is_told(a: Seq<char>, b: Seq<char>, c: Seq<char>, d: Seq<char>)
    ensures
        text::contains(a + (b + c) + d, c + d),
{
    let part = c + d;
    let k = (a + b).len() as int;
    assert(a + (b + c) =~= (a + b) + c);
    assert((a + b) + c + d =~= (a + b) + part);
    assert(((a + b) + part).subrange(k, k + part.len()) =~= part);
    assert(text::occurs_at((a + b) + part, part, k));
}

proof fn lemma_names_told(user: Seq<char>, pass: Seq<char>)
    ensures
        text::contains("  表单身份字段: 账号="@ + user + " 密码="@ + pass, "账号="@ + user),
        text::contains("  表单身份字段: 账号="@ + user + " 密码="@ + pass, "密码="@ + pass),
{
    let a = "  表单身份字段: 账号="@;
    let front = a.take(a.len() - 3);
    assert(a =~= front + "账号="@) by {
        reveal_strlit("  表单身份字段: 账号=");
        reveal_strlit("账号=");
    }
    assert(" 密码="@ =~= seq![' '] + "密码="@) by {
        reveal_strlit(" 密码=");
        reveal_strlit("密码=");
    }
    lemma_middle_is_told(front, "账号="@, user, " 密码="@, pass);
    lemma_last_is_told(a + user, seq![' '], "密码="@, pass);
}

/// A probe that ends the search for the portal is told: that the line is online, that no portal is
/// known, or where the portal is. A probe that leads to the next one is not.
pub proof fn law_probes_are_told(s: auth::SessionModel, index: int, found: probe::Probe)
    ensures
        found == probe::Probe::Online ==> probe_notes(s, index, found).len() == 1,
        auth::after_probe(s, index, found) is Probe ==> probe_notes(s, index, found).len() == 0,
        auth::after_probe(s, index, found) matches auth::Step::Fetch { url, .. } ==> {
            &&& text::contains(probe_notes(s, index, found).last(), url)
            &&& probe_notes(s, index, found).len() == (if found is Captive {
                1int
            } else {
                2int
            })
        },
        auth::after_probe(s, index, found) matches auth::Step::Done { ok, .. } && !ok
            ==> probe_notes(s, index, found).len() == 3,
{
    if let auth::Step::Fetch { url, .. } = auth::after_probe(s, index, found) {
        let a = "第 1 步完成: 已取得会话绑定参数  Location = "@;
        text::law_part_is_contained(a, url, seq![]);
        assert(probe_notes(s, index, found).last() =~= a + url + seq![]);
    }
}

/// A page that cannot be had is told last, with the reason; a page is told behind the redirects.
pub proof fn law_fetches_are_told(
    s: auth::SessionModel,
    url: Seq<char>,
    hop: nat,
    reply: Result<http::Response, Seq<char>>,
    reason: Seq<char>,
)
    ensures
        login::fetched(url, hop, reply) == login::Fetched::Failed(reason) ==> text::contains(
            fetch_notes(s, url, hop, reply).last(),
            reason,
        ),
        login::fetched(url, hop, reply) matches login::Fetched::Page { html, cookie, .. } ==> {
            let told = page_notes(s, html, cookie);
            fetch_notes(s, url, hop, reply).len() == 4 && fetch_notes(s, url, hop, reply)[3]
                == told[3] && fetch_notes(s, url, hop, reply)[0] == told[0]
        },
{
    text::law_part_is_contained("!! 获取登录页失败: "@, reason, seq![]);
    assert("!! 获取登录页失败: "@ + reason =~= "!! 获取登录页失败: "@ + reason + seq![]);
}

/// Each reply of an authentication is told by the step that waited for it, and nothing is told
/// behind its end.
pub proof fn law_replies_are_told(
    s: auth::SessionModel,
    index: int,
    url: Seq<char>,
    hop: nat,
    cookie: Seq<char>,
    body: Seq<char>,
    attempt: nat,
    message: Seq<char>,
    reply: Result<http::Response, Seq<char>>,
    ok: bool,
    code: Code,
)
    ensures
        reply_notes(s, auth::Step::Probe { index }, reply) == probe_notes(
            s,
            index,
            probe::probed(s.targets[index].0, reply),
        ),
        reply_notes(s, auth::Step::Fetch { url, hop }, reply) == fetch_notes(s, url, hop, reply),
        reply_notes(s, auth::Step::Submit { url, cookie, body }, reply) == submit_notes(reply),
        reply_notes(s, auth::Step::Review { attempt, message }, reply) == review_notes(
            attempt,
            probe::probed(s.targets[0].0, reply),
        ),
        reply_notes(s, auth::Step::Done { ok, code, detail: message }, reply).len() == 0,
{
}

/// A search tells the redirect to the portal with the target that met it, the configured portal
/// before it is tried, and the address of the page that it found.
pub proof fn law_search_is_told(
    targets: Seq<(Seq<char>, Seq<char>)>,
    portal_url: Seq<char>,
    index: int,
    reply: Result<http::Response, Seq<char>>,
    portal: Seq<char>,
)
    requires
        0 <= index < targets.len(),
    ensures
        ({
            let notes = search_notes(targets, portal_url, detect::Search::Probe { index }, reply);
            let found = probe::probed(targets[index].0, reply);
            &&& found == probe::Probe::Captive(portal) ==> notes.len() == 1 && text::contains(
                notes[0],
                targets[index].0 + targets[index].1,
            ) && text::contains(notes[0], portal)
            &&& !(found is Captive) && index + 1 < targets.len() ==> notes.len() == 0
            &&& !(found is Captive) && index + 1 == targets.len() && urls::portal_address(
                portal_url,
            ) == Some(portal) ==> notes.len() == 1 && text::contains(notes[0], portal)
        }),
{
    let a = "探测 "@;
    let b = targets[index].0;
    let c = targets[index].1;
    let d = " -> 302 被劫持: "@;
    lemma_search_parts(a, b, c, d, portal);
    let e = "无劫持响应, 验证手填的门户地址: "@;
    text::law_part_is_contained(e, portal, seq![]);
    assert(e + portal =~= e + portal + seq![]);
}

proof fn lemma_search_parts(
    a: Seq<char>,
    b: Seq<char>,
    c: Seq<char>,
    d: Seq<char>,
    e: Seq<char>,
)
    ensures
        text::contains(a + b + c + d + e, b + c),
        text::contains(a + b + c + d + e, e),
{
    lemma_middle_is_told(a, b, c, d, e);
    let front = a + b + c + d;
    let k = front.len() as int;
    assert((front + e).subrange(k, k + e.len()) =~= e);
    assert(text::occurs_at(front + e, e, k));
}

}
