use portalkeeper::agent::{random_mobile_ua, slot_agent, MOBILE_DEVICES, UA_PC};
use portalkeeper::auth::{
    advance, begin, judge_message, open_session, outgoing, AuthStep, Code, LineCfg, Session,
};
use portalkeeper::detect;
use portalkeeper::detect::DetectStep;
use portalkeeper::http::{parse_response, HttpResponse};
use portalkeeper::notes;

fn line(portal_url: &str) -> LineCfg {
    LineCfg {
        name: "main".into(),
        portal_url: portal_url.into(),
        device: None,
        source: None,
        username: "me".into(),
        password: "pw".into(),
        ua: "pc".into(),
    }
}

fn session(portal_url: &str) -> Session {
    open_session(line(portal_url), Some((1, 2)), 3, Some("a/x,b"))
}

fn reply(raw: &str) -> Result<HttpResponse, String> {
    parse_response(raw.as_bytes())
}

fn ok() -> Result<HttpResponse, String> {
    reply("HTTP/1.1 204 X\r\n\r\n")
}

fn captive() -> Result<HttpResponse, String> {
    reply("HTTP/1.1 302 X\r\nLocation: http://10.0.0.1/p?userip=1&mac=2\r\n\r\n")
}

fn page() -> Result<HttpResponse, String> {
    reply("HTTP/1.1 200 OK\r\nSet-Cookie: s=1; Path=/\r\n\r\n<input name=\"userId\"><input name=\"passwd\" type=\"password\">")
}

fn message(text: &str) -> Result<HttpResponse, String> {
    reply(&format!("HTTP/1.1 200 OK\r\n\r\n<input id=\"errMessage\" value=\"{text}\">"))
}

fn down() -> Result<HttpResponse, String> {
    Err("超时".to_string())
}

fn run(s: &Session, replies: Vec<Result<HttpResponse, String>>) -> (bool, Code, String, Vec<String>) {
    let mut step = begin();
    let mut sent: Vec<String> = Vec::new();
    let mut replies = replies.into_iter();
    loop {
        match outgoing(s, &step) {
            Some(o) => sent.push(format!("{} {} {}", o.wait_secs, o.method, o.url)),
            None => match step {
                AuthStep::Done { ok, code, detail } => return (ok, code, detail, sent),
                _ => panic!("no request"),
            },
        }
        step = advance(s, &step, &replies.next().unwrap());
    }
}

#[test]
fn line_that_is_online_already() {
    let (ok, code, detail, sent) = run(&session(""), vec![down(), ok()]);
    assert_eq!((ok, code, detail.as_str()), (true, Code::Already, "已在线"));
    assert_eq!(sent, vec!["0 GET http://a/x", "0 GET http://b/"]);
}

#[test]
fn successful_authentication() {
    let (ok, code, detail, sent) =
        run(&session(""), vec![captive(), page(), message(""), captive(), ok()]);
    assert_eq!((ok, code, detail.as_str()), (true, Code::Through, ""));
    assert_eq!(
        sent,
        vec![
            "0 GET http://a/x",
            "0 GET http://10.0.0.1/p?userip=1&mac=2",
            "0 POST http://10.0.0.1/p?userip=1&mac=2",
            "3 GET http://a/x",
            "3 GET http://a/x",
        ]
    );
}

#[test]
fn no_portal() {
    let (ok, code, detail, _) = run(&session(" "), vec![down(), down()]);
    assert_eq!(
        (ok, code, detail.as_str()),
        (false, Code::Unreachable, "未探测到门户, 请手动填写门户地址(portal_url)")
    );
}

#[test]
fn configured_portal() {
    let (ok, code, detail, sent) = run(&session("p.q/r"), vec![down(), down(), down()]);
    assert_eq!((ok, code, detail.as_str()), (false, Code::Unreachable, "门户连接失败: 超时"));
    assert_eq!(sent[2], "0 GET http://p.q/r");
}

#[test]
fn too_many_redirects() {
    let away = || reply("HTTP/1.1 302 X\r\nLocation: /next\r\n\r\n");
    let (ok, code, detail, sent) = run(&session(""), vec![captive(), away(), away(), away()]);
    assert_eq!(
        (ok, code, detail.as_str()),
        (false, Code::Unreachable, "门户连接失败: 跳转次数过多, 未拿到登录页")
    );
    assert_eq!(sent.len(), 4);
    assert_eq!(sent[2], "0 GET http://10.0.0.1/next");
}

#[test]
fn wrong_password() {
    let (ok, code, detail, sent) =
        run(&session(""), vec![captive(), page(), message("密码错误, 已在线")]);
    assert_eq!((ok, code, detail.as_str()), (false, Code::BadPass, "密码错误, 已在线"));
    assert_eq!(sent.len(), 3);
}

#[test]
fn slot_that_another_device_holds() {
    for word in ["已在线", "重复", "超限", "终端", "绑定", "占用"] {
        let (ok, code, _, sent) = run(&session(""), vec![captive(), page(), message(word)]);
        assert_eq!((ok, code), (false, Code::Conflict));
        assert_eq!(sent.len(), 3);
    }
}

#[test]
fn form_that_cannot_be_sent() {
    let (ok, code, detail, _) = run(&session(""), vec![captive(), page(), down()]);
    assert_eq!((ok, code, detail.as_str()), (false, Code::Fail, "POST 失败: 超时"));
}

#[test]
fn line_that_stays_closed() {
    let (ok, code, detail, _) =
        run(&session(""), vec![captive(), page(), message(""), captive(), down()]);
    assert_eq!((ok, code, detail.as_str()), (false, Code::Fail, "复核未放行"));
    let (_, _, detail, _) =
        run(&session(""), vec![captive(), page(), message("稍后"), captive(), down()]);
    assert_eq!(detail, "稍后");
}

#[test]
fn page_with_any_characters() {
    let s = session("");
    let step = advance(&s, &begin(), &captive());
    let step = advance(&s, &step, &reply("HTTP/1.1 200 OK\r\n\r\n<input name=充 value=全>"));
    let body = outgoing(&s, &step).unwrap().body.unwrap();
    assert!(body.starts_with("%E5%85%85=%E5%85%A8&scheme=http&"));
}

#[test]
fn code_tells_success() {
    let ends = vec![
        run(&session(""), vec![ok()]),
        run(&session(""), vec![down(), down()]),
        run(&session("p"), vec![down(), down(), down()]),
        run(&session(""), vec![captive(), page(), message(""), ok()]),
        run(&session(""), vec![captive(), page(), message("密码错误")]),
        run(&session(""), vec![captive(), page(), message("占用")]),
        run(&session(""), vec![captive(), page(), down()]),
    ];
    for (ok, code, _, _) in ends {
        let word = code.as_str();
        assert!(["already", "ok", "badpass", "conflict", "unreachable", "fail"].contains(&word));
        assert_eq!(ok, word == "already" || word == "ok");
    }
}

fn journal(s: &Session, replies: Vec<Result<HttpResponse, String>>) -> Vec<String> {
    let mut step = begin();
    let mut log: Vec<String> = Vec::new();
    for r in replies {
        log.extend(notes::before_request(&step));
        log.extend(notes::after_reply(s, &step, &r));
        step = advance(s, &step, &r);
    }
    assert!(outgoing(s, &step).is_none());
    log
}

#[test]
fn journal_of_a_success() {
    let away = reply("HTTP/1.1 302 X\r\nLocation: /next\r\n\r\n");
    let log = journal(&session(""), vec![captive(), away, page(), message("稍后"), captive(), ok()]);
    assert_eq!(log[0], "第 1 步完成: 已取得会话绑定参数  Location = http://10.0.0.1/p?userip=1&mac=2");
    assert_eq!(log[1], "  跳转 http://10.0.0.1/p?userip=1&mac=2 -> http://10.0.0.1/next");
    assert_eq!(log[2], "第 2 步完成: 会话 Cookie (s)");
    assert_eq!(log[3], "  登录页字段: hostIp= 门户模板=未知");
    assert_eq!(log[4], "  表单身份字段: 账号=userId 密码=passwd");
    assert!(log[5].starts_with("  表单明细: userId=me, passwd=***, scheme=http, "));
    assert!(log[6].starts_with("第 3 步完成: 认证请求已提交 (HTTP 200, ") && log[6].ends_with(" 字节)"));
    assert_eq!(
        log[7..],
        [
            "  门户返回消息: 稍后",
            "第 4 步: 等待 3 秒后复核放行 (第 1/2 次)...",
            "复核第 1 次: 仍未放行, 继续等待...",
            "第 4 步: 等待 3 秒后复核放行 (第 2/2 次)...",
            "复核: 200/204 无重定向 -> 已放行",
            "=== 认证成功, 已上线! ===",
        ]
    );
}

#[test]
fn journal_of_failures() {
    assert_eq!(journal(&session(""), vec![down(), ok()]), vec!["探测: 已放行, 本机已在线, 无需认证"]);
    let log = journal(&session(""), vec![down(), down()]);
    assert_eq!(log.len(), 3);
    assert_eq!(log[0], "!! 探测不到门户劫持响应, 且未配置门户地址(portal_url)");
    assert_eq!(
        journal(&session("p"), vec![down(), down(), down()]),
        vec![
            "探测不到劫持响应, 改用配置的门户地址: http://p",
            "第 1 步完成: 已取得会话绑定参数  Location = http://p",
            "!! 获取登录页失败: 超时",
        ]
    );
    let log = journal(&session(""), vec![captive(), page(), message("已在线")]);
    assert_eq!(
        log[log.len() - 2..],
        ["  门户返回消息: 已在线", "!! 槽位冲突: 请到自助管理后台手动下线(本程序绝不自动顶号)"]
    );
    let log = journal(&session(""), vec![captive(), page(), down()]);
    assert_eq!(log[log.len() - 1], "!! 提交认证请求失败: 超时");
    let log = journal(&session(""), vec![captive(), page(), message(""), down(), down()]);
    assert_eq!(
        log[log.len() - 2..],
        ["复核第 2 次: 仍未放行, 继续等待...", "=== 认证失败: 复核仍未放行 ==="]
    );
}

#[test]
fn journal_of_a_search() {
    let targets = vec![("a".to_string(), "/x".to_string())];
    let first = detect::begin();
    assert_eq!(
        notes::after_search_reply(&targets, "", &first, &captive()),
        vec!["探测 a/x -> 302 被劫持: http://10.0.0.1/p?userip=1&mac=2"]
    );
    assert_eq!(
        notes::after_search_reply(&targets, "p", &first, &down()),
        vec!["无劫持响应, 验证手填的门户地址: http://p"]
    );
    assert!(notes::after_search_reply(&targets, "", &first, &ok()).is_empty());
    let told = detect::advance(&targets, "", &first, &captive());
    assert_eq!(
        notes::after_search_reply(&targets, "", &told, &page()),
        vec!["  登录页正常 (最终地址 http://10.0.0.1/p?userip=1&mac=2)"]
    );
    assert_eq!(notes::after_search_reply(&targets, "", &told, &down()), vec!["  登录页抓取失败: 超时"]);
    let set = detect::advance(&targets, "p", &first, &down());
    assert_eq!(
        notes::after_search_reply(&targets, "p", &set, &reply("HTTP/1.1 200 OK\r\n\r\n")),
        vec!["  可达, 内容不像门户登录页 (最终地址 http://p)"]
    );
    assert!(notes::after_search_reply(&targets, "p", &set, &down()).is_empty());
}

#[test]
fn request_that_carries_the_form() {
    let s = session("");
    let step = advance(&s, &begin(), &captive());
    let step = advance(&s, &step, &page());
    let o = outgoing(&s, &step).unwrap();
    let names: Vec<&str> = o.headers.iter().map(|(k, _)| k.as_str()).collect();
    assert_eq!(
        names,
        vec!["User-Agent", "Accept", "Accept-Language", "Content-Type", "Referer", "Cookie"]
    );
    assert_eq!(o.headers[0].1, UA_PC);
    assert_eq!(o.headers[4].1, "http://10.0.0.1/p?userip=1&mac=2");
    assert_eq!(o.headers[5].1, "s=1");
    let body = o.body.unwrap();
    assert!(body.starts_with("userId=me&passwd=pw&scheme=http&"));
    assert!(body.ends_with("&recordmac=0"));
}

#[test]
fn words_of_codes() {
    let words: Vec<&str> = [
        Code::Already,
        Code::Through,
        Code::BadPass,
        Code::Conflict,
        Code::Unreachable,
        Code::Fail,
    ]
    .iter()
    .map(|c| c.as_str())
    .collect();
    assert_eq!(
        words,
        vec!["already", "ok", "badpass", "conflict", "unreachable", "fail"]
    );
}

#[test]
fn message_without_a_keyword_leads_to_a_review() {
    assert!(matches!(
        judge_message("x".to_string()),
        AuthStep::Review { attempt: 1, message } if message == "x"
    ));
}

#[test]
fn agents_of_slots() {
    assert_eq!(slot_agent("pc", None, 0), UA_PC);
    assert_eq!(slot_agent("other", None, 0), UA_PC);
    let phone = slot_agent("mobile", Some((1_700_000_000, 5)), 77);
    assert_eq!(phone, random_mobile_ua(Some((1_700_000_000, 5)), 77));
    assert!(phone.contains("Android 13; ") && phone.contains("Mobile Safari"));
}

#[test]
fn phone_that_the_clock_chooses() {
    let seed: u64 = (5u32 as u64) ^ 1_700_000_000u64 ^ ((77u32 as u64) << 8);
    let idx = (seed.wrapping_mul(6364136223846793005).wrapping_add(1442695040888963407) % 6) as usize;
    assert_eq!(
        random_mobile_ua(Some((1_700_000_000, 5)), 77),
        format!(
            "Mozilla/5.0 (Linux; Android 13; {}) AppleWebKit/537.36 (KHTML, like Gecko) Chrome/120.0.0.0 Mobile Safari/537.36",
            MOBILE_DEVICES[idx]
        )
    );
    let idx = (12345u64.wrapping_mul(6364136223846793005).wrapping_add(1442695040888963407) % 6) as usize;
    assert!(random_mobile_ua(None, 9).contains(&format!("; {})", MOBILE_DEVICES[idx])));
}

fn search(portal_url: &str, replies: Vec<Result<HttpResponse, String>>) -> (Option<String>, usize) {
    let targets = vec![("a".to_string(), "/".to_string()), ("b".to_string(), "/".to_string())];
    let mut step = detect::begin();
    let mut n = 0;
    let mut replies = replies.into_iter();
    loop {
        match detect::outgoing(&targets, &step) {
            Some(o) => {
                assert_eq!(o.method, "GET");
                n += 1;
            }
            None => match step {
                DetectStep::Done { base } => return (base, n),
                _ => panic!("no request"),
            },
        }
        step = detect::advance(&targets, portal_url, &step, &replies.next().unwrap());
    }
}

#[test]
fn search_by_redirect() {
    assert_eq!(search("", vec![ok(), captive(), page()]), (Some("http://10.0.0.1".into()), 3));
    assert_eq!(search("", vec![captive(), down()]), (Some("http://10.0.0.1".into()), 2));
}

#[test]
fn search_by_configured_address() {
    let away = reply("HTTP/1.1 302 X\r\nLocation: http://q:81/z\r\n\r\n");
    assert_eq!(search("p", vec![down(), down(), away, page()]), (Some("http://q:81".into()), 4));
    assert_eq!(search("p", vec![down(), down(), down()]), (None, 3));
    assert_eq!(search("", vec![down(), down()]), (None, 2));
}

#[test]
fn notes_on_pages() {
    assert_eq!(detect::note_page("portal", true), "正常");
    assert_eq!(detect::note_page("portal", false), "像门户登录页");
    assert_eq!(detect::note_page("", true), "内容不像门户登录页");
    assert_eq!(detect::note_page("", false), "内容不像门户登录页");
}
