use portalkeeper::auth::Code;
use portalkeeper::cli::{
    announce_check, arg_value, can_login, conclude_check, conclude_login, config_path,
    resolve_line, timeout_of,
};
use portalkeeper::daemon::{
    begin_check, judge_login, judge_verdict, line_cfg, missing_settings, next_check, reset_retry,
    stop_pending, stop_requested, tick, LineRun, LineState, Tick,
};
use portalkeeper::net::Ipv4;
use portalkeeper::round;
use portalkeeper::round::{Event, Stage};
use portalkeeper::settings::{announce_start, read_settings, Settings};
use portalkeeper::status::{read_status, report_of, status_text};
use portalkeeper::uci::{get, unquote, Config};

fn settings(text: &str) -> Settings {
    read_settings(&Config::parse(text))
}

const FULL: &str = "config portalkeeper 'main'\n\toption username 'me'\n\toption password 'pw'\n\toption device 'eth0'\n\toption source '10.1.2.3'\n\toption retry_count '2'\n\toption portal_url '10.0.0.1'\n\toption probe_url ' p.q/r '\n\nconfig line 'extra'\n\toption enabled '1'\n\toption device 'eth1'\n\toption username ''\n\toption password 'other'\n";

fn line() -> LineRun {
    settings(FULL).lines.remove(0)
}

#[test]
fn default_settings() {
    let s = settings("");
    assert!(s.auto_retry);
    assert_eq!((s.retry_interval, s.retry_count, s.probe_url.as_str()), (60, 3, ""));
    assert_eq!(s.lines.len(), 1);
    let l = &s.lines[0];
    assert_eq!((l.name.as_str(), l.role.as_str(), l.ua.as_str()), ("main", "主 WAN", "pc"));
    assert_eq!((l.device.as_deref(), l.source, l.username.as_str()), (None, None, ""));
    assert_eq!((l.state, l.detail.as_str()), (LineState::Init, "尚未检测"));
}

#[test]
fn settings_are_brought_into_bounds() {
    let s = settings("config portalkeeper\n option retry_interval 1\n option retry_count 999\n option auto_retry 0");
    assert_eq!((s.auto_retry, s.retry_interval, s.retry_count), (false, 15, 100));
    let s = settings("config portalkeeper\n option retry_interval 99999\n option retry_count 0");
    assert_eq!((s.retry_interval, s.retry_count), (86400, 1));
    let s = settings("config portalkeeper\n option retry_interval x\n option retry_count 4294967296");
    assert_eq!((s.retry_interval, s.retry_count), (60, 3));
}

#[test]
fn lines_of_a_configuration() {
    let s = settings(FULL);
    assert_eq!(s.lines.len(), 2);
    assert_eq!(s.lines[0].source, Some(Ipv4 { a: 10, b: 1, c: 2, d: 3 }));
    let e = &s.lines[1];
    assert_eq!((e.name.as_str(), e.role.as_str(), e.ua.as_str()), ("extra", "扩展线路", "mobile"));
    assert_eq!((e.username.as_str(), e.password.as_str()), ("me", "other"));
    assert_eq!((e.device.as_deref(), e.portal_url.as_str()), (Some("eth1"), "10.0.0.1"));
}

#[test]
fn extra_line_is_opt_in() {
    assert_eq!(settings("config line 'extra'\n option device eth1").lines.len(), 1);
    assert_eq!(settings("config line 'wan2'\n option enabled 1").lines.len(), 1);
    assert_eq!(settings("config line 'extra'\n option enabled 1").lines.len(), 2);
}

#[test]
fn start_notice() {
    assert_eq!(
        announce_start(&settings(FULL), 42),
        "服务启动: portalkeeperd 1.0.0 (PID 42), 线路 2 条, 掉线自动重试=开(间隔 60s, 次数 2), 自定义探测网站=p.q/r; 不做周期发包保活"
    );
    assert_eq!(
        announce_start(&settings("config portalkeeper\n option auto_retry 0"), 7),
        "服务启动: portalkeeperd 1.0.0 (PID 7), 线路 1 条, 掉线自动重试=关(间隔 60s, 次数 3); 不做周期发包保活"
    );
}

#[test]
fn missing_credentials_keep_the_service_from_starting() {
    assert_eq!(missing_settings("u", "p"), None);
    assert!(missing_settings(" ", "p").unwrap().starts_with("服务未启动: 主线路缺少必需配置 账号(username) —— "));
    assert!(missing_settings("u", "").unwrap().starts_with("服务未启动: 主线路缺少必需配置 密码(password) —— "));
    let both = missing_settings("", "").unwrap();
    assert!(both.contains("账号(username) + 密码(password)"));
    assert!(both.ends_with("/etc/init.d/portalkeeper restart。补齐前守护进程不会启动。"));
}

#[test]
fn line_without_credentials_is_noted_once() {
    let mut l = line();
    l.password = String::new();
    assert_eq!(begin_check(&mut l), (false, Some("[主 WAN] 跳过: 未配置账号密码".to_string())));
    assert_eq!(l.state, LineState::NoCredentials);
    assert_eq!(begin_check(&mut l), (false, None));
    l.password = "p".into();
    assert_eq!(begin_check(&mut l), (true, None));
}

#[test]
fn online_line() {
    let mut l = line();
    l.fail_count = 1;
    assert_eq!(
        judge_verdict(&mut l, Some(true), "x", false),
        (false, Some("[主 WAN] 已在线(探测通过)".to_string()))
    );
    assert_eq!((l.state, l.detail.as_str(), l.fail_count), (LineState::Online, "已认证在线", 0));
    assert_eq!(judge_verdict(&mut l, Some(true), "x", false), (false, None));
}

#[test]
fn undecided_line() {
    let mut l = line();
    assert_eq!(
        judge_verdict(&mut l, None, "超时", false),
        (false, Some("[主 WAN] 探测无法判定: 超时".to_string()))
    );
    assert_eq!((l.state, l.detail.as_str()), (LineState::Unreachable, "无法判定(线路可能未接好): 超时"));
}

#[test]
fn held_line() {
    let mut l = line();
    assert_eq!(judge_verdict(&mut l, Some(false), "u", true), (false, None));
    assert_eq!(
        judge_verdict(&mut l, Some(false), "u", false),
        (true, Some("[主 WAN] 检测到掉线(被门户劫持), 开始认证...".to_string()))
    );
    assert_eq!(l.state, LineState::Init);
}

#[test]
fn service_gives_up_after_the_last_attempt() {
    let mut l = line();
    assert_eq!(
        judge_login(&mut l, 2, false, Code::Fail, "复核未放行"),
        Some("[主 WAN] 第 1/2 次认证失败(fail): 复核未放行, 将在下次检测时重试".to_string())
    );
    assert_eq!((l.state, l.fail_count, l.exhausted), (LineState::Retrying, 1, false));
    assert_eq!(
        judge_login(&mut l, 2, false, Code::Conflict, "占用"),
        Some("[主 WAN] 连续 2 次认证失败, 已暂停自动重试 — 最后状态(conflict): 占用。可到自助后台(http://10.255.2.252/self/index.html#/Login)检查槽位".to_string())
    );
    assert_eq!((l.state, l.fail_count, l.exhausted), (LineState::Exhausted, 2, true));
    assert_eq!(
        judge_verdict(&mut l, Some(false), "u", false),
        (false, Some("[主 WAN] 处于暂停重试状态, 跳过本轮".to_string()))
    );
    let mut lines = vec![l];
    reset_retry(&mut lines);
    assert_eq!((lines[0].fail_count, lines[0].exhausted), (0, false));
}

#[test]
fn successful_login_forgets_failures() {
    let mut l = line();
    l.fail_count = 1;
    assert_eq!(judge_login(&mut l, 2, true, Code::Through, ""), None);
    assert_eq!((l.state, l.detail.as_str(), l.fail_count), (LineState::Online, "认证成功", 0));
    judge_login(&mut l, 2, true, Code::Already, "");
    assert_eq!(l.detail, "本就已在线");
}

#[test]
fn settings_of_a_line_for_an_authentication() {
    let c = line_cfg(&line());
    assert_eq!((c.name.as_str(), c.username.as_str(), c.password.as_str()), ("main", "me", "pw"));
    assert_eq!((c.device.as_deref(), c.ua.as_str()), (Some("eth0"), "pc"));
    assert_eq!((c.source, c.portal_url.as_str()), (Some(Ipv4 { a: 10, b: 1, c: 2, d: 3 }), "10.0.0.1"));
}

#[test]
fn round_of_two_lines() {
    let mut lines = settings(FULL).lines;
    let (stage, note) = round::advance(&mut lines, 2, round::begin(), &Event::Go { stopping: false });
    assert_eq!((stage, note), (Stage::Probing { index: 0 }, None));
    let (stage, _) = round::advance(
        &mut lines,
        2,
        stage,
        &Event::Probed { verdict: Some(false), detail: "u".into(), stopping: false },
    );
    assert_eq!(stage, Stage::Authenticating { index: 0 });
    let (stage, note) = round::advance(
        &mut lines,
        2,
        stage,
        &Event::Ended { ok: false, code: Code::BadPass, detail: "密码错误".into() },
    );
    assert_eq!(stage, Stage::Next { index: 1 });
    assert!(note.unwrap().contains("第 1/2 次认证失败(badpass): 密码错误"));
    let (stage, _) = round::advance(&mut lines, 2, stage, &Event::Go { stopping: false });
    let (stage, _) = round::advance(
        &mut lines,
        2,
        stage,
        &Event::Probed { verdict: Some(true), detail: "u".into(), stopping: false },
    );
    assert_eq!(stage, Stage::Next { index: 2 });
    let (stage, _) = round::advance(&mut lines, 2, stage, &Event::Go { stopping: false });
    assert_eq!(stage, Stage::Finished);
    assert_eq!((lines[0].state, lines[1].state), (LineState::Retrying, LineState::Online));
}

#[test]
fn signal_ends_a_round() {
    let mut lines = settings(FULL).lines;
    let (stage, note) = round::advance(&mut lines, 2, round::begin(), &Event::Go { stopping: true });
    assert_eq!((stage, note), (Stage::Finished, None));
    assert_eq!(lines[0].state, LineState::Init);
}

#[test]
fn ticks() {
    assert_eq!(tick(true, true, true, 9, 1), Tick::Stop);
    assert_eq!(tick(false, true, false, 0, 9), Tick::CheckAfresh);
    assert_eq!(tick(false, false, true, 9, 9), Tick::Check);
    assert_eq!(tick(false, false, true, 8, 9), Tick::Rest);
    assert_eq!(tick(false, false, false, 9, 1), Tick::Rest);
    assert_eq!(next_check(10, 60), Some(70));
    assert_eq!(next_check(u64::MAX, 1), None);
}

#[test]
fn stop_notices() {
    assert!(!stop_pending(0) && stop_pending(15));
    assert_eq!(stop_requested(0, 1, 0, 9), None);
    assert_eq!(
        stop_requested(15, 42, 100, 100 + 90061),
        Some("守护进程退出: 收到 SIGTERM(服务停止或重启), PID 42, 本次运行时长 1d 1h 1m 1s".to_string())
    );
    assert_eq!(
        stop_requested(2, 42, 100, 5),
        Some("守护进程退出: 收到 SIGINT(Ctrl+C), PID 42, 本次运行时长 0s".to_string())
    );
    assert!(stop_requested(1, 42, 0, 60).unwrap().contains("停止信号, PID 42, 本次运行时长 1m"));
}

#[test]
fn states_in_words() {
    let words: Vec<&str> = [
        LineState::Init,
        LineState::NoCredentials,
        LineState::Online,
        LineState::Retrying,
        LineState::Exhausted,
        LineState::Unreachable,
    ]
    .iter()
    .map(|s| s.as_str())
    .collect();
    assert_eq!(words, vec!["init", "no-credentials", "online", "retrying", "exhausted", "unreachable"]);
}

fn args(v: &[&str]) -> Vec<String> {
    v.iter().map(|s| s.to_string()).collect()
}

#[test]
fn arguments() {
    let a = args(&["--ua", "pc", "--timeout", "9", "--ua", "mobile", "--config"]);
    assert_eq!(arg_value(&a, "--ua"), Some("pc"));
    assert_eq!(arg_value(&a, "--config"), None);
    assert_eq!(arg_value(&a, "--device"), None);
    assert_eq!(timeout_of(&a), 9);
    assert_eq!(timeout_of(&args(&["--timeout", "1"])), 2);
    assert_eq!(timeout_of(&args(&["--timeout", "31"])), 30);
    assert_eq!(timeout_of(&args(&["--timeout", "x"])), 5);
    assert_eq!(timeout_of(&args(&[])), 5);
    assert_eq!(config_path(&args(&[])), "/etc/config/portalkeeper");
    assert_eq!(config_path(&args(&["--config", "/x"])), "/x");
}

#[test]
fn line_of_a_command() {
    let cfg = Config::parse("config portalkeeper\n option username m\n option password n\n option ua mobile\n option device eth0\n option probe_url a.b\nconfig line\n option enabled 0\n option username z\nconfig line 'two'\n option username ''\n option password w\n option device eth1\n");
    let (l, probe) = resolve_line(&args(&[]), &cfg);
    assert_eq!((l.name.as_str(), l.username.as_str(), l.password.as_str()), ("cli", "m", "w"));
    assert_eq!((l.ua.as_str(), l.device.as_deref(), l.source), ("mobile", Some("eth1"), None));
    assert_eq!(probe, "a.b");
    let (l, _) = resolve_line(
        &args(&["--ua", "pc", "--device", "wan", "--source", "1.2.3.4"]),
        &cfg,
    );
    assert_eq!((l.ua.as_str(), l.device.as_deref()), ("pc", Some("wan")));
    assert_eq!(l.source, Some(Ipv4 { a: 1, b: 2, c: 3, d: 4 }));
    let (l, _) = resolve_line(&args(&["--ua", "tv"]), &cfg);
    assert_eq!(l.ua, "mobile");
}

#[test]
fn line_of_a_command_without_configuration() {
    let (l, probe) = resolve_line(&args(&[]), &Config::default());
    assert_eq!((l.username.as_str(), l.password.as_str(), l.ua.as_str()), ("", "", "pc"));
    assert_eq!((l.device.as_deref(), l.portal_url.as_str(), probe.as_str()), (None, "", ""));
    assert!(!can_login(&l));
}

#[test]
fn portal_address_of_a_command() {
    let cfg = Config::parse("config portalkeeper\n option portal_url 10.0.0.1\n");
    assert_eq!(resolve_line(&args(&[]), &cfg).0.portal_url, "10.0.0.1");
}

#[test]
fn conclusions() {
    assert_eq!(conclude_check(Some(true), "d"), ("结论: 已联网(已认证), 无需登录 — d".to_string(), 0));
    assert_eq!(conclude_check(Some(false), "d"), ("结论: 未认证(被门户劫持), 可执行登录 — d".to_string(), 1));
    assert_eq!(conclude_check(None, "d"), ("结论: 无法判定, 网络可能不通 — d".to_string(), 2));
    assert_eq!(conclude_login(true, Code::Already, "x"), ("结论: 本机已在线, 无需操作".to_string(), 0));
    assert_eq!(conclude_login(true, Code::Through, "x"), ("结论: 认证成功".to_string(), 0));
    assert_eq!(
        conclude_login(false, Code::Conflict, "x"),
        ("结论: 槽位被占用, 请打开自助管理后台手动下线后重试".to_string(), 3)
    );
    assert_eq!(conclude_login(false, Code::BadPass, "x"), ("结论: 密码错误".to_string(), 1));
    assert_eq!(conclude_login(false, Code::Unreachable, "x"), ("结论: 认证失败 (x)".to_string(), 1));
}

#[test]
fn check_banner() {
    let cfg = Config::parse("config portalkeeper\n option username m\n option password n\n");
    let (l, _) = resolve_line(&args(&["--source", "1.2.3.4", "--device", "e"]), &cfg);
    assert!(can_login(&l));
    assert_eq!(announce_check(&l, " a.b "), "联通测试开始: 设备=e 源IP=1.2.3.4 槽位=pc 探测网站=a.b");
    let (l, _) = resolve_line(&args(&[]), &cfg);
    assert_eq!(announce_check(&l, "a b"), "联通测试开始: 设备=自动 源IP=自动检测 槽位=pc 探测网站=内置(默认)");
}

#[test]
fn status_reads_back() {
    let mut lines = settings(FULL).lines;
    lines[0].detail = "引号\"与\\换行\n".into();
    let text = status_text("2024-01-02 03:04:05", 1_704_164_645, true, 60, 2, &lines);
    let r = read_status(&text).unwrap();
    assert_eq!(r.updated, "2024-01-02 03:04:05");
    let shown = r.lines.unwrap();
    assert_eq!(shown.len(), 2);
    assert_eq!((shown[0].role.as_str(), shown[0].name.as_str()), ("主 WAN", "main"));
    assert_eq!((shown[0].device.as_deref(), shown[0].source.as_deref()), (Some("eth0"), Some("10.1.2.3")));
    assert_eq!((shown[0].ua.as_str(), shown[0].state.as_str()), ("pc", "init"));
    assert_eq!(shown[0].detail, "引号\"与\\换行\n");
    assert_eq!(shown[1].source, None);
}

#[test]
fn status_document() {
    let mut lines = settings(FULL).lines;
    lines.truncate(1);
    let text = status_text("t", 5, false, 60, 2, &lines);
    assert_eq!(
        text,
        "{\"auto_retry\":false,\"lines\":[{\"detail\":\"尚未检测\",\"device\":\"eth0\",\"name\":\"main\",\"role\":\"主 WAN\",\"source\":\"10.1.2.3\",\"state\":\"init\",\"ua\":\"pc\"}],\"retry_count\":2,\"retry_interval\":60,\"updated\":5,\"updated_human\":\"t\"}"
    );
    assert!(!text.contains("\"pw\""));
}

#[test]
fn status_of_other_shapes() {
    let r = read_status("{\"lines\":[{\"role\":1,\"device\":null}]}").unwrap();
    assert_eq!(r.updated, "?");
    let l = &r.lines.unwrap()[0];
    assert_eq!((l.role.as_str(), l.name.as_str(), l.detail.as_str()), ("?", "?", ""));
    assert_eq!((l.device.as_deref(), l.ua.as_str(), l.state.as_str()), (None, "?", "?"));
    assert!(read_status("[1]").unwrap().lines.is_none());
    assert!(read_status("{\"lines\":[]}").unwrap().lines.unwrap().is_empty());
}

#[test]
fn damaged_status() {
    assert_eq!(read_status("{").unwrap_err(), "EOF while parsing an object at line 1 column 1");
    assert!(read_status("").is_err());
}

#[test]
fn report_of_a_value() {
    let mut v = serde_json::Value::Null;
    v["updated_human"] = serde_json::Value::from("now");
    let r = report_of(&v);
    assert_eq!(r.updated, "now");
    assert!(r.lines.is_none());
}

#[test]
fn sections_of_a_configuration() {
    let c = Config::parse("option lost 1\nconfig 'a' \"n\"\n  # x\n option k 'v 1'\n list k  \"w\"\noption e\n unknown word\nconfig\n");
    assert_eq!(c.sections.len(), 2);
    let a = &c.sections[0];
    assert_eq!((a.stype.as_str(), a.name.as_deref()), ("a", Some("n")));
    assert_eq!(a.options.len(), 3);
    assert_eq!(a.get("k"), Some("w"));
    assert_eq!(get(a, "e"), Some(""));
    assert_eq!(get(a, "none"), None);
    assert_eq!((c.sections[1].stype.as_str(), c.sections[1].name.as_deref()), ("", None));
    assert!(c.first("b").is_none());
    assert!(c.sections_of("b").is_empty());
}

#[test]
fn white_space_in_option_lines() {
    let c = Config::parse("config line 'wan'\n\toption  device eth1\n option\t ua \t 'a b' \n list   k\t\"\"\n");
    assert_eq!(
        c.sections[0].options,
        vec![
            ("device".to_string(), "eth1".to_string()),
            ("ua".to_string(), "a b".to_string()),
            ("k".to_string(), String::new())
        ]
    );
}

#[test]
fn written_configuration_reads_back() {
    let c = Config::parse("config line 'x'\n\toption key 'it's \"so\"'\n\toption other ''\r\nconfig line 'y'");
    assert_eq!(c.sections_of("line").len(), 2);
    assert_eq!(c.sections[0].get("key"), Some("it's \"so\""));
    assert_eq!(c.sections[0].get("other"), Some(""));
}

#[test]
fn quotes() {
    assert_eq!(unquote(" 'a' "), "a");
    assert_eq!(unquote("\"a'"), "\"a'");
    assert_eq!(unquote("'"), "'");
    assert_eq!(unquote("''"), "");
}
