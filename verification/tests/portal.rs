use portalkeeper::charset::looks_like_portal_page;
use portalkeeper::forms::{detect_credential_fields, parse_form_inputs};
use portalkeeper::uci::Config;
use portalkeeper::urls::{
    captive_target, parse_portal_url, probe_targets, url_base, url_host, PROBE_URLS,
};

#[test]
fn same_host_redirect_is_not_captive() {
    assert_eq!(captive_target("www.baidu.com", "https://www.baidu.com/"), None);
    assert_eq!(captive_target("www.baidu.com", "http://www.baidu.com/index.html"), None);
}

#[test]
fn other_school_portal_is_captive() {
    assert_eq!(
        captive_target("www.msftconnecttest.com", "http://10.10.0.1/portal/login?wlanuserip=1.2.3.4").as_deref(),
        Some("http://10.10.0.1/portal/login?wlanuserip=1.2.3.4")
    );
    assert!(captive_target("connect.rom.miui.com", "http://10.0.0.9:8080/portal").is_some());
    assert!(captive_target("a.example.com", "http://auth.school.edu.cn/wifi/login").is_some());
}

#[test]
fn relative_location_resolved_against_requested_host() {
    assert_eq!(
        captive_target("www.msftconnecttest.com", "/portal/login?mac=aabbccddeeff").as_deref(),
        Some("http://www.msftconnecttest.com/portal/login?mac=aabbccddeeff")
    );
}

#[test]
fn url_helpers() {
    assert_eq!(url_host("http://10.10.0.1:8080/portal/login?x=1"), "10.10.0.1");
    assert_eq!(url_base("http://10.10.0.1:8080/portal/login?x=1"), "http://10.10.0.1:8080");
    assert_eq!(url_base("http://10.255.2.252/x?y=1"), "http://10.255.2.252");
}

#[test]
fn portal_url_parsing() {
    assert_eq!(parse_portal_url("  "), None);
    assert_eq!(parse_portal_url("http://10.255.2.252"), Some("http://10.255.2.252".into()));
    assert_eq!(
        parse_portal_url("10.10.0.1/portal/login?wlanuserip=1.2.3.4").as_deref(),
        Some("http://10.10.0.1/portal/login?wlanuserip=1.2.3.4")
    );
    assert_eq!(parse_portal_url("http:// bad url/"), None);
}

#[test]
fn credential_field_detection() {
    let h1 = r#"<input type="hidden" name="wlanuserip" value="1.2.3.4"><input type="text" name="userId"><input type="password" name="passwd">"#;
    assert_eq!(
        detect_credential_fields(&parse_form_inputs(h1)),
        (Some("userId".into()), Some("passwd".into()))
    );
    let h2 = r#"<input name="nasid" type="hidden"><input name="account" type="text"><input name="pwd" type="password">"#;
    assert_eq!(
        detect_credential_fields(&parse_form_inputs(h2)),
        (Some("account".into()), Some("pwd".into()))
    );
    let h3 = r#"<input name="username" type="text">"#;
    assert_eq!(
        detect_credential_fields(&parse_form_inputs(h3)),
        (Some("username".into()), None)
    );
}

#[test]
fn portal_page_detection() {
    assert!(looks_like_portal_page(r#"<input type="password" name="pwd">"#));
    assert!(looks_like_portal_page("wlanuserip=1.2.3.4"));
    assert!(!looks_like_portal_page("<html><body>hello</body></html>"));
}

#[test]
fn probe_targets_custom() {
    assert_eq!(probe_targets("").len(), PROBE_URLS.len());
    assert_eq!(probe_targets("http:// bad url/").len(), PROBE_URLS.len());
    let t = probe_targets("10.0.0.1/portal");
    assert_eq!(t.len(), 1);
    assert_eq!(t[0], ("10.0.0.1".to_string(), "/portal".to_string()));
}

#[test]
fn parse_basic() {
    let cfg = Config::parse(
        "config portalkeeper 'main'\n\toption enabled '1'\n\toption interval 300\n\
         config line 'wan'\n\toption device \"eth1\"\n\t# comment\n\toption ua 'mobile'\n",
    );
    assert_eq!(cfg.sections.len(), 2);
    let main = cfg.first("portalkeeper").unwrap();
    assert_eq!(main.name.as_deref(), Some("main"));
    assert_eq!(main.get("enabled"), Some("1"));
    assert_eq!(main.get("interval"), Some("300"));
    let lines = cfg.sections_of("line");
    assert_eq!(lines.len(), 1);
    assert_eq!(lines[0].get("device"), Some("eth1"));
    assert_eq!(lines[0].get("ua"), Some("mobile"));
}
