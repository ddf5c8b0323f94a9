use portalkeeper::net::{ipv4_text, parse_ipv4, usable_source, Ipv4};
use portalkeeper::request::{build_request, parse_target, Target};
use portalkeeper::urls::{
    captive_target, login_probe_targets, parse_portal_url, parse_probe_url, probe_targets,
    url_base, url_host, PORTAL_HOST, PROBE_URLS, SELF_SERVICE_URL,
};

fn pair(a: &str, b: &str) -> (String, String) {
    (a.to_string(), b.to_string())
}

#[test]
fn host_ends_at_port_path_query_or_fragment() {
    assert_eq!(url_host("https://a.example.com?x=1"), "a.example.com");
    assert_eq!(url_host("a.example.com#top"), "a.example.com");
    assert_eq!(url_host("http://[x"), "[x");
    assert_eq!(url_host(""), "");
    assert_eq!(url_host("https://http://b/"), "http");
}

#[test]
fn base_address_is_its_own_base_address() {
    let base = url_base("https://10.0.0.1:8443?session=1#x");
    assert_eq!(base, "https://10.0.0.1:8443");
    assert_eq!(url_base(&base), base);
    assert_eq!(url_base("10.0.0.1/a"), "http://10.0.0.1");
}

#[test]
fn redirects_to_the_probed_host_in_any_form() {
    assert_eq!(captive_target("www.baidu.com", "https://WWW.Baidu.com"), None);
    assert_eq!(captive_target("www.baidu.com", "https://www.baidu.com?from=http"), None);
    assert_eq!(captive_target("www.baidu.com", "https://www.baidu.com#a"), None);
    assert_eq!(captive_target("www.baidu.com", "  http://www.baidu.com:8080/x \r"), None);
    assert_eq!(captive_target("www.baidu.com", "www.baidu.com/x"), None);
}

#[test]
fn redirects_without_a_host() {
    assert_eq!(captive_target("h", ""), None);
    assert_eq!(captive_target("h", "   "), None);
    assert_eq!(captive_target("h", "?a=1"), None);
    assert_eq!(captive_target("h", "http:///x"), None);
    assert_eq!(captive_target("h", "https:///x").as_deref(), Some("https:///x"));
    assert_eq!(captive_target("h", "//10.0.0.1/").as_deref(), Some("http://h//10.0.0.1/"));
}

#[test]
fn captive_address_is_absolute() {
    assert_eq!(captive_target("h", "login.html").as_deref(), Some("http://h/login.html"));
    assert_eq!(captive_target("h", "p.q/login?a=1").as_deref(), Some("http://h/p.q/login?a=1"));
    for loc in ["login.html", "/x", "https://p/", "http://p:81?x", "a b", "https:///"] {
        let u = captive_target("h", loc).unwrap();
        assert!(u.starts_with("http://") || u.starts_with("https://"), "{u}");
    }
}

#[test]
fn letter_case_of_a_scheme() {
    assert_eq!(captive_target("a.b", "HTTP://10.0.0.1/X").as_deref(), Some("http://10.0.0.1/X"));
    assert_eq!(captive_target("a.b", "HttpS://P.q?A=1").as_deref(), Some("https://P.q?A=1"));
    assert_eq!(captive_target("www.baidu.com", "HTTP://www.baidu.com/"), None);
    assert_eq!(captive_target("www.baidu.com", "HTTPS://WWW.baidu.com:443?x"), None);
}

#[test]
fn redirects_to_other_schemes() {
    assert_eq!(captive_target("h", "ftp://p/x"), None);
    assert_eq!(captive_target("h", "wss://p"), None);
    assert_eq!(
        captive_target("h", "login?next=http://p/").as_deref(),
        Some("http://h/login?next=http://p/")
    );
    assert_eq!(captive_target("h", "p:81/x").as_deref(), Some("http://h/p:81/x"));
}

#[test]
fn captive_address_is_kept_to_the_letter() {
    assert_eq!(
        captive_target("h", "\thttps://Portal.School/Login?UserIP=1.2.3.4&MAC=AA ").as_deref(),
        Some("https://Portal.School/Login?UserIP=1.2.3.4&MAC=AA")
    );
}

#[test]
fn probe_addresses() {
    assert_eq!(parse_probe_url("http://a.b/c?d"), Some(pair("a.b", "/c?d")));
    assert_eq!(parse_probe_url(" a-b_c.d:81 "), Some(pair("a-b_c.d:81", "/")));
    assert_eq!(parse_probe_url(""), None);
    assert_eq!(parse_probe_url("/path"), None);
    assert_eq!(parse_probe_url("a b/"), None);
    assert_eq!(parse_probe_url("主机/"), None);
    assert_eq!(parse_probe_url("https://www.baidu.com/"), None);
    assert_eq!(parse_probe_url("a:"), None);
    assert_eq!(parse_probe_url("a:b"), None);
    assert_eq!(parse_probe_url("a:1:2"), None);
    assert_eq!(parse_probe_url(":80"), None);
    assert_eq!(parse_probe_url("http://10.0.0.1:8080/x"), Some(pair("10.0.0.1:8080", "/x")));
}

#[test]
fn built_in_probe_addresses() {
    let want: Vec<(String, String)> =
        PROBE_URLS.iter().map(|(h, p)| pair(h, p)).collect();
    assert_eq!(probe_targets("   "), want);
    assert_eq!(login_probe_targets(None), want);
    assert_eq!(login_probe_targets(Some(" , ,")), want);
    assert_eq!(want[1], pair("connect.rom.miui.com", "/generate_204"));
    assert_eq!(SELF_SERVICE_URL, format!("http://{PORTAL_HOST}/self/index.html#/Login"));
}

#[test]
fn login_probe_addresses_from_a_setting() {
    assert_eq!(
        login_probe_targets(Some("127.0.0.1:8000/probe, ,b ")),
        vec![pair("127.0.0.1:8000", "/probe"), pair("b", "/")]
    );
}

#[test]
fn portal_addresses() {
    assert_eq!(parse_portal_url(" https://p.q/r?s "), Some("https://p.q/r?s".into()));
    assert_eq!(parse_portal_url("p.q"), Some("http://p.q".into()));
    assert_eq!(parse_portal_url("/p"), None);
    let once = parse_portal_url("10.0.0.1/x").unwrap();
    assert_eq!(parse_portal_url(&once), Some(once.clone()));
}

#[test]
fn ipv4_addresses_read_back() {
    let ip = Ipv4 { a: 10, b: 0, c: 255, d: 9 };
    assert_eq!(ipv4_text(ip), "10.0.255.9");
    assert_eq!(parse_ipv4("10.0.255.9"), Some(ip));
    for bad in ["", "1.2.3", "1.2.3.4.5", "256.1.1.1", "01.2.3.4", "1..3.4", "+1.2.3.4", "1.2.3.4 "] {
        assert_eq!(parse_ipv4(bad), None, "{bad}");
    }
    assert_eq!(usable_source(ip), Some(ip));
    assert_eq!(usable_source(Ipv4 { a: 0, b: 0, c: 0, d: 0 }), None);
}

#[test]
fn addresses_of_no_form_are_refused() {
    for s in ["1.2.3.04", "1.2.3.1234", "a.b.c.d", "1.2.3.-4", "....", "1,2,3,4"] {
        assert_eq!(parse_ipv4(s), None, "{s}");
    }
    assert_eq!(parse_ipv4("255.255.255.255").map(ipv4_text), Some("255.255.255.255".to_string()));
}

#[test]
fn request_targets() {
    let t = parse_target("http://10.0.0.9:8080/portal?x=1").unwrap();
    assert_eq!((t.host.as_str(), t.port, t.path.as_str()), ("10.0.0.9", 8080, "/portal?x=1"));
    let t = parse_target("http://a").unwrap();
    assert_eq!((t.host.as_str(), t.port, t.path.as_str()), ("a", 80, "/"));
    let t = parse_target("http://a:99999/").unwrap();
    assert_eq!((t.host.as_str(), t.port), ("a", 80));
    let t = parse_target("http://a:b/").unwrap();
    assert_eq!((t.host.as_str(), t.port), ("a:b", 80));
    assert_eq!(parse_target("https://a/").unwrap_err(), "仅支持 http URL: https://a/");
}

#[test]
fn request_text_of_a_get() {
    let t = Target { host: "h".into(), port: 80, path: "/p?q=1".into() };
    assert_eq!(
        build_request("GET", &t, &vec![pair("Accept", "*/*")], None),
        "GET /p?q=1 HTTP/1.1\r\nHost: h\r\nConnection: close\r\nAccept: */*\r\nUser-Agent: portalkeeper/1.0\r\n\r\n"
    );
}

#[test]
fn request_text_of_a_post_has_one_user_agent() {
    let t = Target { host: "h".into(), port: 8080, path: "/".into() };
    let text = build_request("POST", &t, &vec![pair("uSER-aGENT", "x")], Some("a=中"));
    assert_eq!(
        text,
        "POST / HTTP/1.1\r\nHost: h:8080\r\nConnection: close\r\nuSER-aGENT: x\r\nContent-Length: 5\r\n\r\na=中"
    );
}
