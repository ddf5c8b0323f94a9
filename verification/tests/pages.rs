use portalkeeper::charset::looks_like_portal_page;
use portalkeeper::encode::urlencode;
use portalkeeper::forms::{
    detect_credential_fields, extract_err_message, input_tags, parse_form_fields,
    parse_form_inputs, split_attrs,
};
use portalkeeper::http::{parse_response, HttpResponse};
use portalkeeper::login::{
    encode_form, fetch_login_page, fill_form, redirect_target, session_cookie, summarise_form,
    template_label, FetchStep, BASE_FORM_DEFAULTS,
};

fn pair(a: &str, b: &str) -> (String, String) {
    (a.to_string(), b.to_string())
}

fn input(name: &str, kind: &str) -> (String, String, String) {
    (name.to_string(), kind.to_string(), String::new())
}

fn reply(raw: &str) -> Result<HttpResponse, String> {
    parse_response(raw.as_bytes())
}

#[test]
fn fields_keep_names_and_values_to_the_letter() {
    let html = r#"<INPUT Name="serverIp" VALUE="Tomcat:80"><input name='q' value='a "b"'><input name=x value=Y>"#;
    assert_eq!(
        parse_form_fields(html),
        vec![pair("serverIp", "Tomcat:80"), pair("q", "a \"b\""), pair("x", "Y")]
    );
}

#[test]
fn disabled_and_nameless_inputs_are_left_out() {
    let html = r#"<input name="a" disabled><input value="1"><input name="b" value="1" name="c"><input name="">"#;
    assert_eq!(parse_form_fields(html), vec![pair("c", "1"), pair("", "")]);
    assert_eq!(parse_form_inputs(html), vec![("c".to_string(), "text".to_string(), "1".to_string())]);
}

#[test]
fn character_references_in_values() {
    let html = r#"<input name="a" value="1&amp;2&quot;3&#39;4&lt;">"#;
    assert_eq!(parse_form_fields(html), vec![pair("a", "1&2\"3'4&lt;")]);
    let html = r#"<input name="a" value="&amp;quot;">"#;
    assert_eq!(parse_form_fields(html), vec![pair("a", "\"")]);
}

#[test]
fn unclosed_tag_ends_the_form() {
    assert_eq!(input_tags("<input a><input b").len(), 1);
    assert_eq!(parse_form_fields("x<input name=a>y<input name=b"), vec![pair("a", "")]);
}

#[test]
fn attributes_of_a_tag() {
    assert_eq!(
        split_attrs("<input A=1 b='2 3' CHECKED c=\"\""),
        vec![pair("<input", ""), pair("a", "1"), pair("b", "2 3"), pair("checked", ""), pair("c", "")]
    );
    assert_eq!(split_attrs("<input a=\"x"), vec![pair("<input", ""), pair("a", "x")]);
}

#[test]
fn values_of_any_characters() {
    assert_eq!(parse_form_fields("<input name=\"a\" value=全>"), vec![pair("a", "全")]);
    assert_eq!(parse_form_fields("<input name=充 value='\u{a0}'>"), vec![pair("充", "\u{a0}")]);
    assert_eq!(
        parse_form_inputs("<input name=a type=全\u{a0}TEL>"),
        vec![("a".to_string(), "全\u{a0}tel".to_string(), String::new())]
    );
}

#[test]
fn parts_of_a_page() {
    let parts = ["", "<p>", "x<input name=a value=1>", "<input name=b", "<input name=c><br>"];
    for a in parts {
        if !(a.is_empty() || a.ends_with('>')) {
            continue;
        }
        for b in parts {
            let mut want = parse_form_fields(a);
            want.extend(parse_form_fields(b));
            assert_eq!(parse_form_fields(&format!("{a}{b}")), want);
        }
    }
}

#[test]
fn inputs_are_the_named_fields() {
    let html = "<input name='' value=0><input name=a value=1 TYPE=Hidden><input name=b disabled><input name=c>";
    let inputs = parse_form_inputs(html);
    let named: Vec<(String, String)> =
        parse_form_fields(html).into_iter().filter(|(n, _)| !n.is_empty()).collect();
    assert_eq!(inputs.iter().map(|t| (t.0.clone(), t.2.clone())).collect::<Vec<_>>(), named);
    assert_eq!(inputs.iter().map(|t| t.1.as_str()).collect::<Vec<_>>(), vec!["hidden", "text"]);
}

#[test]
fn inputs_have_types_in_lower_case() {
    assert_eq!(
        parse_form_inputs(r#"<input name="p" TYPE="PassWord" value="v">"#),
        vec![("p".to_string(), "password".to_string(), "v".to_string())]
    );
}

#[test]
fn account_is_the_nearest_typed_input_before_the_password() {
    let v = vec![input("a", "text"), input("b", "email"), input("h", "hidden"), input("p", "password"), input("p2", "password")];
    assert_eq!(detect_credential_fields(&v), (Some("b".into()), Some("p".into())));
}

#[test]
fn account_by_its_name() {
    let v = vec![input("p", "password"), input("x", "text"), input("LoginName", "tel")];
    assert_eq!(detect_credential_fields(&v), (Some("LoginName".into()), Some("p".into())));
    assert_eq!(detect_credential_fields(&[]), (None, None));
    assert_eq!(detect_credential_fields(&[input("userid", "hidden")]), (None, None));
}

#[test]
fn portal_messages() {
    assert_eq!(
        extract_err_message(r#"<input name="x"><INPUT ID="errMessage" Value="密码错误&amp;&quot;">"#),
        "密码错误&\""
    );
    assert_eq!(extract_err_message("<input id='errmessage' value='a'>"), "a");
    assert_eq!(extract_err_message("<input id='errmessage' value=a>"), "");
    assert_eq!(extract_err_message("<input id='errmessage'><input id='errmessage' value='b'>"), "");
    assert_eq!(extract_err_message("<p>"), "");
}

#[test]
fn portal_pages() {
    assert!(looks_like_portal_page("TYPE='PASSWORD'"));
    assert!(looks_like_portal_page("bossWeb"));
    assert!(looks_like_portal_page("石斧"));
    assert!(!looks_like_portal_page("type=password"));
}

#[test]
fn percent_encoding() {
    assert_eq!(urlencode("AZaz09-_.~"), "AZaz09-_.~");
    assert_eq!(urlencode("a b&=%+/"), "a%20b%26%3D%25%2B%2F");
    assert_eq!(urlencode("密"), "%E5%AF%86");
    assert_eq!(urlencode(""), "");
}

fn percent_decode(s: &str) -> String {
    let b = s.as_bytes();
    let mut out: Vec<u8> = Vec::new();
    let mut i = 0;
    while i < b.len() {
        if b[i] == b'%' {
            out.push(u8::from_str_radix(&s[i + 1..i + 3], 16).unwrap());
            i += 3;
        } else {
            out.push(b[i]);
            i += 1;
        }
    }
    String::from_utf8(out).unwrap()
}

#[test]
fn percent_encoding_is_undone() {
    for s in ["", "a b", "学号@校园=1&2%", "\u{10ffff}\u{0}~"] {
        assert_eq!(percent_decode(&urlencode(s)), s);
    }
}

#[test]
fn redirects_on_the_way_to_the_page() {
    assert_eq!(redirect_target("http://h:81/a?b", " /c?d "), "http://h:81/c?d");
    assert_eq!(redirect_target("http://h/a", "https://x/y"), "https://x/y");
    assert_eq!(redirect_target("http://h/a//", "login.html"), "http://h/a/login.html");
}

#[test]
fn cookies_lose_their_attributes() {
    let r = reply("HTTP/1.1 200 OK\r\nSet-Cookie:  JSESSIONID=1 ; Path=/\r\n\r\n").unwrap();
    assert_eq!(session_cookie(&r), "JSESSIONID=1");
    assert_eq!(session_cookie(&reply("HTTP/1.1 200 OK\r\n\r\n").unwrap()), "");
}

#[test]
fn fetch_of_a_login_page() {
    let r = reply("HTTP/1.1 200 OK\r\nSet-Cookie: a=b\r\n\r\n<p>");
    assert!(matches!(
        fetch_login_page("http://p/", 0, &r),
        FetchStep::Page { url, html, cookie } if url == "http://p/" && html == "<p>" && cookie == "a=b"
    ));
    let r = reply("HTTP/1.1 302 X\r\nLocation: /x\r\n\r\n");
    assert!(matches!(fetch_login_page("http://p/", 1, &r), FetchStep::Follow(u) if u == "http://p/x"));
    assert!(matches!(
        fetch_login_page("http://p/", 2, &r),
        FetchStep::Failed(e) if e == "跳转次数过多, 未拿到登录页"
    ));
    let r = reply("HTTP/1.1 404 X\r\n\r\n");
    assert!(matches!(fetch_login_page("http://p/", 0, &r), FetchStep::Failed(e) if e == "登录页 HTTP 404"));
    let r = Err("断开".to_string());
    assert!(matches!(fetch_login_page("http://p/", 0, &r), FetchStep::Failed(e) if e == "断开"));
}

#[test]
fn form_of_an_empty_page() {
    let f = fill_form("", "pc", "u", "p");
    let mut want: Vec<(String, String)> = BASE_FORM_DEFAULTS.iter().map(|(k, v)| pair(k, v)).collect();
    want.push(pair("userId", "u"));
    want.push(pair("passwd", "p"));
    assert_eq!(f, want);
    assert_eq!(fill_form("", "mobile", "u", "p")[6], pair("templatetype", "2"));
}

#[test]
fn form_of_a_page() {
    let html = r#"<input type="hidden" name="HostIP" value="http://1/"><input type="hidden" name="TemplateType" value="9"><input name="account"><input name="pwd" type="password" value="x">"#;
    let f = fill_form(html, "mobile", "me", "pw");
    assert_eq!(f[0], pair("HostIP", "http://1/"));
    assert_eq!(f[1], pair("TemplateType", "2"));
    assert_eq!(f[2], pair("account", "me"));
    assert_eq!(f[3], pair("pwd", "pw"));
    assert_eq!(f.len(), 11);
    assert_eq!(f[4], pair("scheme", "http"));
}

#[test]
fn encoded_form_splits_back_into_its_fields() {
    let f = vec![pair("a&b", "1=2"), pair("密", " ")];
    let body = encode_form(&f);
    assert_eq!(body, "a%26b=1%3D2&%E5%AF%86=%20");
    let back: Vec<(String, String)> = body
        .split('&')
        .map(|p| {
            let (k, v) = p.split_once('=').unwrap();
            (percent_decode(k), percent_decode(v))
        })
        .collect();
    assert_eq!(back, f);
}

#[test]
fn form_for_the_log_hides_the_password() {
    assert_eq!(
        summarise_form(&vec![pair("userId", "u"), pair("PassWd", "secret")]),
        "userId=u, PassWd=***"
    );
}

#[test]
fn template_labels() {
    assert_eq!(template_label("/uploads/mobile/a uploads/pc/"), "手机");
    assert_eq!(template_label("/uploads/pc/a"), "电脑");
    assert_eq!(template_label(""), "未知");
}
