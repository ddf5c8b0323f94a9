use portalkeeper::charset::{decode_body, text_or_gbk};
use portalkeeper::http::{
    decode_chunked, parse_head, parse_response, read_chunk_size, HttpResponse,
};
use portalkeeper::probe::{connectivity_verdict, probe_one, ProbeState};

fn reply(raw: &str) -> Result<HttpResponse, String> {
    parse_response(raw.as_bytes())
}

#[test]
fn response_with_headers_and_body() {
    let r = reply("HTTP/1.1 302 Found\r\nLocation:  http://p/ \r\nX\r\nSet-Cookie: a=1; Path=/\r\n\r\nbody").unwrap();
    assert_eq!(r.status, 302);
    assert_eq!(
        r.headers,
        vec![
            ("location".to_string(), "http://p/".to_string()),
            ("set-cookie".to_string(), "a=1; Path=/".to_string())
        ]
    );
    assert_eq!(r.body, b"body");
    assert_eq!(r.header("LOCATION"), Some("http://p/"));
    assert_eq!(r.header("location"), Some("http://p/"));
    assert_eq!(r.header("missing"), None);
}

#[test]
fn first_header_of_a_name_counts() {
    let r = reply("HTTP/1.1 200 OK\r\nA: 1\r\na: 2\r\n\r\n").unwrap();
    assert_eq!(r.header("A"), Some("1"));
}

#[test]
fn response_without_end_of_head() {
    assert_eq!(reply("HTTP/1.1 200 OK\r\n").unwrap_err(), "响应缺少头部分隔符");
}

#[test]
fn response_without_status() {
    assert_eq!(reply("HTTP/1.1 abc\r\n\r\n").unwrap_err(), "无法解析状态行: HTTP/1.1 abc");
    assert_eq!(reply("HTTP/1.1 65536\r\n\r\n").unwrap_err(), "无法解析状态行: HTTP/1.1 65536");
    assert_eq!(reply("\r\n\r\n").unwrap().status, 0);
}

#[test]
fn head_in_bytes_that_are_not_utf8() {
    let mut raw = b"HTTP/1.1 200 OK\r\nX: a".to_vec();
    raw.push(0xff);
    raw.extend_from_slice(b"b\r\n\r\n");
    let r = parse_response(&raw).unwrap();
    assert_eq!(r.header("x"), Some("a\u{fffd}b"));
}

#[test]
fn heads_read_back() {
    let (status, headers) = parse_head("HTTP/1.1 204\r\nserver: axe_bras/1.0\r\nx: y:z").unwrap();
    assert_eq!(status, 204);
    assert_eq!(
        headers,
        vec![
            ("server".to_string(), "axe_bras/1.0".to_string()),
            ("x".to_string(), "y:z".to_string())
        ]
    );
}

#[test]
fn chunks_are_joined() {
    let data = b"4;ext=1\r\nWiki\r\n 5 \r\npedia\r\nE\r\n in\r\n\r\nchunks.\r\n0\r\n\r\n";
    assert_eq!(decode_chunked(data), b"Wikipedia in\r\n\r\nchunks.");
}

#[test]
fn chunks_that_break_off() {
    assert_eq!(decode_chunked(b"a\r\n12345"), b"12345");
    assert_eq!(decode_chunked(b"zz\r\n12345\r\n"), b"");
    assert_eq!(decode_chunked(b"3\r\nabc\r\nno size\r\nx"), b"abc");
    assert_eq!(decode_chunked(b""), b"");
    assert_eq!(decode_chunked(b"5"), b"");
}

#[test]
fn chunks_that_end_with_their_data() {
    assert_eq!(decode_chunked(b"3\r\nabc"), b"abc");
    assert_eq!(decode_chunked(b"3\r\nabc\r"), b"abc");
    assert_eq!(decode_chunked(b"3\r\nabc\r\n"), b"abc");
    assert_eq!(decode_chunked(b"ffffffffffffffff\r\nabc"), b"abc");
    let r = reply("HTTP/1.1 200 OK\r\nTransfer-Encoding: chunked\r\n\r\n3\r\nabc").unwrap();
    assert_eq!(r.body, b"abc");
}

#[test]
fn chunk_in_front_of_any_data_adds_its_bytes() {
    for rest in [&b""[..], b"2\r\nxy", b"no size\r\n", b"0\r\n\r\n", b"1\r\nz\r\n"] {
        for size in ["b", "B", "b;ext=1"] {
            let mut data = size.as_bytes().to_vec();
            data.extend_from_slice(b"\r\nhello world\r\n");
            data.extend_from_slice(rest);
            let mut want = b"hello world".to_vec();
            want.extend_from_slice(&decode_chunked(rest));
            assert_eq!(decode_chunked(&data), want);
        }
        let mut data = b"0\r\n".to_vec();
        data.extend_from_slice(rest);
        assert_eq!(decode_chunked(&data), b"");
    }
}

#[test]
fn chunk_sizes() {
    assert_eq!(read_chunk_size(b"1A"), Some(26));
    assert_eq!(read_chunk_size(b" ff ; a=b"), Some(255));
    assert_eq!(read_chunk_size(b"+10"), Some(16));
    assert_eq!(read_chunk_size(b""), None);
    assert_eq!(read_chunk_size(b"g"), None);
    assert_eq!(read_chunk_size(b"\xff"), None);
    assert_eq!(read_chunk_size(b"10000000000000000"), None);
}

#[test]
fn chunked_response() {
    let r = reply("HTTP/1.1 200 OK\r\nTransfer-Encoding: gzip, Chunked\r\n\r\n3\r\nabc\r\n0\r\n\r\n")
        .unwrap();
    assert_eq!(r.body, b"abc");
}

#[test]
fn utf8_body() {
    assert_eq!(decode_body("密码错误".as_bytes()), "密码错误");
    assert_eq!(decode_body(b"\xef\xbb\xbfabc"), "abc");
    assert_eq!(decode_body(b""), "");
}

#[test]
fn gbk_body() {
    assert_eq!(decode_body(&[0xc3, 0xdc, 0xc2, 0xeb]), "密码");
    assert_eq!(decode_body(&[b'a', 0xff]), "a\u{fffd}");
}

#[test]
fn charset_choice() {
    assert_eq!(text_or_gbk("x".to_string(), false, &[0xc3, 0xdc]), "x");
    assert_eq!(text_or_gbk("x".to_string(), true, &[0xc3, 0xdc]), "密");
}

#[test]
fn probes() {
    assert_eq!(probe_one("h", &reply("HTTP/1.1 200 OK\r\n\r\n")), ProbeState::Online);
    assert_eq!(probe_one("h", &reply("HTTP/1.1 204 No Content\r\n\r\n")), ProbeState::Online);
    assert_eq!(probe_one("h", &reply("HTTP/1.1 503 X\r\n\r\n")), ProbeState::Inconclusive);
    assert_eq!(
        probe_one("h", &reply("HTTP/1.1 302 X\r\nLocation: https://h/\r\n\r\n")),
        ProbeState::Inconclusive
    );
    assert_eq!(
        probe_one("h", &reply("HTTP/1.1 200 X\r\nLocation: http://p/?a\r\n\r\n")),
        ProbeState::Captive("http://p/?a".into())
    );
    assert_eq!(
        probe_one("h", &Err("超时".to_string())),
        ProbeState::Unreachable("超时".into())
    );
}

#[test]
fn body_of_a_probe_does_not_matter() {
    let page = "HTTP/1.1 200 OK\r\n\r\n<input type=\"password\">";
    assert_eq!(probe_one("h", &reply(page)), ProbeState::Online);
}

fn found(host: &str, state: ProbeState) -> (String, String, ProbeState) {
    (host.to_string(), "/p".to_string(), state)
}

#[test]
fn first_decisive_probe_counts() {
    let v = vec![
        found("a", ProbeState::Inconclusive),
        found("b", ProbeState::Unreachable("e".into())),
        found("c", ProbeState::Captive("http://p".into())),
        found("d", ProbeState::Online),
    ];
    assert_eq!(connectivity_verdict(&v), (Some(false), "http://p".to_string()));
    assert_eq!(
        connectivity_verdict(&vec![found("d", ProbeState::Online)]),
        (Some(true), "d/p".to_string())
    );
}

#[test]
fn last_reason_counts_where_no_probe_decides() {
    let v = vec![
        found("a", ProbeState::Unreachable("e1".into())),
        found("b", ProbeState::Unreachable("e2".into())),
        found("c", ProbeState::Inconclusive),
    ];
    assert_eq!(connectivity_verdict(&v), (None, "e2".to_string()));
    assert_eq!(connectivity_verdict(&vec![]), (None, String::new()));
}
