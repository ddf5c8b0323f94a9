//! HTTP/1.1 requests.

use vstd::prelude::*;

use crate::number;
use crate::text;

verus! {

/// Where a request goes.
#[derive(Debug)]
pub struct Target {
    pub host: String,
    pub port: u16,
    /// Path and query.
    pub path: String,
}

/// The last position before `n` of a `:`.
pub open spec fn last_colon(s: Seq<char>, n: int) -> Option<int>
    decreases n,
{
    if n <= 0 || n > s.len() {
        None
    } else if s[n - 1] == ':' {
        Some(n - 1)
    } else {
        last_colon(s, n - 1)
    }
}

/// One or more decimal digits and nothing else.
pub open spec fn all_digits(s: Seq<char>) -> bool {
    s.len() > 0 && forall|i: int| 0 <= i < s.len() ==> '0' <= #[trigger] s[i] <= '9'
}

/// Host and port of `host` or `host:port`. A port that is too great is read as 80; what stands
/// behind the last `:` and is no number belongs to the host.
pub open spec fn host_and_port(s: Seq<char>) -> (Seq<char>, nat) {
    match last_colon(s, s.len() as int) {
        Some(k) => if all_digits(s.skip(k + 1)) {
            (
                s.take(k),
                match number::number(s.skip(k + 1), 10, u16::MAX as nat) {
                    Some(p) => p,
                    None => 80,
                },
            )
        } else {
            (s, 80)
        },
        None => (s, 80),
    }
}

/// Host, port and path of an `http://` URL; `None` for any other URL.
pub open spec fn target_of(url: Seq<char>) -> Option<(Seq<char>, nat, Seq<char>)> {
    if text::starts_with(url, "http://"@) {
        let a = crate::urls::host_and_path(url.skip(7));
        let h = host_and_port(a.0);
        Some((h.0, h.1, a.1))
    } else {
        None
    }
}

/// Whether the text is one or more decimal digits and nothing else.
pub fn digits_only(s: &str) -> (r: bool)
    ensures
        r == all_digits(s@),
{
    let v: Vec<char> = text::chars_of(s);
    let mut i: usize = 0;
    while i < v.len()
        invariant
            v@ == s@,
            i <= v@.len(),
            forall|j: int| 0 <= j < i ==> '0' <= #[trigger] s@[j] <= '9',
        decreases v@.len() - i,
    {
        if !('0' <= v[i] && v[i] <= '9') {
            assert(!('0' <= s@[i as int] <= '9'));
            return false;
        }
        i += 1;
    }
    v.len() > 0
}

fn split_port(s: &str) -> (r: (String, u16))
    ensures
        (r.0@, r.1 as nat) == host_and_port(s@),
{
    let v: Vec<char> = text::chars_of(s);
    let mut n: usize = v.len();
    while n > 0 && v[n - 1] != ':'
        invariant
            v@ == s@,
            n <= v@.len(),
            last_colon(s@, s@.len() as int) == last_colon(s@, n as int),
        decreases n,
    {
        n -= 1;
    }
    if n == 0 {
        return (s.to_owned(), 80);
    }
    let tail: String = text::text_of(v.as_slice(), n, v.len());
    assert(tail@ =~= s@.skip(n as int));
    if !digits_only(tail.as_str()) {
        return (s.to_owned(), 80);
    }
    let host: String = text::text_of(v.as_slice(), 0, n - 1);
    assert(host@ =~= s@.take(n - 1));
    let port: u16 = match number::parse_number(tail.as_str(), 10, u16::MAX as u64) {
        Some(p) => p as u16,
        None => 80,
    };
    (host, port)
}

/// Where a URL leads. Only `http://` URLs are accepted.
pub fn parse_target(url: &str) -> (r: Result<Target, String>)
    ensures
        match target_of(url@) {
            Some(t) => r matches Ok(p) && (p.host@, p.port as nat, p.path@) == t,
            None => r matches Err(e) && e@ == "仅支持 http URL: "@ + url@,
        },
{
    if !text::begins(url, "http://") {
        return Err(text::concat("仅支持 http URL: ", url));
    }
    proof {
        reveal_strlit("http://");
    }
    let n: usize = url.unicode_len();
    let rest: String = text::cut(url, 7, n);
    assert(rest@ =~= url@.skip(7));
    let (hostport, path) = crate::urls::split_path(rest.as_str());
    let (host, port) = split_port(hostport.as_str());
    Ok(Target { host, port, path })
}

// ---------------------------------------------------------------------------
// The text of a request

/// A header is a `User-Agent` header.
pub open spec fn is_agent(h: (Seq<char>, Seq<char>)) -> bool {
    text::same_ignoring_case(h.0, "user-agent"@)
}

/// Some header is a `User-Agent` header.
pub open spec fn has_agent(headers: Seq<(Seq<char>, Seq<char>)>) -> bool {
    exists|i: int| 0 <= i < headers.len() && is_agent(#[trigger] headers[i])
}

/// The headers that are sent: those that are given, and a `User-Agent` where they hold none.
pub open spec fn sent_headers(headers: Seq<(Seq<char>, Seq<char>)>) -> Seq<
    (Seq<char>, Seq<char>),
> {
    if has_agent(headers) {
        headers
    } else {
        headers.push(("User-Agent"@, "portalkeeper/1.0"@))
    }
}

/// Header lines.
pub open spec fn header_lines(headers: Seq<(Seq<char>, Seq<char>)>) -> Seq<char>
    decreases headers.len(),
{
    if headers.len() == 0 {
        seq![]
    } else {
        header_lines(headers.drop_last()) + headers.last().0 + ": "@ + headers.last().1 + "\r\n"@
    }
}

/// The `Host` header: the port is left out where it is 80.
pub open spec fn host_header(host: Seq<char>, port: nat) -> Seq<char> {
    if port == 80 {
        host
    } else {
        host + ":"@ + number::decimal(port)
    }
}

/// What follows the headers: the length of the body in bytes, an empty line and the body; or the
/// empty line alone.
pub open spec fn request_tail(body: Option<Seq<char>>) -> Seq<char> {
    match body {
        Some(b) => "Content-Length: "@ + number::decimal(vstd::utf8::encode_utf8(b).len())
            + "\r\n\r\n"@ + b,
        None => "\r\n"@,
    }
}

/// The text of a request.
pub open spec fn request_text(
    method: Seq<char>,
    host: Seq<char>,
    port: nat,
    path: Seq<char>,
    headers: Seq<(Seq<char>, Seq<char>)>,
    body: Option<Seq<char>>,
) -> Seq<char> {
    method + " "@ + path + " HTTP/1.1\r\nHost: "@ + host_header(host, port)
        + "\r\nConnection: close\r\n"@ + header_lines(sent_headers(headers)) + request_tail(body)
}

fn holds_agent(headers: &Vec<(String, String)>) -> (r: bool)
    ensures
        r == has_agent(text::pairs(headers@)),
{
    let ghost all = text::pairs(headers@);
    let mut i: usize = 0;
    while i < headers.len()
        invariant
            all == text::pairs(headers@),
            i <= headers@.len(),
            forall|j: int| 0 <= j < i ==> !is_agent(#[trigger] all[j]),
        decreases headers@.len() - i,
    {
        assert(all[i as int].0 == headers@[i as int].0@);
        if text::equal_ignoring_case(headers[i].0.as_str(), "user-agent") {
            assert(is_agent(all[i as int]));
            return true;
        }
        i += 1;
    }
    false
}

fn append_header(out: &mut String, name: &str, value: &str)
    ensures
        final(out)@ == old(out)@ + name@ + ": "@ + value@ + "\r\n"@,
{
    out.append(name);
    out.append(": ");
    out.append(value);
    out.append("\r\n");
}

/// The text of a request that closes the connection.
pub fn build_request(
    method: &str,
    target: &Target,
    headers: &Vec<(String, String)>,
    body: Option<&str>,
) -> (r: String)
    ensures
        r@ == request_text(
            method@,
            target.host@,
            target.port as nat,
            target.path@,
            text::pairs(headers@),
            match body {
                Some(b) => Some(b@),
                None => None,
            },
        ),
{
    let mut out: String = method.to_owned();
    out.append(" ");
    out.append(target.path.as_str());
    out.append(" HTTP/1.1\r\nHost: ");
    let ghost start = out@;
    out.append(target.host.as_str());
    if target.port != 80 {
        out.append(":");
        out.append(number::decimal_text(target.port as u64).as_str());
    }
    assert(out@ =~= start + host_header(target.host@, target.port as nat));
    out.append("\r\nConnection: close\r\n");
    let ghost front = out@;
    let ghost all = text::pairs(headers@);
    let mut i: usize = 0;
    assert(front + header_lines(all.take(0)) =~= front);
    while i < headers.len()
        invariant
            all == text::pairs(headers@),
            i <= headers@.len(),
            out@ == front + header_lines(all.take(i as int)),
        decreases headers@.len() - i,
    {
        let ghost done = out@;
        append_header(&mut out, headers[i].0.as_str(), headers[i].1.as_str());
        proof {
            assert(all.take(i + 1).drop_last() =~= all.take(i as int));
            assert(all.take(i + 1).last() == (headers@[i as int].0@, headers@[i as int].1@));
            assert(out@ =~= front + header_lines(all.take(i + 1)));
        }
        i += 1;
    }
    assert(all.take(i as int) =~= all);
    if !holds_agent(headers) {
        append_header(&mut out, "User-Agent", "portalkeeper/1.0");
        proof {
            assert(sent_headers(all).drop_last() =~= all);
            assert(out@ =~= front + header_lines(sent_headers(all)));
        }
    }
    let ghost done = out@;
    match body {
        Some(b) => {
            out.append("Content-Length: ");
            out.append(number::decimal_text(b.as_bytes().len() as u64).as_str());
            out.append("\r\n\r\n");
            out.append(b);
            assert(out@ =~= done + request_tail(Some(b@)));
        },
        None => {
            out.append("\r\n");
        },
    }
    out
}

// ---------------------------------------------------------------------------
// The device slot is decided by the `User-Agent`

/// How many headers are `User-Agent` headers.
pub open spec fn agents(headers: Seq<(Seq<char>, Seq<char>)>) -> nat
    decreases headers.len(),
{
    if headers.len() == 0 {
        0
    } else {
        agents(headers.drop_last()) + (if is_agent(headers.last()) {
            1nat
        } else {
            0nat
        })
    }
}

proof fn lemma_agents(headers: Seq<(Seq<char>, Seq<char>)>)
    ensures
        agents(headers) > 0 <==> has_agent(headers),
    decreases headers.len(),
{
    if headers.len() > 0 {
        let front = headers.drop_last();
        lemma_agents(front);
        if has_agent(front) {
            let i = choose|i: int| 0 <= i < front.len() && is_agent(#[trigger] front[i]);
            assert(is_agent(headers[i]));
        }
        if has_agent(headers) && !is_agent(headers.last()) {
            let i = choose|i: int| 0 <= i < headers.len() && is_agent(#[trigger] headers[i]);
            assert(is_agent(front[i]));
        }
    }
}

/// A request whose given headers hold at most one `User-Agent` carries exactly one.
pub proof fn law_one_user_agent(headers: Seq<(Seq<char>, Seq<char>)>)
    requires
        agents(headers) <= 1,
    ensures
        agents(sent_headers(headers)) == 1,
{
    lemma_agents(headers);
    if !has_agent(headers) {
        let sent = sent_headers(headers);
        assert(sent.drop_last() =~= headers);
        reveal_strlit("User-Agent");
        reveal_strlit("user-agent");
        assert(text::lower("User-Agent"@) =~= text::lower("user-agent"@));
    }
}

/// The path and the query of a URL are asked for to the letter.
pub proof fn law_path_is_sent_whole(
    hostport: Seq<char>,
    path: Seq<char>,
    method: Seq<char>,
    headers: Seq<(Seq<char>, Seq<char>)>,
    body: Option<Seq<char>>,
)
    requires
        !hostport.contains('/'),
        path.len() > 0,
        path[0] == '/',
    ensures
        target_of("http://"@ + hostport + path) matches Some(t) && t.2 == path && (t.0, t.1)
            == host_and_port(hostport) && text::starts_with(
            request_text(method, t.0, t.1, t.2, headers, body),
            method + " "@ + path + " HTTP/1.1\r\n"@,
        ),
{
    let url = "http://"@ + hostport + path;
    let rest = hostport + path;
    let stops = seq!['/'];
    reveal_strlit("http://");
    reveal_strlit(" HTTP/1.1\r\n");
    reveal_strlit(" HTTP/1.1\r\nHost: ");
    reveal_strlit("Host: ");
    assert(url.subrange(0, 7) =~= "http://"@);
    assert(url.skip(7) =~= rest);
    assert forall|i: int| 0 <= i < hostport.len() implies !stops.contains(#[trigger] rest[i]) by {
        assert(rest[i] == hostport[i]);
        assert(hostport.contains(hostport[i]));
    }
    assert(stops[0] == '/');
    assert(rest[hostport.len() as int] == '/');
    text::lemma_scan_stops(rest, stops, 0, hostport.len() as int);
    assert(rest.take(hostport.len() as int) =~= hostport);
    assert(rest.skip(hostport.len() as int) =~= path);
    let t = target_of(url)->0;
    let front = method + " "@ + path + " HTTP/1.1\r\n"@;
    let whole = request_text(method, t.0, t.1, t.2, headers, body);
    assert(" HTTP/1.1\r\nHost: "@ =~= " HTTP/1.1\r\n"@ + "Host: "@);
    assert(whole =~= front + "Host: "@ + host_header(t.0, t.1) + "\r\nConnection: close\r\n"@
        + header_lines(sent_headers(headers)) + request_tail(body));
    assert(whole.subrange(0, front.len() as int) =~= front);
}

proof fn lemma_last_colon(s: Seq<char>, n: int, k: int)
    requires
        0 <= k < n <= s.len(),
        s[k] == ':',
        forall|i: int| k < i < n ==> #[trigger] s[i] != ':',
    ensures
        last_colon(s, n) == Some(k),
    decreases n,
{
    if n - 1 > k {
        assert(s[n - 1] != ':');
        lemma_last_colon(s, n - 1, k);
    }
}

proof fn lemma_no_colon(s: Seq<char>, n: int)
    requires
        0 <= n <= s.len(),
        !s.contains(':'),
    ensures
        last_colon(s, n) is None,
    decreases n,
{
    if n > 0 {
        assert(s.contains(s[n - 1]));
        lemma_no_colon(s, n - 1);
    }
}

/// A request goes to the host and the port that the address names, and to port 80 where it names
/// none. Its `Host` header names the port where it is not 80.
pub proof fn law_host_and_port(host: Seq<char>, port: nat, path: Seq<char>)
    requires
        !host.contains(':'),
        !host.contains('/'),
        port <= u16::MAX,
        path.len() > 0,
        path[0] == '/',
    ensures
        target_of("http://"@ + (host + seq![':'] + number::decimal(port)) + path) == Some(
            (host, port, path),
        ),
        target_of("http://"@ + host + path) == Some((host, 80nat, path)),
        host_header(host, 80) == host,
        port != 80 ==> host_header(host, port) == host + seq![':'] + number::decimal(port),
{
    let d = number::decimal(port);
    let hp = host + seq![':'] + d;
    let k = host.len() as int;
    number::lemma_decimal_chars(port);
    number::law_decimal_reads_back(port, u16::MAX as nat);
    assert forall|i: int| k < i < hp.len() implies #[trigger] hp[i] != ':' && hp[i] != '/' by {
        assert(hp[i] == d[i - k - 1]);
    }
    assert(hp[k] == ':');
    lemma_last_colon(hp, hp.len() as int, k);
    assert(hp.skip(k + 1) =~= d);
    assert(hp.take(k) =~= host);
    if hp.contains('/') {
        let i = choose|i: int| 0 <= i < hp.len() && hp[i] == '/';
        if i < k {
            assert(host.contains(host[i]));
        }
    }
    lemma_no_colon(host, host.len() as int);
    law_path_is_sent_whole(hp, path, seq![], seq![], None);
    law_path_is_sent_whole(host, path, seq![], seq![], None);
    reveal_strlit(":");
    assert(":"@ =~= seq![':']);
}

/// A request that does not start with `http://` is not sent.
pub proof fn law_only_plain_http_is_sent(url: Seq<char>)
    ensures
        target_of(url) is None <==> !text::starts_with(url, "http://"@),
{
}

/// A request consists of the line that asks for the path, the host, the wish to close the
/// connection, every header that is given, and the body behind its length in bytes.
pub proof fn law_request_is_written_out(
    method: Seq<char>,
    host: Seq<char>,
    port: nat,
    path: Seq<char>,
    headers: Seq<(Seq<char>, Seq<char>)>,
    body: Option<Seq<char>>,
    i: int,
)
    requires
        0 <= i < headers.len(),
    ensures
        text::contains(
            request_text(method, host, port, path, headers, body),
            "\r\nHost: "@ + host_header(host, port) + "\r\nConnection: close\r\n"@,
        ),
        text::contains(
            request_text(method, host, port, path, headers, body),
            "\r\n"@ + headers[i].0 + ": "@ + headers[i].1 + "\r\n"@,
        ),
        body is Some ==> exists|front: Seq<char>|
            request_text(method, host, port, path, headers, body) == #[trigger] (front
                + "\r\nContent-Length: "@) + number::decimal(
                vstd::utf8::encode_utf8(body->0).len(),
            ) + "\r\n\r\n"@ + body->0,
        body is None ==> exists|front: Seq<char>|
            request_text(method, host, port, path, headers, body) == #[trigger] (front
                + "\r\n\r\n"@),
{
    let told = request_text(method, host, port, path, headers, body);
    let start = method + " "@ + path;
    let h = host_header(host, port);
    let list = sent_headers(headers);
    let lines = header_lines(list);
    let tail = request_tail(body);
    reveal_strlit(" HTTP/1.1\r\nHost: ");
    reveal_strlit("\r\nHost: ");
    reveal_strlit("\r\n");
    reveal_strlit("\r\n\r\n");
    reveal_strlit("\r\nConnection: close\r\n");
    reveal_strlit("Content-Length: ");
    reveal_strlit("\r\nContent-Length: ");
    let close = "\r\nConnection: close\r\n"@;
    let version = " HTTP/1.1\r\nHost: "@.take(9);
    assert(" HTTP/1.1\r\nHost: "@ =~= version + "\r\nHost: "@);
    let part = "\r\nHost: "@ + h + close;
    text::law_part_is_contained(start + version, part, lines + tail);
    assert(told =~= start + version + part + (lines + tail));
    let open = start + version + "\r\nHost: "@ + h + close.take(19);
    assert(close =~= close.take(19) + "\r\n"@);
    assert(told =~= open + ("\r\n"@ + lines) + tail);
    assert(list.len() > 0 && list[i] == headers[i]);
    lemma_header_line(list, i);
    let line = "\r\n"@ + headers[i].0 + ": "@ + headers[i].1 + "\r\n"@;
    let k = choose|k: int| text::occurs_at("\r\n"@ + lines, line, k);
    assert(told.subrange(open.len() + k, open.len() + k + line.len()) =~= ("\r\n"@
        + lines).subrange(k, k + line.len()));
    assert(text::occurs_at(told, line, open.len() + k));
    lemma_lines_end(list);
    let rest = lines.take(lines.len() - 2);
    assert(lines =~= rest + "\r\n"@);
    let front = open + "\r\n"@ + rest;
    assert(told =~= front + "\r\n"@ + tail);
    match body {
        Some(b) => {
            let n = number::decimal(vstd::utf8::encode_utf8(b).len());
            assert("\r\nContent-Length: "@ =~= "\r\n"@ + "Content-Length: "@);
            assert(told =~= (front + "\r\nContent-Length: "@) + n + "\r\n\r\n"@ + b);
        },
        None => {
            assert("\r\n\r\n"@ =~= "\r\n"@ + "\r\n"@);
            assert(told =~= (front + "\r\n\r\n"@));
        },
    }
}

proof fn lemma_lines_end(headers: Seq<(Seq<char>, Seq<char>)>)
    requires
        headers.len() > 0,
    ensures
        header_lines(headers).len() >= 2,
        header_lines(headers).skip(header_lines(headers).len() - 2) == "\r\n"@,
{
    reveal_strlit("\r\n");
    assert(header_lines(headers).skip(header_lines(headers).len() - 2) =~= "\r\n"@);
}

proof fn lemma_at_end(p: Seq<char>, line: Seq<char>)
    ensures
        text::contains(p + line, line),
{
    let k = p.len() as int;
    assert((p + line).subrange(k, k + line.len()) =~= line);
    assert(text::occurs_at(p + line, line, k));
}

proof fn lemma_grouped(e: Seq<char>, n: Seq<char>, c: Seq<char>, v: Seq<char>)
    ensures
        e + n + c + v + e == e + (n + c + v + e),
{
    assert(e + n + c =~= e + (n + c));
    assert(e + (n + c) + v =~= e + (n + c + v));
    assert(e + (n + c + v) + e =~= e + (n + c + v + e));
}

proof fn lemma_last_line(p: Seq<char>, e: Seq<char>, n: Seq<char>, c: Seq<char>, v: Seq<char>)
    ensures
        text::contains((p + e) + (n + c + v + e), e + n + c + v + e),
{
    lemma_grouped(e, n, c, v);
    lemma_at_end(p, e + (n + c + v + e));
    assert((p + e) + (n + c + v + e) =~= p + (e + (n + c + v + e)));
}

proof fn lemma_regrouped(
    e: Seq<char>,
    h: Seq<char>,
    n: Seq<char>,
    c: Seq<char>,
    v: Seq<char>,
)
    ensures
        e + (h + n + c + v + e) == (e + h) + (n + c + v + e),
{
    let rest = n + c + v + e;
    assert(h + n + c + v + e =~= h + rest);
    assert(e + (h + rest) =~= (e + h) + rest);
}

proof fn lemma_kept_line(h: Seq<char>, e: Seq<char>, more: Seq<char>, line: Seq<char>)
    requires
        text::contains(e + h, line),
    ensures
        text::contains(e + (h + more), line),
{
    let before = e + h;
    let all = e + (h + more);
    let k = choose|k: int| text::occurs_at(before, line, k);
    assert(all =~= before + more);
    assert(all.subrange(k, k + line.len()) =~= before.subrange(k, k + line.len()));
    assert(text::occurs_at(all, line, k));
}

proof fn lemma_header_line(headers: Seq<(Seq<char>, Seq<char>)>, i: int)
    requires
        0 <= i < headers.len(),
    ensures
        text::contains(
            "\r\n"@ + header_lines(headers),
            "\r\n"@ + headers[i].0 + ": "@ + headers[i].1 + "\r\n"@,
        ),
    decreases headers.len(),
{
    let front = headers.drop_last();
    let e = "\r\n"@;
    let c = ": "@;
    let h = header_lines(front);
    let n = headers.last().0;
    let v = headers.last().1;
    if i == headers.len() - 1 {
        let p = if front.len() > 0 {
            e + h.take(h.len() - 2)
        } else {
            Seq::empty()
        };
        assert(e + h =~= p + e) by {
            reveal_strlit("\r\n");
            if front.len() > 0 {
                lemma_lines_end(front);
                assert(h =~= h.take(h.len() - 2) + h.skip(h.len() - 2));
            }
        }
        lemma_last_line(p, e, n, c, v);
        lemma_regrouped(e, h, n, c, v);
    } else {
        lemma_header_line(front, i);
        assert(front[i] == headers[i]);
        lemma_kept_line(h, e, n + c + v + e, e + headers[i].0 + c + headers[i].1 + e);
        assert(h + n + c + v + e =~= h + (n + c + v + e));
    }
}

/// Without an agent of its own a request names that of the program; with one it names no other.
pub proof fn law_default_agent(headers: Seq<(Seq<char>, Seq<char>)>)
    ensures
        (forall|i: int|
            0 <= i < headers.len() ==> text::lower((#[trigger] headers[i]).0) != "user-agent"@)
            ==> sent_headers(headers) == headers.push(("User-Agent"@, "portalkeeper/1.0"@)),
        (exists|i: int|
            0 <= i < headers.len() && text::lower((#[trigger] headers[i]).0) == "user-agent"@)
            ==> sent_headers(headers) == headers,
{
    reveal_strlit("user-agent");
    assert(text::lower("user-agent"@) =~= "user-agent"@);
    if exists|i: int|
        0 <= i < headers.len() && text::lower((#[trigger] headers[i]).0) == "user-agent"@ {
        let i = choose|i: int|
            0 <= i < headers.len() && text::lower((#[trigger] headers[i]).0) == "user-agent"@;
        assert(is_agent(headers[i]));
    }
}

/// A port that no port can be counts as 80, and what follows a colon without being digits belongs to
/// the host.
pub proof fn law_odd_ports(host: Seq<char>, port: nat, other: Seq<char>)
    requires
        port > u16::MAX,
        !other.contains(':'),
        !all_digits(other),
    ensures
        host_and_port(host + seq![':'] + number::decimal(port)) == (host, 80nat),
        host_and_port(host + seq![':'] + other) == (host + seq![':'] + other, 80nat),
{
    let d = number::decimal(port);
    let k = host.len() as int;
    let hp = host + seq![':'] + d;
    number::lemma_decimal_chars(port);
    number::law_no_number(seq!['x'], 0, port, u16::MAX as nat);
    assert forall|i: int| k < i < hp.len() implies #[trigger] hp[i] != ':' by {
        assert(hp[i] == d[i - k - 1]);
    }
    assert(hp[k] == ':');
    lemma_last_colon(hp, hp.len() as int, k);
    assert(hp.skip(k + 1) =~= d);
    assert(hp.take(k) =~= host);
    let ho = host + seq![':'] + other;
    assert forall|i: int| k < i < ho.len() implies #[trigger] ho[i] != ':' by {
        assert(ho[i] == other[i - k - 1]);
        assert(other.contains(other[i - k - 1]));
    }
    assert(ho[k] == ':');
    lemma_last_colon(ho, ho.len() as int, k);
    assert(ho.skip(k + 1) =~= other);
}

}
