//! Addresses of probes and portals.

use vstd::prelude::*;

use crate::request;
use crate::text;

verus! {

/// The addresses that are probed where none is configured: host and path.
pub const PROBE_URLS: [(&'static str, &'static str); 3] = [
    ("www.msftconnecttest.com", "/connecttest.txt"),
    ("connect.rom.miui.com", "/generate_204"),
    ("www.baidu.com", "/"),
];

/// The address of the portal.
pub const PORTAL_HOST: &'static str = "10.255.2.252";

/// The self-service site, on which a user can sign a device off.
pub const SELF_SERVICE_URL: &'static str = "http://10.255.2.252/self/index.html#/Login";

// ---------------------------------------------------------------------------
// Parts of a URL

/// The URL without `http://` or `https://` in front.
pub open spec fn after_scheme(url: Seq<char>) -> Seq<char> {
    if text::starts_with(url, "http://"@) {
        url.skip(7)
    } else if text::starts_with(url, "https://"@) {
        url.skip(8)
    } else {
        url
    }
}

/// Host and port: what stands before the first `/`, `?` or `#`.
pub open spec fn authority(url: Seq<char>) -> Seq<char> {
    let rest = after_scheme(url);
    rest.take(text::scan_to(rest, seq!['/', '?', '#'], 0))
}

/// The host, without scheme, port and path.
pub open spec fn host_of(url: Seq<char>) -> Seq<char> {
    let a = authority(url);
    a.take(text::scan_to(a, seq![':'], 0))
}

/// Scheme, host and port, without path and query.
pub open spec fn base_of(url: Seq<char>) -> Seq<char> {
    (if text::starts_with(url, "https://"@) {
        "https"@
    } else {
        "http"@
    }) + "://"@ + authority(url)
}

/// The position behind the scheme.
fn scheme_len(url: &str) -> (r: usize)
    ensures
        r <= url@.len(),
        after_scheme(url@) == url@.skip(r as int),
{
    proof {
        reveal_strlit("http://");
        reveal_strlit("https://");
        assert(url@.skip(0) =~= url@);
    }
    if text::begins(url, "http://") {
        7
    } else if text::begins(url, "https://") {
        8
    } else {
        0
    }
}

/// Where host and port stand in the URL.
fn authority_span(url: &str) -> (r: (usize, usize))
    ensures
        r.0 <= r.1 <= url@.len(),
        url@.subrange(r.0 as int, r.1 as int) == authority(url@),
        after_scheme(url@) == url@.skip(r.0 as int),
{
    let v: Vec<char> = text::chars_of(url);
    let from: usize = scheme_len(url);
    let stops: [char; 3] = ['/', '?', '#'];
    let to: usize = text::scan(v.as_slice(), stops.as_slice(), from);
    proof {
        assert(stops@ =~= seq!['/', '?', '#']);
        text::lemma_scan_skip(url@, stops@, from as int, 0);
        assert(url@.subrange(from as int, to as int) =~= url@.skip(from as int).take(to - from));
    }
    (from, to)
}

/// The host of a URL, without scheme, port and path.
pub fn url_host(url: &str) -> (r: &str)
    ensures
        r@ == host_of(url@),
{
    let v: Vec<char> = text::chars_of(url);
    let (from, to) = authority_span(url);
    let stops: [char; 1] = [':'];
    let mut end: usize = text::scan(v.as_slice(), stops.as_slice(), from);
    if end > to {
        end = to;
    }
    proof {
        assert(stops@ =~= seq![':']);
        text::lemma_scan_within(url@, stops@, from as int, to as int);
        assert(url@.subrange(from as int, end as int) =~= authority(url@).take(end - from));
    }
    url.substring_char(from, end)
}

/// Scheme, host and port of a URL.
pub fn url_base(url: &str) -> (r: String)
    ensures
        r@ == base_of(url@),
{
    let scheme: &str = if text::begins(url, "https://") {
        "https"
    } else {
        "http"
    };
    let (from, to) = authority_span(url);
    text::concat3(scheme, "://", url.substring_char(from, to))
}

// ---------------------------------------------------------------------------
// Redirects

/// The address starts with `http://` or `https://`.
pub open spec fn has_scheme(url: Seq<char>) -> bool {
    text::starts_with(url, "http://"@) || text::starts_with(url, "https://"@)
}

/// `p` stands at the start of `s`, whatever the letter case.
pub open spec fn starts_ignoring_case(s: Seq<char>, p: Seq<char>) -> bool {
    p.len() <= s.len() && text::same_ignoring_case(s.take(p.len() as int), p)
}

/// The address with `http://` or `https://` in lower case, where it starts with one of them in any
/// case.
pub open spec fn with_plain_scheme(url: Seq<char>) -> Seq<char> {
    if starts_ignoring_case(url, "http://"@) {
        "http://"@ + url.skip(7)
    } else if starts_ignoring_case(url, "https://"@) {
        "https://"@ + url.skip(8)
    } else {
        url
    }
}

/// The address starts with the name of a scheme and `://`.
pub open spec fn names_scheme(url: Seq<char>) -> bool {
    let k = text::scan_to(url, seq![':', '/', '?', '#'], 0);
    k > 0 && text::occurs_at(url, "://"@, k)
}

/// Where a redirect of a probe leads if a portal made it: an absolute address. `location` is taken
/// without white space around it. A redirect to the probed host is an ordinary one, and so is one
/// that names no host, unless it is a path or starts with `https://`. An address with a scheme other
/// than `http` and `https` cannot be asked for, and tells nothing. Any other redirect is the
/// portal's: an address with a scheme is kept to the letter, but for the case of the scheme, and
/// what has none leads to a place on the probed host.
pub open spec fn captive(requested_host: Seq<char>, location: Seq<char>) -> Option<Seq<char>> {
    let l = with_plain_scheme(text::trim(location));
    if l.len() == 0 {
        None
    } else if l[0] == '/' {
        Some("http://"@ + requested_host + l)
    } else if text::same_ignoring_case(host_of(l), requested_host) {
        None
    } else if host_of(l).len() == 0 && !text::starts_with(l, "https://"@) {
        None
    } else if has_scheme(l) {
        Some(l)
    } else if names_scheme(l) {
        None
    } else {
        Some("http://"@ + requested_host + "/"@ + l)
    }
}

fn begins_ignoring_case(s: &str, p: &str) -> (r: bool)
    ensures
        r == starts_ignoring_case(s@, p@),
{
    let n: usize = p.unicode_len();
    if s.unicode_len() < n {
        return false;
    }
    let front: String = text::cut(s, 0, n);
    assert(front@ =~= s@.take(n as int));
    text::equal_ignoring_case(front.as_str(), p)
}

fn plain_scheme(url: &str) -> (r: String)
    ensures
        r@ == with_plain_scheme(url@),
{
    proof {
        reveal_strlit("http://");
        reveal_strlit("https://");
    }
    let n: usize = url.unicode_len();
    if begins_ignoring_case(url, "http://") {
        let rest: String = text::cut(url, 7, n);
        assert(rest@ =~= url@.skip(7));
        return text::concat("http://", rest.as_str());
    }
    if begins_ignoring_case(url, "https://") {
        let rest: String = text::cut(url, 8, n);
        assert(rest@ =~= url@.skip(8));
        return text::concat("https://", rest.as_str());
    }
    url.to_owned()
}

fn scheme_named(url: &str) -> (r: bool)
    ensures
        r == names_scheme(url@),
{
    let v: Vec<char> = text::chars_of(url);
    let mark: Vec<char> = text::chars_of("://");
    let stops: [char; 4] = [':', '/', '?', '#'];
    assert(stops@ =~= seq![':', '/', '?', '#']);
    let k: usize = text::scan(v.as_slice(), stops.as_slice(), 0);
    k > 0 && text::stands_at(v.as_slice(), mark.as_slice(), k)
}

/// Where a redirect of a probe leads if a portal made it.
pub fn captive_target(requested_host: &str, loc: &str) -> (r: Option<String>)
    ensures
        text::opt_text(r) == captive(requested_host@, loc@),
{
    let l: String = plain_scheme(text::trimmed(loc).as_str());
    if l.as_str().is_empty() {
        return None;
    }
    if l.as_str().get_char(0) == '/' {
        return Some(text::concat3("http://", requested_host, l.as_str()));
    }
    let host: &str = url_host(l.as_str());
    if text::equal_ignoring_case(host, requested_host) {
        return None;
    }
    let secure: bool = text::begins(l.as_str(), "https://");
    if host.is_empty() && !secure {
        return None;
    }
    if secure || text::begins(l.as_str(), "http://") {
        return Some(l);
    }
    if scheme_named(l.as_str()) {
        return None;
    }
    let front: String = text::concat3("http://", requested_host, "/");
    Some(text::concat(front.as_str(), l.as_str()))
}

/// The address of a portal that a redirect tells is absolute.
pub proof fn law_captive_is_absolute(requested_host: Seq<char>, location: Seq<char>)
    ensures
        captive(requested_host, location) matches Some(u) ==> has_scheme(u),
{
    if let Some(u) = captive(requested_host, location) {
        let l = with_plain_scheme(text::trim(location));
        reveal_strlit("http://");
        if l[0] == '/' || !has_scheme(l) {
            assert(u.subrange(0, 7) =~= "http://"@);
        }
    }
}

/// An address with a scheme in lower case is not changed.
pub proof fn lemma_plain_scheme(url: Seq<char>)
    ensures
        has_scheme(url) ==> with_plain_scheme(url) == url,
{
    reveal_strlit("http://");
    reveal_strlit("https://");
    if text::starts_with(url, "http://"@) {
        assert(url.take(7) =~= url.subrange(0, 7));
        assert("http://"@ + url.skip(7) =~= url);
    } else if text::starts_with(url, "https://"@) {
        assert(url.take(8) =~= url.subrange(0, 8));
        assert("https://"@ + url.skip(8) =~= url);
        assert(url.take(8)[4] == 's');
        if starts_ignoring_case(url, "http://"@) {
            assert(text::lower(url.take(7))[4] == text::lower_char('s'));
            assert(text::lower("http://"@)[4] == text::lower_char(':'));
        }
    }
}

/// A redirect to an address on the probed host is never taken for the portal's, whatever the letter
/// case of its scheme.
pub proof fn law_same_host_is_not_captive(requested_host: Seq<char>, location: Seq<char>)
    requires
        text::trim(location).len() > 0,
        text::trim(location)[0] != '/',
        text::same_ignoring_case(
            host_of(with_plain_scheme(text::trim(location))),
            requested_host,
        ),
    ensures
        captive(requested_host, location) is None,
{
    reveal_strlit("http://");
    reveal_strlit("https://");
    assert("http://"@[0] == 'h' && "https://"@[0] == 'h');
}

/// A redirect to an `http` or `https` address on another host is always the portal's. Its address
/// is kept to the letter, but for the case of the scheme.
pub proof fn law_other_host_is_captive(requested_host: Seq<char>, location: Seq<char>)
    requires
        has_scheme(with_plain_scheme(text::trim(location))),
        host_of(with_plain_scheme(text::trim(location))).len() > 0,
        !text::same_ignoring_case(
            host_of(with_plain_scheme(text::trim(location))),
            requested_host,
        ),
    ensures
        captive(requested_host, location) == Some(with_plain_scheme(text::trim(location))),
        has_scheme(text::trim(location)) ==> captive(requested_host, location) == Some(
            text::trim(location),
        ),
{
    let l = with_plain_scheme(text::trim(location));
    lemma_plain_scheme(text::trim(location));
    reveal_strlit("http://");
    reveal_strlit("https://");
    if text::starts_with(l, "http://"@) {
        assert(l.subrange(0, 7)[0] == 'h');
    } else {
        assert(l.subrange(0, 8)[0] == 'h');
    }
}

// ---------------------------------------------------------------------------
// Configured addresses

/// A character of a host name, a domain, or an IPv4 address.
pub open spec fn is_host_char(c: char) -> bool {
    ||| 'a' <= c <= 'z'
    ||| 'A' <= c <= 'Z'
    ||| '0' <= c <= '9'
    ||| c == '.'
    ||| c == '-'
    ||| c == '_'
}

/// The text is the name of a host.
pub open spec fn is_host_name(s: Seq<char>) -> bool {
    s.len() > 0 && forall|i: int| 0 <= i < s.len() ==> is_host_char(#[trigger] s[i])
}

/// The text is fit to be a host: a name, and a `:` and a port in digits where there is a `:`.
pub open spec fn is_host(s: Seq<char>) -> bool {
    let k = text::scan_to(s, seq![':'], 0);
    is_host_name(s.take(k)) && (k < s.len() ==> request::all_digits(s.skip(k + 1)))
}

fn host_name(s: &str) -> (r: bool)
    ensures
        r == is_host_name(s@),
{
    let v: Vec<char> = text::chars_of(s);
    let mut i: usize = 0;
    while i < v.len()
        invariant
            v@ == s@,
            i <= v@.len(),
            forall|j: int| 0 <= j < i ==> is_host_char(#[trigger] s@[j]),
        decreases v@.len() - i,
    {
        let c: char = v[i];
        if !(('a' <= c && c <= 'z') || ('A' <= c && c <= 'Z') || ('0' <= c && c <= '9') || c == '.'
            || c == '-' || c == '_') {
            assert(!is_host_char(s@[i as int]));
            return false;
        }
        i += 1;
    }
    v.len() > 0
}

fn fit_host(s: &str) -> (r: bool)
    ensures
        r == is_host(s@),
{
    let v: Vec<char> = text::chars_of(s);
    let n: usize = v.len();
    let stops: [char; 1] = [':'];
    assert(stops@ =~= seq![':']);
    let k: usize = text::scan(v.as_slice(), stops.as_slice(), 0);
    let name: String = text::text_of(v.as_slice(), 0, k);
    assert(name@ =~= s@.take(k as int));
    if !host_name(name.as_str()) {
        return false;
    }
    if k < n {
        let port: String = text::text_of(v.as_slice(), k + 1, n);
        assert(port@ =~= s@.skip(k + 1));
        return request::digits_only(port.as_str());
    }
    true
}

/// Host and path of an address: `host/path` is cut before its first `/`, and the path is `/`
/// where there is none.
pub open spec fn host_and_path(s: Seq<char>) -> (Seq<char>, Seq<char>) {
    let i = text::scan_to(s, seq!['/'], 0);
    (s.take(i), if i < s.len() {
        s.skip(i)
    } else {
        "/"@
    })
}

/// Host and path of an address.
pub fn split_path(s: &str) -> (r: (String, String))
    ensures
        (r.0@, r.1@) == host_and_path(s@),
{
    let v: Vec<char> = text::chars_of(s);
    let stops: [char; 1] = ['/'];
    assert(stops@ =~= seq!['/']);
    let i: usize = text::scan(v.as_slice(), stops.as_slice(), 0);
    let host: String = text::text_of(v.as_slice(), 0, i);
    assert(host@ =~= s@.take(i as int));
    let path: String = if i < v.len() {
        let p: String = text::text_of(v.as_slice(), i, v.len());
        assert(p@ =~= s@.skip(i as int));
        p
    } else {
        "/".to_owned()
    };
    (host, path)
}

/// A configured probe address: `http://host/path`, `host/path` or `host`, where a host is a name with
/// or without a port. Anything else is no address.
pub open spec fn probe_address(s: Seq<char>) -> Option<(Seq<char>, Seq<char>)> {
    let t = text::trim(s);
    let rest = if text::starts_with(t, "http://"@) {
        t.skip(7)
    } else {
        t
    };
    let a = host_and_path(rest);
    if t.len() > 0 && is_host(a.0) {
        Some(a)
    } else {
        None
    }
}

/// Host and path of a configured probe address.
pub fn parse_probe_url(s: &str) -> (r: Option<(String, String)>)
    ensures
        probe_address(s@) == (match r {
            Some(a) => Some((a.0@, a.1@)),
            None => None,
        }),
{
    let t: String = text::trimmed(s);
    if t.as_str().is_empty() {
        return None;
    }
    proof {
        reveal_strlit("http://");
    }
    let n: usize = t.as_str().unicode_len();
    let rest: String = if text::begins(t.as_str(), "http://") {
        let cut: String = text::cut(t.as_str(), 7, n);
        assert(cut@ =~= t@.skip(7));
        cut
    } else {
        t
    };
    let (host, path) = split_path(rest.as_str());
    if fit_host(host.as_str()) {
        Some((host, path))
    } else {
        None
    }
}

/// The built-in probe addresses.
pub open spec fn builtin_targets() -> Seq<(Seq<char>, Seq<char>)> {
    seq![
        ("www.msftconnecttest.com"@, "/connecttest.txt"@),
        ("connect.rom.miui.com"@, "/generate_204"@),
        ("www.baidu.com"@, "/"@),
    ]
}

fn builtin() -> (r: Vec<(String, String)>)
    ensures
        text::pairs(r@) == builtin_targets(),
{
    let mut out: Vec<(String, String)> = Vec::new();
    let mut i: usize = 0;
    while i < 3
        invariant
            i <= 3,
            text::pairs(out@) == builtin_targets().take(i as int),
        decreases 3 - i,
    {
        let ghost done = out@;
        let (host, path) = PROBE_URLS[i];
        out.push((host.to_owned(), path.to_owned()));
        proof {
            assert(text::pairs(out@) =~= text::pairs(done).push((host@, path@)));
            assert(builtin_targets().take(i + 1) =~= builtin_targets().take(i as int).push(
                builtin_targets()[i as int],
            ));
        }
        i += 1;
    }
    assert(builtin_targets().take(3) =~= builtin_targets());
    out
}

/// What a connectivity test probes: the configured address alone, or else the built-in ones.
pub open spec fn targets_of(custom: Seq<char>) -> Seq<(Seq<char>, Seq<char>)> {
    match probe_address(custom) {
        Some(a) => seq![a],
        None => builtin_targets(),
    }
}

/// What a connectivity test probes.
pub fn probe_targets(custom: &str) -> (r: Vec<(String, String)>)
    ensures
        text::pairs(r@) == targets_of(custom@),
{
    match parse_probe_url(custom) {
        Some(a) => {
            let mut out: Vec<(String, String)> = Vec::new();
            let ghost pair = (a.0@, a.1@);
            out.push(a);
            assert(text::pairs(out@) =~= seq![pair]);
            out
        },
        None => builtin(),
    }
}

/// The addresses of a list with commas between them: `host[:port]/path`, or `host` alone. Items
/// are taken without white space around them, and empty ones are left out.
pub open spec fn listed(items: Seq<Seq<char>>) -> Seq<(Seq<char>, Seq<char>)>
    decreases items.len(),
{
    if items.len() == 0 {
        seq![]
    } else {
        let t = text::trim(items.last());
        if t.len() == 0 {
            listed(items.drop_last())
        } else {
            listed(items.drop_last()).push(host_and_path(t))
        }
    }
}

/// What a login probes: the addresses of the setting, or the built-in ones where it is not set or
/// lists none.
pub open spec fn login_targets(setting: Option<Seq<char>>) -> Seq<(Seq<char>, Seq<char>)> {
    match setting {
        Some(s) => {
            let list = listed(crate::split::split(s, ","@));
            if list.len() > 0 {
                list
            } else {
                builtin_targets()
            }
        },
        None => builtin_targets(),
    }
}

/// What a login probes. `setting` is the value of the environment variable that replaces the
/// built-in addresses.
pub fn login_probe_targets(setting: Option<&str>) -> (r: Vec<(String, String)>)
    ensures
        text::pairs(r@) == login_targets(
            match setting {
                Some(s) => Some(s@),
                None => None,
            },
        ),
        r@.len() > 0,
{
    let s: &str = match setting {
        Some(s) => s,
        None => {
            let r: Vec<(String, String)> = builtin();
            assert(r@.len() == text::pairs(r@).len());
            return r;
        },
    };
    proof {
        reveal_strlit(",");
    }
    let items: Vec<String> = crate::split::pieces(s, ",");
    let ghost all = crate::split::split(s@, ","@);
    let mut out: Vec<(String, String)> = Vec::new();
    let mut i: usize = 0;
    while i < items.len()
        invariant
            text::texts(items@) == all,
            i <= items@.len(),
            text::pairs(out@) == listed(all.take(i as int)),
        decreases items@.len() - i,
    {
        let ghost done = out@;
        proof {
            assert(all[i as int] == items@[i as int]@);
            assert(all.take(i + 1).drop_last() =~= all.take(i as int));
        }
        let t: String = text::trimmed(items[i].as_str());
        if !t.as_str().is_empty() {
            let a: (String, String) = split_path(t.as_str());
            let ghost pair = (a.0@, a.1@);
            out.push(a);
            assert(text::pairs(out@) =~= text::pairs(done).push(pair));
        }
        i += 1;
    }
    assert(all.take(i as int) =~= all);
    assert(out@.len() == text::pairs(out@).len());
    if out.len() > 0 {
        out
    } else {
        let r: Vec<(String, String)> = builtin();
        assert(r@.len() == text::pairs(r@).len());
        r
    }
}

/// A configured portal address, with `http://` in front where no scheme is written. Nothing, and
/// what has no fit host, is no address.
pub open spec fn portal_address(s: Seq<char>) -> Option<Seq<char>> {
    let t = text::trim(s);
    let full = if text::starts_with(t, "http://"@) || text::starts_with(t, "https://"@) {
        t
    } else {
        "http://"@ + t
    };
    if t.len() > 0 && is_host(host_of(full)) {
        Some(full)
    } else {
        None
    }
}

/// A configured portal address, ready to be requested.
pub fn parse_portal_url(s: &str) -> (r: Option<String>)
    ensures
        text::opt_text(r) == portal_address(s@),
{
    let t: String = text::trimmed(s);
    if t.as_str().is_empty() {
        return None;
    }
    let full: String = if text::begins(t.as_str(), "http://") || text::begins(
        t.as_str(),
        "https://",
    ) {
        t
    } else {
        text::concat("http://", t.as_str())
    };
    if fit_host(url_host(full.as_str())) {
        Some(full)
    } else {
        None
    }
}

// ---------------------------------------------------------------------------
// Laws

proof fn lemma_authority(url: Seq<char>)
    ensures
        authority(url).len() <= after_scheme(url).len(),
        forall|i: int|
            0 <= i < authority(url).len() ==> !seq!['/', '?', '#'].contains(
                #[trigger] authority(url)[i],
            ),
{
    let rest = after_scheme(url);
    text::lemma_scan_to(rest, seq!['/', '?', '#'], 0);
}

proof fn lemma_scan_all(s: Seq<char>, stops: Seq<char>, i: int)
    requires
        0 <= i <= s.len(),
        forall|j: int| i <= j < s.len() ==> !stops.contains(#[trigger] s[j]),
    ensures
        text::scan_to(s, stops, i) == s.len(),
{
    text::lemma_scan_to(s, stops, i);
}

/// The base address of a URL holds nothing of its path, its query or its fragment.
pub proof fn law_base_drops_the_query(url: Seq<char>, i: int)
    requires
        0 <= i < authority(url).len(),
    ensures
        authority(url)[i] != '/',
        authority(url)[i] != '?',
        authority(url)[i] != '#',
{
    lemma_authority(url);
    let stops = seq!['/', '?', '#'];
    assert(stops[0] == '/' && stops[1] == '?' && stops[2] == '#');
    assert(!stops.contains(authority(url)[i]));
}

/// The base address of a URL leads to the same host and port, and is its own base address.
pub proof fn law_base_keeps_the_host(url: Seq<char>)
    ensures
        authority(base_of(url)) == authority(url),
        host_of(base_of(url)) == host_of(url),
        base_of(base_of(url)) == base_of(url),
{
    let a = authority(url);
    let b = base_of(url);
    let stops = seq!['/', '?', '#'];
    reveal_strlit("http");
    reveal_strlit("https");
    reveal_strlit("://");
    reveal_strlit("http://");
    reveal_strlit("https://");
    assert("http"@ + "://"@ =~= "http://"@);
    assert("https"@ + "://"@ =~= "https://"@);
    if text::starts_with(url, "https://"@) {
        assert(b =~= "https://"@ + a);
        assert(b.subrange(0, 8) =~= "https://"@);
        assert(b[4] == 's');
        assert("http://"@[4] == ':');
        assert(!text::starts_with(b, "http://"@)) by {
            if text::starts_with(b, "http://"@) {
                assert(b.subrange(0, 7)[4] == ':');
            }
        }
        assert(b.skip(8) =~= a);
    } else {
        assert(b =~= "http://"@ + a);
        assert(b.subrange(0, 7) =~= "http://"@);
        assert(b[4] == ':');
        assert(!text::starts_with(b, "https://"@)) by {
            if text::starts_with(b, "https://"@) {
                assert(b.subrange(0, 8)[4] == "https://"@[4]);
            }
        }
        assert(b.skip(7) =~= a);
    }
    assert(after_scheme(b) == a);
    lemma_authority(url);
    lemma_scan_all(a, stops, 0);
    assert(a.take(a.len() as int) =~= a);
}

/// A probe address has a host that is fit to stand in a request, and a path that starts with `/`.
pub proof fn law_probe_address_is_fit(s: Seq<char>)
    ensures
        probe_address(s) matches Some(a) ==> is_host(a.0) && a.1.len() > 0 && a.1[0] == '/',
{
    if let Some(a) = probe_address(s) {
        let t = text::trim(s);
        let rest = if text::starts_with(t, "http://"@) {
            t.skip(7)
        } else {
            t
        };
        text::lemma_scan_to(rest, seq!['/'], 0);
        let i = text::scan_to(rest, seq!['/'], 0);
        reveal_strlit("/");
        if i < rest.len() {
            assert(seq!['/'].contains(rest[i]));
            assert(rest.skip(i)[0] == rest[i]);
        }
    }
}

/// A portal address has a scheme and a host that is fit to stand in a request, and is its own
/// portal address.
pub proof fn law_portal_address_is_fit(s: Seq<char>)
    ensures
        portal_address(s) matches Some(u) ==> is_host(host_of(u)) && (text::starts_with(
            u,
            "http://"@,
        ) || text::starts_with(u, "https://"@)) && portal_address(u) == Some(u),
{
    if let Some(u) = portal_address(s) {
        let t = text::trim(s);
        text::lemma_trim_ends(s);
        reveal_strlit("http://");
        reveal_strlit("https://");
        if !text::starts_with(t, "http://"@) && !text::starts_with(t, "https://"@) {
            assert(u.subrange(0, 7) =~= "http://"@);
            assert(u.last() == t.last());
            assert(u[0] == 'h');
        }
        text::lemma_trim_nothing(u);
    }
}

/// There is always an address to probe.
pub proof fn law_there_is_a_target(custom: Seq<char>)
    ensures
        targets_of(custom).len() > 0,
{
}

/// The text holds none of the characters that end the host of an address.
pub open spec fn is_plain_host(s: Seq<char>) -> bool {
    !s.contains('/') && !s.contains('?') && !s.contains('#') && !s.contains(':')
}

/// A port behind its colon, or nothing.
pub open spec fn is_port_part(s: Seq<char>) -> bool {
    s.len() == 0 || s[0] == ':' && !s.contains('/') && !s.contains('?') && !s.contains('#')
}

/// A path, a query, a fragment or nothing.
pub open spec fn is_tail(s: Seq<char>) -> bool {
    s.len() == 0 || s[0] == '/' || s[0] == '?' || s[0] == '#'
}

proof fn lemma_split_authority(host: Seq<char>, port: Seq<char>, tail: Seq<char>)
    requires
        is_plain_host(host),
        is_port_part(port),
        is_tail(tail),
    ensures
        ({
            let rest = host + port + tail;
            rest.take(text::scan_to(rest, seq!['/', '?', '#'], 0)) == host + port
        }),
        (host + port).take(text::scan_to(host + port, seq![':'], 0)) == host,
{
    let rest = host + port + tail;
    let ends = seq!['/', '?', '#'];
    let n = (host.len() + port.len()) as int;
    assert(ends[0] == '/' && ends[1] == '?' && ends[2] == '#');
    assert forall|i: int| 0 <= i < n implies !ends.contains(#[trigger] rest[i]) by {
        if i < host.len() {
            assert(rest[i] == host[i]);
            assert(host.contains(host[i]));
        } else {
            assert(rest[i] == port[i - host.len()]);
            assert(port.contains(port[i - host.len()]));
        }
    }
    if tail.len() > 0 {
        assert(rest[n] == tail[0]);
        assert(ends.contains(rest[n]));
        text::lemma_scan_stops(rest, ends, 0, n);
    } else {
        text::lemma_scan_to(rest, ends, 0);
        let e = text::scan_to(rest, ends, 0);
        assert(e == n);
    }
    assert(rest.take(n) =~= host + port);
    let s = host + port;
    let colon = seq![':'];
    let m = host.len() as int;
    assert(colon[0] == ':');
    assert forall|i: int| 0 <= i < m implies !colon.contains(#[trigger] s[i]) by {
        assert(s[i] == host[i]);
        assert(host.contains(host[i]));
    }
    if port.len() > 0 {
        assert(s[m] == port[0]);
        assert(colon.contains(s[m]));
        text::lemma_scan_stops(s, colon, 0, m);
    } else {
        text::lemma_scan_to(s, colon, 0);
        assert(text::scan_to(s, colon, 0) == m);
    }
    assert(s.take(m) =~= host);
}

/// The host of an address is what stands between its scheme and its port, path or query, and its
/// base is the scheme with host and port.
pub proof fn law_parts_of_an_address(
    scheme: Seq<char>,
    host: Seq<char>,
    port: Seq<char>,
    tail: Seq<char>,
)
    requires
        scheme == "http://"@ || scheme == "https://"@,
        is_plain_host(host),
        is_port_part(port),
        is_tail(tail),
    ensures
        host_of(scheme + host + port + tail) == host,
        base_of(scheme + host + port + tail) == scheme + host + port,
        !has_scheme(host + port + tail) ==> host_of(host + port + tail) == host,
        !has_scheme(host + port + tail) ==> base_of(host + port + tail) == "http://"@ + host + port,
{
    let url = scheme + host + port + tail;
    let rest = host + port + tail;
    lemma_split_authority(host, port, tail);
    reveal_strlit("http://");
    reveal_strlit("https://");
    reveal_strlit("http");
    reveal_strlit("https");
    reveal_strlit("://");
    assert("http://"@ =~= "http"@ + "://"@);
    assert("https://"@ =~= "https"@ + "://"@);
    assert(url.subrange(0, scheme.len() as int) =~= scheme);
    assert("http://"@[4] == ':' && "https://"@[4] == 's');
    if scheme == "https://"@ {
        assert(url[4] == 's');
        if text::starts_with(url, "http://"@) {
            assert(url.subrange(0, 7)[4] == url[4]);
        }
    } else {
        assert(url[4] == ':');
        if text::starts_with(url, "https://"@) {
            assert(url.subrange(0, 8)[4] == url[4]);
        }
    }
    assert(url.skip(scheme.len() as int) =~= rest);
    assert(base_of(url) =~= scheme + host + port);
    if !has_scheme(rest) {
        assert(base_of(rest) =~= "http://"@ + host + port);
    }
}

/// A redirect to another host is that of a portal, and leads to the very address, with its port,
/// path and query and with the scheme in small letters; a redirect to the host itself is not.
pub proof fn law_redirect_to_a_host(
    requested_host: Seq<char>,
    scheme: Seq<char>,
    host: Seq<char>,
    port: Seq<char>,
    tail: Seq<char>,
)
    requires
        text::lower(scheme) == "http://"@ || text::lower(scheme) == "https://"@,
        is_plain_host(host),
        host.len() > 0,
        is_port_part(port),
        is_tail(tail),
        !text::is_space((scheme + host + port + tail).last()),
    ensures
        captive(requested_host, scheme + host + port + tail) == (if text::lower(host) == text::lower(
            requested_host,
        ) {
            None
        } else {
            Some(text::lower(scheme) + host + port + tail)
        }),
{
    let url = scheme + host + port + tail;
    let low = text::lower(scheme);
    reveal_strlit("http://");
    reveal_strlit("https://");
    assert(scheme.len() == low.len());
    assert(low[0] == 'h');
    assert(text::lower(scheme)[0] == text::lower_char(scheme[0]));
    assert(!text::is_space(url[0])) by {
        assert(url[0] == scheme[0]);
        text::law_white_space();
    }
    text::lemma_trim_nothing(url);
    assert("http://"@[4] == ':' && "https://"@[4] == 's');
    assert(low[4] == text::lower_char(scheme[4]));
    assert(text::lower(url.take(low.len() as int)) =~= low) by {
        assert(url.take(low.len() as int) =~= scheme);
    }
    if low == "https://"@ {
        if starts_ignoring_case(url, "http://"@) {
            assert(text::lower(url.take(7))[4] == text::lower_char(url[4]));
        }
        assert(url.skip(8) =~= host + port + tail);
    } else {
        assert(url.skip(7) =~= host + port + tail);
    }
    assert(starts_ignoring_case(url, low)) by {
        assert(url.take(low.len() as int) =~= url.subrange(0, low.len() as int));
        text::lemma_lower_idempotent(scheme);
    }
    let l = with_plain_scheme(url);
    assert(l =~= low + host + port + tail);
    law_parts_of_an_address(low, host, port, tail);
    assert(l[0] == 'h');
    assert(l.subrange(0, low.len() as int) =~= low);
}

/// A redirect to a path stays with the host that was asked; one to nothing is none.
pub proof fn law_redirect_to_a_path(requested_host: Seq<char>, location: Seq<char>)
    ensures
        text::trim(location).len() > 0 && text::trim(location)[0] == '/' ==> captive(
            requested_host,
            location,
        ) == Some("http://"@ + requested_host + text::trim(location)),
        text::trim(location).len() == 0 ==> captive(requested_host, location) is None,
{
    let l = text::trim(location);
    reveal_strlit("http://");
    reveal_strlit("https://");
    if l.len() > 0 && l[0] == '/' {
        if starts_ignoring_case(l, "http://"@) {
            assert(text::lower(l.take(7))[0] == text::lower_char(l[0]));
        }
        if starts_ignoring_case(l, "https://"@) {
            assert(text::lower(l.take(8))[0] == text::lower_char(l[0]));
        }
    } else if l.len() == 0 {
        assert(with_plain_scheme(l) == l);
    }
}

/// A redirect to a relative address is put behind the host that was asked; one with another scheme
/// leads nowhere.
pub proof fn law_redirect_to_a_relative_address(
    requested_host: Seq<char>,
    host: Seq<char>,
    port: Seq<char>,
    tail: Seq<char>,
)
    requires
        is_plain_host(host),
        host.len() > 0,
        is_port_part(port),
        is_tail(tail),
        !text::is_space(host[0]),
        !text::is_space((host + port + tail).last()),
        !starts_ignoring_case(host + port + tail, "http://"@),
        !starts_ignoring_case(host + port + tail, "https://"@),
        text::lower(host) != text::lower(requested_host),
    ensures
        captive(requested_host, host + port + tail) == (if text::starts_with(
            port + tail,
            "://"@,
        ) {
            None
        } else {
            Some("http://"@ + requested_host + "/"@ + (host + port + tail))
        }),
{
    let l = host + port + tail;
    assert(l[0] == host[0]);
    assert(host.contains(host[0]));
    text::lemma_trim_nothing(l);
    reveal_strlit("http://");
    reveal_strlit("https://");
    reveal_strlit("://");
    if text::starts_with(l, "http://"@) {
        assert(l.take(7) =~= "http://"@);
        assert(text::lower("http://"@) =~= "http://"@);
    }
    if text::starts_with(l, "https://"@) {
        assert(l.take(8) =~= "https://"@);
        assert(text::lower("https://"@) =~= "https://"@);
    }
    assert(!has_scheme(l));
    law_parts_of_an_address("http://"@, host, port, tail);
    let stops = seq![':', '/', '?', '#'];
    let m = host.len() as int;
    assert(stops[0] == ':' && stops[1] == '/' && stops[2] == '?' && stops[3] == '#');
    assert forall|i: int| 0 <= i < m implies !stops.contains(#[trigger] l[i]) by {
        assert(l[i] == host[i]);
        assert(host.contains(host[i]));
    }
    if m < l.len() {
        if port.len() > 0 {
            assert(l[m] == port[0]);
        } else {
            assert(l[m] == tail[0]);
        }
        assert(stops.contains(l[m]));
        text::lemma_scan_stops(l, stops, 0, m);
    } else {
        text::lemma_scan_to(l, stops, 0);
        assert(text::scan_to(l, stops, 0) == m);
    }
    if (port + tail).len() >= 3 {
        assert(l.subrange(m, m + 3) =~= (port + tail).subrange(0, 3));
    }
}

/// A name made of letters, digits, dots, hyphens and underscores is a host, and so is it with a
/// port of digits. Nothing is none, and nor is a name with anything else in it.
pub proof fn law_what_a_host_is(name: Seq<char>, port: Seq<char>, i: int)
    requires
        !name.contains(':'),
    ensures
        name.len() == 0 ==> !is_host(name) && !is_host(name + seq![':'] + port),
        name.len() > 0 && (forall|k: int| 0 <= k < name.len() ==> is_name_char(#[trigger] name[k]))
            ==> is_host(name) && (is_host(name + seq![':'] + port) <==> port.len() > 0 && forall|
            k: int,
        |
            0 <= k < port.len() ==> '0' <= #[trigger] port[k] <= '9'),
        0 <= i < name.len() && !is_name_char(name[i]) ==> !is_host(name) && !is_host(
            name + seq![':'] + port,
        ),
{
    let all = name + seq![':'] + port;
    let colon = seq![':'];
    let n = name.len() as int;
    assert(colon[0] == ':');
    assert forall|k: int| 0 <= k < n implies !colon.contains(#[trigger] all[k]) by {
        assert(all[k] == name[k]);
        assert(name.contains(name[k]));
    }
    assert(all[n] == ':');
    assert(colon.contains(all[n]));
    text::lemma_scan_stops(all, colon, 0, n);
    assert(all.take(n) =~= name);
    assert(all.skip(n + 1) =~= port);
    text::lemma_scan_to(name, colon, 0);
    let e = text::scan_to(name, colon, 0);
    if e < n {
        assert(name.contains(name[e]));
    }
    assert(name.take(n) =~= name);
    if 0 <= i < name.len() && !is_name_char(name[i]) {
        assert(!is_host_char(name[i]));
    }
    if forall|k: int| 0 <= k < name.len() ==> is_name_char(#[trigger] name[k]) {
        assert forall|k: int| 0 <= k < name.len() implies is_host_char(#[trigger] name[k]) by {
            assert(is_name_char(name[k]));
        }
    }
}

/// A letter, a digit, a dot, a hyphen or an underscore.
pub open spec fn is_name_char(c: char) -> bool {
    'a' <= c <= 'z' || 'A' <= c <= 'Z' || '0' <= c <= '9' || c == '.' || c == '-' || c == '_'
}

proof fn lemma_host_and_path(host: Seq<char>, path: Seq<char>)
    requires
        !host.contains('/'),
        path.len() > 0 ==> path[0] == '/',
    ensures
        host_and_path(host + path) == (host, if path.len() > 0 {
            path
        } else {
            "/"@
        }),
{
    let s = host + path;
    let slash = seq!['/'];
    let n = host.len() as int;
    assert(slash[0] == '/');
    assert forall|k: int| 0 <= k < n implies !slash.contains(#[trigger] s[k]) by {
        assert(s[k] == host[k]);
        assert(host.contains(host[k]));
    }
    if path.len() > 0 {
        assert(s[n] == '/');
        assert(slash.contains(s[n]));
        text::lemma_scan_stops(s, slash, 0, n);
    } else {
        text::lemma_scan_to(s, slash, 0);
        assert(text::scan_to(s, slash, 0) == n);
    }
    assert(s.take(n) =~= host);
    assert(s.skip(n) =~= path);
}

/// A host and a path are probed as they are given, with or without `http://` in front; the path is
/// `/` where there is none. That address alone is probed then, and the built-in ones only where
/// the setting is not fit.
pub proof fn law_probe_address_is_taken(
    host: Seq<char>,
    path: Seq<char>,
    front: Seq<char>,
    back: Seq<char>,
)
    requires
        is_host(host),
        path.len() > 0 ==> path[0] == '/' && !text::is_space(path.last()),
        forall|i: int| 0 <= i < front.len() ==> text::is_space(#[trigger] front[i]),
        forall|i: int| 0 <= i < back.len() ==> text::is_space(#[trigger] back[i]),
        !text::starts_with(host + path, "http://"@),
    ensures
        ({
            let target = (host, if path.len() > 0 {
                path
            } else {
                "/"@
            });
            &&& probe_address(front + (host + path) + back) == Some(target)
            &&& probe_address(front + ("http://"@ + host + path) + back) == Some(target)
            &&& targets_of(front + (host + path) + back) == seq![target]
            &&& targets_of(front + ("http://"@ + host + path) + back) == seq![target]
        }),
{
    lemma_host_chars(host);
    let t = host + path;
    let u = "http://"@ + host + path;
    reveal_strlit("http://");
    assert(t[0] == host[0]);
    assert(host.contains(host[0]));
    assert(host.contains(host[host.len() - 1]));
    assert(t.last() == if path.len() > 0 {
        path.last()
    } else {
        host[host.len() - 1]
    });
    assert(u.last() == t.last());
    text::law_white_space();
    text::law_trim_cuts_white_space_only(front, t, back);
    text::law_trim_cuts_white_space_only(front, u, back);
    assert(u.subrange(0, 7) =~= "http://"@);
    assert(u.skip(7) =~= t);
    lemma_host_and_path(host, path);
}

/// The characters of a host.
proof fn lemma_host_chars(host: Seq<char>)
    requires
        is_host(host),
    ensures
        host.len() > 0,
        !host.contains('/'),
        forall|i: int| 0 <= i < host.len() ==> 0x21 <= #[trigger] host[i] as u32 <= 0x7e,
{
    let colon = seq![':'];
    assert(colon[0] == ':');
    text::lemma_scan_to(host, colon, 0);
    let k = text::scan_to(host, colon, 0);
    assert forall|i: int| 0 <= i < host.len() implies 0x21 <= #[trigger] host[i] as u32 <= 0x7e
        && host[i] != '/' by {
        if i < k {
            assert(host.take(k)[i] == host[i]);
            assert(is_host_char(host.take(k)[i]));
        } else if i > k {
            assert(host.skip(k + 1)[i - k - 1] == host[i]);
        } else {
            assert(colon.contains(host[k]));
            let c = choose|c: int| 0 <= c < colon.len() && colon[c] == host[k];
            assert(host[k] == ':');
        }
    }
}

/// The built-in addresses, in their order.
pub proof fn law_builtin_addresses(custom: Seq<char>)
    requires
        probe_address(custom) is None,
    ensures
        targets_of(custom).len() == 3,
        targets_of(custom)[0] == ("www.msftconnecttest.com"@, "/connecttest.txt"@),
        targets_of(custom)[1] == ("connect.rom.miui.com"@, "/generate_204"@),
        targets_of(custom)[2] == ("www.baidu.com"@, "/"@),
        login_targets(None) == targets_of(custom),
{
}

/// The addresses of a list with commas between them are probed in their order, each host and path
/// as it is given.
pub proof fn law_listed_addresses_are_probed(items: Seq<(Seq<char>, Seq<char>)>)
    requires
        items.len() > 0,
        forall|i: int|
            0 <= i < items.len() ==> is_host((#[trigger] items[i]).0) && !items[i].1.contains(',')
                && items[i].1.len() > 0 && items[i].1[0] == '/' && !text::is_space(
                items[i].1.last(),
            ),
    ensures
        login_targets(
            Some(
                crate::split::joined(
                    items.map_values(|a: (Seq<char>, Seq<char>)| a.0 + a.1),
                    ","@,
                ),
            ),
        ) == items,
{
    let parts = items.map_values(|a: (Seq<char>, Seq<char>)| a.0 + a.1);
    reveal_strlit(",");
    text::law_white_space();
    assert forall|i: int| 0 <= i < parts.len() implies !(#[trigger] parts[i]).contains(','
    ) && text::trim(parts[i]) == parts[i] && parts[i].len() > 0 && host_and_path(parts[i])
        == items[i] by {
        let a = items[i];
        lemma_host_chars(a.0);
        lemma_no_comma(a.0);
        lemma_host_and_path(a.0, a.1);
        let s = a.0 + a.1;
        assert(s[0] == a.0[0]);
        assert(s.last() == a.1.last());
        text::lemma_trim_nothing(s);
        if s.contains(',') {
            let k = choose|k: int| 0 <= k < s.len() && s[k] == ',';
            if k < a.0.len() {
                assert(a.0.contains(a.0[k]));
            } else {
                assert(a.1.contains(a.1[k - a.0.len()]));
            }
        }
    }
    crate::split::lemma_split_joined(parts, ","@);
    lemma_listed(parts, items);
}

proof fn lemma_no_comma(host: Seq<char>)
    requires
        is_host(host),
    ensures
        !host.contains(','),
{
    let colon = seq![':'];
    assert(colon[0] == ':');
    text::lemma_scan_to(host, colon, 0);
    let k = text::scan_to(host, colon, 0);
    assert forall|i: int| 0 <= i < host.len() implies host[i] != ',' by {
        if i < k {
            assert(host.take(k)[i] == host[i]);
            assert(is_host_char(host.take(k)[i]));
        } else if i > k {
            assert(host.skip(k + 1)[i - k - 1] == host[i]);
        } else {
            assert(colon.contains(host[k]));
            let c = choose|c: int| 0 <= c < colon.len() && colon[c] == host[k];
            assert(host[k] == ':');
        }
    }
}

proof fn lemma_listed(parts: Seq<Seq<char>>, items: Seq<(Seq<char>, Seq<char>)>)
    requires
        parts.len() == items.len(),
        forall|i: int|
            0 <= i < parts.len() ==> text::trim(#[trigger] parts[i]) == parts[i] && parts[i].len()
                > 0 && host_and_path(parts[i]) == items[i],
    ensures
        listed(parts) == items,
    decreases parts.len(),
{
    if parts.len() > 0 {
        let n = parts.len() - 1;
        assert forall|i: int| 0 <= i < parts.drop_last().len() implies text::trim(
            #[trigger] parts.drop_last()[i],
        ) == parts.drop_last()[i] && parts.drop_last()[i].len() > 0 && host_and_path(
            parts.drop_last()[i],
        ) == items.drop_last()[i] by {
            assert(parts.drop_last()[i] == parts[i]);
        }
        lemma_listed(parts.drop_last(), items.drop_last());
        assert(text::trim(parts[n]) == parts[n]);
        assert(listed(parts) =~= items);
    } else {
        assert(listed(parts) =~= items);
    }
}

/// A configured portal is asked for at the very address that is given, with `http://` in front
/// where it has no scheme.
pub proof fn law_portal_address_is_taken(
    host: Seq<char>,
    port: Seq<char>,
    tail: Seq<char>,
    scheme: Seq<char>,
)
    requires
        scheme == "http://"@ || scheme == "https://"@,
        is_plain_host(host),
        is_host(host),
        is_port_part(port),
        is_tail(tail),
        !text::is_space((host + port + tail).last()),
        !has_scheme(host + port + tail),
    ensures
        portal_address(scheme + host + port + tail) == Some(scheme + host + port + tail),
        portal_address(host + port + tail) == Some("http://"@ + (host + port + tail)),
{
    lemma_host_chars(host);
    let l = host + port + tail;
    let u = scheme + host + port + tail;
    reveal_strlit("http://");
    reveal_strlit("https://");
    text::law_white_space();
    assert(u[0] == 'h');
    assert(l[0] == host[0]);
    assert(u.last() == l.last());
    text::lemma_trim_nothing(u);
    text::lemma_trim_nothing(l);
    assert(u.subrange(0, scheme.len() as int) =~= scheme);
    law_parts_of_an_address(scheme, host, port, tail);
    law_parts_of_an_address("http://"@, host, port, tail);
    assert("http://"@ + l =~= "http://"@ + host + port + tail);
}

/// Blank items of a list are left out, wherever they stand; a list of nothing else is none.
pub proof fn law_blank_items_are_left_out(
    front: Seq<Seq<char>>,
    item: Seq<char>,
    back: Seq<Seq<char>>,
)
    ensures
        text::trim(item).len() == 0 ==> listed(front + seq![item] + back) == listed(front + back),
        text::trim(item).len() > 0 ==> listed(front + seq![item] + back) == listed(front) + seq![
            host_and_path(text::trim(item)),
        ] + listed(back),
        (forall|i: int| 0 <= i < back.len() ==> text::trim(#[trigger] back[i]).len() == 0)
            ==> listed(back).len() == 0,
    decreases back.len(),
{
    let all = front + seq![item] + back;
    if back.len() == 0 {
        assert(all.last() == item);
        assert(all.drop_last() =~= front);
        assert(front + back =~= front);
        if text::trim(item).len() > 0 {
            assert(listed(all) =~= listed(front) + seq![host_and_path(text::trim(item))] + listed(
                back,
            ));
        }
    } else {
        assert(all.last() == back.last());
        assert(all.drop_last() =~= front + seq![item] + back.drop_last());
        assert((front + back).last() == back.last());
        assert((front + back).drop_last() =~= front + back.drop_last());
        law_blank_items_are_left_out(front, item, back.drop_last());
        if text::trim(item).len() > 0 {
            assert(listed(all) =~= listed(front) + seq![host_and_path(text::trim(item))] + listed(
                back,
            ));
        }
        if forall|i: int| 0 <= i < back.len() ==> text::trim(#[trigger] back[i]).len() == 0 {
            assert(text::trim(back[back.len() - 1]).len() == 0);
            assert forall|i: int| 0 <= i < back.drop_last().len() implies text::trim(
                #[trigger] back.drop_last()[i],
            ).len() == 0 by {
                assert(back.drop_last()[i] == back[i]);
            }
        }
    }
}

/// Where a list has no address, the built-in ones are probed.
pub proof fn law_empty_list_falls_back(setting: Seq<char>)
    requires
        listed(crate::split::split(setting, ","@)).len() == 0,
    ensures
        login_targets(Some(setting)) == login_targets(None),
        login_targets(None)[0] == ("www.msftconnecttest.com"@, "/connecttest.txt"@),
{
}

/// A redirect that names no host behind `http` leads nowhere; one behind `https` is taken as it is.
pub proof fn law_redirect_without_a_host(
    requested_host: Seq<char>,
    port: Seq<char>,
    tail: Seq<char>,
)
    requires
        requested_host.len() > 0,
        is_port_part(port),
        is_tail(tail),
        (port + tail).len() > 0 ==> !text::is_space((port + tail).last()),
    ensures
        captive(requested_host, "http://"@ + port + tail) is None,
        captive(requested_host, "https://"@ + port + tail) == Some("https://"@ + port + tail),
{
    let none = Seq::<char>::empty();
    reveal_strlit("http://");
    reveal_strlit("https://");
    text::law_white_space();
    let a = "http://"@ + port + tail;
    let b = "https://"@ + port + tail;
    assert(a.last() == if (port + tail).len() > 0 {
        (port + tail).last()
    } else {
        '/'
    });
    assert(b.last() == a.last());
    text::lemma_trim_nothing(a);
    text::lemma_trim_nothing(b);
    assert(a.subrange(0, 7) =~= "http://"@);
    assert(b.subrange(0, 8) =~= "https://"@);
    lemma_plain_scheme(a);
    lemma_plain_scheme(b);
    law_parts_of_an_address("http://"@, none, port, tail);
    law_parts_of_an_address("https://"@, none, port, tail);
    assert("http://"@ + none + port + tail =~= a);
    assert("https://"@ + none + port + tail =~= b);
    assert(text::lower(none).len() == 0 && text::lower(requested_host).len() > 0);
    assert("http://"@[4] == ':' && "https://"@[4] == 's');
    if text::starts_with(a, "https://"@) {
        assert(a.subrange(0, 8)[4] == a[4]);
    }
}

/// Only plain `http` is probed: an address with `https` is not fit.
pub proof fn law_no_probe_by_https(rest: Seq<char>)
    requires
        rest.len() > 0 ==> !text::is_space(rest.last()),
    ensures
        probe_address("https://"@ + rest) is None,
{
    let t = "https://"@ + rest;
    reveal_strlit("https://");
    reveal_strlit("http://");
    text::law_white_space();
    assert(t.last() == if rest.len() > 0 {
        rest.last()
    } else {
        '/'
    });
    text::lemma_trim_nothing(t);
    assert("http://"@[4] == ':' && "https://"@[4] == 's');
    if text::starts_with(t, "http://"@) {
        assert(t.subrange(0, 7)[4] == t[4]);
    }
    let host = "https:"@;
    reveal_strlit("https:");
    assert(host =~= seq!['h', 't', 't', 'p', 's', ':']);
    let path = t.skip(6);
    assert(t =~= host + path);
    lemma_host_and_path(host, path);
    let name = host.take(5);
    assert(name + seq![':'] + seq![] =~= host);
    law_what_a_host_is(name, seq![], 0);
    assert forall|k: int| 0 <= k < name.len() implies is_name_char(#[trigger] name[k]) by {}
}

}
