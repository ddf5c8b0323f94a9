//! The login page of a portal and the form that is sent to it.

use vstd::prelude::*;

use crate::charset;
use crate::encode;
use crate::forms;
use crate::http;
use crate::http::HttpResponse;
use crate::number;
use crate::pages;
use crate::split;
use crate::text;
use crate::urls;

verus! {

// ---------------------------------------------------------------------------
// The way to the login page

/// Where a redirect leads: a path stays on the host, an `http` or `https` address is taken as it
/// is, and anything else is put behind the current address.
pub open spec fn next_url(url: Seq<char>, location: Seq<char>) -> Seq<char> {
    let l = text::trim(location);
    if l.len() > 0 && l[0] == '/' {
        urls::base_of(url) + l
    } else if text::starts_with(l, "http://"@) || text::starts_with(l, "https://"@) {
        l
    } else {
        text::strip_end(url, seq!['/']) + "/"@ + l
    }
}

/// The cookie that a reply sets, without its attributes.
pub open spec fn cookie_of(resp: http::Response) -> Seq<char> {
    match resp.header("Set-Cookie"@) {
        Some(c) => text::trim(c.take(text::scan_to(c, seq![';'], 0))),
        None => seq![],
    }
}

/// What the reply to a request for the login page leads to.
pub enum Fetched {
    /// Another request.
    Follow(Seq<char>),
    /// The page.
    Page { url: Seq<char>, html: Seq<char>, cookie: Seq<char> },
    /// Nothing, for this reason.
    Failed(Seq<char>),
}

/// What the reply to request number `hop` for the login page leads to. The third redirect is one
/// too many.
pub open spec fn fetched(
    url: Seq<char>,
    hop: nat,
    reply: Result<http::Response, Seq<char>>,
) -> Fetched {
    match reply {
        Err(e) => Fetched::Failed(e),
        Ok(resp) => match resp.header("Location"@) {
            Some(loc) => if hop >= 2 {
                Fetched::Failed("跳转次数过多, 未拿到登录页"@)
            } else {
                Fetched::Follow(next_url(url, loc))
            },
            None => if resp.status != 200 {
                Fetched::Failed("登录页 HTTP "@ + number::decimal(resp.status))
            } else {
                Fetched::Page {
                    url,
                    html: charset::body_text(resp.body),
                    cookie: cookie_of(resp),
                }
            },
        },
    }
}

/// What the reply to a request for the login page leads to.
#[derive(Debug)]
pub enum FetchStep {
    Follow(String),
    Page { url: String, html: String, cookie: String },
    Failed(String),
}

impl View for FetchStep {
    type V = Fetched;

    open spec fn view(&self) -> Fetched {
        match *self {
            FetchStep::Follow(url) => Fetched::Follow(url@),
            FetchStep::Page { url, html, cookie } => Fetched::Page {
                url: url@,
                html: html@,
                cookie: cookie@,
            },
            FetchStep::Failed(e) => Fetched::Failed(e@),
        }
    }
}

/// A reply whose body can be decoded.
pub open spec fn readable(reply: Result<HttpResponse, String>) -> bool {
    reply matches Ok(resp) ==> charset::decodable(resp.body@)
}

/// Where a redirect leads.
pub fn redirect_target(url: &str, location: &str) -> (r: String)
    ensures
        r@ == next_url(url@, location@),
{
    let l: String = text::trimmed(location);
    if !l.as_str().is_empty() && l.as_str().get_char(0) == '/' {
        return text::concat(urls::url_base(url).as_str(), l.as_str());
    }
    if text::begins(l.as_str(), "http://") || text::begins(l.as_str(), "https://") {
        return l;
    }
    let slash: [char; 1] = ['/'];
    assert(slash@ =~= seq!['/']);
    let front: String = text::stripped_end(url, slash.as_slice());
    text::concat3(front.as_str(), "/", l.as_str())
}

/// The cookie that a reply sets.
pub fn session_cookie(resp: &HttpResponse) -> (r: String)
    ensures
        r@ == cookie_of(resp@),
{
    match resp.header("Set-Cookie") {
        None => {
            let r: String = String::new();
            assert(r@ =~= seq![]);
            r
        },
        Some(c) => {
            let v: Vec<char> = text::chars_of(c);
            let stop: [char; 1] = [';'];
            assert(stop@ =~= seq![';']);
            let end: usize = text::scan(v.as_slice(), stop.as_slice(), 0);
            let front: String = text::text_of(v.as_slice(), 0, end);
            assert(front@ =~= c@.take(end as int));
            text::trimmed(front.as_str())
        },
    }
}

/// What the reply to request number `hop` for the login page leads to.
pub fn fetch_login_page(url: &str, hop: u32, reply: &Result<HttpResponse, String>) -> (r: FetchStep)
    requires
        readable(*reply),
    ensures
        r@ == fetched(url@, hop as nat, http::outcome(*reply)),
{
    match reply {
        Err(e) => FetchStep::Failed(e.clone()),
        Ok(resp) => {
            if let Some(loc) = resp.header("Location") {
                if hop >= 2 {
                    return FetchStep::Failed("跳转次数过多, 未拿到登录页".to_owned());
                }
                return FetchStep::Follow(redirect_target(url, loc));
            }
            if resp.status != 200 {
                return FetchStep::Failed(
                    text::concat(
                        "登录页 HTTP ",
                        number::decimal_text(resp.status as u64).as_str(),
                    ),
                );
            }
            FetchStep::Page {
                url: url.to_owned(),
                html: charset::decode_body(resp.body.as_slice()),
                cookie: session_cookie(resp),
            }
        },
    }
}

// ---------------------------------------------------------------------------
// The form

/// Fields that the portal expects, and their values where the page does not give them.
pub const BASE_FORM_DEFAULTS: [(&'static str, &'static str); 9] = [
    ("scheme", "http"),
    ("serverIp", "tomcat_server:80"),
    ("hostIp", "http://127.0.0.1:8081/"),
    ("auth_type", "0"),
    ("isBindMac1", "0"),
    ("pageid", "-1"),
    ("templatetype", "1"),
    ("listbindmac", "0"),
    ("recordmac", "0"),
];

/// The fields that the portal expects, as plain values.
pub open spec fn base_fields() -> Seq<(Seq<char>, Seq<char>)> {
    seq![
        ("scheme"@, "http"@),
        ("serverIp"@, "tomcat_server:80"@),
        ("hostIp"@, "http://127.0.0.1:8081/"@),
        ("auth_type"@, "0"@),
        ("isBindMac1"@, "0"@),
        ("pageid"@, "-1"@),
        ("templatetype"@, "1"@),
        ("listbindmac"@, "0"@),
        ("recordmac"@, "0"@),
    ]
}

/// The first position, from `i` on, of a field of that name, whatever its letter case.
pub open spec fn field_at(p: Seq<(Seq<char>, Seq<char>)>, name: Seq<char>, i: int) -> Option<int>
    decreases p.len() - i,
{
    if i < 0 || i >= p.len() {
        None
    } else if text::same_ignoring_case(p[i].0, name) {
        Some(i)
    } else {
        field_at(p, name, i + 1)
    }
}

/// The first position, from `i` on, of a field of exactly that name.
pub open spec fn exact_at(p: Seq<(Seq<char>, Seq<char>)>, name: Seq<char>, i: int) -> Option<int>
    decreases p.len() - i,
{
    if i < 0 || i >= p.len() {
        None
    } else if p[i].0 == name {
        Some(i)
    } else {
        exact_at(p, name, i + 1)
    }
}

/// The fields with the first `n` base fields added where they are missing.
pub open spec fn with_base(p: Seq<(Seq<char>, Seq<char>)>, n: nat) -> Seq<(Seq<char>, Seq<char>)>
    decreases n,
{
    if n == 0 {
        p
    } else {
        let before = with_base(p, (n - 1) as nat);
        let base = base_fields()[n - 1];
        if field_at(before, base.0, 0) is Some {
            before
        } else {
            before.push(base)
        }
    }
}

/// The fields with a new value at a position.
pub open spec fn with_value(
    p: Seq<(Seq<char>, Seq<char>)>,
    i: Option<int>,
    value: Seq<char>,
) -> Seq<(Seq<char>, Seq<char>)> {
    match i {
        Some(k) => p.update(k, (p[k].0, value)),
        None => p,
    }
}

/// The fields with a value for a name: the first field of that name gets it, or a new field.
pub open spec fn with_field(
    p: Seq<(Seq<char>, Seq<char>)>,
    name: Seq<char>,
    value: Seq<char>,
) -> Seq<(Seq<char>, Seq<char>)> {
    match exact_at(p, name, 0) {
        Some(k) => with_value(p, Some(k), value),
        None => p.push((name, value)),
    }
}

/// The name of the field for the account.
pub open spec fn user_field(html: Seq<char>) -> Seq<char> {
    let inputs = forms::form_inputs(html);
    match forms::name_at(inputs, forms::account_field(inputs)) {
        Some(n) => n,
        None => "userId"@,
    }
}

/// The name of the field for the password.
pub open spec fn pass_field(html: Seq<char>) -> Seq<char> {
    let inputs = forms::form_inputs(html);
    match forms::name_at(inputs, forms::password_at(inputs, 0)) {
        Some(n) => n,
        None => "passwd"@,
    }
}

/// The fields before account and password are filled in: those of the page, the base fields that
/// it lacks, and the template of the slot.
pub open spec fn prepared_fields(html: Seq<char>, slot: Seq<char>) -> Seq<(Seq<char>, Seq<char>)> {
    let p = with_base(forms::form_fields(html), 9);
    with_value(
        p,
        field_at(p, "templatetype"@, 0),
        if slot == "mobile"@ {
            "2"@
        } else {
            "1"@
        },
    )
}

/// The fields that are sent to the portal.
pub open spec fn login_fields(
    html: Seq<char>,
    slot: Seq<char>,
    username: Seq<char>,
    password: Seq<char>,
) -> Seq<(Seq<char>, Seq<char>)> {
    with_field(
        with_field(prepared_fields(html, slot), user_field(html), username),
        pass_field(html),
        password,
    )
}

fn find_field(p: &Vec<(String, String)>, name: &str) -> (r: Option<usize>)
    ensures
        field_at(text::pairs(p@), name@, 0) == (match r {
            Some(i) => Some(i as int),
            None => None,
        }),
        r matches Some(i) ==> i < p@.len(),
{
    let ghost all = text::pairs(p@);
    let mut i: usize = 0;
    while i < p.len()
        invariant
            all == text::pairs(p@),
            i <= p@.len(),
            field_at(all, name@, 0) == field_at(all, name@, i as int),
        decreases p@.len() - i,
    {
        assert(all[i as int].0 == p@[i as int].0@);
        if text::equal_ignoring_case(p[i].0.as_str(), name) {
            return Some(i);
        }
        i += 1;
    }
    None
}

fn find_exact(p: &Vec<(String, String)>, name: &str) -> (r: Option<usize>)
    ensures
        exact_at(text::pairs(p@), name@, 0) == (match r {
            Some(i) => Some(i as int),
            None => None,
        }),
        r matches Some(i) ==> i < p@.len(),
{
    let ghost all = text::pairs(p@);
    let mut i: usize = 0;
    while i < p.len()
        invariant
            all == text::pairs(p@),
            i <= p@.len(),
            exact_at(all, name@, 0) == exact_at(all, name@, i as int),
        decreases p@.len() - i,
    {
        assert(all[i as int].0 == p@[i as int].0@);
        if text::same(p[i].0.as_str(), name) {
            return Some(i);
        }
        i += 1;
    }
    None
}

fn set_value(p: &mut Vec<(String, String)>, i: usize, value: &str)
    requires
        i < old(p)@.len(),
    ensures
        text::pairs(final(p)@) == with_value(text::pairs(old(p)@), Some(i as int), value@),
{
    let ghost before = p@;
    let name: String = p[i].0.clone();
    p.set(i, (name, value.to_owned()));
    assert(text::pairs(p@) =~= with_value(text::pairs(before), Some(i as int), value@));
}

fn put_field(p: &mut Vec<(String, String)>, name: &str, value: &str)
    ensures
        text::pairs(final(p)@) == with_field(text::pairs(old(p)@), name@, value@),
{
    let ghost before = p@;
    match find_exact(p, name) {
        Some(i) => {
            set_value(p, i, value);
        },
        None => {
            p.push((name.to_owned(), value.to_owned()));
            assert(text::pairs(p@) =~= text::pairs(before).push((name@, value@)));
        },
    }
}

fn add_base(p: &mut Vec<(String, String)>)
    ensures
        text::pairs(final(p)@) == with_base(text::pairs(old(p)@), 9),
{
    let ghost start = text::pairs(p@);
    let mut n: usize = 0;
    while n < 9
        invariant
            n <= 9,
            text::pairs(p@) == with_base(start, n as nat),
        decreases 9 - n,
    {
        let ghost before = p@;
        let (name, value) = BASE_FORM_DEFAULTS[n];
        assert((name@, value@) == base_fields()[n as int]);
        if find_field(p, name).is_none() {
            p.push((name.to_owned(), value.to_owned()));
            assert(text::pairs(p@) =~= text::pairs(before).push((name@, value@)));
        }
        n += 1;
    }
}

/// The names of the fields for the account and the password.
pub fn credential_names(html: &str) -> (r: (String, String))
    ensures
        r.0@ == user_field(html@),
        r.1@ == pass_field(html@),
{
    let inputs: Vec<(String, String, String)> = forms::parse_form_inputs(html);
    let (user, pass) = forms::detect_credential_fields(inputs.as_slice());
    let user_name: String = match user {
        Some(n) => n,
        None => "userId".to_owned(),
    };
    let pass_name: String = match pass {
        Some(n) => n,
        None => "passwd".to_owned(),
    };
    (user_name, pass_name)
}

/// The fields that are sent to the portal.
pub fn fill_form(html: &str, slot: &str, username: &str, password: &str) -> (r: Vec<
    (String, String),
>)
    ensures
        text::pairs(r@) == login_fields(html@, slot@, username@, password@),
{
    let mut p: Vec<(String, String)> = forms::parse_form_fields(html);
    add_base(&mut p);
    let template: &str = if text::same(slot, "mobile") {
        "2"
    } else {
        "1"
    };
    if let Some(i) = find_field(&p, "templatetype") {
        set_value(&mut p, i, template);
    }
    let (user_name, pass_name) = credential_names(html);
    put_field(&mut p, user_name.as_str(), username);
    put_field(&mut p, pass_name.as_str(), password);
    p
}

/// A field in form encoding.
pub open spec fn encoded_field(f: (Seq<char>, Seq<char>)) -> Seq<char> {
    encode::encoded(f.0) + "="@ + encode::encoded(f.1)
}

/// Fields in form encoding.
pub open spec fn form_body(p: Seq<(Seq<char>, Seq<char>)>) -> Seq<char> {
    split::joined(p.map_values(|f: (Seq<char>, Seq<char>)| encoded_field(f)), "&"@)
}

/// Fields in form encoding.
pub fn encode_form(p: &Vec<(String, String)>) -> (r: String)
    ensures
        r@ == form_body(text::pairs(p@)),
{
    let ghost want = text::pairs(p@).map_values(|f: (Seq<char>, Seq<char>)| encoded_field(f));
    let mut parts: Vec<String> = Vec::new();
    let mut i: usize = 0;
    while i < p.len()
        invariant
            want == text::pairs(p@).map_values(|f: (Seq<char>, Seq<char>)| encoded_field(f)),
            i <= p@.len(),
            text::texts(parts@) == want.take(i as int),
        decreases p@.len() - i,
    {
        let ghost done = parts@;
        let name: String = encode::urlencode(p[i].0.as_str());
        let value: String = encode::urlencode(p[i].1.as_str());
        let part: String = text::concat3(name.as_str(), "=", value.as_str());
        assert(part@ == want[i as int]);
        parts.push(part);
        proof {
            assert(text::texts(parts@) =~= text::texts(done).push(want[i as int]));
            assert(want.take(i + 1) =~= want.take(i as int).push(want[i as int]));
        }
        i += 1;
    }
    assert(want.take(i as int) =~= want);
    split::join(&parts, "&")
}

/// A field for the log, without the value of a field named `passwd`.
pub open spec fn shown_field(f: (Seq<char>, Seq<char>)) -> Seq<char> {
    if text::same_ignoring_case(f.0, "passwd"@) {
        f.0 + "=***"@
    } else {
        f.0 + "="@ + f.1
    }
}

/// Fields for the log.
pub open spec fn form_summary(p: Seq<(Seq<char>, Seq<char>)>) -> Seq<char> {
    split::joined(p.map_values(|f: (Seq<char>, Seq<char>)| shown_field(f)), ", "@)
}

/// Fields for the log.
pub fn summarise_form(p: &Vec<(String, String)>) -> (r: String)
    ensures
        r@ == form_summary(text::pairs(p@)),
{
    let ghost want = text::pairs(p@).map_values(|f: (Seq<char>, Seq<char>)| shown_field(f));
    let mut parts: Vec<String> = Vec::new();
    let mut i: usize = 0;
    while i < p.len()
        invariant
            want == text::pairs(p@).map_values(|f: (Seq<char>, Seq<char>)| shown_field(f)),
            i <= p@.len(),
            text::texts(parts@) == want.take(i as int),
        decreases p@.len() - i,
    {
        let ghost done = parts@;
        let part: String = if text::equal_ignoring_case(p[i].0.as_str(), "passwd") {
            text::concat(p[i].0.as_str(), "=***")
        } else {
            text::concat3(p[i].0.as_str(), "=", p[i].1.as_str())
        };
        assert(part@ == want[i as int]);
        parts.push(part);
        proof {
            assert(text::texts(parts@) =~= text::texts(done).push(want[i as int]));
            assert(want.take(i + 1) =~= want.take(i as int).push(want[i as int]));
        }
        i += 1;
    }
    assert(want.take(i as int) =~= want);
    split::join(&parts, ", ")
}

/// What the log calls the template of a page.
pub open spec fn template_name(html: Seq<char>) -> Seq<char> {
    if text::contains(html, "uploads/mobile/"@) {
        "手机"@
    } else if text::contains(html, "uploads/pc/"@) {
        "电脑"@
    } else {
        "未知"@
    }
}

/// What the log calls the template of a page.
pub fn template_label(html: &str) -> (r: &'static str)
    ensures
        r@ == template_name(html@),
{
    if text::has(html, "uploads/mobile/") {
        "手机"
    } else if text::has(html, "uploads/pc/") {
        "电脑"
    } else {
        "未知"
    }
}

// ---------------------------------------------------------------------------
// Laws

/// A field as a server decodes it: the name before the first `=`, the value behind it.
pub open spec fn decoded_field(t: Seq<char>) -> (Seq<u8>, Seq<u8>) {
    let k = text::scan_to(t, seq!['='], 0);
    (encode::unescaped(t.take(k)), encode::unescaped(t.skip(k + 1)))
}

/// The fields of a body as a server decodes them: those between the `&`.
pub open spec fn decoded_form(body: Seq<char>) -> Seq<(Seq<u8>, Seq<u8>)> {
    split::split(body, "&"@).map_values(|t: Seq<char>| decoded_field(t))
}

proof fn lemma_decoded_field(f: (Seq<char>, Seq<char>))
    ensures
        decoded_field(encoded_field(f)) == (
            vstd::utf8::encode_utf8(f.0),
            vstd::utf8::encode_utf8(f.1),
        ),
        !encoded_field(f).contains('&'),
{
    let name = encode::encoded(f.0);
    let value = encode::encoded(f.1);
    let t = encoded_field(f);
    let stops = seq!['='];
    reveal_strlit("=");
    assert("="@ =~= seq!['=']);
    encode::law_encoding_is_safe(f.0);
    encode::law_encoding_is_safe(f.1);
    encode::law_encoding_is_undone(f.0);
    encode::law_encoding_is_undone(f.1);
    assert forall|i: int| 0 <= i < t.len() implies #[trigger] t[i] != '&' by {
        if i < name.len() {
            assert(t[i] == name[i]);
            assert(encode::is_safe(name[i]));
        } else if i > name.len() {
            assert(t[i] == value[i - name.len() - 1]);
            assert(encode::is_safe(value[i - name.len() - 1]));
        }
    }
    assert forall|i: int| 0 <= i < name.len() implies !stops.contains(#[trigger] t[i]) by {
        assert(t[i] == name[i]);
        assert(encode::is_safe(name[i]));
    }
    assert(stops[0] == '=');
    assert(stops.contains(t[name.len() as int]));
    text::lemma_scan_stops(t, stops, 0, name.len() as int);
    assert(t.take(name.len() as int) =~= name);
    assert(t.skip(name.len() as int + 1) =~= value);
}

/// A server that decodes the body gets the fields, in their order.
pub proof fn law_form_body_is_decoded(p: Seq<(Seq<char>, Seq<char>)>)
    requires
        p.len() > 0,
    ensures
        decoded_form(form_body(p)) == p.map_values(
            |f: (Seq<char>, Seq<char>)|
                (vstd::utf8::encode_utf8(f.0), vstd::utf8::encode_utf8(f.1)),
        ),
{
    let parts = p.map_values(|f: (Seq<char>, Seq<char>)| encoded_field(f));
    assert forall|i: int| 0 <= i < parts.len() implies !(#[trigger] parts[i]).contains('&') by {
        lemma_decoded_field(p[i]);
    }
    reveal_strlit("&");
    split::lemma_split_joined(parts, "&"@);
    assert forall|i: int| 0 <= i < p.len() implies #[trigger] decoded_field(parts[i]) == (
        vstd::utf8::encode_utf8(p[i].0),
        vstd::utf8::encode_utf8(p[i].1),
    ) by {
        lemma_decoded_field(p[i]);
    }
    assert(decoded_form(form_body(p)) =~= p.map_values(
        |f: (Seq<char>, Seq<char>)|
            (vstd::utf8::encode_utf8(f.0), vstd::utf8::encode_utf8(f.1)),
    ));
}

/// What `field_at` returns is the least position of the name.
proof fn lemma_field_at(p: Seq<(Seq<char>, Seq<char>)>, name: Seq<char>, i: int)
    requires
        0 <= i <= p.len(),
    ensures
        match field_at(p, name, i) {
            Some(k) => i <= k < p.len() && text::same_ignoring_case(p[k].0, name) && (forall|j: int|
                i <= j < k ==> !text::same_ignoring_case((#[trigger] p[j]).0, name)),
            None => forall|j: int|
                i <= j < p.len() ==> !text::same_ignoring_case((#[trigger] p[j]).0, name),
        },
    decreases p.len() - i,
{
    if i < p.len() && !text::same_ignoring_case(p[i].0, name) {
        lemma_field_at(p, name, i + 1);
    }
}

/// What `exact_at` returns is the least position of the name.
proof fn lemma_exact_at(p: Seq<(Seq<char>, Seq<char>)>, name: Seq<char>, i: int)
    requires
        0 <= i <= p.len(),
    ensures
        match exact_at(p, name, i) {
            Some(k) => i <= k < p.len() && p[k].0 == name && (forall|j: int|
                i <= j < k ==> (#[trigger] p[j]).0 != name),
            None => forall|j: int| i <= j < p.len() ==> (#[trigger] p[j]).0 != name,
        },
    decreases p.len() - i,
{
    if i < p.len() && p[i].0 != name {
        lemma_exact_at(p, name, i + 1);
    }
}

/// The fields `q` start with the names of `p`.
pub open spec fn keeps_names(
    p: Seq<(Seq<char>, Seq<char>)>,
    q: Seq<(Seq<char>, Seq<char>)>,
) -> bool {
    p.len() <= q.len() && forall|i: int| 0 <= i < p.len() ==> (#[trigger] q[i]).0 == p[i].0
}

/// A name keeps its first position where fields follow that have other values or are new.
proof fn lemma_field_stays(
    p: Seq<(Seq<char>, Seq<char>)>,
    q: Seq<(Seq<char>, Seq<char>)>,
    name: Seq<char>,
)
    requires
        keeps_names(p, q),
        field_at(p, name, 0) is Some,
    ensures
        field_at(q, name, 0) == field_at(p, name, 0),
{
    lemma_field_at(p, name, 0);
    lemma_field_at(q, name, 0);
    let k = field_at(p, name, 0)->0;
    assert(q[k].0 == p[k].0);
    if let Some(m) = field_at(q, name, 0) {
        if m < k {
            assert(q[m].0 == p[m].0);
        }
    }
}

proof fn lemma_with_base(p: Seq<(Seq<char>, Seq<char>)>, n: nat)
    requires
        n <= 9,
    ensures
        p.len() <= with_base(p, n).len(),
        forall|i: int| 0 <= i < p.len() ==> #[trigger] with_base(p, n)[i] == p[i],
        forall|j: int|
            0 <= j < n ==> field_at(with_base(p, n), (#[trigger] base_fields()[j]).0, 0) is Some,
    decreases n,
{
    if n > 0 {
        let before = with_base(p, (n - 1) as nat);
        let after = with_base(p, n);
        lemma_with_base(p, (n - 1) as nat);
        assert(keeps_names(before, after));
        assert forall|j: int| 0 <= j < n implies field_at(
            after,
            (#[trigger] base_fields()[j]).0,
            0,
        ) is Some by {
            let name = base_fields()[j].0;
            if j < n - 1 || field_at(before, name, 0) is Some {
                lemma_field_stays(before, after, name);
            } else {
                lemma_field_at(after, name, 0);
                assert(after.last().0 == name);
                assert(after[after.len() - 1].0 == name);
            }
        }
    }
}

proof fn lemma_with_field(p: Seq<(Seq<char>, Seq<char>)>, name: Seq<char>, value: Seq<char>)
    ensures
        keeps_names(p, with_field(p, name, value)),
        exact_at(with_field(p, name, value), name, 0) matches Some(k) && with_field(
            p,
            name,
            value,
        )[k].1 == value,
        forall|i: int|
            0 <= i < p.len() && (#[trigger] p[i]).0 != name ==> with_field(p, name, value)[i]
                == p[i],
        forall|other: Seq<char>|
            other != name ==> #[trigger] exact_at(with_field(p, name, value), other, 0) == exact_at(
                p,
                other,
                0,
            ),
{
    let q = with_field(p, name, value);
    lemma_exact_at(p, name, 0);
    lemma_exact_at(q, name, 0);
    assert forall|other: Seq<char>| other != name implies #[trigger] exact_at(q, other, 0)
        == exact_at(p, other, 0) by {
        lemma_exact_at(p, other, 0);
        lemma_exact_at(q, other, 0);
        assert(forall|i: int| 0 <= i < p.len() ==> (#[trigger] q[i]).0 == p[i].0);
        match (exact_at(p, other, 0), exact_at(q, other, 0)) {
            (Some(a), Some(b)) => {
                assert(q[a].0 == p[a].0);
                if b < p.len() {
                    assert(q[b].0 == p[b].0);
                }
            },
            (Some(a), None) => {
                assert(q[a].0 == p[a].0);
            },
            (None, Some(b)) => {
                if b < p.len() {
                    assert(q[b].0 == p[b].0);
                }
            },
            (None, None) => {},
        }
    }
    if exact_at(p, name, 0) is None {
        assert(q[p.len() as int].0 == name);
    } else {
        let k = exact_at(p, name, 0)->0;
        assert(q[k].0 == name);
        assert(forall|i: int| 0 <= i < p.len() ==> (#[trigger] q[i]).0 == p[i].0);
        if let Some(m) = exact_at(q, name, 0) {
            if m < k {
                assert(q[m].0 == p[m].0);
            }
        }
    }
}

proof fn lemma_prepared(html: Seq<char>, slot: Seq<char>)
    ensures
        keeps_names(with_base(forms::form_fields(html), 9), prepared_fields(html, slot)),
        field_at(with_base(forms::form_fields(html), 9), "templatetype"@, 0) is Some,
{
    let p = with_base(forms::form_fields(html), 9);
    lemma_with_base(forms::form_fields(html), 9);
    assert(base_fields()[6].0 == "templatetype"@);
    lemma_field_at(p, "templatetype"@, 0);
}

/// The first field with the name of the account field carries the account, and the one with the
/// name of the password field the password. Where both names are the same, the password counts.
pub proof fn law_credentials_are_sent(
    html: Seq<char>,
    slot: Seq<char>,
    username: Seq<char>,
    password: Seq<char>,
)
    ensures
        ({
            let l = login_fields(html, slot, username, password);
            &&& exact_at(l, pass_field(html), 0) matches Some(k) && l[k].1 == password
            &&& user_field(html) != pass_field(html) ==> (exact_at(l, user_field(html), 0) matches Some(
                k,
            ) && l[k].1 == username)
        }),
{
    let p = prepared_fields(html, slot);
    let u = with_field(p, user_field(html), username);
    let l = with_field(u, pass_field(html), password);
    lemma_with_field(p, user_field(html), username);
    lemma_with_field(u, pass_field(html), password);
    lemma_exact_at(u, user_field(html), 0);
    if user_field(html) != pass_field(html) {
        let k = exact_at(u, user_field(html), 0)->0;
        assert(exact_at(l, user_field(html), 0) == Some(k));
        assert(l[k] == u[k]);
    }
}

/// Every field that the portal expects is sent, whatever the page holds.
pub proof fn law_base_fields_are_sent(
    html: Seq<char>,
    slot: Seq<char>,
    username: Seq<char>,
    password: Seq<char>,
    j: int,
)
    requires
        0 <= j < base_fields().len(),
    ensures
        field_at(login_fields(html, slot, username, password), base_fields()[j].0, 0) is Some,
{
    let b = with_base(forms::form_fields(html), 9);
    let p = prepared_fields(html, slot);
    let u = with_field(p, user_field(html), username);
    lemma_with_base(forms::form_fields(html), 9);
    lemma_prepared(html, slot);
    lemma_with_field(p, user_field(html), username);
    lemma_with_field(u, pass_field(html), password);
    lemma_field_stays(b, p, base_fields()[j].0);
    lemma_field_stays(p, u, base_fields()[j].0);
    lemma_field_stays(u, login_fields(html, slot, username, password), base_fields()[j].0);
}

/// The fields of the page are sent first and in their order, under the very names of the page. A
/// field keeps its value unless it is the one for the account, the password or the template.
pub proof fn law_page_fields_are_sent(
    html: Seq<char>,
    slot: Seq<char>,
    username: Seq<char>,
    password: Seq<char>,
    i: int,
)
    requires
        0 <= i < forms::form_fields(html).len(),
    ensures
        ({
            let f = forms::form_fields(html);
            let l = login_fields(html, slot, username, password);
            &&& f.len() <= l.len()
            &&& l[i].0 == f[i].0
            &&& f[i].0 != user_field(html) && f[i].0 != pass_field(html)
                && !text::same_ignoring_case(f[i].0, "templatetype"@) ==> l[i].1 == f[i].1
        }),
{
    let f = forms::form_fields(html);
    let b = with_base(f, 9);
    let p = prepared_fields(html, slot);
    let u = with_field(p, user_field(html), username);
    let l = login_fields(html, slot, username, password);
    lemma_with_base(f, 9);
    lemma_prepared(html, slot);
    lemma_with_field(p, user_field(html), username);
    lemma_with_field(u, pass_field(html), password);
    lemma_field_at(b, "templatetype"@, 0);
    assert(b[i] == f[i]);
    assert(p[i].0 == b[i].0);
    assert(u[i].0 == p[i].0);
    assert(l[i].0 == u[i].0);
}

/// The template that is asked for is that of the slot, unless the page uses its field for the
/// account or the password.
pub proof fn law_template_is_that_of_the_slot(
    html: Seq<char>,
    slot: Seq<char>,
    username: Seq<char>,
    password: Seq<char>,
)
    requires
        !text::same_ignoring_case(user_field(html), "templatetype"@),
        !text::same_ignoring_case(pass_field(html), "templatetype"@),
    ensures
        ({
            let l = login_fields(html, slot, username, password);
            field_at(l, "templatetype"@, 0) matches Some(k) && l[k].1 == if slot == "mobile"@ {
                "2"@
            } else {
                "1"@
            }
        }),
{
    let b = with_base(forms::form_fields(html), 9);
    let p = prepared_fields(html, slot);
    let u = with_field(p, user_field(html), username);
    let l = login_fields(html, slot, username, password);
    lemma_prepared(html, slot);
    lemma_with_field(p, user_field(html), username);
    lemma_with_field(u, pass_field(html), password);
    lemma_field_stays(b, p, "templatetype"@);
    lemma_field_stays(p, u, "templatetype"@);
    lemma_field_stays(u, l, "templatetype"@);
    lemma_field_at(b, "templatetype"@, 0);
    let k = field_at(b, "templatetype"@, 0)->0;
    assert(p[k].0 == b[k].0);
    assert(u[k] == p[k]);
    assert(l[k] == u[k]);
}

/// A redirect to an `http` or `https` address leads to that very address, to the letter, query
/// included; one to a path leads to that path, all of it, on the host of the current address; any
/// other one is put behind the current address. The third one in a row leads nowhere.
pub proof fn law_redirects_are_followed_to_the_letter(
    url: Seq<char>,
    hop: nat,
    resp: http::Response,
    location: Seq<char>,
    front: Seq<char>,
    slashes: nat,
)
    requires
        resp.header("Location"@) == Some(location),
        url == front + Seq::new(slashes, |i: int| '/'),
        front.len() > 0 ==> front.last() != '/',
    ensures
        ({
            let l = text::trim(location);
            &&& hop < 2 && (text::starts_with(l, "http://"@) || text::starts_with(l, "https://"@))
                ==> fetched(url, hop, Ok(resp)) == Fetched::Follow(l)
            &&& hop < 2 && l.len() > 0 && l[0] == '/' ==> fetched(url, hop, Ok(resp))
                == Fetched::Follow(urls::base_of(url) + l)
            &&& hop < 2 && !text::starts_with(l, "http://"@) && !text::starts_with(l, "https://"@)
                && !(l.len() > 0 && l[0] == '/') ==> fetched(url, hop, Ok(resp))
                == Fetched::Follow(front + "/"@ + l)
            &&& hop >= 2 ==> fetched(url, hop, Ok(resp)) is Failed
        }),
{
    let l = text::trim(location);
    reveal_strlit("http://");
    reveal_strlit("https://");
    if text::starts_with(l, "http://"@) {
        assert(l.subrange(0, 7)[0] == l[0]);
    }
    if text::starts_with(l, "https://"@) {
        assert(l.subrange(0, 8)[0] == l[0]);
    }
    lemma_slashes_go(front, slashes);
}

proof fn lemma_slashes_go(front: Seq<char>, slashes: nat)
    requires
        front.len() > 0 ==> front.last() != '/',
    ensures
        text::strip_end(front + Seq::new(slashes, |i: int| '/'), seq!['/']) == front,
    decreases slashes,
{
    let all = front + Seq::new(slashes, |i: int| '/');
    let set = seq!['/'];
    assert(set[0] == '/');
    if slashes == 0 {
        assert(all =~= front);
    } else {
        assert(all.last() == '/');
        assert(set.contains(all.last()));
        assert(all.drop_last() =~= front + Seq::new((slashes - 1) as nat, |i: int| '/'));
        lemma_slashes_go(front, (slashes - 1) as nat);
    }
}

/// A reply that does not redirect is the login page where its status is 200: its address is the one
/// that was asked for, its text the body, decoded. Any other status is told as the reason of the
/// failure, and so is the error of a request that had no reply.
pub proof fn law_reply_with_status_200_is_the_page(
    url: Seq<char>,
    hop: nat,
    resp: http::Response,
    error: Seq<char>,
)
    requires
        resp.header("Location"@) is None,
    ensures
        resp.status == 200 ==> (fetched(url, hop, Ok(resp)) matches Fetched::Page {
            url: u,
            html,
            cookie,
        } && u == url && html == charset::body_text(resp.body) && cookie == cookie_of(resp)),
        resp.status != 200 ==> (fetched(url, hop, Ok(resp)) matches Fetched::Failed(e)
            && text::contains(e, number::decimal(resp.status))),
        fetched(url, hop, Err(error)) == Fetched::Failed(error),
{
    let front = "登录页 HTTP "@;
    let status = number::decimal(resp.status);
    text::law_part_is_contained(front, status, seq![]);
    assert(front + status =~= front + status + seq![]);
}

/// The cookie of a reply is what stands before the first `;` of its `Set-Cookie`, without the
/// white space around it.
pub proof fn law_cookie_is_sent_without_attributes(
    resp: http::Response,
    cookie: Seq<char>,
    attributes: Seq<char>,
)
    requires
        !cookie.contains(';'),
    ensures
        resp.header("Set-Cookie"@) == Some(cookie + seq![';'] + attributes) ==> cookie_of(resp)
            == text::trim(cookie),
        resp.header("Set-Cookie"@) == Some(cookie) ==> cookie_of(resp) == text::trim(cookie),
        resp.header("Set-Cookie"@) is None ==> cookie_of(resp) == Seq::<char>::empty(),
{
    let stops = seq![';'];
    assert(stops[0] == ';');
    let all = cookie + seq![';'] + attributes;
    let n = cookie.len() as int;
    assert forall|j: int| 0 <= j < n implies !stops.contains(#[trigger] all[j]) by {
        assert(all[j] == cookie[j]);
        assert(cookie.contains(cookie[j]));
    }
    assert(all[n] == ';');
    assert(stops.contains(all[n]));
    text::lemma_scan_stops(all, stops, 0, n);
    assert(all.take(n) =~= cookie);
    text::lemma_scan_to(cookie, stops, 0);
    let e = text::scan_to(cookie, stops, 0);
    if e < n {
        assert(cookie.contains(cookie[e]));
    }
    assert(cookie.take(n) =~= cookie);
}

/// The first field of that name has that value.
pub open spec fn carries(
    p: Seq<(Seq<char>, Seq<char>)>,
    name: Seq<char>,
    value: Seq<char>,
) -> bool {
    exists|k: int|
        #![trigger p[k]]
        0 <= k < p.len() && p[k] == (name, value) && forall|j: int|
            0 <= j < k ==> (#[trigger] p[j]).0 != name
}

proof fn lemma_carries(p: Seq<(Seq<char>, Seq<char>)>, name: Seq<char>, value: Seq<char>)
    requires
        exact_at(p, name, 0) matches Some(k) && p[k].1 == value,
    ensures
        carries(p, name, value),
{
    lemma_exact_at(p, name, 0);
    let k = exact_at(p, name, 0)->0;
    assert(p[k] == (name, value));
}

/// The account goes into the field with the name of the nearest typed input before the first
/// password input, and the password into the field with the name of that one, whatever these names
/// are. Where both have the same name, it carries the password.
pub proof fn law_found_inputs_carry_the_credentials(
    html: Seq<char>,
    slot: Seq<char>,
    username: Seq<char>,
    password: Seq<char>,
    k: int,
    a: int,
)
    requires
        0 <= a < k < forms::form_inputs(html).len(),
        forms::form_inputs(html)[k].1 == "password"@,
        forall|j: int| 0 <= j < k ==> (#[trigger] forms::form_inputs(html)[j]).1 != "password"@,
        !pages::untyped_kinds().contains(forms::form_inputs(html)[a].1),
        forall|j: int|
            a < j < k ==> pages::untyped_kinds().contains(
                (#[trigger] forms::form_inputs(html)[j]).1,
            ),
    ensures
        carries(
            login_fields(html, slot, username, password),
            forms::form_inputs(html)[k].0,
            password,
        ),
        forms::form_inputs(html)[a].0 != forms::form_inputs(html)[k].0 ==> carries(
            login_fields(html, slot, username, password),
            forms::form_inputs(html)[a].0,
            username,
        ),
{
    let l = login_fields(html, slot, username, password);
    let v = forms::form_inputs(html);
    pages::law_nearest_input_is_the_account(v, k, a);
    law_credentials_are_sent(html, slot, username, password);
    lemma_carries(l, v[k].0, password);
    if v[a].0 != v[k].0 {
        lemma_carries(l, v[a].0, username);
    }
}

/// Where no input before the first password input is typed into, the account goes into the field
/// with the name of the first typed input whose name tells an account.
pub proof fn law_account_is_found_by_its_name(
    html: Seq<char>,
    slot: Seq<char>,
    username: Seq<char>,
    password: Seq<char>,
    k: int,
    a: int,
)
    requires
        0 <= k < forms::form_inputs(html).len(),
        forms::form_inputs(html)[k].1 == "password"@,
        forall|j: int|
            0 <= j < k ==> pages::untyped_kinds().contains(
                (#[trigger] forms::form_inputs(html)[j]).1,
            ),
        0 <= a < forms::form_inputs(html).len(),
        pages::tells_account(forms::form_inputs(html)[a]),
        forall|j: int|
            0 <= j < a ==> !pages::tells_account(#[trigger] forms::form_inputs(html)[j]),
        forall|j: int| 0 <= j < k ==> (#[trigger] forms::form_inputs(html)[j]).1 != "password"@,
        forms::form_inputs(html)[a].0 != forms::form_inputs(html)[k].0,
    ensures
        carries(
            login_fields(html, slot, username, password),
            forms::form_inputs(html)[k].0,
            password,
        ),
        carries(
            login_fields(html, slot, username, password),
            forms::form_inputs(html)[a].0,
            username,
        ),
{
    let l = login_fields(html, slot, username, password);
    let v = forms::form_inputs(html);
    assert(pages::has_none_near(v));
    pages::law_account_is_found_by_its_name(v, Some(a));
    forms::lemma_password_at(v, 0);
    law_credentials_are_sent(html, slot, username, password);
    lemma_carries(l, v[k].0, password);
    lemma_carries(l, v[a].0, username);
}

/// Only where no such inputs are found are the credentials sent as `userId` and `passwd`.
pub proof fn law_credentials_of_a_page_without_inputs(
    html: Seq<char>,
    slot: Seq<char>,
    username: Seq<char>,
    password: Seq<char>,
)
    requires
        forall|j: int|
            0 <= j < forms::form_inputs(html).len() ==> (#[trigger] forms::form_inputs(html)[j]).1
                != "password"@ && !pages::tells_account(forms::form_inputs(html)[j]),
    ensures
        carries(login_fields(html, slot, username, password), "passwd"@, password),
        carries(login_fields(html, slot, username, password), "userId"@, username),
{
    let l = login_fields(html, slot, username, password);
    let v = forms::form_inputs(html);
    pages::law_no_password_input(v);
    assert(pages::has_none_near(v));
    pages::law_account_is_found_by_its_name(v, None);
    law_credentials_are_sent(html, slot, username, password);
    reveal_strlit("userId");
    reveal_strlit("passwd");
    assert("userId"@[0] == 'u' && "passwd"@[0] == 'p');
    lemma_carries(l, "passwd"@, password);
    lemma_carries(l, "userId"@, username);
}

/// A field that the portal expects and the page does not have, whatever its letter case, is sent
/// with its default.
proof fn lemma_default_is_sent(
    html: Seq<char>,
    slot: Seq<char>,
    username: Seq<char>,
    password: Seq<char>,
    name: Seq<char>,
    j: int,
)
    requires
        0 <= j < 9,
        base_fields()[j].0 == name,
        !text::same_ignoring_case(name, "templatetype"@),
        lacks_field(html, name),
        user_field(html) != name,
        pass_field(html) != name,
        distinct_defaults(),
    ensures
        carries(login_fields(html, slot, username, password), name, base_fields()[j].1),
{
    let f = forms::form_fields(html);
    let b = with_base(f, 9);
    let p = prepared_fields(html, slot);
    let u = with_field(p, user_field(html), username);
    let l = login_fields(html, slot, username, password);
    lemma_base_carries(f, 9, name, j);
    lemma_with_base(f, 9);
    lemma_prepared(html, slot);
    lemma_with_field(p, user_field(html), username);
    lemma_with_field(u, pass_field(html), password);
    lemma_field_at(b, "templatetype"@, 0);
    let k = choose|k: int|
        #![trigger b[k]]
        0 <= k < b.len() && b[k] == (name, base_fields()[j].1) && forall|i: int|
            0 <= i < k ==> (#[trigger] b[i]).0 != name;
    assert(p[k].0 == b[k].0);
    assert(p[k] == b[k]);
    assert(u[k] == p[k]);
    assert(l[k] == u[k]);
    assert forall|i: int| 0 <= i < k implies (#[trigger] l[i]).0 != name by {
        assert(b[i].0 != name);
        assert(p[i].0 == b[i].0);
        assert(u[i].0 == p[i].0);
        assert(l[i].0 == u[i].0);
    }
}

/// No field of the page has that name, whatever its letter case.
pub open spec fn lacks_field(html: Seq<char>, name: Seq<char>) -> bool {
    forall|i: int|
        0 <= i < forms::form_fields(html).len() ==> !text::same_ignoring_case(
            (#[trigger] forms::form_fields(html)[i]).0,
            name,
        )
}

spec fn distinct_defaults() -> bool {
    forall|i: int, j: int|
        0 <= i < j < 9 ==> !text::same_ignoring_case(
            (#[trigger] base_fields()[i]).0,
            (#[trigger] base_fields()[j]).0,
        )
}

proof fn lemma_base_carries(p: Seq<(Seq<char>, Seq<char>)>, n: nat, name: Seq<char>, j: int)
    requires
        n <= 9,
        0 <= j < 9,
        base_fields()[j].0 == name,
        distinct_defaults(),
        forall|i: int| 0 <= i < p.len() ==> !text::same_ignoring_case((#[trigger] p[i]).0, name),
    ensures
        n <= j ==> forall|i: int|
            0 <= i < with_base(p, n).len() ==> !text::same_ignoring_case(
                (#[trigger] with_base(p, n)[i]).0,
                name,
            ),
        n > j ==> carries(with_base(p, n), name, base_fields()[j].1),
    decreases n,
{
    if n > 0 {
        let before = with_base(p, (n - 1) as nat);
        let after = with_base(p, n);
        lemma_base_carries(p, (n - 1) as nat, name, j);
        lemma_field_at(before, base_fields()[n - 1].0, 0);
        if n - 1 == j {
            let k = before.len() as int;
            assert(after =~= before.push(base_fields()[j]));
            assert(after[k] == (name, base_fields()[j].1));
            assert forall|i: int| 0 <= i < k implies (#[trigger] after[i]).0 != name by {
                assert(after[i] == before[i]);
                assert(!text::same_ignoring_case(before[i].0, name));
            }
        } else if n - 1 < j {
            assert(!text::same_ignoring_case(base_fields()[n - 1].0, base_fields()[j].0));
        } else {
            let k = choose|k: int|
                #![trigger before[k]]
                0 <= k < before.len() && before[k] == (name, base_fields()[j].1) && forall|i: int|
                    0 <= i < k ==> (#[trigger] before[i]).0 != name;
            assert(after[k] == before[k]);
            assert forall|i: int| 0 <= i < k implies (#[trigger] after[i]).0 != name by {
                assert(after[i] == before[i]);
            }
        }
    }
}

proof fn lemma_distinct_defaults()
    ensures
        distinct_defaults(),
{
    reveal_strlit("scheme");
    reveal_strlit("serverIp");
    reveal_strlit("hostIp");
    reveal_strlit("auth_type");
    reveal_strlit("isBindMac1");
    reveal_strlit("pageid");
    reveal_strlit("templatetype");
    reveal_strlit("listbindmac");
    reveal_strlit("recordmac");
    let b = base_fields();
    assert(text::lower(b[0].0).len() == 6 && text::lower(b[0].0)[0] == 's');
    assert(text::lower(b[1].0).len() == 8);
    assert(text::lower(b[2].0).len() == 6 && text::lower(b[2].0)[0] == 'h');
    assert(text::lower(b[3].0).len() == 9 && text::lower(b[3].0)[0] == 'a');
    assert(text::lower(b[4].0).len() == 10);
    assert(text::lower(b[5].0).len() == 6 && text::lower(b[5].0)[0] == 'p');
    assert(text::lower(b[6].0).len() == 12);
    assert(text::lower(b[7].0).len() == 11);
    assert(text::lower(b[8].0).len() == 9 && text::lower(b[8].0)[0] == 'r');
}

/// A name that the portal expects, and the value that it gets where the page does not give one.
pub open spec fn is_default(name: Seq<char>, value: Seq<char>) -> bool {
    ||| name == "scheme"@ && value == "http"@
    ||| name == "serverIp"@ && value == "tomcat_server:80"@
    ||| name == "hostIp"@ && value == "http://127.0.0.1:8081/"@
    ||| name == "auth_type"@ && value == "0"@
    ||| name == "isBindMac1"@ && value == "0"@
    ||| name == "pageid"@ && value == "-1"@
    ||| name == "listbindmac"@ && value == "0"@
    ||| name == "recordmac"@ && value == "0"@
}

/// What the portal expects is sent with a fixed value where the page has no field of that name,
/// unless it is the one for the account or the password.
pub proof fn law_defaults_are_sent(
    html: Seq<char>,
    slot: Seq<char>,
    username: Seq<char>,
    password: Seq<char>,
    name: Seq<char>,
    value: Seq<char>,
)
    requires
        lacks_field(html, name),
        user_field(html) != name,
        pass_field(html) != name,
        is_default(name, value),
    ensures
        carries(login_fields(html, slot, username, password), name, value),
{
    lemma_distinct_defaults();
    let b = base_fields();
    assert(b[0] == ("scheme"@, "http"@) && b[1] == ("serverIp"@, "tomcat_server:80"@) && b[2] == (
        "hostIp"@,
        "http://127.0.0.1:8081/"@,
    ) && b[3] == ("auth_type"@, "0"@) && b[4] == ("isBindMac1"@, "0"@) && b[5] == ("pageid"@, "-1"@)
        && b[6].0 == "templatetype"@ && b[7] == ("listbindmac"@, "0"@) && b[8] == (
        "recordmac"@,
        "0"@,
    ));
    let j: int = if name == b[0].0 {
        0
    } else if name == b[1].0 {
        1
    } else if name == b[2].0 {
        2
    } else if name == b[3].0 {
        3
    } else if name == b[4].0 {
        4
    } else if name == b[5].0 {
        5
    } else if name == b[7].0 {
        7
    } else {
        8
    };
    if j < 6 {
        assert(!text::same_ignoring_case(b[j].0, b[6].0));
    } else {
        assert(!text::same_ignoring_case(b[6].0, b[j].0));
    }
    assert(b[j] == (name, value)) by {
        assert forall|i: int| 0 <= i < 9 && i != j implies (#[trigger] b[i]).0 != name by {
            if i < j {
                assert(!text::same_ignoring_case(b[i].0, b[j].0));
            } else {
                assert(!text::same_ignoring_case(b[j].0, b[i].0));
            }
        }
    }
    lemma_default_is_sent(html, slot, username, password, name, j);
}

/// Nothing else is sent: behind the fields of the page come fields that the portal expects, and
/// those of the account and the password.
pub proof fn law_nothing_else_is_sent(
    html: Seq<char>,
    slot: Seq<char>,
    username: Seq<char>,
    password: Seq<char>,
    i: int,
)
    requires
        forms::form_fields(html).len() <= i < login_fields(html, slot, username, password).len(),
    ensures
        ({
            let name = login_fields(html, slot, username, password)[i].0;
            ||| name == user_field(html)
            ||| name == pass_field(html)
            ||| exists|j: int| 0 <= j < 9 && name == (#[trigger] base_fields()[j]).0
        }),
        login_fields(html, slot, username, password).len() <= forms::form_fields(html).len() + 11,
{
    let f = forms::form_fields(html);
    let b = with_base(f, 9);
    let p = prepared_fields(html, slot);
    let u = with_field(p, user_field(html), username);
    let l = login_fields(html, slot, username, password);
    lemma_prepared(html, slot);
    lemma_with_field(p, user_field(html), username);
    lemma_with_field(u, pass_field(html), password);
    lemma_base_names(f, 9);
    lemma_field_at(b, "templatetype"@, 0);
    lemma_exact_at(p, user_field(html), 0);
    lemma_exact_at(u, pass_field(html), 0);
    assert(p.len() == b.len());
    if i < b.len() {
        assert(is_base_name(b[i].0));
        assert(p[i].0 == b[i].0);
        assert(u[i].0 == p[i].0);
        assert(l[i].0 == u[i].0);
    } else if i < u.len() {
        assert(l[i].0 == u[i].0);
    }
}

proof fn lemma_base_names(p: Seq<(Seq<char>, Seq<char>)>, n: nat)
    requires
        n <= 9,
    ensures
        p.len() <= with_base(p, n).len() <= p.len() + n,
        forall|i: int|
            p.len() <= i < with_base(p, n).len() ==> is_base_name(
                (#[trigger] with_base(p, n)[i]).0,
            ),
    decreases n,
{
    if n > 0 {
        lemma_base_names(p, (n - 1) as nat);
        assert(is_base_name(base_fields()[n - 1].0));
    }
}

spec fn is_base_name(name: Seq<char>) -> bool {
    exists|j: int| 0 <= j < 9 && name == (#[trigger] base_fields()[j]).0
}

/// The log shows every field that is sent, each name and value to the letter, but for the value of
/// a field named `passwd`, whatever its letter case: forms that differ only there read the same.
pub proof fn law_log_hides_the_password(
    p: Seq<(Seq<char>, Seq<char>)>,
    i: int,
    secret: Seq<char>,
)
    requires
        0 <= i < p.len(),
    ensures
        text::lower(p[i].0) == "passwd"@ ==> form_summary(p) == form_summary(
            p.update(i, (p[i].0, secret)),
        ),
        text::lower(p[i].0) != "passwd"@ ==> text::contains(
            form_summary(p),
            p[i].0 + "="@ + p[i].1,
        ),
{
    reveal_strlit("passwd");
    assert(text::lower("passwd"@) =~= "passwd"@);
    let q = p.update(i, (p[i].0, secret));
    let shown = p.map_values(|f: (Seq<char>, Seq<char>)| shown_field(f));
    let other = q.map_values(|f: (Seq<char>, Seq<char>)| shown_field(f));
    if text::lower(p[i].0) == "passwd"@ {
        assert(shown =~= other);
    } else {
        assert(shown[i] == p[i].0 + "="@ + p[i].1);
        split::lemma_joined_contains(shown, ", "@, i);
    }
}

/// The log names the template by the folder that the page loads its pictures from.
pub proof fn law_template_is_named(html: Seq<char>)
    ensures
        text::contains(html, "uploads/mobile/"@) ==> template_name(html) == "手机"@,
        !text::contains(html, "uploads/mobile/"@) && text::contains(html, "uploads/pc/"@)
            ==> template_name(html) == "电脑"@,
        !text::contains(html, "uploads/mobile/"@) && !text::contains(html, "uploads/pc/"@)
            ==> template_name(html) == "未知"@,
{
}

}
