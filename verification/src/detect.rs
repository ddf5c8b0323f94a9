//! The search for the portal: probe until a redirect tells it, or try the configured address.
//! Nothing is signed in. Every step waits for the reply to one request.

use vstd::prelude::*;

use crate::agent;
use crate::auth;
use crate::auth::Outgoing;
use crate::charset;
use crate::http;
use crate::http::HttpResponse;
use crate::login;
use crate::login::FetchStep;
use crate::probe;
use crate::probe::ProbeState;
use crate::text;
use crate::urls;

verus! {

/// Where a search stands: which reply it waits for.
#[derive(Debug)]
pub enum DetectStep {
    /// The reply to the probe of a target.
    Probe { index: usize },
    /// The reply to request number `hop` for the login page. `known` is the base address that a
    /// redirect told.
    Fetch { url: String, hop: u32, known: Option<String> },
    /// None: the search ended, with the base address of the portal.
    Done { base: Option<String> },
}

/// Where a search stands, as plain values.
pub enum Search {
    Probe { index: int },
    Fetch { url: Seq<char>, hop: nat, known: Option<Seq<char>> },
    Done { base: Option<Seq<char>> },
}

impl View for DetectStep {
    type V = Search;

    open spec fn view(&self) -> Search {
        match *self {
            DetectStep::Probe { index } => Search::Probe { index: index as int },
            DetectStep::Fetch { url, hop, known } => Search::Fetch {
                url: url@,
                hop: hop as nat,
                known: text::opt_text(known),
            },
            DetectStep::Done { base } => Search::Done { base: text::opt_text(base) },
        }
    }
}

/// The step belongs to a search of these targets.
pub open spec fn search_ok(targets: Seq<(Seq<char>, Seq<char>)>, step: Search) -> bool {
    match step {
        Search::Probe { index } => 0 <= index < targets.len(),
        Search::Fetch { hop, .. } => hop <= 2,
        Search::Done { .. } => true,
    }
}

/// The step after the last probe that told nothing.
pub open spec fn without_redirect(portal_url: Seq<char>) -> Search {
    match urls::portal_address(portal_url) {
        Some(url) => Search::Fetch { url, hop: 0, known: None },
        None => Search::Done { base: None },
    }
}

/// The step after a probe of target `index`.
pub open spec fn after_probe(
    targets: Seq<(Seq<char>, Seq<char>)>,
    portal_url: Seq<char>,
    index: int,
    found: probe::Probe,
) -> Search {
    match found {
        probe::Probe::Captive(url) => Search::Fetch {
            url,
            hop: 0,
            known: Some(urls::base_of(url)),
        },
        _ => if index + 1 < targets.len() {
            Search::Probe { index: index + 1 }
        } else {
            without_redirect(portal_url)
        },
    }
}

/// The step after a reply to a request for the login page. A base address that a redirect told
/// stands, whatever the page is; a configured address counts only where a page answers, and then
/// the base address is that of the page.
pub open spec fn after_fetch(hop: nat, known: Option<Seq<char>>, got: login::Fetched) -> Search {
    match got {
        login::Fetched::Follow(url) => Search::Fetch { url, hop: hop + 1, known },
        login::Fetched::Failed(_) => Search::Done { base: known },
        login::Fetched::Page { url, .. } => Search::Done {
            base: match known {
                Some(b) => Some(b),
                None => Some(urls::base_of(url)),
            },
        },
    }
}

/// The step after a reply.
pub open spec fn next_search(
    targets: Seq<(Seq<char>, Seq<char>)>,
    portal_url: Seq<char>,
    step: Search,
    reply: Result<http::Response, Seq<char>>,
) -> Search {
    match step {
        Search::Probe { index } => after_probe(
            targets,
            portal_url,
            index,
            probe::probed(targets[index].0, reply),
        ),
        Search::Fetch { url, hop, known } => after_fetch(
            hop,
            known,
            login::fetched(url, hop, reply),
        ),
        Search::Done { .. } => step,
    }
}

/// The request whose reply a step waits for; none at the end.
pub open spec fn request_of(targets: Seq<(Seq<char>, Seq<char>)>, step: Search) -> Option<
    auth::Request,
> {
    match step {
        Search::Probe { index } => Some(auth::probe_request(targets[index], 0)),
        Search::Fetch { url, .. } => Some(auth::page_request(url, agent::UA_PC@)),
        Search::Done { .. } => None,
    }
}

/// The first step.
pub fn begin() -> (r: DetectStep)
    ensures
        r@ == (Search::Probe { index: 0 }),
{
    DetectStep::Probe { index: 0 }
}

/// The request whose reply a step waits for; none at the end.
pub fn outgoing(targets: &Vec<(String, String)>, step: &DetectStep) -> (r: Option<Outgoing>)
    requires
        search_ok(text::pairs(targets@), step@),
    ensures
        match request_of(text::pairs(targets@), step@) {
            Some(q) => r matches Some(o) && o@ == q,
            None => r is None,
        },
{
    match step {
        DetectStep::Probe { index } => {
            assert(text::pairs(targets@)[*index as int] == (
                targets@[*index as int].0@,
                targets@[*index as int].1@,
            ));
            Some(auth::probe_outgoing(&targets[*index], 0))
        },
        DetectStep::Fetch { url, .. } => Some(auth::page_outgoing(url.as_str(), agent::UA_PC)),
        DetectStep::Done { .. } => None,
    }
}

/// The step after a probe of target `index`.
pub fn judge_probe(
    targets: &Vec<(String, String)>,
    portal_url: &str,
    index: usize,
    found: ProbeState,
) -> (r: DetectStep)
    requires
        index < targets@.len(),
    ensures
        r@ == after_probe(text::pairs(targets@), portal_url@, index as int, found@),
{
    let n: usize = targets.len();
    match found {
        ProbeState::Captive(url) => {
            let base: String = urls::url_base(url.as_str());
            DetectStep::Fetch { url, hop: 0, known: Some(base) }
        },
        _ => {
            if index + 1 < n {
                return DetectStep::Probe { index: index + 1 };
            }
            match urls::parse_portal_url(portal_url) {
                Some(url) => DetectStep::Fetch { url, hop: 0, known: None },
                None => DetectStep::Done { base: None },
            }
        },
    }
}

/// The step after a reply to a request for the login page.
pub fn judge_page(hop: u32, known: Option<String>, got: FetchStep) -> (r: DetectStep)
    requires
        hop < u32::MAX,
    ensures
        r@ == after_fetch(hop as nat, text::opt_text(known), got@),
{
    match got {
        FetchStep::Follow(url) => DetectStep::Fetch { url, hop: hop + 1, known },
        FetchStep::Failed(_) => DetectStep::Done { base: known },
        FetchStep::Page { url, .. } => match known {
            Some(b) => DetectStep::Done { base: Some(b) },
            None => DetectStep::Done { base: Some(urls::url_base(url.as_str())) },
        },
    }
}

/// The step after a reply.
pub fn advance(
    targets: &Vec<(String, String)>,
    portal_url: &str,
    step: &DetectStep,
    reply: &Result<HttpResponse, String>,
) -> (r: DetectStep)
    requires
        search_ok(text::pairs(targets@), step@),
        login::readable(*reply),
    ensures
        r@ == next_search(text::pairs(targets@), portal_url@, step@, http::outcome(*reply)),
        search_ok(text::pairs(targets@), r@),
{
    match step {
        DetectStep::Probe { index } => {
            assert(text::pairs(targets@)[*index as int].0 == targets@[*index as int].0@);
            let found: ProbeState = probe::probe_one(targets[*index].0.as_str(), reply);
            judge_probe(targets, portal_url, *index, found)
        },
        DetectStep::Fetch { url, hop, known } => {
            let got: FetchStep = login::fetch_login_page(url.as_str(), *hop, reply);
            judge_page(*hop, copied(known), got)
        },
        DetectStep::Done { base } => DetectStep::Done { base: copied(base) },
    }
}

fn copied(v: &Option<String>) -> (r: Option<String>)
    ensures
        text::opt_text(r) == text::opt_text(*v),
{
    match v {
        Some(s) => Some(s.clone()),
        None => None,
    }
}

/// What the log says of a page: whether it looks like a portal's, for an address that a redirect
/// told and for a configured one.
pub open spec fn page_note(html: Seq<char>, redirected: bool) -> Seq<char> {
    if !charset::is_portal_page(html) {
        "内容不像门户登录页"@
    } else if redirected {
        "正常"@
    } else {
        "像门户登录页"@
    }
}

/// What the log says of a page.
pub fn note_page(html: &str, redirected: bool) -> (r: &'static str)
    ensures
        r@ == page_note(html@, redirected),
{
    if !charset::looks_like_portal_page(html) {
        "内容不像门户登录页"
    } else if redirected {
        "正常"
    } else {
        "像门户登录页"
    }
}

// ---------------------------------------------------------------------------
// Laws

/// How many requests a search can still send.
pub open spec fn rank(targets: Seq<(Seq<char>, Seq<char>)>, step: Search) -> int {
    match step {
        Search::Probe { index } => 3 + targets.len() - index,
        Search::Fetch { hop, .. } => 3 - hop,
        Search::Done { .. } => 0,
    }
}

/// Every reply brings a search nearer to its end: it sends no more requests than there are
/// targets, and three.
pub proof fn law_search_ends(
    targets: Seq<(Seq<char>, Seq<char>)>,
    portal_url: Seq<char>,
    step: Search,
    reply: Result<http::Response, Seq<char>>,
)
    requires
        search_ok(targets, step),
    ensures
        search_ok(targets, next_search(targets, portal_url, step, reply)),
        rank(targets, Search::Probe { index: 0 }) == targets.len() + 3,
        0 <= rank(targets, next_search(targets, portal_url, step, reply)),
        !(step is Done) ==> rank(targets, next_search(targets, portal_url, step, reply)) < rank(
            targets,
            step,
        ),
        step is Done ==> next_search(targets, portal_url, step, reply) == step,
{
}

/// A search only reads: each of its requests is a `GET` without a body.
pub proof fn law_search_only_reads(targets: Seq<(Seq<char>, Seq<char>)>, step: Search)
    ensures
        request_of(targets, step) matches Some(q) ==> q.method == "GET"@ && q.body is None,
{
}

/// A base address that a redirect told is the result of the search, whatever the portal answers
/// from then on.
pub proof fn law_redirect_decides(
    targets: Seq<(Seq<char>, Seq<char>)>,
    portal_url: Seq<char>,
    step: Search,
    reply: Result<http::Response, Seq<char>>,
)
    requires
        step is Fetch,
        step->known is Some,
    ensures
        match next_search(targets, portal_url, step, reply) {
            Search::Probe { .. } => false,
            Search::Fetch { known, .. } => known == step->known,
            Search::Done { base } => base == step->known,
        },
{
}

/// The targets are probed in turn; a redirect to the portal is followed, and its base is what the
/// search will find. Behind the last target comes the configured portal; without one nothing is
/// found. An open line is no end: the next target is probed.
pub proof fn law_search_probes_in_turn(
    targets: Seq<(Seq<char>, Seq<char>)>,
    portal_url: Seq<char>,
    index: int,
    reply: Result<http::Response, Seq<char>>,
    portal: Seq<char>,
)
    requires
        0 <= index < targets.len(),
    ensures
        ({
            let next = next_search(targets, portal_url, Search::Probe { index }, reply);
            let found = probe::probed(targets[index].0, reply);
            &&& found == probe::Probe::Captive(portal) ==> next == (Search::Fetch {
                url: portal,
                hop: 0,
                known: Some(urls::base_of(portal)),
            })
            &&& !(found is Captive) && index + 1 < targets.len() ==> next == (Search::Probe {
                index: index + 1,
            })
            &&& !(found is Captive) && index + 1 == targets.len() && urls::portal_address(
                portal_url,
            ) == Some(portal) ==> next == (Search::Fetch { url: portal, hop: 0, known: None })
            &&& !(found is Captive) && index + 1 == targets.len() && urls::portal_address(
                portal_url,
            ) is None ==> next == (Search::Done { base: None })
        }),
{
}

/// A page without a redirect before it is the portal: its base is found. A page that cannot be had
/// finds nothing new, and a redirect leads to one more request.
pub proof fn law_search_reads_the_page(
    targets: Seq<(Seq<char>, Seq<char>)>,
    portal_url: Seq<char>,
    url: Seq<char>,
    hop: nat,
    known: Option<Seq<char>>,
    reply: Result<http::Response, Seq<char>>,
    target: Seq<char>,
)
    ensures
        ({
            let next = next_search(targets, portal_url, Search::Fetch { url, hop, known }, reply);
            let got = login::fetched(url, hop, reply);
            &&& got is Page && known is None ==> next == (Search::Done {
                base: Some(urls::base_of(url)),
            })
            &&& got is Page && known is Some ==> next == (Search::Done { base: known })
            &&& got is Failed ==> next == (Search::Done { base: known })
            &&& got == login::Fetched::Follow(target) ==> next == (Search::Fetch {
                url: target,
                hop: hop + 1,
                known,
            })
        }),
{
}

/// A search asks for its target and for the page at its address, as a desktop browser.
pub proof fn law_what_a_search_sends(
    targets: Seq<(Seq<char>, Seq<char>)>,
    index: int,
    url: Seq<char>,
    hop: nat,
    known: Option<Seq<char>>,
)
    ensures
        request_of(targets, Search::Probe { index }) matches Some(q) && q.url == "http://"@
            + targets[index].0 + targets[index].1,
        request_of(targets, Search::Fetch { url, hop, known }) matches Some(q) && q.url == url
            && q.headers.contains(("User-Agent"@, agent::agent_of("pc"@, None, 0))),
{
    reveal_strlit("pc");
    reveal_strlit("mobile");
    assert("pc"@.len() == 2 && "mobile"@.len() == 6);
    let h = auth::page_request(url, agent::UA_PC@).headers;
    assert(h[0] == ("User-Agent"@, agent::UA_PC@));
}

/// The log tells whether the page looks like that of a portal.
pub proof fn law_page_is_told(html: Seq<char>, redirected: bool)
    ensures
        !charset::is_portal_page(html) ==> page_note(html, redirected) == "内容不像门户登录页"@,
        charset::is_portal_page(html) && redirected ==> page_note(html, redirected) == "正常"@,
        charset::is_portal_page(html) && !redirected ==> page_note(html, redirected)
            == "像门户登录页"@,
{
}

}
