//! Probes: whether a line is online, or a portal holds it.

use vstd::prelude::*;

use crate::http;
use crate::http::HttpResponse;
use crate::text;
use crate::urls;

verus! {

/// What a probe found.
#[derive(Debug, Clone, PartialEq)]
pub enum ProbeState {
    /// The line is online.
    Online,
    /// A portal answered, and sends to this address.
    Captive(String),
    /// No answer, for this reason.
    Unreachable(String),
    /// An answer that decides nothing.
    Inconclusive,
}

/// What a probe found, as plain values.
pub enum Probe {
    Online,
    Captive(Seq<char>),
    Unreachable(Seq<char>),
    Inconclusive,
}

impl View for ProbeState {
    type V = Probe;

    open spec fn view(&self) -> Probe {
        match *self {
            ProbeState::Online => Probe::Online,
            ProbeState::Captive(url) => Probe::Captive(url@),
            ProbeState::Unreachable(e) => Probe::Unreachable(e@),
            ProbeState::Inconclusive => Probe::Inconclusive,
        }
    }
}

/// What the reply to a probe of `host` says. Only the head of the reply counts: a redirect that
/// leads away from the host is the portal's, and a line is online where the status is 200 or 204
/// and nothing redirects.
pub open spec fn probed(host: Seq<char>, reply: Result<http::Response, Seq<char>>) -> Probe {
    match reply {
        Err(e) => Probe::Unreachable(e),
        Ok(resp) => match resp.header("Location"@) {
            Some(loc) => match urls::captive(host, loc) {
                Some(url) => Probe::Captive(url),
                None => Probe::Inconclusive,
            },
            None => if resp.status == 200 || resp.status == 204 {
                Probe::Online
            } else {
                Probe::Inconclusive
            },
        },
    }
}

/// What the reply to a probe of `host` says.
pub fn probe_one(host: &str, reply: &Result<HttpResponse, String>) -> (r: ProbeState)
    ensures
        r@ == probed(host@, http::outcome(*reply)),
{
    match reply {
        Err(e) => ProbeState::Unreachable(e.clone()),
        Ok(resp) => {
            if let Some(loc) = resp.header("Location") {
                return match urls::captive_target(host, loc) {
                    Some(url) => ProbeState::Captive(url),
                    None => ProbeState::Inconclusive,
                };
            }
            if resp.status == 200 || resp.status == 204 {
                ProbeState::Online
            } else {
                ProbeState::Inconclusive
            }
        },
    }
}

/// Probed addresses and what the probes found, as plain values.
pub open spec fn findings(v: Seq<(String, String, ProbeState)>) -> Seq<
    (Seq<char>, Seq<char>, Probe),
> {
    v.map_values(|t: (String, String, ProbeState)| (t.0@, t.1@, t.2@))
}

/// The verdict on a line: that of the first probe that decides, with the address that was reached
/// or the address of the portal. Where no probe decides, the last reason for no answer; `reason`
/// is the one before these probes.
pub open spec fn verdict(f: Seq<(Seq<char>, Seq<char>, Probe)>, reason: Seq<char>) -> (
    Option<bool>,
    Seq<char>,
)
    decreases f.len(),
{
    if f.len() == 0 {
        (None, reason)
    } else {
        match f[0].2 {
            Probe::Online => (Some(true), f[0].0 + f[0].1),
            Probe::Captive(url) => (Some(false), url),
            Probe::Unreachable(e) => verdict(f.drop_first(), e),
            Probe::Inconclusive => verdict(f.drop_first(), reason),
        }
    }
}

/// The verdict on a line from its probes, in the order in which they answered: `Some(true)` for
/// online, `Some(false)` for held by a portal.
pub fn connectivity_verdict(found: &Vec<(String, String, ProbeState)>) -> (r: (
    Option<bool>,
    String,
))
    ensures
        (r.0, r.1@) == verdict(findings(found@), seq![]),
{
    let ghost all = findings(found@);
    let mut reason: String = String::new();
    let mut i: usize = 0;
    proof {
        assert(all.skip(0) =~= all);
        assert(reason@ =~= seq![]);
    }
    while i < found.len()
        invariant
            all == findings(found@),
            i <= found@.len(),
            verdict(all, seq![]) == verdict(all.skip(i as int), reason@),
        decreases found@.len() - i,
    {
        proof {
            assert(all.skip(i as int)[0] == (
                found@[i as int].0@,
                found@[i as int].1@,
                found@[i as int].2@,
            ));
            assert(all.skip(i as int).drop_first() =~= all.skip(i + 1));
        }
        match &found[i].2 {
            ProbeState::Online => {
                return (Some(true), text::concat(found[i].0.as_str(), found[i].1.as_str()));
            },
            ProbeState::Captive(url) => {
                return (Some(false), url.clone());
            },
            ProbeState::Unreachable(e) => {
                reason = e.clone();
            },
            ProbeState::Inconclusive => {},
        }
        i += 1;
    }
    (None, reason)
}

/// A verdict of online means that some probe was answered with status 200 or 204 and without a
/// redirect; a verdict of held means that some probe was redirected away from its host.
pub proof fn law_verdict_has_a_witness(f: Seq<(Seq<char>, Seq<char>, Probe)>, reason: Seq<char>)
    ensures
        verdict(f, reason).0 == Some(true) ==> exists|i: int|
            0 <= i < f.len() && (#[trigger] f[i]).2 == Probe::Online,
        verdict(f, reason).0 == Some(false) ==> exists|i: int|
            0 <= i < f.len() && (#[trigger] f[i]).2 == Probe::Captive(verdict(f, reason).1),
        verdict(f, reason).0 is None ==> forall|i: int|
            0 <= i < f.len() ==> !((#[trigger] f[i]).2 is Online) && !(f[i].2 is Captive),
    decreases f.len(),
{
    if f.len() > 0 && !(f[0].2 is Online) && !(f[0].2 is Captive) {
        let rest = f.drop_first();
        let next = match f[0].2 {
            Probe::Unreachable(e) => e,
            _ => reason,
        };
        law_verdict_has_a_witness(rest, next);
        if verdict(rest, next).0 == Some(true) {
            let i = choose|i: int| 0 <= i < rest.len() && (#[trigger] rest[i]).2 == Probe::Online;
            assert(f[i + 1] == rest[i]);
        } else if verdict(rest, next).0 == Some(false) {
            let i = choose|i: int|
                0 <= i < rest.len() && (#[trigger] rest[i]).2 == Probe::Captive(
                    verdict(rest, next).1,
                );
            assert(f[i + 1] == rest[i]);
        } else {
            assert(verdict(rest, next).0 is None) by {
                if let Some(b) = verdict(rest, next).0 {
                    assert(b == true || b == false);
                }
            }
            assert forall|i: int| 0 <= i < f.len() implies !((#[trigger] f[i]).2 is Online) && !(
            f[i].2 is Captive) by {
                if i > 0 {
                    assert(rest[i - 1] == f[i]);
                }
            }
        }
    }
}

/// Only the head of a reply counts: the body changes nothing.
pub proof fn law_body_does_not_matter(host: Seq<char>, resp: http::Response, body: Seq<u8>)
    ensures
        probed(host, Ok(resp)) == probed(host, Ok(http::Response { body, ..resp })),
{
}

/// Without a redirect the status decides: 200 and 204 mean that the line is open, whatever the
/// host; any other status decides nothing. A redirect never means that it is open, and leads where
/// the portal is. A request without a reply tells its error.
pub proof fn law_reply_to_a_probe(
    host: Seq<char>,
    resp: http::Response,
    location: Seq<char>,
    error: Seq<char>,
)
    ensures
        resp.header("Location"@) is None && (resp.status == 200 || resp.status == 204) ==> probed(
            host,
            Ok(resp),
        ) == Probe::Online,
        resp.header("Location"@) is None && resp.status != 200 && resp.status != 204 ==> probed(
            host,
            Ok(resp),
        ) == Probe::Inconclusive,
        resp.header("Location"@) == Some(location) ==> match urls::captive(host, location) {
            Some(url) => probed(host, Ok(resp)) == Probe::Captive(url),
            None => probed(host, Ok(resp)) == Probe::Inconclusive,
        },
        probed(host, Err(error)) == Probe::Unreachable(error),
{
}

/// The probe decides nothing.
pub open spec fn decides_nothing(p: Probe) -> bool {
    p is Unreachable || p is Inconclusive
}

/// The first probe that decides is the verdict, whatever those behind it say: it tells the address
/// of the probe where the line is open, and that of the portal where it is held.
pub proof fn law_first_decisive_probe_counts(
    front: Seq<(Seq<char>, Seq<char>, Probe)>,
    host: Seq<char>,
    path: Seq<char>,
    portal: Seq<char>,
    back: Seq<(Seq<char>, Seq<char>, Probe)>,
    reason: Seq<char>,
)
    requires
        forall|i: int| 0 <= i < front.len() ==> decides_nothing((#[trigger] front[i]).2),
    ensures
        verdict(front + seq![(host, path, Probe::Online)] + back, reason) == (
            Some(true),
            host + path,
        ),
        verdict(front + seq![(host, path, Probe::Captive(portal))] + back, reason) == (
            Some(false),
            portal,
        ),
    decreases front.len(),
{
    let a = front + seq![(host, path, Probe::Online)] + back;
    let b = front + seq![(host, path, Probe::Captive(portal))] + back;
    if front.len() == 0 {
        assert(a[0] == (host, path, Probe::Online));
        assert(b[0] == (host, path, Probe::Captive(portal)));
    } else {
        assert(a[0] == front[0] && b[0] == front[0]);
        assert(a.drop_first() =~= front.drop_first() + seq![(host, path, Probe::Online)] + back);
        assert(b.drop_first() =~= front.drop_first() + seq![(host, path, Probe::Captive(portal))]
            + back);
        assert forall|i: int| 0 <= i < front.drop_first().len() implies decides_nothing(
            (#[trigger] front.drop_first()[i]).2,
        ) by {
            assert(decides_nothing(front[i + 1].2));
        }
        let next = match front[0].2 {
            Probe::Unreachable(e) => e,
            _ => reason,
        };
        law_first_decisive_probe_counts(front.drop_first(), host, path, portal, back, next);
    }
}

/// Where no probe decides, the last error is told; where there was none, the reason that was given.
pub proof fn law_last_error_is_told(
    front: Seq<(Seq<char>, Seq<char>, Probe)>,
    host: Seq<char>,
    path: Seq<char>,
    error: Seq<char>,
    back: Seq<(Seq<char>, Seq<char>, Probe)>,
    reason: Seq<char>,
)
    requires
        forall|i: int| 0 <= i < front.len() ==> decides_nothing((#[trigger] front[i]).2),
        forall|i: int| 0 <= i < back.len() ==> (#[trigger] back[i]).2 == Probe::Inconclusive,
    ensures
        verdict(front + seq![(host, path, Probe::Unreachable(error))] + back, reason) == (
            None::<bool>,
            error,
        ),
        verdict(back, reason) == (None::<bool>, reason),
    decreases front.len(),
{
    let a = front + seq![(host, path, Probe::Unreachable(error))] + back;
    lemma_nothing_told(back, reason);
    if front.len() == 0 {
        lemma_nothing_told(back, error);
        assert(a[0] == (host, path, Probe::Unreachable(error)));
        assert(a.drop_first() =~= back);
    } else {
        assert(a[0] == front[0]);
        assert(a.drop_first() =~= front.drop_first() + seq![
            (host, path, Probe::Unreachable(error)),
        ] + back);
        assert forall|i: int| 0 <= i < front.drop_first().len() implies decides_nothing(
            (#[trigger] front.drop_first()[i]).2,
        ) by {
            assert(decides_nothing(front[i + 1].2));
        }
        let next = match front[0].2 {
            Probe::Unreachable(e) => e,
            _ => reason,
        };
        law_last_error_is_told(front.drop_first(), host, path, error, back, next);
    }
}

proof fn lemma_nothing_told(f: Seq<(Seq<char>, Seq<char>, Probe)>, reason: Seq<char>)
    requires
        forall|i: int| 0 <= i < f.len() ==> (#[trigger] f[i]).2 == Probe::Inconclusive,
    ensures
        verdict(f, reason) == (None::<bool>, reason),
    decreases f.len(),
{
    if f.len() > 0 {
        assert(f[0].2 == Probe::Inconclusive);
        assert forall|i: int| 0 <= i < f.drop_first().len() implies (
        #[trigger] f.drop_first()[i]).2 == Probe::Inconclusive by {
            assert(f[i + 1].2 == Probe::Inconclusive);
        }
        lemma_nothing_told(f.drop_first(), reason);
    }
}

}
