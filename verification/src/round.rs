//! A round of checks: one line after the other is probed and, where a portal holds it,
//! authenticated. Every stage waits for one event.

use vstd::prelude::*;

use crate::auth::Code;
use crate::daemon;
use crate::daemon::LineRun;
use crate::text;

verus! {

/// Where a round stands.
#[derive(Debug, Clone, Copy, PartialEq, Eq, Structural)]
pub enum Stage {
    /// A line is next.
    Next { index: usize },
    /// The probes of a line are awaited.
    Probing { index: usize },
    /// The authentication of a line is awaited.
    Authenticating { index: usize },
    /// The round ended.
    Finished,
}

/// What a round waits for.
#[derive(Debug)]
pub enum Event {
    /// The next line may be checked. `stopping` tells that the service is about to stop.
    Go { stopping: bool },
    /// The probes of the line gave this verdict.
    Probed { verdict: Option<bool>, detail: String, stopping: bool },
    /// The authentication of the line ended.
    Ended { ok: bool, code: Code, detail: String },
}

/// What a round waits for, as plain values.
pub enum Happening {
    Go { stopping: bool },
    Probed { verdict: Option<bool>, detail: Seq<char>, stopping: bool },
    Ended { ok: bool, code: Code, detail: Seq<char> },
}

impl View for Event {
    type V = Happening;

    open spec fn view(&self) -> Happening {
        match *self {
            Event::Go { stopping } => Happening::Go { stopping },
            Event::Probed { verdict, detail, stopping } => Happening::Probed {
                verdict,
                detail: detail@,
                stopping,
            },
            Event::Ended { ok, code, detail } => Happening::Ended { ok, code, detail: detail@ },
        }
    }
}

/// The line that a stage speaks of.
pub open spec fn line_at(stage: Stage) -> Option<int> {
    match stage {
        Stage::Next { index } => Some(index as int),
        Stage::Probing { index } => Some(index as int),
        Stage::Authenticating { index } => Some(index as int),
        Stage::Finished => None,
    }
}

/// The stage belongs to a round of these lines: every line is counted right, and a line that is
/// authenticated has attempts left.
pub open spec fn stage_ok(
    lines: Seq<daemon::LineModel>,
    retry_count: u32,
    stage: Stage,
) -> bool {
    &&& lines.len() <= usize::MAX
    &&& forall|i: int| 0 <= i < lines.len() ==> daemon::counted(#[trigger] lines[i], retry_count)
    &&& match stage {
        Stage::Next { index } => index <= lines.len(),
        Stage::Probing { index } => index < lines.len(),
        Stage::Authenticating { index } => index < lines.len() && !lines[index as int].exhausted,
        Stage::Finished => true,
    }
}

/// The event is the one that the stage waits for.
pub open spec fn fits(stage: Stage, event: Happening) -> bool {
    match stage {
        Stage::Next { .. } => event is Go,
        Stage::Probing { .. } => event is Probed,
        Stage::Authenticating { .. } => event is Ended,
        Stage::Finished => false,
    }
}

/// The line that the stage speaks of, after the event.
pub open spec fn changed(m: daemon::LineModel, retry_count: u32, event: Happening) -> daemon::LineModel {
    match event {
        Happening::Go { .. } => daemon::begun(m),
        Happening::Probed { verdict, detail, .. } => daemon::judged(m, verdict, detail),
        Happening::Ended { ok, code, detail } => daemon::logged_in(
            m,
            retry_count,
            ok,
            code,
            detail,
        ),
    }
}

/// The lines after the event. A signal to stop keeps a line from being checked, and no event
/// changes any other line.
pub open spec fn lines_after(
    lines: Seq<daemon::LineModel>,
    retry_count: u32,
    stage: Stage,
    event: Happening,
) -> Seq<daemon::LineModel> {
    match line_at(stage) {
        Some(i) => if i >= lines.len() || event == (Happening::Go { stopping: true }) {
            lines
        } else {
            lines.update(i, changed(lines[i], retry_count, event))
        },
        None => lines,
    }
}

/// The stage after the event.
pub open spec fn stage_after(
    lines: Seq<daemon::LineModel>,
    stage: Stage,
    event: Happening,
) -> Stage {
    match (stage, event) {
        (Stage::Next { index }, Happening::Go { stopping }) => if index >= lines.len() || stopping {
            Stage::Finished
        } else if daemon::lacks_credentials(lines[index as int]) {
            Stage::Next { index: (index + 1) as usize }
        } else {
            Stage::Probing { index }
        },
        (Stage::Probing { index }, Happening::Probed { verdict, stopping, .. }) => if daemon::authenticates(
            lines[index as int],
            verdict,
            stopping,
        ) {
            Stage::Authenticating { index }
        } else {
            Stage::Next { index: (index + 1) as usize }
        },
        (Stage::Authenticating { index }, Happening::Ended { .. }) => Stage::Next {
            index: (index + 1) as usize,
        },
        _ => stage,
    }
}

/// What the log says of the event.
pub open spec fn note_after(
    lines: Seq<daemon::LineModel>,
    retry_count: u32,
    stage: Stage,
    event: Happening,
) -> Option<Seq<char>> {
    match line_at(stage) {
        Some(i) => if i >= lines.len() {
            None
        } else {
            match event {
                Happening::Go { stopping } => if stopping {
                    None
                } else {
                    daemon::begin_note(lines[i])
                },
                Happening::Probed { verdict, detail, stopping } => daemon::verdict_note(
                    lines[i],
                    verdict,
                    detail,
                    stopping,
                ),
                Happening::Ended { ok, .. } => if ok {
                    None
                } else {
                    Some(daemon::noted(lines[i], changed(lines[i], retry_count, event).detail))
                },
            }
        },
        None => None,
    }
}

/// The first stage of a round.
pub fn begin() -> (r: Stage)
    ensures
        r == (Stage::Next { index: 0 }),
{
    Stage::Next { index: 0 }
}

/// Takes in an event of a round. Returns the stage that follows, and what to log.
pub fn advance(lines: &mut Vec<LineRun>, retry_count: u32, stage: Stage, event: &Event) -> (r: (
    Stage,
    Option<String>,
))
    requires
        stage_ok(daemon::models(old(lines)@), retry_count, stage),
        fits(stage, event@),
    ensures
        daemon::models(final(lines)@) == lines_after(
            daemon::models(old(lines)@),
            retry_count,
            stage,
            event@,
        ),
        r.0 == stage_after(daemon::models(old(lines)@), stage, event@),
        text::opt_text(r.1) == note_after(
            daemon::models(old(lines)@),
            retry_count,
            stage,
            event@,
        ),
        stage_ok(daemon::models(final(lines)@), retry_count, r.0),
{
    let n: usize = lines.len();
    let ghost before = lines@;
    let ghost was = daemon::models(before);
    assert(was.len() == before.len());
    assert(forall|j: int| 0 <= j < before.len() ==> was[j] == (#[trigger] before[j])@);
    match (stage, event) {
        (Stage::Next { index }, Event::Go { stopping }) => {
            if index >= n || *stopping {
                return (Stage::Finished, None);
            }
            assert(daemon::counted(was[index as int], retry_count));
            let (probe, note) = daemon::begin_check(&mut lines[index]);
            assert(daemon::models(lines@) =~= was.update(
                index as int,
                daemon::begun(was[index as int]),
            ));
            if probe {
                (Stage::Probing { index }, note)
            } else {
                (Stage::Next { index: index + 1 }, note)
            }
        },
        (Stage::Probing { index }, Event::Probed { verdict, detail, stopping }) => {
            assert(daemon::counted(was[index as int], retry_count));
            let (enter, note) = daemon::judge_verdict(
                &mut lines[index],
                *verdict,
                detail.as_str(),
                *stopping,
            );
            assert(daemon::models(lines@) =~= was.update(
                index as int,
                daemon::judged(was[index as int], *verdict, detail@),
            ));
            if enter {
                (Stage::Authenticating { index }, note)
            } else {
                (Stage::Next { index: index + 1 }, note)
            }
        },
        (Stage::Authenticating { index }, Event::Ended { ok, code, detail }) => {
            assert(daemon::counted(was[index as int], retry_count));
            let note: Option<String> = daemon::judge_login(
                &mut lines[index],
                retry_count,
                *ok,
                *code,
                detail.as_str(),
            );
            assert(daemon::models(lines@) =~= was.update(
                index as int,
                daemon::logged_in(was[index as int], retry_count, *ok, *code, detail@),
            ));
            (Stage::Next { index: index + 1 }, note)
        },
        _ => (stage, None),
    }
}

// ---------------------------------------------------------------------------
// Laws

/// How many events a round can still take in.
pub open spec fn rank(lines: nat, stage: Stage) -> int {
    match stage {
        Stage::Next { index } => 3 * (lines - index) + 1,
        Stage::Probing { index } => 3 * (lines - index),
        Stage::Authenticating { index } => 3 * (lines - index) - 1,
        Stage::Finished => 0,
    }
}

/// Every event brings a round nearer to its end, so that no line is checked twice in it.
pub proof fn law_round_ends(
    lines: Seq<daemon::LineModel>,
    retry_count: u32,
    stage: Stage,
    event: Happening,
)
    requires
        stage_ok(lines, retry_count, stage),
        fits(stage, event),
    ensures
        lines_after(lines, retry_count, stage, event).len() == lines.len(),
        0 <= rank(lines.len(), stage_after(lines, stage, event)) < rank(lines.len(), stage),
        rank(lines.len(), Stage::Next { index: 0 }) == 3 * lines.len() + 1,
{
}

/// An event changes no line but the one that its stage speaks of, and of that one no setting.
pub proof fn law_other_lines_are_kept(
    lines: Seq<daemon::LineModel>,
    retry_count: u32,
    stage: Stage,
    event: Happening,
    i: int,
)
    requires
        0 <= i < lines.len(),
    ensures
        line_at(stage) != Some(i) ==> lines_after(lines, retry_count, stage, event)[i] == lines[i],
        daemon::same_settings(lines_after(lines, retry_count, stage, event)[i], lines[i]),
{
}

/// A line is authenticated only after its probes found a portal, while it has attempts left and
/// the service is not about to stop.
pub proof fn law_authenticates_only_held_lines(
    lines: Seq<daemon::LineModel>,
    retry_count: u32,
    stage: Stage,
    event: Happening,
)
    requires
        stage_ok(lines, retry_count, stage),
        fits(stage, event),
        stage_after(lines, stage, event) is Authenticating,
    ensures
        stage is Probing,
        event is Probed,
        event->verdict == Some(false),
        !event->Probed_stopping,
        !lines[line_at(stage)->0].exhausted,
{
}

/// A signal to stop ends a round before its next line, and changes nothing.
pub proof fn law_signal_ends_the_round(
    lines: Seq<daemon::LineModel>,
    retry_count: u32,
    index: usize,
)
    requires
        index < lines.len(),
    ensures
        stage_after(lines, Stage::Next { index }, Happening::Go { stopping: true })
            == Stage::Finished,
        lines_after(lines, retry_count, Stage::Next { index }, Happening::Go { stopping: true })
            == lines,
{
}

/// A round checks one line after the other. A line with credentials is probed as it is, one without
/// is passed over; a line that a portal holds and that has attempts left is authenticated before the
/// next one's turn, any other one is left at that. Behind the last line the round ends.
pub proof fn law_every_line_has_its_turn(
    lines: Seq<daemon::LineModel>,
    index: usize,
    verdict: Option<bool>,
    detail: Seq<char>,
    stopping: bool,
    ok: bool,
    code: Code,
)
    requires
        index < lines.len() < usize::MAX,
    ensures
        ({
            let m = lines[index as int];
            let next = Stage::Next { index: (index + 1) as usize };
            let go = stage_after(lines, Stage::Next { index }, Happening::Go { stopping: false });
            let judged = stage_after(
                lines,
                Stage::Probing { index },
                Happening::Probed { verdict, detail, stopping },
            );
            &&& m.username.len() > 0 && m.password.len() > 0 ==> go == Stage::Probing { index }
            &&& m.username.len() == 0 || m.password.len() == 0 ==> go == next
            &&& verdict == Some(false) && !m.exhausted && !stopping ==> judged
                == Stage::Authenticating { index }
            &&& verdict != Some(false) || m.exhausted || stopping ==> judged == next
            &&& stage_after(
                lines,
                Stage::Authenticating { index },
                Happening::Ended { ok, code, detail },
            ) == next
        }),
        stage_after(
            lines,
            Stage::Next { index: lines.len() as usize },
            Happening::Go { stopping },
        ) == Stage::Finished,
{
}

/// What happens to the line whose turn it is: its check for credentials, its verdict, its
/// authentication.
pub proof fn law_line_of_the_turn_changes(
    lines: Seq<daemon::LineModel>,
    retry_count: u32,
    index: usize,
    verdict: Option<bool>,
    detail: Seq<char>,
    stopping: bool,
    ok: bool,
    code: Code,
)
    requires
        index < lines.len(),
    ensures
        lines_after(
            lines,
            retry_count,
            Stage::Next { index },
            Happening::Go { stopping: false },
        )[index as int] == daemon::begun(lines[index as int]),
        lines_after(
            lines,
            retry_count,
            Stage::Probing { index },
            Happening::Probed { verdict, detail, stopping },
        )[index as int] == daemon::judged(lines[index as int], verdict, detail),
        lines_after(
            lines,
            retry_count,
            Stage::Authenticating { index },
            Happening::Ended { ok, code, detail },
        )[index as int] == daemon::logged_in(lines[index as int], retry_count, ok, code, detail),
{
}

/// The lines after a line's turn in which a portal holds it and its authentication fails.
pub open spec fn after_failed_turn(
    lines: Seq<daemon::LineModel>,
    retry_count: u32,
    index: usize,
    failure: (Seq<char>, Code, Seq<char>),
) -> Seq<daemon::LineModel> {
    let go = lines_after(
        lines,
        retry_count,
        Stage::Next { index },
        Happening::Go { stopping: false },
    );
    let held = lines_after(
        go,
        retry_count,
        Stage::Probing { index },
        Happening::Probed { verdict: Some(false), detail: failure.0, stopping: false },
    );
    lines_after(
        held,
        retry_count,
        Stage::Authenticating { index },
        Happening::Ended { ok: false, code: failure.1, detail: failure.2 },
    )
}

/// A turn in which a portal holds the line and its authentication fails counts one failure, gives
/// up on the line with the last one that is allowed, and changes no other line.
pub proof fn law_failed_turn_counts_once(
    lines: Seq<daemon::LineModel>,
    retry_count: u32,
    index: usize,
    failure: (Seq<char>, Code, Seq<char>),
    other: int,
)
    requires
        index < lines.len(),
        daemon::counted(lines[index as int], retry_count),
        !lines[index as int].exhausted,
        0 <= other < lines.len(),
    ensures
        ({
            let after = after_failed_turn(lines, retry_count, index, failure);
            &&& after.len() == lines.len()
            &&& after[index as int].fail_count == lines[index as int].fail_count + 1
            &&& after[index as int].exhausted <==> lines[index as int].fail_count + 1 == retry_count
            &&& other != index ==> after[other] == lines[other]
        }),
{
}

/// What a round notes is what the check of the line whose turn it is notes; a failed authentication
/// is noted with the detail that the line then has, and one that succeeded is not.
pub proof fn law_notes_of_a_round(
    lines: Seq<daemon::LineModel>,
    retry_count: u32,
    index: usize,
    verdict: Option<bool>,
    detail: Seq<char>,
    stopping: bool,
    code: Code,
)
    requires
        index < lines.len(),
    ensures
        ({
            let m = lines[index as int];
            let failed = Happening::Ended { ok: false, code, detail };
            let held = Stage::Authenticating { index };
            &&& note_after(
                lines,
                retry_count,
                Stage::Next { index },
                Happening::Go { stopping: false },
            ) == daemon::begin_note(m)
            &&& note_after(
                lines,
                retry_count,
                Stage::Next { index },
                Happening::Go { stopping: true },
            ) is None
            &&& note_after(
                lines,
                retry_count,
                Stage::Probing { index },
                Happening::Probed { verdict, detail, stopping },
            ) == daemon::verdict_note(m, verdict, detail, stopping)
            &&& note_after(lines, retry_count, held, failed) == Some(
                "["@ + m.role + "] "@ + lines_after(lines, retry_count, held, failed)[index as int].detail,
            )
            &&& note_after(
                lines,
                retry_count,
                held,
                Happening::Ended { ok: true, code, detail },
            ) is None
        }),
{
}

}
