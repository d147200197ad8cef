//! The decisions of the loop that serves the UI's requests: when a turn
//! starts and with which number, what is forwarded, which boundary messages
//! go to the running turn and which are stale, what a command's output and a
//! failed turn become, and when the view is refreshed. The caller does the
//! waiting, the sending and the running; this module says what to do.
use vstd::prelude::*;

use crate::model::Usage;
use crate::text::{dec, dec_u64, join, push_all, push_str, string_of};

verus! {

/// Whether a turn is running.
#[derive(Debug, Clone, Copy, PartialEq, Eq, Structural)]
pub enum Phase {
    /// Between turns: requests are taken.
    Idle,
    /// A turn runs: its events and the UI's boundary messages are taken.
    Turning,
}

/// State kept across requests.
pub struct AppLoop {
    /// Turns started so far.
    pub turns: u32,
    /// Whether a turn is running.
    pub phase: Phase,
}

/// What the loop is handed.
pub enum LoopEvent<E, B> {
    /// The UI asks for a turn.
    Prompt,
    /// The UI closed its request channel.
    RequestsClosed,
    /// A command the UI asked for ran and gave these output lines.
    CommandDone(Vec<String>),
    /// A boundary message (an interjection or an abort) from the UI.
    Boundary(B),
    /// An event the running turn emitted.
    TurnEvent(E),
    /// The running turn ended: the tokens it used, or its error's text.
    /// Handed over after the events the turn left in the channel.
    TurnEnded(Result<Usage, String>),
}

/// What the loop does next.
pub enum LoopAction<E, B> {
    /// The UI is gone: stop serving.
    Stop,
    /// Drop a boundary message that came after its turn ended (an abort
    /// kept would cancel the next turn at once).
    Discard(B),
    /// Start a turn with this number (events are wrapped with it).
    StartTurn(u32),
    /// Hand a boundary message to the running turn.
    PushBoundary(B),
    /// Forward an event to the UI.
    Forward(E),
    /// Add a finished turn's tokens to the statistics.
    Record(Usage),
    /// Write this line to the log.
    Log(String),
    /// Show this command output in the transcript.
    Output(String),
    /// Send the UI a fresh snapshot, built by [`crate::view::build_view`].
    View,
}

/// The log line of a failed turn.
pub open spec fn failed_line(turn: u32, error: Seq<char>) -> Seq<char> {
    "turn "@ + dec(turn as nat) + " failed: "@ + error
}

/// Which events a phase takes: requests and command results between turns,
/// a turn's end only while it runs; events and boundary messages always.
pub open spec fn takes<E, B>(phase: Phase, ev: LoopEvent<E, B>) -> bool {
    match ev {
        LoopEvent::Prompt | LoopEvent::RequestsClosed | LoopEvent::CommandDone(_) => phase
            == Phase::Idle,
        LoopEvent::TurnEnded(_) => phase == Phase::Turning,
        _ => true,
    }
}

/// What one step does: from the loop `old`, handed `ev`, to the loop `new`,
/// with the actions `r`.
pub open spec fn stepped<E, B>(old: AppLoop, ev: LoopEvent<E, B>, new: AppLoop, r: Seq<LoopAction<E, B>>) -> bool {
    match ev {
        LoopEvent::Prompt => {
            &&& new.turns == old.turns + 1
            &&& new.phase == Phase::Turning
            &&& r == seq![LoopAction::<E, B>::StartTurn(new.turns)]
        },
        LoopEvent::RequestsClosed => {
            &&& new.turns == old.turns
            &&& new.phase == old.phase
            &&& r == seq![LoopAction::<E, B>::Stop]
        },
        LoopEvent::CommandDone(lines) => {
            &&& new.turns == old.turns
            &&& new.phase == old.phase
            &&& lines@.len() == 0 ==> r == seq![LoopAction::<E, B>::View]
            &&& lines@.len() > 0 ==> {
                &&& r.len() == 2
                &&& r[0] matches LoopAction::Output(t) && t@ == join(
                    lines@.map_values(|s: String| s@),
                    "\n"@,
                )
                &&& r[1] is View
            }
        },
        LoopEvent::Boundary(b) => {
            &&& new.turns == old.turns
            &&& new.phase == old.phase
            &&& old.phase == Phase::Idle ==> r == seq![LoopAction::<E, B>::Discard(b)]
            &&& old.phase == Phase::Turning ==> r == seq![
                LoopAction::<E, B>::PushBoundary(b),
            ]
        },
        LoopEvent::TurnEvent(e) => {
            &&& new.turns == old.turns
            &&& new.phase == old.phase
            &&& r == seq![LoopAction::<E, B>::Forward(e)]
        },
        LoopEvent::TurnEnded(outcome) => {
            &&& new.turns == old.turns
            &&& new.phase == Phase::Idle
            &&& r.len() == 2
            &&& r[1] is View
            &&& match outcome {
                Ok(u) => r[0] == LoopAction::<E, B>::Record(u),
                Err(m) => r[0] matches LoopAction::Log(t) && t@ == failed_line(
                    old.turns,
                    m@,
                ),
            }
        },
    }
}

/// A prompt's turn, with events and then a successful end: the turn starts with the next number, each event the turn emits is
/// forwarded, in order and alone, and at the end its tokens are recorded
/// and the view comes last; the loop is idle again.
pub proof fn law_prompt_turn<E, B>(loops: Seq<AppLoop>, events: Seq<E>, usage: Usage, acts: Seq<Seq<LoopAction<E, B>>>)
    requires
        loops.len() == events.len() + 3,
        acts.len() == events.len() + 2,
        stepped(loops[0], LoopEvent::<E, B>::Prompt, loops[1], acts[0]),
        forall|i: int|
            #![trigger events[i]]
            0 <= i < events.len() ==> stepped(
                loops[i + 1],
                LoopEvent::<E, B>::TurnEvent(events[i]),
                loops[i + 2],
                acts[i + 1],
            ),
        stepped(
            loops[events.len() as int + 1],
            LoopEvent::<E, B>::TurnEnded(Ok(usage)),
            loops[events.len() as int + 2],
            acts[events.len() as int + 1],
        ),
    ensures
        acts[0] == seq![LoopAction::<E, B>::StartTurn((loops[0].turns + 1) as u32)],
        forall|i: int| 0 <= i < events.len() ==> #[trigger] acts[i + 1] == seq![LoopAction::<E, B>::Forward(events[i])],
        acts.last() == seq![LoopAction::<E, B>::Record(usage), LoopAction::<E, B>::View],
        loops.last().turns == loops[0].turns + 1,
        loops.last().phase == Phase::Idle,
        forall|i: int| 1 <= i <= events.len() + 1 ==> #[trigger] loops[i].phase == Phase::Turning,
    decreases events.len(),
{
    let n = events.len() as int;
    assert forall|i: int| 1 <= i <= n + 1 implies #[trigger] loops[i].phase == Phase::Turning && loops[i].turns
        == loops[1].turns by {
        lemma_turn_events_keep(loops, events, acts, i);
    }
    assert(loops[n + 1].phase == Phase::Turning);
    assert forall|i: int| 0 <= i < n implies #[trigger] acts[i + 1] == seq![LoopAction::<E, B>::Forward(events[i])] by {
        assert(stepped(loops[i + 1], LoopEvent::<E, B>::TurnEvent(events[i]), loops[i + 2], acts[i + 1]));
    }
    assert(acts.last() =~= seq![LoopAction::<E, B>::Record(usage), LoopAction::<E, B>::View]);
}

proof fn lemma_turn_events_keep<E, B>(loops: Seq<AppLoop>, events: Seq<E>, acts: Seq<Seq<LoopAction<E, B>>>, i: int)
    requires
        loops.len() == events.len() + 3,
        acts.len() == events.len() + 2,
        loops[1].phase == Phase::Turning,
        forall|j: int|
            #![trigger events[j]]
            0 <= j < events.len() ==> stepped(
                loops[j + 1],
                LoopEvent::<E, B>::TurnEvent(events[j]),
                loops[j + 2],
                acts[j + 1],
            ),
        1 <= i <= events.len() + 1,
    ensures
        loops[i].phase == Phase::Turning,
        loops[i].turns == loops[1].turns,
    decreases i,
{
    if i > 1 {
        lemma_turn_events_keep(loops, events, acts, i - 1);
        assert(stepped(loops[i - 1], LoopEvent::<E, B>::TurnEvent(events[i - 2]), loops[i], acts[i - 1]));
    }
}

impl AppLoop {
    /// No turn yet.
    pub fn new() -> (a: Self)
        ensures
            a.turns == 0,
            a.phase == Phase::Idle,
    {
        AppLoop { turns: 0, phase: Phase::Idle }
    }

    /// Starts a turn: its number, counting from 1.
    pub fn next_turn(&mut self) -> (n: u32)
        requires
            old(self).turns < u32::MAX,
        ensures
            n == old(self).turns + 1,
            final(self).turns == n,
    {
        self.turns = self.turns + 1;
        self.turns
    }

    /// Decides what to do with `ev`. A prompt starts the next turn; a closed
    /// request channel stops the loop; a command's output lines, joined,
    /// go to the transcript, and the view is refreshed; a boundary message
    /// goes to the running turn, or is dropped between turns; an event is
    /// forwarded; a turn's end records its tokens or logs its failure, and
    /// the view is refreshed.
    pub fn step<E, B>(&mut self, ev: LoopEvent<E, B>) -> (r: Vec<LoopAction<E, B>>)
        requires
            takes(old(self).phase, ev),
            ev is Prompt ==> old(self).turns < u32::MAX,
        ensures
            stepped(*old(self), ev, *final(self), r@),
    {
        let mut r: Vec<LoopAction<E, B>> = Vec::new();
        match ev {
            LoopEvent::Prompt => {
                let n = self.next_turn();
                self.phase = Phase::Turning;
                r.push(LoopAction::StartTurn(n));
            },
            LoopEvent::RequestsClosed => {
                r.push(LoopAction::Stop);
            },
            LoopEvent::CommandDone(lines) => {
                match output_text(lines.as_slice()) {
                    Some(t) => r.push(LoopAction::Output(t)),
                    None => {},
                }
                r.push(LoopAction::View);
            },
            LoopEvent::Boundary(b) => {
                match self.phase {
                    Phase::Idle => r.push(LoopAction::Discard(b)),
                    Phase::Turning => r.push(LoopAction::PushBoundary(b)),
                }
            },
            LoopEvent::TurnEvent(e) => {
                r.push(LoopAction::Forward(e));
            },
            LoopEvent::TurnEnded(outcome) => {
                match outcome {
                    Ok(u) => r.push(LoopAction::Record(u)),
                    Err(m) => r.push(LoopAction::Log(turn_failed(self.turns, m.as_str()))),
                }
                self.phase = Phase::Idle;
                r.push(LoopAction::View);
            },
        }
        r
    }
}

/// A command's output lines as one message: joined with newlines; nothing
/// when there are no lines.
pub fn output_text(lines: &[String]) -> (r: Option<String>)
    ensures
        lines@.len() == 0 ==> r is None,
        lines@.len() > 0 ==> (r matches Some(t) && t@ == join(
            lines@.map_values(|s: String| s@),
            "\n"@,
        )),
{
    if lines.len() == 0 {
        return None;
    }
    let ghost lv = lines@.map_values(|s: String| s@);
    let mut v: Vec<char> = Vec::new();
    let mut i: usize = 0;
    while i < lines.len()
        invariant
            i <= lines.len(),
            lv == lines@.map_values(|s: String| s@),
            v@ == join(lv.take(i as int), "\n"@),
        decreases lines.len() - i,
    {
        let ghost before = v@;
        if i > 0 {
            push_str(&mut v, "\n");
        }
        push_str(&mut v, lines[i].as_str());
        proof {
            let t = lv.take(i as int + 1);
            assert(t.drop_last() =~= lv.take(i as int));
            assert(t.last() == lines@[i as int]@);
            if i == 0 {
                assert(t.len() == 1);
                assert(v@ =~= t[0]);
            } else {
                assert(v@ =~= before + "\n"@ + lines@[i as int]@);
            }
        }
        i += 1;
    }
    assert(lv.take(lines.len() as int) =~= lv);
    Some(string_of(v.as_slice()))
}

/// The log line of a failed turn.
pub fn turn_failed(turn: u32, error: &str) -> (r: String)
    ensures
        r@ == failed_line(turn, error@),
{
    let mut v: Vec<char> = Vec::new();
    push_str(&mut v, "turn ");
    let d = dec_u64(turn as u64);
    push_all(&mut v, d.as_slice());
    push_str(&mut v, " failed: ");
    push_str(&mut v, error);
    string_of(v.as_slice())
}

} // verus!
