//! The bounded event channel: a sink that never fails for a full channel
//! (it keeps a backlog, flushed in order before anything newer), its
//! back-pressure readings, and the line that reports them.
use std::collections::VecDeque;
use tokio::sync::mpsc::error::TrySendError;
use tokio::sync::mpsc::{Receiver, Sender};
use vstd::prelude::*;

use crate::text::{dec, dec_u128, push_all, push_str, string_of};

verus! {

/// Back-pressure readings of the event channel.
#[derive(Debug, Clone, Copy, PartialEq, Eq)]
pub struct ChannelStats {
    /// Times a send found the channel full.
    pub backpressure_waits: u64,
    /// Events still buffered, not yet sent.
    pub buffered: usize,
    /// The consumer has gone away.
    pub consumer_gone: bool,
}

/// The report line: both counts, and a mark when the consumer is gone.
pub open spec fn stats_line(s: ChannelStats) -> Seq<char> {
    "[channel] backpressure waits: "@ + dec(s.backpressure_waits as nat) + ", buffered at end: "@
        + dec(s.buffered as nat) + if s.consumer_gone {
        ", consumer gone"@
    } else {
        Seq::empty()
    }
}

/// Something happened worth reporting.
pub open spec fn eventful(s: ChannelStats) -> bool {
    s.backpressure_waits > 0 || s.buffered > 0 || s.consumer_gone
}

/// Renders the report line (see [`stats_line`]).
pub fn render_stats(s: &ChannelStats) -> (r: String)
    ensures
        r@ == stats_line(*s),
{
    let mut v: Vec<char> = Vec::new();
    push_str(&mut v, "[channel] backpressure waits: ");
    let a = dec_u128(s.backpressure_waits as u128);
    push_all(&mut v, a.as_slice());
    push_str(&mut v, ", buffered at end: ");
    let b = dec_u128(s.buffered as u128);
    push_all(&mut v, b.as_slice());
    if s.consumer_gone {
        push_str(&mut v, ", consumer gone");
    }
    string_of(v.as_slice())
}

/// The report line, or nothing when nothing happened (back-pressure,
/// buffering or a vanished consumer).
pub fn format_stats(s: &ChannelStats) -> (r: Option<String>)
    ensures
        match r {
            Some(line) => eventful(*s) && line@ == stats_line(*s),
            None => !eventful(*s),
        },
{
    if s.backpressure_waits == 0 && s.buffered == 0 && !s.consumer_gone {
        return None;
    }
    Some(render_stats(s))
}

/// The report line, whatever the readings.
pub fn format_stats_forced(s: &ChannelStats) -> (r: String)
    ensures
        r@ == stats_line(*s),
{
    render_stats(s)
}

// ---------------------------------------------------------------------------
// The sink
// ---------------------------------------------------------------------------

/// The sending half of a tokio bounded channel.
#[verifier::external_type_specification]
#[verifier::external_body]
#[verifier::reject_recursive_types(T)]
pub struct ExSender<T>(Sender<T>);

/// The receiving half of a tokio bounded channel.
#[verifier::external_type_specification]
#[verifier::external_body]
#[verifier::reject_recursive_types(T)]
pub struct ExReceiver<T>(Receiver<T>);

/// What the sink does once the consumer has gone.
#[derive(Debug, Clone, Copy, PartialEq, Eq, Structural)]
pub enum LifecyclePolicy {
    /// Hand the event back, which ends the run.
    StopWhenConsumerGone,
    /// Drop the event and go on.
    ContinueWithoutConsumer,
}

/// Failure of an awaited send.
#[derive(Debug, Clone, Copy, PartialEq, Eq, Structural)]
pub enum EventError {
    SendFailed,
}

/// Where an event comes from.
#[derive(Debug, Clone, Copy, PartialEq, Eq, Structural)]
pub enum Source {
    /// The agent's own run.
    Agent,
}

impl Source {
    /// The agent's own run.
    pub fn agent() -> (s: Source)
        ensures
            s == Source::Agent,
    {
        Source::Agent
    }
}

/// An event with where it comes from and the turn it was emitted in.
#[derive(Debug, Clone)]
pub struct Envelope<E> {
    pub source: Source,
    pub turn: u32,
    pub event: E,
}

/// How the sink wraps an event of the agent in `turn`.
pub open spec fn wrap<E>(turn: u32, event: E) -> Envelope<E> {
    Envelope { source: Source::Agent, turn, event }
}

/// What one `try_send` gave.
pub enum TrySend<T> {
    Sent,
    /// The channel is full; the value comes back.
    Full(T),
    /// The receiver has gone; the value comes back.
    Closed(T),
}

/// `Sender::try_send`: sends without waiting. Claimed: a value that was not
/// sent comes back unchanged; whether the channel was full or closed is up
/// to the channel.
#[verifier::external_body]
fn try_send<T>(tx: &Sender<T>, value: T) -> (r: TrySend<T>)
    ensures
        match r {
            TrySend::Sent => true,
            TrySend::Full(v) => v == value,
            TrySend::Closed(v) => v == value,
        },
{
    match tx.try_send(value) {
        Ok(()) => TrySend::Sent,
        Err(TrySendError::Full(v)) => TrySend::Full(v),
        Err(TrySendError::Closed(v)) => TrySend::Closed(v),
    }
}

/// `tokio::sync::mpsc::channel`: a bounded channel. It panics on a capacity
/// of 0 and on one above its semaphore's limit (`usize::MAX >> 3`); nothing
/// is claimed of the result.
#[verifier::external_body]
fn bounded_channel<T>(capacity: usize) -> (Sender<T>, Receiver<T>)
    requires
        0 < capacity <= usize::MAX / 8,
{
    tokio::sync::mpsc::channel(capacity)
}

/// Why the latest drain of the backlog stopped.
pub ghost enum DrainStop {
    /// Every queued envelope went out.
    Emptied,
    /// The channel answered the oldest one left that it is full.
    Full,
    /// The channel answered the oldest one left that the consumer is gone.
    Closed,
}

/// What the sink holds: the envelopes it has handed to the channel (in
/// order), those not yet sent (oldest first), why its latest drain
/// stopped, the turn new events are wrapped with, the policy, and the
/// readings.
pub ghost struct SinkView<E> {
    pub handed: Seq<Envelope<E>>,
    pub last_drain: DrainStop,
    pub backlog: Seq<Envelope<E>>,
    pub turn: u32,
    pub policy: LifecyclePolicy,
    pub backpressure_waits: u64,
    pub consumer_gone: bool,
}

/// Everything the sink has taken so far, in order: what it handed to the
/// channel, then its backlog.
pub open spec fn stream<E>(v: SinkView<E>) -> Seq<Envelope<E>> {
    v.handed + v.backlog
}

/// One more back-pressure wait (the counter wraps, as an atomic add does).
pub open spec fn bumped(w: u64) -> u64 {
    if w == u64::MAX {
        0
    } else {
        (w + 1) as u64
    }
}

/// The sink over the bounded channel. A full channel never makes it fail:
/// the envelope joins the backlog, which goes out, in order, before anything
/// newer.
#[verifier::reject_recursive_types(E)]
pub struct ChannelSink<E> {
    tx: Sender<Envelope<E>>,
    overflow: VecDeque<Envelope<E>>,
    turn: u32,
    policy: LifecyclePolicy,
    backpressure_waits: u64,
    consumer_gone: bool,
    handed: Ghost<Seq<Envelope<E>>>,
    last_drain: Ghost<DrainStop>,
}

impl<E> View for ChannelSink<E> {
    type V = SinkView<E>;

    closed spec fn view(&self) -> SinkView<E> {
        SinkView {
            handed: self.handed@,
            last_drain: self.last_drain@,
            backlog: self.overflow@,
            turn: self.turn,
            policy: self.policy,
            backpressure_waits: self.backpressure_waits,
            consumer_gone: self.consumer_gone,
        }
    }
}

/// The stop recorded in `new` fits a drain that sent `n` envelopes of the
/// backlog of `old`: all of them went out; or the channel refused the next
/// one for being full; or it refused it for a gone consumer, now noted.
pub open spec fn stop_fits<E>(old: SinkView<E>, new: SinkView<E>, n: int) -> bool {
    match new.last_drain {
        DrainStop::Emptied => n == old.backlog.len() && new.consumer_gone == old.consumer_gone,
        DrainStop::Full => n < old.backlog.len() && new.consumer_gone == old.consumer_gone,
        DrainStop::Closed => n < old.backlog.len() && new.consumer_gone,
    }
}

/// A drain: the `n` oldest envelopes of the backlog went to the channel, in
/// order, and it stopped only when the backlog was empty or the channel
/// refused the next one; nothing else changed.
pub open spec fn drained<E>(old: SinkView<E>, new: SinkView<E>, n: int) -> bool {
    &&& 0 <= n <= old.backlog.len()
    &&& new.backlog == old.backlog.skip(n)
    &&& new.handed == old.handed + old.backlog.take(n)
    &&& new.turn == old.turn
    &&& new.policy == old.policy
    &&& new.backpressure_waits == old.backpressure_waits
    &&& stop_fits(old, new, n)
}

/// What the channel's reply to the backlog's oldest envelope `env`, just
/// taken off the backlog, does: sent, it is handed over and the drain goes
/// on; full, it goes back to the front and the drain stops; closed, it goes
/// back to the front, the consumer is noted gone, and the drain stops.
pub open spec fn drain_reply_spec<E>(old: SinkView<E>, new: SinkView<E>, env: Envelope<E>, out: TrySend<Envelope<E>>, go_on: bool) -> bool {
    match out {
        TrySend::Sent => new == (SinkView { handed: old.handed.push(env), ..old }) && go_on,
        TrySend::Full(_) => new == (SinkView {
            backlog: seq![env] + old.backlog,
            last_drain: DrainStop::Full,
            ..old
        }) && !go_on,
        TrySend::Closed(_) => new == (SinkView {
            backlog: seq![env] + old.backlog,
            last_drain: DrainStop::Closed,
            consumer_gone: true,
            ..old
        }) && !go_on,
    }
}

/// The result a gone consumer gets, by the policy.
pub open spec fn gone_result<E>(policy: LifecyclePolicy, event: E) -> Result<(), E> {
    if policy == LifecyclePolicy::ContinueWithoutConsumer {
        Ok(())
    } else {
        Err(event)
    }
}

/// What handling a `try_send` outcome for `env` does: sent, it is handed to
/// the channel; the channel full, it joins the backlog and a back-pressure
/// wait is counted; the consumer gone, that is noted and the policy decides
/// the answer (the envelope is not kept).
pub open spec fn after_send_spec<E>(old: SinkView<E>, new: SinkView<E>, env: Envelope<E>, out: TrySend<Envelope<E>>, r: Result<(), E>) -> bool {
    match out {
        TrySend::Sent => new == (SinkView { handed: old.handed.push(env), ..old }) && r is Ok,
        TrySend::Full(_) => new == (SinkView {
            backlog: old.backlog.push(env),
            backpressure_waits: bumped(old.backpressure_waits),
            ..old
        }) && r is Ok,
        TrySend::Closed(_) => new == (SinkView { consumer_gone: true, ..old }) && r == gone_result(
            old.policy,
            env.event,
        ),
    }
}

/// What `try_emit` did with `event`, after sending the backlog, oldest
/// first, until it was empty or the channel refused an envelope (the
/// recorded stop says which): handed the event to the channel (in the rare
/// case that room freed up after the drain stopped, it overtakes what stayed
/// queued); found the channel full and queued it behind the backlog,
/// counting a back-pressure wait; or found the consumer gone, noted that,
/// and answered by the policy.
pub open spec fn try_emitted<E>(old: SinkView<E>, new: SinkView<E>, event: E, r: Result<(), E>) -> bool {
    let env = wrap(old.turn, event);
    let k = old.backlog.len() - new.backlog.len();
    let q = old.backlog.len() - (new.backlog.len() - 1);
    &&& new.turn == old.turn
    &&& new.policy == old.policy
    &&& old.consumer_gone ==> new.consumer_gone
    &&& {
        ||| {
            &&& r is Ok
            &&& 0 <= k <= old.backlog.len()
            &&& new.backlog == old.backlog.skip(k)
            &&& new.handed == old.handed + old.backlog.take(k) + seq![env]
            &&& new.backpressure_waits == old.backpressure_waits
            &&& stop_fits(old, new, k)
        }
        ||| {
            &&& r is Ok
            &&& new.backlog.len() >= 1
            &&& 0 <= q <= old.backlog.len()
            &&& new.backlog == old.backlog.skip(q).push(env)
            &&& new.handed == old.handed + old.backlog.take(q)
            &&& new.backpressure_waits == bumped(old.backpressure_waits)
            &&& stop_fits(old, new, q)
        }
        ||| {
            &&& new.consumer_gone
            &&& r == gone_result(old.policy, event)
            &&& 0 <= k <= old.backlog.len()
            &&& new.backlog == old.backlog.skip(k)
            &&& new.handed == old.handed + old.backlog.take(k)
            &&& new.backpressure_waits == old.backpressure_waits
            &&& (new.last_drain == DrainStop::Emptied ==> k == old.backlog.len())
            &&& (new.last_drain != DrainStop::Emptied ==> k < old.backlog.len())
        }
    }
}

/// Nothing the sink took is lost: after `try_emit`, either the event was
/// taken (handed to the channel or queued) and what the sink has taken is
/// what it had plus the event, in order (unless the event went straight to
/// the channel while part of the backlog still waited: then the event comes
/// last of what was handed over, and the rest is as it was); or the consumer
/// is gone, the policy answers, and what the sink took is unchanged.
pub proof fn law_try_emit_loses_nothing<E>(old: SinkView<E>, new: SinkView<E>, event: E, r: Result<(), E>)
    requires
        try_emitted(old, new, event, r),
    ensures
        ({
            let env = wrap(old.turn, event);
            ||| r is Ok && stream(new) == stream(old).push(env)
            ||| r is Ok && new.handed.len() > 0 && new.handed.last() == env && new.handed.drop_last()
                + new.backlog == stream(old)
            ||| new.consumer_gone && r == gone_result(old.policy, event) && stream(new) == stream(old)
        }),
{
    let env = wrap(old.turn, event);
    let k = old.backlog.len() - new.backlog.len();
    let q = old.backlog.len() - (new.backlog.len() - 1);
    if r is Ok && 0 <= k <= old.backlog.len() && new.backlog == old.backlog.skip(k) && new.handed
        == old.handed + old.backlog.take(k) + seq![env] {
        assert(new.handed.drop_last() =~= old.handed + old.backlog.take(k));
        assert(old.backlog =~= old.backlog.take(k) + old.backlog.skip(k));
        assert(new.handed.drop_last() + new.backlog =~= stream(old));
    } else if r is Ok && new.backlog.len() >= 1 && 0 <= q <= old.backlog.len() && new.backlog
        == old.backlog.skip(q).push(env) && new.handed == old.handed + old.backlog.take(q) {
        assert(old.backlog =~= old.backlog.take(q) + old.backlog.skip(q));
        assert(stream(new) =~= stream(old).push(env));
    } else {
        assert(old.backlog =~= old.backlog.take(k) + old.backlog.skip(k));
        assert(stream(new) =~= stream(old));
    }
}

/// The envelopes that `events` become when wrapped at `turn`.
pub open spec fn wrapped<E>(turn: u32, events: Seq<E>) -> Seq<Envelope<E>> {
    events.map_values(|e: E| wrap(turn, e))
}

/// Over any run of `try_emit` calls during which the consumer stays, every
/// call answers `Ok`, the turn stays, and what the sink has taken is what it
/// had plus each of the events, wrapped at that turn: none is lost and none
/// is taken twice.
pub proof fn law_try_emits_lose_nothing<E>(
    views: Seq<SinkView<E>>,
    events: Seq<E>,
    results: Seq<Result<(), E>>,
)
    requires
        views.len() == events.len() + 1,
        results.len() == events.len(),
        forall|i: int|
            #![trigger events[i]]
            0 <= i < events.len() ==> try_emitted(views[i], views[i + 1], events[i], results[i]),
        !views.last().consumer_gone,
    ensures
        forall|i: int| 0 <= i < results.len() ==> #[trigger] results[i] is Ok,
        views.last().turn == views[0].turn,
        stream(views.last()).to_multiset() == stream(views[0]).to_multiset().add(
            wrapped(views[0].turn, events).to_multiset(),
        ),
    decreases events.len(),
{
    broadcast use vstd::multiset::group_multiset_axioms;
    broadcast use vstd::seq_lib::group_to_multiset_ensures;

    let n = events.len() as int;
    if n == 0 {
        assert(wrapped(views[0].turn, events) =~= Seq::<Envelope<E>>::empty());
        assert(stream(views.last()).to_multiset() =~= stream(views[0]).to_multiset().add(
            wrapped(views[0].turn, events).to_multiset(),
        ));
    } else {
        let pv = views.drop_last();
        let pe = events.drop_last();
        let pr = results.drop_last();
        let old = views[n - 1];
        let new = views[n];
        assert(try_emitted(old, new, events[n - 1], results[n - 1]));
        assert forall|i: int| #![trigger pe[i]] 0 <= i < pe.len() implies try_emitted(
            pv[i],
            pv[i + 1],
            pe[i],
            pr[i],
        ) by {
            assert(events[i] == pe[i]);
        }
        law_try_emits_lose_nothing(pv, pe, pr);
        law_try_emit_loses_nothing(old, new, events[n - 1], results[n - 1]);
        let env = wrap(old.turn, events[n - 1]);
        let t = views[0].turn;
        assert(wrapped(t, events) =~= wrapped(t, pe).push(env));
        let before = stream(old);
        let m0 = stream(views[0]).to_multiset();
        let mw = wrapped(t, pe).to_multiset();
        assert(before.to_multiset() == m0.add(mw));
        if stream(new) == before.push(env) {
            assert(stream(new).to_multiset() =~= before.to_multiset().insert(env));
        } else {
            let h = new.handed.drop_last();
            assert(new.handed =~= h.push(env));
            assert(h + new.backlog == before);
            assert(stream(new) =~= (h + seq![env]) + new.backlog);
            vstd::seq_lib::lemma_multiset_commutative(h + seq![env], new.backlog);
            vstd::seq_lib::lemma_multiset_commutative(h, seq![env]);
            vstd::seq_lib::lemma_multiset_commutative(h, new.backlog);
            assert(seq![env].to_multiset() =~= vstd::multiset::Multiset::empty().insert(env)) by {
                assert(seq![env] =~= Seq::<Envelope<E>>::empty().push(env));
            }
            assert(stream(new).to_multiset() =~= before.to_multiset().insert(env));
        }
        assert(wrapped(t, events).to_multiset() =~= mw.insert(env));
        assert(stream(new).to_multiset() =~= m0.add(wrapped(t, events).to_multiset()));
        assert forall|i: int| 0 <= i < results.len() implies #[trigger] results[i] is Ok by {
            if i < n - 1 {
                assert(pr[i] == results[i]);
            }
        }
    }
}

/// One step of an emit, from the sink `old` with `pending` still to send,
/// to `new` with `rest` still to send, giving `s`: the oldest queued
/// envelope while there is one (it keeps the turn it was wrapped with), then
/// the event wrapped with the current turn, then nothing.
pub open spec fn emit_stepped<E>(old: SinkView<E>, pending: Option<E>, new: SinkView<E>, rest: Option<E>, s: EmitStep<E>) -> bool {
    if old.backlog.len() > 0 {
        &&& s == EmitStep::Send(old.backlog[0])
        &&& new == (SinkView {
            handed: old.handed.push(old.backlog[0]),
            backlog: old.backlog.drop_first(),
            ..old
        })
        &&& rest == pending
    } else {
        &&& rest is None
        &&& match pending {
            Some(e) => s == EmitStep::Send(wrap(old.turn, e)) && new == (SinkView {
                handed: old.handed.push(wrap(old.turn, e)),
                ..old
            }),
            None => s is Done && new == old,
        }
    }
}

/// Where an emit of `event` stands after `i` steps from the sink `v0`.
spec fn emit_at<E>(v0: SinkView<E>, event: E, i: int, v: SinkView<E>, pending: Option<E>) -> bool {
    let w = v0.backlog.push(wrap(v0.turn, event));
    &&& v.turn == v0.turn
    &&& if i <= v0.backlog.len() {
        &&& v.backlog == v0.backlog.skip(i)
        &&& v.handed == v0.handed + w.take(i)
        &&& pending == Some(event)
    } else {
        &&& v.backlog.len() == 0
        &&& v.handed == v0.handed + w
        &&& pending is None
    }
}

proof fn lemma_emit_steps<E>(views: Seq<SinkView<E>>, pending: Seq<Option<E>>, steps: Seq<EmitStep<E>>, event: E, i: int)
    requires
        views.len() == steps.len() + 1,
        pending.len() == steps.len() + 1,
        pending[0] == Some(event),
        forall|j: int|
            #![trigger steps[j]]
            0 <= j < steps.len() ==> emit_stepped(views[j], pending[j], views[j + 1], pending[j + 1], steps[j]),
        0 <= i < views.len(),
    ensures
        emit_at(views[0], event, i, views[i], pending[i]),
        ({
            let w = views[0].backlog.push(wrap(views[0].turn, event));
            i < steps.len() ==> (if i < w.len() {
                steps[i] == EmitStep::Send(w[i])
            } else {
                steps[i] is Done
            })
        }),
    decreases i,
{
    let v0 = views[0];
    let w = v0.backlog.push(wrap(v0.turn, event));
    let m = v0.backlog.len() as int;
    if i > 0 {
        lemma_emit_steps(views, pending, steps, event, i - 1);
        let j = i - 1;
        assert(emit_stepped(views[j], pending[j], views[j + 1], pending[j + 1], steps[j]));
        if j < m {
            assert(views[j].backlog[0] == v0.backlog[j]);
            assert(v0.backlog.skip(j).drop_first() =~= v0.backlog.skip(i));
            assert(w.take(i) =~= w.take(j).push(w[j]));
        } else if j == m {
            assert(w.take(j) =~= v0.backlog);
            assert(w =~= v0.backlog.push(wrap(v0.turn, event)));
        }
    } else {
        assert(w.take(0) =~= Seq::<Envelope<E>>::empty());
        assert(v0.backlog.skip(0) =~= v0.backlog);
    }
    if i < steps.len() {
        assert(emit_stepped(views[i], pending[i], views[i + 1], pending[i + 1], steps[i]));
        if i < m {
            assert(views[i].backlog[0] == v0.backlog[i]);
        }
    }
}

/// A whole emit that no send refuses: it sends the backlog, oldest first
/// and each envelope with the turn it was queued with, then the event
/// wrapped with the current turn, and only then ends; the backlog is left
/// empty, and what the sink handed over grows by exactly those envelopes.
pub proof fn law_emit_sends_backlog_then_event<E>(
    views: Seq<SinkView<E>>,
    pending: Seq<Option<E>>,
    steps: Seq<EmitStep<E>>,
    event: E,
)
    requires
        steps.len() >= 1,
        views.len() == steps.len() + 1,
        pending.len() == steps.len() + 1,
        pending[0] == Some(event),
        forall|j: int|
            #![trigger steps[j]]
            0 <= j < steps.len() ==> emit_stepped(views[j], pending[j], views[j + 1], pending[j + 1], steps[j]),
        steps.last() is Done,
    ensures
        ({
            let w = views[0].backlog.push(wrap(views[0].turn, event));
            &&& steps.len() > w.len()
            &&& forall|j: int| 0 <= j < w.len() ==> #[trigger] steps[j] == EmitStep::Send(w[j])
            &&& views.last().handed == views[0].handed + w
            &&& views.last().backlog.len() == 0
        }),
{
    let w = views[0].backlog.push(wrap(views[0].turn, event));
    let n = steps.len() as int;
    lemma_emit_steps(views, pending, steps, event, n - 1);
    assert(n - 1 >= w.len());
    lemma_emit_steps(views, pending, steps, event, n);
    assert forall|j: int| 0 <= j < w.len() implies #[trigger] steps[j] == EmitStep::Send(w[j]) by {
        lemma_emit_steps(views, pending, steps, event, j);
    }
}

/// An emit under way: the event still to send once the backlog is out.
pub struct Emit<E> {
    pub event: Option<E>,
}

/// The next thing an emit does.
#[derive(Debug)]
pub enum EmitStep<E> {
    /// Send this envelope, waiting for room.
    Send(Envelope<E>),
    /// Everything went out.
    Done,
}

impl<E> ChannelSink<E> {
    /// A sink over a new channel of this capacity, and the channel's
    /// receiving half.
    pub fn new(capacity: usize, policy: LifecyclePolicy) -> (r: (Self, Receiver<Envelope<E>>))
        requires
            0 < capacity <= usize::MAX / 8,
        ensures
            r.0@.backlog.len() == 0,
            r.0@.handed.len() == 0,
            r.0@.turn == 0,
            r.0@.policy == policy,
            r.0@.backpressure_waits == 0,
            !r.0@.consumer_gone,
            r.0@.last_drain == DrainStop::Emptied,
    {
        let (tx, rx) = bounded_channel(capacity);
        let sink = ChannelSink {
            tx,
            overflow: VecDeque::new(),
            turn: 0,
            policy,
            backpressure_waits: 0,
            consumer_gone: false,
            handed: Ghost(Seq::empty()),
            last_drain: Ghost(DrainStop::Emptied),
        };
        (sink, rx)
    }

    /// The sending half of the sink's own channel (the one `try_emit`
    /// sends on).
    pub closed spec fn channel(&self) -> Sender<Envelope<E>> {
        self.tx
    }

    /// The sending half, for sends that wait for room.
    pub fn sender(&self) -> (s: &Sender<Envelope<E>>)
        ensures
            *s == self.channel(),
    {
        &self.tx
    }

    /// Events from now on belong to this turn.
    pub fn begin_turn(&mut self, turn: u32)
        ensures
            final(self)@ == (SinkView { turn, ..old(self)@ }),
    {
        self.turn = turn;
    }

    /// The readings: back-pressure waits, envelopes still buffered, and
    /// whether the consumer is gone.
    pub fn stats(&self) -> (s: ChannelStats)
        ensures
            s.backpressure_waits == self@.backpressure_waits,
            s.buffered == self@.backlog.len(),
            s.consumer_gone == self@.consumer_gone,
    {
        ChannelStats {
            backpressure_waits: self.backpressure_waits,
            buffered: self.overflow.len(),
            consumer_gone: self.consumer_gone,
        }
    }

    /// Deals with the channel's reply to the backlog's oldest envelope,
    /// just taken off it (see [`drain_reply_spec`]). Tells whether the drain
    /// goes on.
    fn drain_reply(&mut self, Ghost(env): Ghost<Envelope<E>>, out: TrySend<Envelope<E>>) -> (go_on: bool)
        requires
            match out {
                TrySend::Sent => true,
                TrySend::Full(e) => e == env,
                TrySend::Closed(e) => e == env,
            },
        ensures
            drain_reply_spec(old(self)@, final(self)@, env, out, go_on),
    {
        match out {
            TrySend::Sent => {
                proof {
                    self.handed@ = self.handed@.push(env);
                }
                true
            },
            TrySend::Full(e) => {
                self.overflow.push_front(e);
                proof {
                    self.last_drain@ = DrainStop::Full;
                }
                assert(self@.backlog =~= seq![env] + old(self)@.backlog);
                false
            },
            TrySend::Closed(e) => {
                self.consumer_gone = true;
                self.overflow.push_front(e);
                proof {
                    self.last_drain@ = DrainStop::Closed;
                }
                assert(self@.backlog =~= seq![env] + old(self)@.backlog);
                false
            },
        }
    }

    /// Sends what it can of the backlog without waiting, oldest first, and
    /// stops at the first refusal (the refused envelope stays first) or when
    /// the backlog is empty. Gives how many went out.
    fn drain_overflow_best_effort(&mut self) -> (n: usize)
        ensures
            drained(old(self)@, final(self)@, n as int),
    {
        let ghost start = self@.backlog;
        let total = self.overflow.len();
        let mut n: usize = 0;
        loop
            invariant_except_break
                self.consumer_gone == old(self).consumer_gone,
            invariant
                start == old(self)@.backlog,
                total == start.len(),
                n <= start.len(),
                self@.backlog == start.skip(n as int),
                self@.handed == old(self)@.handed + start.take(n as int),
                self.turn == old(self).turn,
                self.policy == old(self).policy,
                self.backpressure_waits == old(self).backpressure_waits,
            ensures
                drained(old(self)@, self@, n as int),
            decreases start.len() - n,
        {
            let env = match self.overflow.pop_front() {
                Some(e) => e,
                None => {
                    proof {
                        self.last_drain@ = DrainStop::Emptied;
                    }
                    return n;
                },
            };
            assert(n < start.len());
            assert(start.skip(n as int).drop_first() =~= start.skip(n as int + 1));
            assert(start.skip(n as int)[0] == start[n as int]);
            let ghost g = env;
            let out = try_send(&self.tx, env);
            let go_on = self.drain_reply(Ghost(g), out);
            if go_on {
                proof {
                    assert(start.take(n as int + 1) =~= start.take(n as int).push(start[n as int]));
                    assert(self@.handed =~= old(self)@.handed + start.take(n as int + 1));
                }
                n = n + 1;
            } else {
                assert(self@.backlog =~= start.skip(n as int));
                break;
            }
        }
        n
    }

    /// Deals with what sending `env` without waiting gave (see
    /// [`after_send_spec`]).
    fn after_send(&mut self, Ghost(env): Ghost<Envelope<E>>, out: TrySend<Envelope<E>>) -> (r: Result<(), E>)
        requires
            match out {
                TrySend::Sent => true,
                TrySend::Full(e) => e == env,
                TrySend::Closed(e) => e == env,
            },
        ensures
            after_send_spec(old(self)@, final(self)@, env, out, r),
    {
        match out {
            TrySend::Sent => {
                proof {
                    self.handed@ = self.handed@.push(env);
                }
                Ok(())
            },
            TrySend::Full(e) => {
                self.backpressure_waits = if self.backpressure_waits == u64::MAX {
                    0
                } else {
                    self.backpressure_waits + 1
                };
                self.overflow.push_back(e);
                Ok(())
            },
            TrySend::Closed(e) => {
                self.consumer_gone = true;
                match self.policy {
                    LifecyclePolicy::ContinueWithoutConsumer => Ok(()),
                    LifecyclePolicy::StopWhenConsumerGone => Err(e.event),
                }
            },
        }
    }

    /// Sends an event without waiting: the backlog first (as far as it
    /// goes), then the event, wrapped with the current turn (see
    /// [`try_emitted`] and [`law_try_emit_loses_nothing`]). A full channel
    /// queues it; only a gone consumer, under
    /// [`LifecyclePolicy::StopWhenConsumerGone`], hands it back.
    pub fn try_emit(&mut self, event: E) -> (r: Result<(), E>)
        ensures
            try_emitted(old(self)@, final(self)@, event, r),
    {
        let ghost old_view = self@;
        let n = self.drain_overflow_best_effort();
        let ghost mid = self@;
        let env = Envelope { source: Source::agent(), turn: self.turn, event };
        let ghost g = env;
        let out = try_send(&self.tx, env);
        let ghost o = out;
        let r = self.after_send(Ghost(g), out);
        proof {
            let k = n as int;
            assert(old_view.backlog.len() - mid.backlog.len() == k);
            assert(g == wrap(old_view.turn, event));
            match o {
                TrySend::Sent => {
                    assert(self@.handed == old_view.handed + old_view.backlog.take(k) + seq![g]);
                },
                TrySend::Full(_) => {
                    assert(old_view.backlog.len() - (self@.backlog.len() - 1) == k);
                },
                TrySend::Closed(_) => {},
            }
        }
        r
    }

    /// Starts an emit that waits for room (see [`ChannelSink::emit_next`]).
    pub fn start_emit(event: E) -> (op: Emit<E>)
        ensures
            op.event == Some(event),
    {
        Emit { event: Some(event) }
    }

    /// The next envelope an emit sends: the oldest of the backlog while
    /// there is one (it keeps the turn it was wrapped with), then the event
    /// wrapped with the current turn; then nothing.
    pub fn emit_next(&mut self, op: &mut Emit<E>) -> (s: EmitStep<E>)
        ensures
            emit_stepped(old(self)@, old(op).event, final(self)@, final(op).event, s),
    {
        match self.overflow.pop_front() {
            Some(env) => {
                proof {
                    self.handed@ = self.handed@.push(env);
                }
                EmitStep::Send(env)
            },
            None => match op.event.take() {
                Some(e) => {
                    let env = Envelope { source: Source::agent(), turn: self.turn, event: e };
                    proof {
                        self.handed@ = self.handed@.push(env);
                    }
                    EmitStep::Send(env)
                },
                None => EmitStep::Done,
            },
        }
    }

    /// A waiting send found the consumer gone: the envelope goes back to
    /// the front of the backlog (it is never dropped here), and the emit
    /// ends by the policy.
    pub fn emit_refused(&mut self, env: Envelope<E>) -> (r: Result<(), EventError>)
        ensures
            final(self)@ == (SinkView {
                handed: if old(self)@.handed.len() > 0 && old(self)@.handed.last() == env {
                    old(self)@.handed.drop_last()
                } else {
                    old(self)@.handed
                },
                backlog: seq![env] + old(self)@.backlog,
                consumer_gone: true,
                ..old(self)@
            }),
            r == if old(self)@.policy == LifecyclePolicy::ContinueWithoutConsumer {
                Ok::<(), EventError>(())
            } else {
                Err(EventError::SendFailed)
            },
    {
        proof {
            if self.handed@.len() > 0 && self.handed@.last() == env {
                self.handed@ = self.handed@.drop_last();
            }
        }
        self.consumer_gone = true;
        self.overflow.push_front(env);
        assert(self@.backlog =~= seq![env] + old(self)@.backlog);
        match self.policy {
            LifecyclePolicy::ContinueWithoutConsumer => Ok(()),
            LifecyclePolicy::StopWhenConsumerGone => Err(EventError::SendFailed),
        }
    }
}

} // verus!
