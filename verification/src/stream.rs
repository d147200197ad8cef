//! Accumulation of a streamed OpenAI-compatible chat completion.
//!
//! Each parsed stream event is folded into a [`StreamAccumulator`]; the text
//! and thinking increments are handed back at once, for the caller to
//! forward, and tool-call fragments are assembled per call index. When the
//! stream ends, [`StreamAccumulator::finish`] yields the complete response.
use vstd::prelude::*;

use crate::model::{
    blocks_view, delta_text, thinking_text, BlockView, ContentBlock, Message, ModelError, ModelEvent,
    ModelResponse, Role, ToolCallId, Usage,
};
use crate::text::{owned, trim, trim_str};
use vstd::string::StringExecFns;

verus! {

/// Token statistics in the final chunk of a stream.
#[derive(Debug, Clone, Copy)]
pub struct ChatUsage {
    pub prompt_tokens: u32,
    pub completion_tokens: u32,
    /// Some endpoints leave it out; it then reads 0.
    pub total_tokens: u32,
}

/// Name and argument fragments of a streamed tool call.
#[derive(Debug, Clone)]
pub struct ChunkFunction {
    pub name: Option<String>,
    pub arguments: Option<String>,
}

/// One fragment of a streamed tool call, grouped by `index`.
#[derive(Debug, Clone)]
pub struct ChunkToolCall {
    pub index: u32,
    pub id: Option<String>,
    pub function: Option<ChunkFunction>,
}

/// The increment carried by one choice of a chunk.
#[derive(Debug, Clone)]
pub struct Delta {
    pub role: Option<String>,
    pub content: Option<String>,
    /// Thinking text (DeepSeek and others).
    pub reasoning_content: Option<String>,
    pub tool_calls: Option<Vec<ChunkToolCall>>,
}

/// One choice of a streamed chunk.
#[derive(Debug, Clone)]
pub struct ChunkChoice {
    pub index: u32,
    pub delta: Delta,
    pub finish_reason: Option<String>,
}

/// One chunk of a streamed chat completion.
#[derive(Debug, Clone)]
pub struct ChatCompletionChunk {
    pub choices: Vec<ChunkChoice>,
    pub usage: Option<ChatUsage>,
}

/// One event of a parsed server-sent-event stream.
#[derive(Debug, Clone)]
pub enum StreamEvent {
    Delta {
        content: Option<String>,
        reasoning_content: Option<String>,
        tool_calls: Option<Vec<ChunkToolCall>>,
        finish_reason: Option<String>,
        usage: Option<ChatUsage>,
    },
    Done,
    Error(String),
}

// ---------------------------------------------------------------------------
// JSON validity of tool arguments
// ---------------------------------------------------------------------------

/// The text as `serde_json` reads it into a value and writes that value
/// back compactly; none when it does not read as one JSON value.
pub uninterp spec fn json_reencoded(text: Seq<char>) -> Option<Seq<char>>;

/// `serde_json::from_str::<serde_json::Value>` on the text, the value
/// written back with `to_string`. Claimed: the outcome is `json_reencoded`
/// of the text, a function of it alone.
#[verifier::external_body]
fn reencode_json(text: &str) -> (r: Option<String>)
    ensures
        match r {
            Some(t) => json_reencoded(text@) == Some(t@),
            None => json_reencoded(text@) is None,
        },
{
    serde_json::from_str::<serde_json::Value>(text).ok().map(|v| v.to_string())
}

/// The arguments a finished tool call carries: the assembled text read as
/// JSON and written back compactly, `null` when it is blank or not JSON.
pub open spec fn arguments_json(text: Seq<char>) -> Seq<char> {
    if trim(text).len() == 0 {
        "null"@
    } else {
        match json_reencoded(text) {
            Some(t) => t,
            None => "null"@,
        }
    }
}

// ---------------------------------------------------------------------------
// Tool calls
// ---------------------------------------------------------------------------

/// A tool call being assembled from its fragments.
#[derive(Debug, Clone)]
pub struct ToolCallAccumulator {
    pub id: Option<String>,
    pub name: String,
    pub arguments: String,
}

/// What a tool-call accumulator holds.
pub ghost struct ToolCallView {
    pub id: Option<Seq<char>>,
    pub name: Seq<char>,
    pub arguments: Seq<char>,
}

impl View for ToolCallAccumulator {
    type V = ToolCallView;

    open spec fn view(&self) -> ToolCallView {
        ToolCallView { id: self.id.deep_view(), name: self.name@, arguments: self.arguments@ }
    }
}

/// A tool call with nothing assembled yet.
pub open spec fn empty_call() -> ToolCallView {
    ToolCallView { id: None, name: Seq::empty(), arguments: Seq::empty() }
}

/// The name fragment a chunk carries (empty when absent).
pub open spec fn fragment_name(c: ChunkToolCall) -> Seq<char> {
    match c.function {
        Some(f) => match f.name {
            Some(n) => n@,
            None => Seq::empty(),
        },
        None => Seq::empty(),
    }
}

/// The argument fragment a chunk carries (empty when absent).
pub open spec fn fragment_arguments(c: ChunkToolCall) -> Seq<char> {
    match c.function {
        Some(f) => match f.arguments {
            Some(a) => a@,
            None => Seq::empty(),
        },
        None => Seq::empty(),
    }
}

/// One fragment applied to a tool call: the first id seen is kept; name and
/// argument fragments are appended.
pub open spec fn apply_fragment(v: ToolCallView, c: ChunkToolCall) -> ToolCallView {
    ToolCallView {
        id: match v.id {
            Some(i) => Some(i),
            None => c.id.deep_view(),
        },
        name: v.name + fragment_name(c),
        arguments: v.arguments + fragment_arguments(c),
    }
}

impl ToolCallAccumulator {
    pub fn new() -> (a: Self)
        ensures
            a@ == empty_call(),
    {
        ToolCallAccumulator { id: None, name: String::new(), arguments: String::new() }
    }

    /// Folds one fragment into the call.
    pub fn apply(&mut self, call: ChunkToolCall)
        ensures
            final(self)@ == apply_fragment(old(self)@, call),
    {
        let ghost c = call;
        let ChunkToolCall { index: _, id, function } = call;
        if self.id.is_none() {
            self.id = id;
        }
        match function {
            Some(f) => {
                match f.name {
                    Some(n) => self.name.append(n.as_str()),
                    None => {},
                }
                match f.arguments {
                    Some(a) => self.arguments.append(a.as_str()),
                    None => {},
                }
            },
            None => {},
        }
        assert(self@.name =~= apply_fragment(old(self)@, c).name);
        assert(self@.arguments =~= apply_fragment(old(self)@, c).arguments);
    }

    /// The finished `ToolUse` block. A missing id becomes the empty id;
    /// the arguments are read as JSON and written back compactly, blank or
    /// non-JSON arguments become `null`.
    pub fn into_content_block(self) -> (b: ContentBlock)
        ensures
            b@ == (BlockView::ToolUse {
                id: match self@.id {
                    Some(i) => i,
                    None => Seq::empty(),
                },
                name: self@.name,
                arguments: arguments_json(self@.arguments),
            }),
    {
        let blank = trim_str(self.arguments.as_str()).len() == 0;
        let arguments = if blank {
            owned("null")
        } else {
            match reencode_json(self.arguments.as_str()) {
                Some(t) => t,
                None => owned("null"),
            }
        };
        let id = match self.id {
            Some(i) => i,
            None => String::new(),
        };
        proof {
            reveal_strlit("null");
        }
        ContentBlock::ToolUse { id: ToolCallId(id), name: self.name, arguments }
    }
}

/// A tool call under assembly together with its index.
#[derive(Debug, Clone)]
pub struct PendingCall {
    pub index: u32,
    pub call: ToolCallAccumulator,
}

/// The pending calls, viewed as (index, call) pairs.
pub open spec fn pending_view(v: Seq<PendingCall>) -> Seq<(u32, ToolCallView)> {
    v.map_values(|p: PendingCall| (p.index, p.call@))
}

/// Indices strictly increase along the table.
pub open spec fn sorted_indices(t: Seq<(u32, ToolCallView)>) -> bool {
    forall|i: int, j: int| 0 <= i < j < t.len() ==> t[i].0 < t[j].0
}

/// A fragment folded into the table kept in index order: the call with the
/// fragment's index is updated, or a new call is inserted where its index
/// belongs (as a `BTreeMap` entry would be).
pub open spec fn upsert(t: Seq<(u32, ToolCallView)>, c: ChunkToolCall) -> Seq<
    (u32, ToolCallView),
>
    decreases t.len(),
{
    if t.len() == 0 {
        seq![(c.index, apply_fragment(empty_call(), c))]
    } else if t[0].0 == c.index {
        seq![(t[0].0, apply_fragment(t[0].1, c))] + t.drop_first()
    } else if t[0].0 > c.index {
        seq![(c.index, apply_fragment(empty_call(), c))] + t
    } else {
        seq![t[0]] + upsert(t.drop_first(), c)
    }
}

/// All fragments of one event folded in, in order.
pub open spec fn upsert_all(t: Seq<(u32, ToolCallView)>, cs: Seq<ChunkToolCall>) -> Seq<
    (u32, ToolCallView),
>
    decreases cs.len(),
{
    if cs.len() == 0 {
        t
    } else {
        upsert(upsert_all(t, cs.drop_last()), cs.last())
    }
}

proof fn lemma_upsert_at(t: Seq<(u32, ToolCallView)>, c: ChunkToolCall, p: int)
    requires
        sorted_indices(t),
        0 <= p <= t.len(),
        forall|i: int| 0 <= i < p ==> t[i].0 < c.index,
        p < t.len() ==> t[p].0 >= c.index,
    ensures
        upsert(t, c) == (if p < t.len() && t[p].0 == c.index {
            t.update(p, (t[p].0, apply_fragment(t[p].1, c)))
        } else {
            t.take(p) + seq![(c.index, apply_fragment(empty_call(), c))] + t.skip(p)
        }),
        sorted_indices(upsert(t, c)),
    decreases t.len(),
{
    if t.len() == 0 {
        assert(t.take(p) + seq![(c.index, apply_fragment(empty_call(), c))] + t.skip(p) =~= seq![
            (c.index, apply_fragment(empty_call(), c)),
        ]);
    } else if p == 0 {
        if t[0].0 == c.index {
            assert(seq![(t[0].0, apply_fragment(t[0].1, c))] + t.drop_first() =~= t.update(
                0,
                (t[0].0, apply_fragment(t[0].1, c)),
            ));
        } else {
            assert(t.take(0) + seq![(c.index, apply_fragment(empty_call(), c))] + t.skip(0)
                =~= seq![(c.index, apply_fragment(empty_call(), c))] + t);
        }
    } else {
        let r = t.drop_first();
        assert forall|i: int, j: int| 0 <= i < j < r.len() implies r[i].0 < r[j].0 by {
            assert(r[i] == t[i + 1] && r[j] == t[j + 1]);
        }
        assert forall|i: int| 0 <= i < p - 1 implies r[i].0 < c.index by {
            assert(r[i] == t[i + 1]);
        }
        lemma_upsert_at(r, c, p - 1);
        if p < t.len() && t[p].0 == c.index {
            assert(seq![t[0]] + r.update(p - 1, (r[p - 1].0, apply_fragment(r[p - 1].1, c)))
                =~= t.update(p, (t[p].0, apply_fragment(t[p].1, c))));
        } else {
            assert(seq![t[0]] + (r.take(p - 1) + seq![(c.index, apply_fragment(empty_call(), c))]
                + r.skip(p - 1)) =~= t.take(p) + seq![(c.index, apply_fragment(empty_call(), c))]
                + t.skip(p));
        }
    }
    let u = upsert(t, c);
    if p < t.len() && t[p].0 == c.index {
        assert forall|i: int, j: int| 0 <= i < j < u.len() implies u[i].0 < u[j].0 by {
            assert(u[i].0 == t[i].0 && u[j].0 == t[j].0);
        }
    } else {
        assert forall|i: int, j: int| 0 <= i < j < u.len() implies u[i].0 < u[j].0 by {
            if i < p {
                assert(u[i] == t[i]);
            }
            if j > p {
                assert(u[j] == t[j - 1]);
            }
            if i > p {
                assert(u[i] == t[i - 1]);
            }
        }
    }
}

/// Applies one fragment to the pending calls, kept in index order.
fn upsert_exec(pending: &mut Vec<PendingCall>, call: ChunkToolCall)
    requires
        sorted_indices(pending_view(old(pending)@)),
    ensures
        pending_view(final(pending)@) == upsert(pending_view(old(pending)@), call),
        sorted_indices(pending_view(final(pending)@)),
{
    let ghost t = pending_view(pending@);
    let mut p: usize = 0;
    while p < pending.len() && pending[p].index < call.index
        invariant
            p <= pending.len(),
            t == pending_view(pending@),
            forall|i: int| 0 <= i < p ==> t[i].0 < call.index,
        decreases pending.len() - p,
    {
        p += 1;
    }
    proof {
        lemma_upsert_at(t, call, p as int);
    }
    let ghost c = call;
    if p < pending.len() && pending[p].index == call.index {
        let mut entry = pending.remove(p);
        entry.call.apply(call);
        pending.insert(p, entry);
        assert(pending_view(pending@) =~= t.update(
            p as int,
            (t[p as int].0, apply_fragment(t[p as int].1, c)),
        ));
    } else {
        let index = call.index;
        let mut acc = ToolCallAccumulator::new();
        acc.apply(call);
        pending.insert(p, PendingCall { index, call: acc });
        assert(pending_view(pending@) =~= t.take(p as int) + seq![
            (c.index, apply_fragment(empty_call(), c)),
        ] + t.skip(p as int));
    }
}

/// Applies the fragments of one event, in the order they came.
fn apply_fragments(pending: &mut Vec<PendingCall>, calls: Vec<ChunkToolCall>)
    requires
        sorted_indices(pending_view(old(pending)@)),
    ensures
        sorted_indices(pending_view(final(pending)@)),
        pending_view(final(pending)@) == upsert_all(pending_view(old(pending)@), calls@),
{
    let ghost cs = calls@;
    let ghost start = pending_view(pending@);
    let ghost mut done: Seq<ChunkToolCall> = Seq::empty();
    let mut calls = calls;
    while calls.len() > 0
        invariant
            cs == done + calls@,
            sorted_indices(pending_view(pending@)),
            pending_view(pending@) == upsert_all(start, done),
        decreases calls.len(),
    {
        let c = calls.remove(0);
        let ghost before = done;
        upsert_exec(pending, c);
        proof {
            done = done.push(c);
            assert(done.drop_last() =~= before);
            assert(done.last() == c);
        }
    }
    assert(done =~= cs);
}

// ---------------------------------------------------------------------------
// The accumulator
// ---------------------------------------------------------------------------

/// Folds a stream of events into a response.
pub struct StreamAccumulator {
    /// The provider declares `reasoning_content`; otherwise it is ignored.
    pub has_reasoning_content: bool,
    pub text: String,
    pub reasoning: String,
    /// Tool calls under assembly, in increasing index order.
    pub tool_calls: Vec<PendingCall>,
    pub finish_reason: Option<String>,
    /// The last usage the stream carried.
    pub usage: Option<Usage>,
    pub error: Option<String>,
}

/// What one `handle` call does to the text, the usage, the finish reason
/// and the error, from `old` to `new`.
pub open spec fn handled(old: StreamAccumulator, event: StreamEvent, new: StreamAccumulator) -> bool {
    &&& new.text@ == old.text@ + event_content(event)
    &&& new.usage == (match event {
        StreamEvent::Delta { usage: Some(u), .. } => Some(
            Usage { input_tokens: u.prompt_tokens, output_tokens: u.completion_tokens },
        ),
        _ => old.usage,
    })
    &&& new.finish_reason == (match event {
        StreamEvent::Delta { finish_reason: Some(f), .. } => Some(f),
        _ => old.finish_reason,
    })
    &&& new.error == (match event {
        StreamEvent::Error(m) => Some(m),
        _ => old.error,
    })
}

/// What `finish` gives for the accumulator `acc`: the stream's error, or
/// the assistant message (the text, if any, then the assembled tool calls)
/// with the last usage (zero when none came) and the last finish reason.
pub open spec fn finished(acc: StreamAccumulator, r: Result<ModelResponse, ModelError>) -> bool {
    match acc.error {
        Some(m) => match r {
            Err(ModelError::Provider(msg)) => msg@ == "SSE stream error: "@ + m@,
            _ => false,
        },
        None => match r {
            Ok(resp) => {
                &&& resp.message.role == Role::Assistant
                &&& blocks_view(resp.message.content@) == (if acc.text@.len() > 0 {
                    seq![BlockView::Text { text: acc.text@ }]
                } else {
                    Seq::empty()
                }) + call_blocks(pending_view(acc.tool_calls@))
                &&& resp.usage == (match acc.usage {
                    Some(u) => u,
                    None => Usage { input_tokens: 0, output_tokens: 0 },
                })
                &&& resp.stop_reason == acc.finish_reason
            },
            Err(_) => false,
        },
    }
}

/// The content increment of an event (empty when there is none).
pub open spec fn event_content(e: StreamEvent) -> Seq<char> {
    match e {
        StreamEvent::Delta { content: Some(c), .. } => c@,
        _ => Seq::empty(),
    }
}

/// The thinking increment of an event, counted only where the provider
/// declares it.
pub open spec fn event_reasoning(e: StreamEvent, has_reasoning: bool) -> Seq<char> {
    match e {
        StreamEvent::Delta { reasoning_content: Some(r), .. } => if has_reasoning {
            r@
        } else {
            Seq::empty()
        },
        _ => Seq::empty(),
    }
}

/// The tool-call fragments of an event.
pub open spec fn event_calls(e: StreamEvent) -> Seq<ChunkToolCall> {
    match e {
        StreamEvent::Delta { tool_calls: Some(cs), .. } => cs@,
        _ => Seq::empty(),
    }
}

/// The model events one stream event produces, in order: a text delta when
/// it carries text, then a thinking delta when it carries thinking text the
/// provider declares.
pub open spec fn expected_emits(e: StreamEvent, has_reasoning: bool) -> Seq<ModelEvent> {
    let t = event_content(e);
    let r = event_reasoning(e, has_reasoning);
    (if t.len() > 0 {
        seq![ModelEvent::TextDelta { text: match e {
            StreamEvent::Delta { content: Some(c), .. } => c,
            _ => arbitrary(),
        } }]
    } else {
        Seq::empty()
    }) + (if r.len() > 0 {
        seq![ModelEvent::ThinkingDelta { text: match e {
            StreamEvent::Delta { reasoning_content: Some(c), .. } => c,
            _ => arbitrary(),
        } }]
    } else {
        Seq::empty()
    })
}

impl StreamAccumulator {
    /// The accumulator's own consistency: pending calls are in index order.
    pub open spec fn wf(&self) -> bool {
        sorted_indices(pending_view(self.tool_calls@))
    }

    pub fn new(has_reasoning_content: bool) -> (a: Self)
        ensures
            a.wf(),
            a.has_reasoning_content == has_reasoning_content,
            a.text@ == Seq::<char>::empty(),
            a.reasoning@ == Seq::<char>::empty(),
            a.tool_calls@.len() == 0,
            a.finish_reason is None,
            a.usage is None,
            a.error is None,
    {
        StreamAccumulator {
            has_reasoning_content,
            text: String::new(),
            reasoning: String::new(),
            tool_calls: Vec::new(),
            finish_reason: None,
            usage: None,
            error: None,
        }
    }

    /// Folds one stream event in and returns the model events to forward at
    /// once. Text is appended exactly as it is forwarded; tool-call fragments
    /// are assembled here and never forwarded.
    pub fn handle(&mut self, event: StreamEvent) -> (emitted: Vec<ModelEvent>)
        requires
            old(self).wf(),
        ensures
            final(self).wf(),
            emitted@ == expected_emits(event, old(self).has_reasoning_content),
            final(self).text@ == old(self).text@ + delta_text(emitted@),
            final(self).text@ == old(self).text@ + event_content(event),
            handled(*old(self), event, *final(self)),
            final(self).reasoning@ == old(self).reasoning@ + thinking_text(emitted@),
            final(self).reasoning@ == old(self).reasoning@ + event_reasoning(
                event,
                old(self).has_reasoning_content,
            ),
            final(self).has_reasoning_content == old(self).has_reasoning_content,
            pending_view(final(self).tool_calls@) == upsert_all(
                pending_view(old(self).tool_calls@),
                event_calls(event),
            ),
            final(self).usage == (match event {
                StreamEvent::Delta { usage: Some(u), .. } => Some(
                    Usage { input_tokens: u.prompt_tokens, output_tokens: u.completion_tokens },
                ),
                _ => old(self).usage,
            }),
            final(self).finish_reason == (match event {
                StreamEvent::Delta { finish_reason: Some(f), .. } => Some(f),
                _ => old(self).finish_reason,
            }),
            final(self).error == (match event {
                StreamEvent::Error(m) => Some(m),
                _ => old(self).error,
            }),
    {
        let ghost ev = event;
        let mut emitted: Vec<ModelEvent> = Vec::new();
        match event {
            StreamEvent::Delta { content, reasoning_content, tool_calls, finish_reason, usage } => {
                match content {
                    Some(c) => {
                        if !c.as_str().is_empty() {
                            self.text.append(c.as_str());
                            emitted.push(ModelEvent::TextDelta { text: c });
                        }
                    },
                    None => {},
                }
                let ghost after_text = emitted@;
                if self.has_reasoning_content {
                    match reasoning_content {
                        Some(r) => {
                            if !r.as_str().is_empty() {
                                self.reasoning.append(r.as_str());
                                emitted.push(ModelEvent::ThinkingDelta { text: r });
                            }
                        },
                        None => {},
                    }
                }
                proof {
                    assert(self.text@ =~= old(self).text@ + event_content(ev));
                    assert(self.reasoning@ =~= old(self).reasoning@ + event_reasoning(
                        ev,
                        self.has_reasoning_content,
                    ));
                    assert(emitted@ =~= expected_emits(ev, self.has_reasoning_content));
                    reveal_with_fuel(delta_text, 3);
                    reveal_with_fuel(thinking_text, 3);
                }
                match tool_calls {
                    Some(calls) => apply_fragments(&mut self.tool_calls, calls),
                    None => {},
                }
                match usage {
                    Some(u) => {
                        self.usage = Some(
                            Usage { input_tokens: u.prompt_tokens, output_tokens: u.completion_tokens },
                        );
                    },
                    None => {},
                }
                match finish_reason {
                    Some(f) => {
                        self.finish_reason = Some(f);
                    },
                    None => {},
                }
            },
            StreamEvent::Done => {},
            StreamEvent::Error(message) => {
                self.error = Some(message);
            },
        }
        emitted
    }

    /// Converges the stream into a response: an error the stream reported
    /// fails the call; otherwise the text block (when there is text) comes
    /// first, then one `ToolUse` block per named call in index order; usage
    /// is the last the stream carried, or zero.
    pub fn finish(self) -> (r: Result<ModelResponse, ModelError>)
        requires
            self.wf(),
        ensures
            finished(self, r),
    {
        match self.error {
            Some(message) => {
                let mut msg = owned("SSE stream error: ");
                msg.append(message.as_str());
                return Err(ModelError::Provider(msg));
            },
            None => {},
        }
        let mut content: Vec<ContentBlock> = Vec::new();
        let has_text = !self.text.as_str().is_empty();
        let ghost text = self.text@;
        if has_text {
            content.push(ContentBlock::Text { text: self.text });
        }
        let ghost head = blocks_view(content@);
        let ghost all = pending_view(self.tool_calls@);
        let mut calls = self.tool_calls;
        let ghost mut k: int = 0;
        while calls.len() > 0
            invariant
                0 <= k <= all.len(),
                pending_view(calls@) == all.skip(k),
                blocks_view(content@) == head + call_blocks(all.take(k)),
            decreases calls.len(),
        {
            let ghost oc = calls@;
            let entry = calls.remove(0);
            proof {
                assert(pending_view(oc).len() == oc.len());
                assert(pending_view(oc)[0] == (oc[0].index, oc[0].call@));
                assert(pending_view(calls@) =~= pending_view(oc).drop_first());
                assert(all.skip(k)[0] == (entry.index, entry.call@));
                assert(all[k] == (entry.index, entry.call@));
                lemma_call_blocks_step(all, k);
            }
            let ghost before = content@;
            if !entry.call.name.as_str().is_empty() {
                let b = entry.call.into_content_block();
                content.push(b);
                assert(blocks_view(content@) =~= blocks_view(before).push(b@));
            } else {
                assert(blocks_view(content@) =~= blocks_view(before));
            }
            proof {
                assert(all.skip(k + 1) =~= all.skip(k).drop_first());
                k = k + 1;
            }
        }
        proof {
            assert(all.take(k) =~= all);
        }
        let usage = match self.usage {
            Some(u) => u,
            None => Usage::zero(),
        };
        let ghost tail = call_blocks(all);
        let resp = ModelResponse {
            message: Message { role: Role::Assistant, content },
            usage,
            stop_reason: self.finish_reason,
        };
        assert(blocks_view(resp.message.content@) == (if text.len() > 0 {
            seq![BlockView::Text { text }]
        } else {
            Seq::empty()
        }) + tail);
        Ok(resp)
    }
}

/// The `ToolUse` blocks the pending calls become: one per call with a name,
/// in index order.
pub open spec fn call_blocks(t: Seq<(u32, ToolCallView)>) -> Seq<BlockView>
    decreases t.len(),
{
    if t.len() == 0 {
        Seq::empty()
    } else {
        call_blocks(t.drop_last()) + (if t.last().1.name.len() > 0 {
            seq![
                BlockView::ToolUse {
                    id: match t.last().1.id {
                        Some(i) => i,
                        None => Seq::empty(),
                    },
                    name: t.last().1.name,
                    arguments: arguments_json(t.last().1.arguments),
                },
            ]
        } else {
            Seq::empty()
        })
    }
}

proof fn lemma_call_blocks_step(t: Seq<(u32, ToolCallView)>, k: int)
    requires
        0 <= k < t.len(),
    ensures
        call_blocks(t.take(k + 1)) == call_blocks(t.take(k)) + (if t[k].1.name.len() > 0 {
            seq![
                BlockView::ToolUse {
                    id: match t[k].1.id {
                        Some(i) => i,
                        None => Seq::empty(),
                    },
                    name: t[k].1.name,
                    arguments: arguments_json(t[k].1.arguments),
                },
            ]
        } else {
            Seq::empty()
        }),
{
    assert(t.take(k + 1).drop_last() =~= t.take(k));
}

/// All events of several batches, in order.
pub open spec fn flatten(batches: Seq<Seq<ModelEvent>>) -> Seq<ModelEvent>
    decreases batches.len(),
{
    if batches.len() == 0 {
        Seq::empty()
    } else {
        flatten(batches.drop_last()) + batches.last()
    }
}

pub proof fn lemma_delta_text_concat(a: Seq<ModelEvent>, b: Seq<ModelEvent>)
    ensures
        delta_text(a + b) == delta_text(a) + delta_text(b),
    decreases b.len(),
{
    if b.len() == 0 {
        assert(a + b =~= a);
    } else {
        assert((a + b).drop_last() =~= a + b.drop_last());
        lemma_delta_text_concat(a, b.drop_last());
        assert(delta_text(a) + delta_text(b) =~= delta_text(a) + delta_text(b.drop_last()) + match b.last() {
            ModelEvent::TextDelta { text } => text@,
            ModelEvent::ThinkingDelta { .. } => Seq::<char>::empty(),
        });
    }
}

/// Streamed answer text is the final text, byte for byte: when each handled
/// event grows the accumulated text by exactly the text deltas it forwards
/// (as `handle` guarantees), the text accumulated over a whole stream is the
/// concatenation of every forwarded text delta.
pub proof fn law_streamed_text_is_final_text(texts: Seq<Seq<char>>, emitted: Seq<Seq<ModelEvent>>)
    requires
        texts.len() == emitted.len() + 1,
        texts[0] == Seq::<char>::empty(),
        forall|i: int|
            0 <= i < emitted.len() ==> #[trigger] texts[i + 1] == texts[i] + delta_text(emitted[i]),
    ensures
        texts.last() == delta_text(flatten(emitted)),
    decreases emitted.len(),
{
    if emitted.len() == 0 {
    } else {
        let n = emitted.len() as int;
        let t2 = texts.drop_last();
        let e2 = emitted.drop_last();
        assert forall|i: int| 0 <= i < e2.len() implies #[trigger] t2[i + 1] == t2[i] + delta_text(
            e2[i],
        ) by {
            assert(texts[i + 1] == texts[i] + delta_text(emitted[i]));
        }
        law_streamed_text_is_final_text(t2, e2);
        assert(texts[n] == texts[n - 1] + delta_text(emitted[n - 1]));
        lemma_delta_text_concat(flatten(e2), emitted.last());
    }
}

/// The answer text a sequence of stream events carries, in order.
pub open spec fn events_text(es: Seq<StreamEvent>) -> Seq<char>
    decreases es.len(),
{
    if es.len() == 0 {
        Seq::empty()
    } else {
        events_text(es.drop_last()) + event_content(es.last())
    }
}

/// The usage of the last event that carries one.
pub open spec fn last_usage(es: Seq<StreamEvent>) -> Option<Usage>
    decreases es.len(),
{
    if es.len() == 0 {
        None
    } else {
        match es.last() {
            StreamEvent::Delta { usage: Some(u), .. } => Some(
                Usage { input_tokens: u.prompt_tokens, output_tokens: u.completion_tokens },
            ),
            _ => last_usage(es.drop_last()),
        }
    }
}

/// The finish reason of the last event that carries one.
pub open spec fn last_finish(es: Seq<StreamEvent>) -> Option<String>
    decreases es.len(),
{
    if es.len() == 0 {
        None
    } else {
        match es.last() {
            StreamEvent::Delta { finish_reason: Some(f), .. } => Some(f),
            _ => last_finish(es.drop_last()),
        }
    }
}

/// Over a whole stream, from a fresh accumulator: when each handled event
/// updates text, usage and finish reason as `handle` guarantees, the text
/// is every event's text in order, the usage is the last one carried (none
/// when none was) and the finish reason the last one given.
pub proof fn law_stream_outcome(
    es: Seq<StreamEvent>,
    texts: Seq<Seq<char>>,
    usages: Seq<Option<Usage>>,
    finishes: Seq<Option<String>>,
)
    requires
        texts.len() == es.len() + 1,
        usages.len() == es.len() + 1,
        finishes.len() == es.len() + 1,
        texts[0] == Seq::<char>::empty(),
        usages[0] is None,
        finishes[0] is None,
        forall|i: int| 0 <= i < es.len() ==> #[trigger] texts[i + 1] == texts[i] + event_content(es[i]),
        forall|i: int|
            0 <= i < es.len() ==> #[trigger] usages[i + 1] == (match es[i] {
                StreamEvent::Delta { usage: Some(u), .. } => Some(
                    Usage { input_tokens: u.prompt_tokens, output_tokens: u.completion_tokens },
                ),
                _ => usages[i],
            }),
        forall|i: int|
            0 <= i < es.len() ==> #[trigger] finishes[i + 1] == (match es[i] {
                StreamEvent::Delta { finish_reason: Some(f), .. } => Some(f),
                _ => finishes[i],
            }),
    ensures
        texts.last() == events_text(es),
        usages.last() == last_usage(es),
        finishes.last() == last_finish(es),
    decreases es.len(),
{
    if es.len() > 0 {
        let n = es.len() as int;
        let (e2, t2, u2, f2) = (es.drop_last(), texts.drop_last(), usages.drop_last(), finishes.drop_last());
        assert forall|i: int| 0 <= i < e2.len() implies #[trigger] t2[i + 1] == t2[i] + event_content(e2[i]) by {
            assert(texts[i + 1] == texts[i] + event_content(es[i]));
        }
        assert forall|i: int| 0 <= i < e2.len() implies #[trigger] u2[i + 1] == (match e2[i] {
            StreamEvent::Delta { usage: Some(u), .. } => Some(
                Usage { input_tokens: u.prompt_tokens, output_tokens: u.completion_tokens },
            ),
            _ => u2[i],
        }) by {
            assert(usages[i + 1] == (match es[i] {
                StreamEvent::Delta { usage: Some(u), .. } => Some(
                    Usage { input_tokens: u.prompt_tokens, output_tokens: u.completion_tokens },
                ),
                _ => usages[i],
            }));
        }
        assert forall|i: int| 0 <= i < e2.len() implies #[trigger] f2[i + 1] == (match e2[i] {
            StreamEvent::Delta { finish_reason: Some(f), .. } => Some(f),
            _ => f2[i],
        }) by {
            assert(finishes[i + 1] == (match es[i] {
                StreamEvent::Delta { finish_reason: Some(f), .. } => Some(f),
                _ => finishes[i],
            }));
        }
        law_stream_outcome(e2, t2, u2, f2);
        assert(texts[n] == texts[n - 1] + event_content(es[n - 1]));
        assert(usages[n] == (match es[n - 1] {
            StreamEvent::Delta { usage: Some(u), .. } => Some(
                Usage { input_tokens: u.prompt_tokens, output_tokens: u.completion_tokens },
            ),
            _ => usages[n - 1],
        }));
        assert(finishes[n] == (match es[n - 1] {
            StreamEvent::Delta { finish_reason: Some(f), .. } => Some(f),
            _ => finishes[n - 1],
        }));
    }
}

/// Over a whole stream fed to a fresh accumulator, with no error event:
/// `finish` answers the assistant message whose text block, present only
/// when the text is not empty, is every event's text in order, followed by
/// the assembled tool calls; its usage is the last one the stream carried
/// (zero when none did) and its stop reason the last finish reason given.
pub proof fn law_accumulated_stream(
    accs: Seq<StreamAccumulator>,
    es: Seq<StreamEvent>,
    r: Result<ModelResponse, ModelError>,
)
    requires
        accs.len() == es.len() + 1,
        accs[0].text@ == Seq::<char>::empty(),
        accs[0].usage is None,
        accs[0].finish_reason is None,
        accs[0].error is None,
        forall|i: int| 0 <= i < es.len() ==> #[trigger] handled(accs[i], es[i], accs[i + 1]),
        forall|i: int| 0 <= i < es.len() ==> !(#[trigger] es[i] is Error),
        finished(accs.last(), r),
    ensures
        r matches Ok(resp) && {
            &&& resp.message.role == Role::Assistant
            &&& blocks_view(resp.message.content@) == (if events_text(es).len() > 0 {
                seq![BlockView::Text { text: events_text(es) }]
            } else {
                Seq::empty()
            }) + call_blocks(pending_view(accs.last().tool_calls@))
            &&& resp.usage == (match last_usage(es) {
                Some(u) => u,
                None => Usage { input_tokens: 0, output_tokens: 0 },
            })
            &&& resp.stop_reason == last_finish(es)
        },
    decreases es.len(),
{
    let texts = accs.map_values(|a: StreamAccumulator| a.text@);
    let usages = accs.map_values(|a: StreamAccumulator| a.usage);
    let finishes = accs.map_values(|a: StreamAccumulator| a.finish_reason);
    assert forall|i: int| 0 <= i < es.len() implies #[trigger] texts[i + 1] == texts[i] + event_content(es[i]) by {
        assert(handled(accs[i], es[i], accs[i + 1]));
    }
    assert forall|i: int| 0 <= i < es.len() implies #[trigger] usages[i + 1] == (match es[i] {
        StreamEvent::Delta { usage: Some(u), .. } => Some(
            Usage { input_tokens: u.prompt_tokens, output_tokens: u.completion_tokens },
        ),
        _ => usages[i],
    }) by {
        assert(handled(accs[i], es[i], accs[i + 1]));
    }
    assert forall|i: int| 0 <= i < es.len() implies #[trigger] finishes[i + 1] == (match es[i] {
        StreamEvent::Delta { finish_reason: Some(f), .. } => Some(f),
        _ => finishes[i],
    }) by {
        assert(handled(accs[i], es[i], accs[i + 1]));
    }
    law_stream_outcome(es, texts, usages, finishes);
    lemma_no_error(accs, es);
}

/// Without error events, a fresh accumulator never records an error.
proof fn lemma_no_error(accs: Seq<StreamAccumulator>, es: Seq<StreamEvent>)
    requires
        accs.len() == es.len() + 1,
        accs[0].error is None,
        forall|i: int| 0 <= i < es.len() ==> #[trigger] handled(accs[i], es[i], accs[i + 1]),
        forall|i: int| 0 <= i < es.len() ==> !(#[trigger] es[i] is Error),
    ensures
        accs.last().error is None,
    decreases es.len(),
{
    if es.len() > 0 {
        let n = es.len() as int;
        let a2 = accs.drop_last();
        let e2 = es.drop_last();
        assert forall|i: int| 0 <= i < e2.len() implies #[trigger] handled(a2[i], e2[i], a2[i + 1]) by {
            assert(handled(accs[i], es[i], accs[i + 1]));
        }
        assert forall|i: int| 0 <= i < e2.len() implies !(#[trigger] e2[i] is Error) by {
            assert(!(es[i] is Error));
        }
        lemma_no_error(a2, e2);
        assert(handled(accs[n - 1], es[n - 1], accs[n]));
        assert(!(es[n - 1] is Error));
    }
}

} // verus!
