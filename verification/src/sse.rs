//! Framing of a server-sent-event stream: bytes arrive in arbitrary pieces,
//! lines are cut at `'\n'` (a line may span pieces), and each `data:` line
//! carries one chunk of the chat completion, or the end marker `[DONE]`.
use vstd::prelude::*;

use crate::stream::{ChatCompletionChunk, StreamEvent};

verus! {

/// Frames bytes into lines: `done` are the lines already complete, `cur` the
/// line under way; every `'\n'` of `s` completes `cur`.
pub open spec fn frame(done: Seq<Seq<u8>>, cur: Seq<u8>, s: Seq<u8>) -> (Seq<Seq<u8>>, Seq<u8>)
    decreases s.len(),
{
    if s.len() == 0 {
        (done, cur)
    } else if s[0] == 10u8 {
        frame(done.push(cur), Seq::empty(), s.drop_first())
    } else {
        frame(done, cur.push(s[0]), s.drop_first())
    }
}

/// Bytes of the stream after its last complete line.
pub struct SseBuffer {
    pub pending: Vec<u8>,
}

impl SseBuffer {
    pub fn new() -> (b: Self)
        ensures
            b.pending@.len() == 0,
    {
        SseBuffer { pending: Vec::new() }
    }

    /// Takes the next piece of the stream: gives the lines it completes, in
    /// order (without their `'\n'`), and keeps what follows the last one.
    pub fn feed(&mut self, bytes: &[u8]) -> (lines: Vec<Vec<u8>>)
        ensures
            (lines@.map_values(|l: Vec<u8>| l@), final(self).pending@) == frame(
                Seq::empty(),
                old(self).pending@,
                bytes@,
            ),
    {
        let ghost target = frame(Seq::empty(), self.pending@, bytes@);
        let mut lines: Vec<Vec<u8>> = Vec::new();
        let mut cur: Vec<u8> = Vec::new();
        std::mem::swap(&mut cur, &mut self.pending);
        let mut i: usize = 0;
        assert(lines@.map_values(|l: Vec<u8>| l@) =~= Seq::<Seq<u8>>::empty());
        assert(bytes@.skip(0) =~= bytes@);
        while i < bytes.len()
            invariant
                i <= bytes.len(),
                frame(lines@.map_values(|l: Vec<u8>| l@), cur@, bytes@.skip(i as int)) == target,
            decreases bytes.len() - i,
        {
            let ghost before = lines@.map_values(|l: Vec<u8>| l@);
            let ghost rest = bytes@.skip(i as int);
            assert(rest.drop_first() =~= bytes@.skip(i as int + 1));
            assert(rest[0] == bytes@[i as int]);
            if bytes[i] == 10u8 {
                let mut line: Vec<u8> = Vec::new();
                std::mem::swap(&mut line, &mut cur);
                lines.push(line);
                assert(lines@.map_values(|l: Vec<u8>| l@) =~= before.push(line@));
            } else {
                cur.push(bytes[i]);
            }
            i += 1;
        }
        assert(bytes@.skip(bytes.len() as int) =~= Seq::<u8>::empty());
        self.pending = cur;
        lines
    }
}

/// What a line of the stream says.
#[derive(Debug, Clone, PartialEq, Eq)]
pub enum SseLine {
    /// A `data:` line: its payload.
    Data(Vec<u8>),
    /// `data: [DONE]`: the stream is over.
    Done,
    /// Anything else (comments, other fields, blank lines).
    Other,
}

/// `data:` in bytes.
pub open spec fn data_tag() -> Seq<u8> {
    seq![100u8, 97u8, 116u8, 97u8, 58u8]
}

/// `[DONE]` in bytes.
pub open spec fn done_tag() -> Seq<u8> {
    seq![91u8, 68u8, 79u8, 78u8, 69u8, 93u8]
}

/// A line without the `'\r'` that may end it.
pub open spec fn without_cr(l: Seq<u8>) -> Seq<u8> {
    if l.len() > 0 && l.last() == 13u8 {
        l.drop_last()
    } else {
        l
    }
}

/// The bytes after the leading spaces.
pub open spec fn skip_spaces(l: Seq<u8>) -> Seq<u8>
    decreases l.len(),
{
    if l.len() > 0 && l[0] == 32u8 {
        skip_spaces(l.drop_first())
    } else {
        l
    }
}

/// What a line says: after `data:` and its spaces, `[DONE]` ends the
/// stream and anything else is a payload.
pub open spec fn line_meaning(line: Seq<u8>) -> (Option<Seq<u8>>, bool) {
    let l = without_cr(line);
    if l.len() >= 5 && l.take(5) == data_tag() {
        let rest = skip_spaces(l.skip(5));
        if rest == done_tag() {
            (None, true)
        } else {
            (Some(rest), false)
        }
    } else {
        (None, false)
    }
}

/// Reads a line of the stream (see [`line_meaning`]).
pub fn classify_line(line: &[u8]) -> (r: SseLine)
    ensures
        match line_meaning(line@) {
            (Some(p), _) => r matches SseLine::Data(d) && d@ == p,
            (None, true) => r is Done,
            (None, false) => r is Other,
        },
{
    let mut end: usize = line.len();
    if end > 0 && line[end - 1] == 13u8 {
        end = end - 1;
    }
    let ghost l = without_cr(line@);
    assert(l =~= line@.take(end as int));
    if !(end >= 5 && line[0] == 100u8 && line[1] == 97u8 && line[2] == 116u8 && line[3] == 97u8
        && line[4] == 58u8) {
        proof {
            if l.len() >= 5 && l.take(5) == data_tag() {
                assert(l.take(5)[0] == line@[0]);
                assert(l.take(5)[1] == line@[1]);
                assert(l.take(5)[2] == line@[2]);
                assert(l.take(5)[3] == line@[3]);
                assert(l.take(5)[4] == line@[4]);
            }
        }
        return SseLine::Other;
    }
    assert(l.take(5) =~= data_tag());
    let mut k: usize = 5;
    assert(l.skip(5) =~= line@.subrange(5, end as int));
    while k < end && line[k] == 32u8
        invariant
            5 <= k <= end <= line.len(),
            l == line@.take(end as int),
            skip_spaces(l.skip(5)) == skip_spaces(line@.subrange(k as int, end as int)),
        decreases end - k,
    {
        assert(line@.subrange(k as int, end as int).drop_first() =~= line@.subrange(k as int + 1, end as int));
        k += 1;
    }
    let ghost rest = line@.subrange(k as int, end as int);
    assert(skip_spaces(rest) == rest) by {
        if rest.len() > 0 {
            assert(rest[0] == line@[k as int]);
        }
    }
    let mut payload: Vec<u8> = Vec::new();
    let mut j: usize = k;
    while j < end
        invariant
            k <= j <= end <= line.len(),
            payload@ == line@.subrange(k as int, j as int),
        decreases end - j,
    {
        payload.push(line[j]);
        assert(payload@ =~= line@.subrange(k as int, j as int + 1));
        j += 1;
    }
    if payload.len() == 6 && payload[0] == 91u8 && payload[1] == 68u8 && payload[2] == 79u8
        && payload[3] == 78u8 && payload[4] == 69u8 && payload[5] == 93u8 {
        assert(payload@ =~= done_tag());
        SseLine::Done
    } else {
        proof {
            if payload@ == done_tag() {
                assert(payload@[0] == 91u8);
                assert(payload@[5] == 93u8);
            }
        }
        SseLine::Data(payload)
    }
}

/// The stream event a chunk makes: the first choice's increments and
/// finish reason (none when the chunk has no choice), and the chunk's usage.
pub open spec fn chunk_event_spec(chunk: ChatCompletionChunk) -> StreamEvent {
    if chunk.choices@.len() > 0 {
        let c = chunk.choices@[0];
        StreamEvent::Delta {
            content: c.delta.content,
            reasoning_content: c.delta.reasoning_content,
            tool_calls: c.delta.tool_calls,
            finish_reason: c.finish_reason,
            usage: chunk.usage,
        }
    } else {
        StreamEvent::Delta {
            content: None,
            reasoning_content: None,
            tool_calls: None,
            finish_reason: None,
            usage: chunk.usage,
        }
    }
}

/// The stream event a chunk makes (see [`chunk_event_spec`]).
pub fn chunk_event(chunk: ChatCompletionChunk) -> (e: StreamEvent)
    ensures
        e == chunk_event_spec(chunk),
{
    let ghost c0 = chunk;
    let ChatCompletionChunk { choices, usage } = chunk;
    let mut choices = choices;
    if choices.len() > 0 {
        let c = choices.swap_remove(0);
        StreamEvent::Delta {
            content: c.delta.content,
            reasoning_content: c.delta.reasoning_content,
            tool_calls: c.delta.tool_calls,
            finish_reason: c.finish_reason,
            usage,
        }
    } else {
        StreamEvent::Delta {
            content: None,
            reasoning_content: None,
            tool_calls: None,
            finish_reason: None,
            usage,
        }
    }
}

} // verus!
