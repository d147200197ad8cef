//! State of the chat screen and how keys and agent events change it: the
//! transcript, scrolling, the input line, command completion, and turns.
use vstd::prelude::*;

use crate::commands::{build_cmd_entries, builtin_entries};
use crate::completer::{completions, cuttable, starts_slash, typed_prefix, CmdEntry, CmdPair};
use crate::text::{
    byte_len, char_bytes, char_len_utf8, chars_bytes_wide, chars_of, lemma_byte_len_prefix,
    lemma_byte_len_push, push_all, span_end, span_end_exec, string_of,
};

verus! {

/// Why a turn stopped.
#[derive(Debug, Clone, Copy, PartialEq, Eq, Structural)]
pub enum StopReason {
    Completed,
    MaxRounds,
    Cancelled,
    /// Any other reason.
    Other,
}

/// One entry of the transcript.
#[derive(Debug, Clone)]
pub enum TranscriptLine {
    User(String),
    Assistant(String),
    Tool { name: String, args: String, result: String, success: bool },
    /// End of a turn: rounds run, why it stopped, and its duration as shown
    /// (seconds with one decimal).
    Summary { rounds: u32, stop: StopReason, elapsed: String },
    Error(String),
    System(String),
}

/// A completion offered in the popup.
#[derive(Debug, Clone)]
pub struct CompletionItem {
    pub display: String,
    pub replacement: String,
}

/// The open completion popup.
#[derive(Debug, Clone)]
pub struct CompletionState {
    pub items: Vec<CompletionItem>,
    pub selected: usize,
}

/// The chat screen's state.
#[derive(Debug)]
pub struct App {
    pub transcript: Vec<TranscriptLine>,
    /// Lines scrolled up from the bottom.
    pub scroll_offset: usize,
    /// Keep showing the newest lines.
    pub follow: bool,
    pub input: String,
    /// Byte position of the cursor in `input`.
    pub input_cursor: usize,
    pub completion: Option<CompletionState>,
    pub is_turning: bool,
    pub cancel_requested: bool,
    pub should_quit: bool,
    pub pending_submit: Option<String>,
    /// Step of the "Working..." animation.
    pub working_dot: u8,
    pub show_status: bool,
    pub show_footer: bool,
}

/// What keys act on, viewed.
pub ghost struct UiView {
    pub lines: nat,
    pub scroll: nat,
    pub follow: bool,
    pub input: Seq<char>,
    pub cursor: nat,
    pub completion: Option<(Seq<(Seq<char>, Seq<char>)>, nat)>,
    pub is_turning: bool,
    pub cancel_requested: bool,
    pub should_quit: bool,
    pub pending: Option<Seq<char>>,
}

/// Completion items, viewed.
pub open spec fn items_view(v: Seq<CompletionItem>) -> Seq<(Seq<char>, Seq<char>)> {
    v.map_values(|i: CompletionItem| (i.display@, i.replacement@))
}

impl App {
    /// What keys act on.
    pub open spec fn ui_view(&self) -> UiView {
        UiView {
            lines: self.transcript@.len(),
            scroll: self.scroll_offset as nat,
            follow: self.follow,
            input: self.input@,
            cursor: self.input_cursor as nat,
            completion: match self.completion {
                Some(c) => Some((items_view(c.items@), c.selected as nat)),
                None => None,
            },
            is_turning: self.is_turning,
            cancel_requested: self.cancel_requested,
            should_quit: self.should_quit,
            pending: match self.pending_submit {
                Some(p) => Some(p@),
                None => None,
            },
        }
    }

    /// An empty chat: following, no input, panels hidden.
    pub fn new() -> (a: Self)
        ensures
            a.transcript@.len() == 0,
            a.scroll_offset == 0,
            a.follow,
            a.input@.len() == 0,
            a.input_cursor == 0,
            a.completion is None,
            !a.is_turning,
            !a.cancel_requested,
            !a.should_quit,
            a.pending_submit is None,
            a.working_dot == 0,
            !a.show_status,
            !a.show_footer,
    {
        App {
            transcript: Vec::new(),
            scroll_offset: 0,
            follow: true,
            input: String::new(),
            input_cursor: 0,
            completion: None,
            is_turning: false,
            cancel_requested: false,
            should_quit: false,
            pending_submit: None,
            working_dot: 0,
            show_status: false,
            show_footer: false,
        }
    }

    /// Takes the submitted line, if any.
    pub fn take_submitted(&mut self) -> (r: Option<String>)
        ensures
            r == old(self).pending_submit,
            final(self).pending_submit is None,
            final(self).transcript == old(self).transcript,
            final(self).input == old(self).input,
    {
        self.pending_submit.take()
    }
}

// ---------------------------------------------------------------------------
// Keys
// ---------------------------------------------------------------------------

/// A key, as the chat screen tells keys apart.
#[derive(Debug, Clone, Copy, PartialEq, Eq, Structural)]
pub enum KeyCode {
    Char(char),
    Esc,
    Up,
    Down,
    PageUp,
    PageDown,
    End,
    Tab,
    Enter,
    Backspace,
    Other,
}

/// A key press: the key and whether Control was held.
#[derive(Debug, Clone, Copy, PartialEq, Eq)]
pub struct KeyInput {
    pub code: KeyCode,
    pub ctrl: bool,
}

/// Largest scroll offset: one line less than the transcript.
pub open spec fn max_scroll(lines: nat) -> nat {
    if lines == 0 {
        0
    } else {
        (lines - 1) as nat
    }
}

/// `a - b`, or 0.
pub open spec fn sat_sub(a: nat, b: nat) -> nat {
    if a >= b {
        (a - b) as nat
    } else {
        0
    }
}

/// The smaller of two numbers.
pub open spec fn min_nat(a: nat, b: nat) -> nat {
    if a <= b {
        a
    } else {
        b
    }
}

/// Scrolling: up and page up move away from the bottom (at most to the top
/// line) and stop following; down and page down move back, following again
/// at the bottom; End jumps to the bottom.
pub open spec fn scrolled(v: UiView, code: KeyCode) -> UiView {
    let m = max_scroll(v.lines);
    match code {
        KeyCode::Up => UiView { scroll: min_nat(v.scroll + 1, m), follow: false, ..v },
        KeyCode::Down => {
            let s = sat_sub(v.scroll, 1);
            UiView { scroll: s, follow: if s == 0 {
                true
            } else {
                v.follow
            }, ..v }
        },
        KeyCode::PageUp => UiView { scroll: min_nat(v.scroll + 10, m), follow: false, ..v },
        KeyCode::PageDown => {
            let s = sat_sub(v.scroll, 10);
            UiView { scroll: s, follow: if s == 0 {
                true
            } else {
                v.follow
            }, ..v }
        },
        KeyCode::End => UiView { scroll: 0, follow: true, ..v },
        _ => v,
    }
}

/// The built-in commands' completions of a line, when it starts with `/`.
pub open spec fn line_completions(input: Seq<char>, cursor: nat) -> Seq<(Seq<char>, Seq<char>)> {
    completions(builtin_entries(), typed_prefix(input, cursor))
}

/// A key that would make the editing fail: a Backspace whose byte before
/// the cursor is not where a character starts, a character typed where the
/// cursor is not on a character boundary, completion of a line that cannot be
/// cut at the cursor, or a cursor that would pass the largest `usize`.
pub open spec fn key_fails(v: UiView, key: KeyInput) -> bool {
    if let Some((items, sel)) = v.completion {
        (key.code == KeyCode::Tab || key.code == KeyCode::Enter) && sel < items.len() && byte_len(
            items[sel as int].1,
        ) > usize::MAX
    } else if (key.ctrl && (key.code == KeyCode::Char('c') || key.code == KeyCode::Char('d')))
        || key.code == KeyCode::Esc {
        false
    } else {
        match key.code {
            KeyCode::Tab => starts_slash(v.input) && !cuttable(v.input, v.cursor),
            KeyCode::Backspace => v.cursor > 0 && !(span_end(v.input, 0, (v.cursor - 1) as nat) matches Some(k) && k < v.input.len()),
            KeyCode::Char(c) => span_end(v.input, 0, v.cursor) is None || v.cursor + char_bytes(c) > usize::MAX,
            _ => false,
        }
    }
}

/// Keys that edit or submit the input, after scrolling: Tab opens the
/// completions of a `/` line, Enter submits the line, Backspace deletes the
/// character starting one byte before the cursor, a character is inserted
/// at the cursor.
pub open spec fn edit_step(s: UiView, code: KeyCode) -> UiView {
    match code {
        KeyCode::Tab => if starts_slash(s.input) && line_completions(s.input, s.cursor).len() > 0 {
            UiView { completion: Some((line_completions(s.input, s.cursor), 0)), ..s }
        } else {
            s
        },
        KeyCode::Enter => UiView {
            input: Seq::empty(),
            cursor: 0,
            follow: true,
            pending: Some(s.input),
            ..s
        },
        KeyCode::Backspace => if s.cursor > 0 {
            let k = span_end(s.input, 0, (s.cursor - 1) as nat)->0;
            UiView { input: s.input.remove(k), cursor: (s.cursor - 1) as nat, ..s }
        } else {
            s
        },
        KeyCode::Char(c) => {
            let k = span_end(s.input, 0, s.cursor)->0;
            UiView { input: s.input.insert(k, c), cursor: s.cursor + char_bytes(c), ..s }
        },
        _ => s,
    }
}

/// What a key does to the chat screen, and whether it asks to cancel the
/// running turn.
pub open spec fn key_step(v: UiView, key: KeyInput) -> (UiView, bool) {
    if let Some((items, sel)) = v.completion {
        match key.code {
            KeyCode::Up => (UiView { completion: Some((items, if sel > 0 {
                (sel - 1) as nat
            } else {
                sel
            })), ..v }, false),
            KeyCode::Down => (UiView { completion: Some((items, if sel + 1 < items.len() {
                sel + 1
            } else {
                sel
            })), ..v }, false),
            KeyCode::Tab | KeyCode::Enter => if sel < items.len() {
                (UiView {
                    input: items[sel as int].1,
                    cursor: byte_len(items[sel as int].1),
                    completion: None,
                    ..v
                }, false)
            } else {
                (UiView { completion: None, ..v }, false)
            },
            _ => (UiView { completion: None, ..v }, false),
        }
    } else if key.ctrl && key.code == KeyCode::Char('c') {
        (UiView { cancel_requested: true, ..v }, true)
    } else if key.ctrl && key.code == KeyCode::Char('d') {
        (UiView { should_quit: true, ..v }, false)
    } else if key.code == KeyCode::Esc {
        if v.is_turning {
            (UiView { cancel_requested: true, ..v }, true)
        } else {
            (UiView { input: Seq::empty(), cursor: 0, ..v }, false)
        }
    } else {
        (edit_step(scrolled(v, key.code), key.code), false)
    }
}

fn chars_remove(s: &Vec<char>, k: usize) -> (r: Vec<char>)
    requires
        k < s.len(),
    ensures
        r@ == s@.remove(k as int),
{
    let mut r = crate::text::slice_to_vec(s.as_slice(), 0, k);
    let tail = crate::text::slice_to_vec(s.as_slice(), k + 1, s.len());
    push_all(&mut r, tail.as_slice());
    assert(r@ =~= s@.remove(k as int));
    r
}

fn chars_insert(s: &Vec<char>, k: usize, c: char) -> (r: Vec<char>)
    requires
        k <= s.len(),
    ensures
        r@ == s@.insert(k as int, c),
{
    let mut r = crate::text::slice_to_vec(s.as_slice(), 0, k);
    r.push(c);
    let tail = crate::text::slice_to_vec(s.as_slice(), k, s.len());
    push_all(&mut r, tail.as_slice());
    assert(r@ =~= s@.insert(k as int, c));
    r
}

/// Whether a key would make the editing fail (see [`key_fails`]).
pub fn key_would_fail(app: &App, key: KeyInput) -> (b: bool)
    ensures
        b == key_fails(app.ui_view(), key),
{
    match &app.completion {
        Some(state) => {
            if (key.code == KeyCode::Tab || key.code == KeyCode::Enter) && state.selected
                < state.items.len() {
                let rc = chars_of(state.items[state.selected].replacement.as_str());
                let n = chars_bytes_wide(rc.as_slice());
                assert(items_view(state.items@)[state.selected as int].1
                    == state.items@[state.selected as int].replacement@);
                return n > usize::MAX as u128;
            }
            return false;
        },
        None => {},
    }
    if (key.ctrl && (key.code == KeyCode::Char('c') || key.code == KeyCode::Char('d')))
        || key.code == KeyCode::Esc {
        return false;
    }
    let c = chars_of(app.input.as_str());
    match key.code {
        KeyCode::Tab => {
            if !(c.len() > 0 && c[0] == '/') {
                return false;
            }
            let n = chars_bytes_wide(c.as_slice());
            let cut: u128 = if (app.input_cursor as u128) < n {
                app.input_cursor as u128
            } else {
                n
            };
            if cut < 1 {
                return true;
            }
            span_end_exec(c.as_slice(), 0, cut).is_none()
        },
        KeyCode::Backspace => {
            if app.input_cursor == 0 {
                return false;
            }
            match span_end_exec(c.as_slice(), 0, (app.input_cursor - 1) as u128) {
                Some(k) => k >= c.len(),
                None => true,
            }
        },
        KeyCode::Char(ch) => {
            let w = char_len_utf8(ch);
            span_end_exec(c.as_slice(), 0, app.input_cursor as u128).is_none()
                || app.input_cursor > usize::MAX - w
        },
        _ => false,
    }
}

fn to_items(pairs: Vec<CmdPair>) -> (r: Vec<CompletionItem>)
    ensures
        items_view(r@) == crate::completer::pairs_view(pairs@),
{
    let mut r: Vec<CompletionItem> = Vec::new();
    let mut i: usize = 0;
    while i < pairs.len()
        invariant
            i <= pairs.len(),
            items_view(r@) == crate::completer::pairs_view(pairs@.take(i as int)),
        decreases pairs.len() - i,
    {
        let p = &pairs[i];
        r.push(CompletionItem { display: p.display.clone(), replacement: p.replacement.clone() });
        assert(crate::completer::pairs_view(pairs@.take(i as int + 1)) =~= crate::completer::pairs_view(
            pairs@.take(i as int),
        ).push((pairs@[i as int].display@, pairs@[i as int].replacement@)));
        assert(items_view(r@) =~= crate::completer::pairs_view(pairs@.take(i as int + 1)));
        i += 1;
    }
    assert(pairs@.take(pairs.len() as int) =~= pairs@);
    r
}

/// Handles a key (see [`key_step`]); tells whether the running turn is to
/// be cancelled.
pub fn handle_key(key: KeyInput, app: &mut App) -> (cancel: bool)
    requires
        !key_fails(old(app).ui_view(), key),
    ensures
        (final(app).ui_view(), cancel) == key_step(old(app).ui_view(), key),
        final(app).transcript == old(app).transcript,
        final(app).working_dot == old(app).working_dot,
        final(app).show_status == old(app).show_status,
        final(app).show_footer == old(app).show_footer,
{
    if app.completion.is_some() {
        handle_completion_key(key, app);
        return false;
    }
    if key.ctrl && key.code == KeyCode::Char('c') {
        app.cancel_requested = true;
        return true;
    }
    if key.ctrl && key.code == KeyCode::Char('d') {
        app.should_quit = true;
        return false;
    }
    if key.code == KeyCode::Esc {
        if app.is_turning {
            app.cancel_requested = true;
            return true;
        } else {
            app.input = String::new();
            app.input_cursor = 0;
            return false;
        }
    }
    scroll_key(key.code, app);
    edit_key(key.code, app);
    false
}

/// Scrolling keys (see [`scrolled`]).
fn scroll_key(code: KeyCode, app: &mut App)
    ensures
        final(app).ui_view() == scrolled(old(app).ui_view(), code),
        final(app).transcript == old(app).transcript,
        final(app).working_dot == old(app).working_dot,
        final(app).show_status == old(app).show_status,
        final(app).show_footer == old(app).show_footer,
{
    let max = compute_max_scroll(app);
    match code {
        KeyCode::Up => {
            let up = app.scroll_offset.saturating_add(1);
            app.scroll_offset = if up < max {
                up
            } else {
                max
            };
            app.follow = false;
        },
        KeyCode::Down => {
            app.scroll_offset = app.scroll_offset.saturating_sub(1);
            if app.scroll_offset == 0 {
                app.follow = true;
            }
        },
        KeyCode::PageUp => {
            let up = app.scroll_offset.saturating_add(10);
            app.scroll_offset = if up < max {
                up
            } else {
                max
            };
            app.follow = false;
        },
        KeyCode::PageDown => {
            app.scroll_offset = app.scroll_offset.saturating_sub(10);
            if app.scroll_offset == 0 {
                app.follow = true;
            }
        },
        KeyCode::End => {
            app.scroll_offset = 0;
            app.follow = true;
        },
        _ => {},
    }
}

/// Editing keys (see [`edit_step`]).
fn edit_key(code: KeyCode, app: &mut App)
    requires
        old(app).completion is None,
        !key_fails(old(app).ui_view(), KeyInput { code, ctrl: false }),
    ensures
        final(app).ui_view() == edit_step(old(app).ui_view(), code),
        final(app).transcript == old(app).transcript,
        final(app).working_dot == old(app).working_dot,
        final(app).show_status == old(app).show_status,
        final(app).show_footer == old(app).show_footer,
{
    if code == KeyCode::Tab {
        let c = chars_of(app.input.as_str());
        if c.len() > 0 && c[0] == '/' {
            let entries = build_cmd_entries();
            let (_start, pairs) = crate::completer::complete_inline(
                entries.as_slice(),
                app.input.as_str(),
                app.input_cursor,
            );
            if pairs.len() > 0 {
                let items = to_items(pairs);
                app.completion = Some(CompletionState { items, selected: 0 });
            }
        }
        return;
    }
    if code == KeyCode::Enter {
        let mut line = String::new();
        std::mem::swap(&mut line, &mut app.input);
        app.input_cursor = 0;
        app.follow = true;
        app.pending_submit = Some(line);
        return;
    }
    match code {
        KeyCode::Backspace => {
            if app.input_cursor > 0 {
                let c = chars_of(app.input.as_str());
                match span_end_exec(c.as_slice(), 0, (app.input_cursor - 1) as u128) {
                    Some(k) => {
                        let r = chars_remove(&c, k);
                        app.input = string_of(r.as_slice());
                        app.input_cursor = app.input_cursor - 1;
                    },
                    None => {},
                }
            }
        },
        KeyCode::Char(ch) => {
            let c = chars_of(app.input.as_str());
            match span_end_exec(c.as_slice(), 0, app.input_cursor as u128) {
                Some(k) => {
                    let r = chars_insert(&c, k, ch);
                    app.input = string_of(r.as_slice());
                    app.input_cursor = app.input_cursor + char_len_utf8(ch);
                },
                None => {},
            }
        },
        _ => {},
    }
}

/// Keys while the completion popup is open: Esc closes it, Up and Down move
/// the selection, Tab and Enter take the selected completion, anything else
/// closes it.
fn handle_completion_key(key: KeyInput, app: &mut App)
    requires
        old(app).completion is Some,
        !key_fails(old(app).ui_view(), key),
    ensures
        final(app).ui_view() == key_step(old(app).ui_view(), key).0,
        final(app).transcript == old(app).transcript,
        final(app).working_dot == old(app).working_dot,
        final(app).show_status == old(app).show_status,
        final(app).show_footer == old(app).show_footer,
{
    let mut state = match app.completion.take() {
        Some(s) => s,
        None => {
            return;
        },
    };
    match key.code {
        KeyCode::Esc => {},
        KeyCode::Up => {
            if state.selected > 0 {
                state.selected = state.selected - 1;
            }
            app.completion = Some(state);
        },
        KeyCode::Down => {
            if state.selected < state.items.len() && state.selected + 1 < state.items.len() {
                state.selected = state.selected + 1;
            }
            app.completion = Some(state);
        },
        KeyCode::Tab | KeyCode::Enter => {
            if state.selected < state.items.len() {
                let r = state.items[state.selected].replacement.clone();
                let rc = chars_of(r.as_str());
                let n = chars_bytes_wide(rc.as_slice());
                assert(items_view(state.items@)[state.selected as int].1 == r@);
                app.input = r;
                app.input_cursor = n as usize;
            }
        },
        _ => {},
    }
}

/// Largest scroll offset for the transcript (see [`max_scroll`]).
pub fn compute_max_scroll(app: &App) -> (m: usize)
    ensures
        m == max_scroll(app.transcript@.len()),
{
    app.transcript.len().saturating_sub(1)
}

// ---------------------------------------------------------------------------
// Transcript
// ---------------------------------------------------------------------------

/// What a transcript line holds, as character sequences.
pub ghost enum LineView {
    User(Seq<char>),
    Assistant(Seq<char>),
    Tool { name: Seq<char>, args: Seq<char>, result: Seq<char>, success: bool },
    Summary { rounds: u32, stop: StopReason, elapsed: Seq<char> },
    Error(Seq<char>),
    System(Seq<char>),
}

impl View for TranscriptLine {
    type V = LineView;

    open spec fn view(&self) -> LineView {
        match self {
            TranscriptLine::User(s) => LineView::User(s@),
            TranscriptLine::Assistant(s) => LineView::Assistant(s@),
            TranscriptLine::Tool { name, args, result, success } => LineView::Tool {
                name: name@,
                args: args@,
                result: result@,
                success: *success,
            },
            TranscriptLine::Summary { rounds, stop, elapsed } => LineView::Summary {
                rounds: *rounds,
                stop: *stop,
                elapsed: elapsed@,
            },
            TranscriptLine::Error(s) => LineView::Error(s@),
            TranscriptLine::System(s) => LineView::System(s@),
        }
    }
}

/// The transcript, viewed.
pub open spec fn transcript_view(t: Seq<TranscriptLine>) -> Seq<LineView> {
    t.map_values(|l: TranscriptLine| l@)
}

/// An agent event as the chat screen sees it: streamed answer text, or
/// anything else (which it does not show).
#[derive(Debug, Clone)]
pub enum AgentUpdate {
    TextDelta(String),
    Other,
}

/// The transcript after a text delta: the turn's assistant line is opened
/// by its first delta, and every delta is appended to the last line when
/// that is an assistant line.
pub open spec fn with_delta(t: Seq<LineView>, started: bool, text: Seq<char>) -> Seq<LineView> {
    let base = if started {
        t
    } else {
        t.push(LineView::Assistant(Seq::empty()))
    };
    if base.len() > 0 && base.last() is Assistant {
        base.update(base.len() - 1, LineView::Assistant(base.last()->Assistant_0 + text))
    } else {
        base
    }
}

/// Applies an agent event to the transcript (see [`with_delta`]); other
/// events change nothing.
pub fn apply_agent_event(app: &mut App, event: &AgentUpdate, assistant_started: &mut bool)
    ensures
        match event {
            AgentUpdate::TextDelta(text) => transcript_view(final(app).transcript@) == with_delta(
                transcript_view(old(app).transcript@),
                *old(assistant_started),
                text@,
            ) && *final(assistant_started),
            AgentUpdate::Other => final(app).transcript@ == old(app).transcript@
                && *final(assistant_started) == *old(assistant_started),
        },
        final(app).ui_view().input == old(app).ui_view().input,
        final(app).scroll_offset == old(app).scroll_offset,
        final(app).follow == old(app).follow,
        final(app).is_turning == old(app).is_turning,
        final(app).should_quit == old(app).should_quit,
{
    let text = match event {
        AgentUpdate::TextDelta(t) => t,
        AgentUpdate::Other => {
            return;
        },
    };
    let ghost t0 = transcript_view(app.transcript@);
    if !*assistant_started {
        app.transcript.push(TranscriptLine::Assistant(String::new()));
        *assistant_started = true;
        assert(transcript_view(app.transcript@) =~= t0.push(LineView::Assistant(Seq::empty())));
    }
    let ghost base = transcript_view(app.transcript@);
    match app.transcript.pop() {
        Some(TranscriptLine::Assistant(buf)) => {
            let mut v = chars_of(buf.as_str());
            crate::text::push_str(&mut v, text.as_str());
            app.transcript.push(TranscriptLine::Assistant(string_of(v.as_slice())));
            assert(transcript_view(app.transcript@) =~= base.update(
                base.len() - 1,
                LineView::Assistant(base.last()->Assistant_0 + text@),
            ));
        },
        Some(other) => {
            app.transcript.push(other);
            assert(transcript_view(app.transcript@) =~= base);
        },
        None => {
            assert(transcript_view(app.transcript@) =~= base);
        },
    }
}

/// The text blocks of a message, in order.
pub open spec fn text_blocks(blocks: Seq<crate::model::ContentBlock>) -> Seq<Seq<char>>
    decreases blocks.len(),
{
    if blocks.len() == 0 {
        Seq::empty()
    } else {
        let r = text_blocks(blocks.drop_last());
        match blocks.last() {
            crate::model::ContentBlock::Text { text } => r.push(text@),
            _ => r,
        }
    }
}

/// At the end of a turn: when no text was streamed, the final message's
/// text blocks become assistant lines; otherwise nothing is added, so that
/// streamed text is not shown twice.
pub fn finalize_assistant_text(app: &mut App, final_message: Option<&crate::model::Message>, streamed: bool)
    ensures
        transcript_view(final(app).transcript@) == if streamed || final_message is None {
            transcript_view(old(app).transcript@)
        } else {
            transcript_view(old(app).transcript@) + text_blocks(
                final_message->0.content@,
            ).map_values(|t: Seq<char>| LineView::Assistant(t))
        },
        final(app).ui_view().input == old(app).ui_view().input,
        final(app).is_turning == old(app).is_turning,
        final(app).should_quit == old(app).should_quit,
        final(app).follow == old(app).follow,
{
    if streamed {
        return;
    }
    let msg = match final_message {
        Some(m) => m,
        None => {
            return;
        },
    };
    let ghost t0 = transcript_view(app.transcript@);
    let mut i: usize = 0;
    while i < msg.content.len()
        invariant
            i <= msg.content.len(),
            transcript_view(app.transcript@) == t0 + text_blocks(msg.content@.take(i as int)).map_values(
                |t: Seq<char>| LineView::Assistant(t),
            ),
            app.input == old(app).input,
            app.is_turning == old(app).is_turning,
            app.should_quit == old(app).should_quit,
            app.follow == old(app).follow,
        decreases msg.content.len() - i,
    {
        let ghost before = transcript_view(app.transcript@);
        let ghost tb = text_blocks(msg.content@.take(i as int));
        assert(msg.content@.take(i as int + 1).drop_last() =~= msg.content@.take(i as int));
        match &msg.content[i] {
            crate::model::ContentBlock::Text { text } => {
                app.transcript.push(TranscriptLine::Assistant(text.clone()));
                assert(tb.push(text@).map_values(|t: Seq<char>| LineView::Assistant(t)) =~= tb.map_values(
                    |t: Seq<char>| LineView::Assistant(t),
                ).push(LineView::Assistant(text@)));
                assert(transcript_view(app.transcript@) =~= before.push(LineView::Assistant(text@)));
            },
            _ => {},
        }
        i += 1;
    }
    assert(msg.content@.take(msg.content.len() as int) =~= msg.content@);
}

/// Advances the "Working..." animation.
pub fn tick(app: &mut App)
    ensures
        final(app).working_dot == (old(app).working_dot + 1) % 3,
        final(app).transcript == old(app).transcript,
        final(app).ui_view() == old(app).ui_view(),
{
    app.working_dot = ((app.working_dot as u16 + 1) % 3) as u8;
}

// ---------------------------------------------------------------------------
// Submitted input and turns
// ---------------------------------------------------------------------------

/// What to do with a submitted line.
#[derive(Debug)]
pub enum InputAction {
    /// Blank: nothing.
    Nothing,
    /// `exit` or `quit`: leave.
    Quit,
    /// A slash command, to run.
    Command(String),
    /// A prompt for the agent: run a turn.
    Turn(String),
}

/// Takes a submitted line: blank lines are ignored, `exit` and `quit` leave;
/// anything else is shown as the user's line, and is either a slash command
/// or starts a turn.
pub fn begin_input(app: &mut App, input: &str) -> (a: InputAction)
    ensures
        ({
            let t = crate::text::trim(input@);
            if t.len() == 0 {
                a is Nothing && final(app).transcript@ == old(app).transcript@
                    && final(app).should_quit == old(app).should_quit
                    && final(app).is_turning == old(app).is_turning
            } else if t == "exit"@ || t == "quit"@ {
                a is Quit && final(app).should_quit && final(app).transcript@ == old(
                    app,
                ).transcript@ && final(app).is_turning == old(app).is_turning
            } else {
                &&& transcript_view(final(app).transcript@) == transcript_view(
                    old(app).transcript@,
                ).push(LineView::User(t))
                &&& final(app).follow
                &&& final(app).should_quit == old(app).should_quit
                &&& if t[0] == '/' {
                    a matches InputAction::Command(c) && c@ == t && final(app).is_turning == old(
                        app,
                    ).is_turning
                } else {
                    a matches InputAction::Turn(c) && c@ == t && final(app).is_turning
                        && final(app).working_dot == 0
                }
            }
        }),
{
    let t = crate::text::trim_str(input);
    if t.len() == 0 {
        return InputAction::Nothing;
    }
    let line = string_of(t.as_slice());
    if crate::text::str_eq(line.as_str(), "exit") || crate::text::str_eq(line.as_str(), "quit") {
        app.should_quit = true;
        return InputAction::Quit;
    }
    let ghost t0 = transcript_view(app.transcript@);
    app.transcript.push(TranscriptLine::User(line.clone()));
    assert(transcript_view(app.transcript@) =~= t0.push(LineView::User(t@)));
    app.follow = true;
    if t[0] == '/' {
        InputAction::Command(line)
    } else {
        app.is_turning = true;
        app.working_dot = 0;
        InputAction::Turn(line)
    }
}

/// After a slash command: an error is shown in the transcript, `Exit`
/// leaves. Tells whether the screen's snapshot is to be rebuilt (after a
/// command that went on).
pub fn command_finished(app: &mut App, result: &Result<crate::commands::CommandResult, crate::commands::CommandError>) -> (refresh: bool)
    ensures
        match result {
            Ok(crate::commands::CommandResult::Continue) => refresh && final(app).transcript@
                == old(app).transcript@ && final(app).should_quit == old(app).should_quit,
            Ok(crate::commands::CommandResult::Exit) => !refresh && final(app).should_quit
                && final(app).transcript@ == old(app).transcript@,
            Err(e) => !refresh && transcript_view(final(app).transcript@) == transcript_view(
                old(app).transcript@,
            ).push(LineView::Error(crate::commands::error_text(*e)))
                && final(app).should_quit == old(app).should_quit,
        },
{
    match result {
        Ok(crate::commands::CommandResult::Continue) => true,
        Ok(crate::commands::CommandResult::Exit) => {
            app.should_quit = true;
            false
        },
        Err(e) => {
            let ghost t0 = transcript_view(app.transcript@);
            app.transcript.push(TranscriptLine::Error(e.message()));
            assert(transcript_view(app.transcript@) =~= t0.push(
                LineView::Error(crate::commands::error_text(*e)),
            ));
            false
        },
    }
}

/// What a finished turn reports.
#[derive(Debug)]
pub struct TurnSummary {
    pub usage: crate::model::Usage,
    pub last_message: Option<crate::model::Message>,
    pub rounds: u32,
    pub stop: Option<StopReason>,
    /// Some answer text was streamed during the turn.
    pub streamed: bool,
}

/// After a turn: the turn is over; on success its usage is counted, the
/// final text is added unless it was streamed, and a summary line follows;
/// on failure the error is shown. Tells whether the screen's snapshot is to
/// be rebuilt (after a successful turn).
pub fn turn_finished(
    app: &mut App,
    stats: &mut crate::status::TurnStats,
    outcome: Result<TurnSummary, String>,
    elapsed: String,
) -> (refresh: bool)
    ensures
        !final(app).is_turning,
        match outcome {
            Ok(sm) => {
                let with_text = if sm.streamed || sm.last_message is None {
                    transcript_view(old(app).transcript@)
                } else {
                    transcript_view(old(app).transcript@) + text_blocks(
                        sm.last_message->0.content@,
                    ).map_values(|t: Seq<char>| LineView::Assistant(t))
                };
                &&& refresh
                &&& final(app).follow
                &&& transcript_view(final(app).transcript@) == with_text.push(
                    LineView::Summary {
                        rounds: sm.rounds,
                        stop: match sm.stop {
                            Some(s) => s,
                            None => StopReason::Completed,
                        },
                        elapsed: elapsed@,
                    },
                )
                &&& final(stats).total_input_tokens == crate::status::sat_add(
                    old(stats).total_input_tokens,
                    sm.usage.input_tokens,
                )
                &&& final(stats).total_output_tokens == crate::status::sat_add(
                    old(stats).total_output_tokens,
                    sm.usage.output_tokens,
                )
                &&& final(stats).turn_count == crate::status::sat_add(old(stats).turn_count, 1)
            },
            Err(e) => !refresh && transcript_view(final(app).transcript@) == transcript_view(
                old(app).transcript@,
            ).push(LineView::Error(e@)) && *final(stats) == *old(stats),
        },
{
    app.is_turning = false;
    match outcome {
        Ok(sm) => {
            stats.record(&sm.usage);
            let msg = match &sm.last_message {
                Some(m) => Some(m),
                None => None,
            };
            finalize_assistant_text(app, msg, sm.streamed);
            let stop = match sm.stop {
                Some(s) => s,
                None => StopReason::Completed,
            };
            let ghost t1 = transcript_view(app.transcript@);
            app.transcript.push(TranscriptLine::Summary { rounds: sm.rounds, stop, elapsed });
            assert(transcript_view(app.transcript@) =~= t1.push(
                LineView::Summary { rounds: sm.rounds, stop, elapsed: elapsed@ },
            ));
            app.follow = true;
            true
        },
        Err(e) => {
            let ghost t0 = transcript_view(app.transcript@);
            app.transcript.push(TranscriptLine::Error(e));
            assert(transcript_view(app.transcript@) =~= t0.push(LineView::Error(e@)));
            false
        },
    }
}

// ---------------------------------------------------------------------------
// Rendering the transcript as text
// ---------------------------------------------------------------------------

/// The mark of a turn's end.
pub open spec fn stop_mark(stop: StopReason) -> Seq<char> {
    match stop {
        StopReason::Completed => "\u{2713}"@,
        StopReason::MaxRounds => "\u{26a0} MaxRounds"@,
        StopReason::Cancelled => "\u{2717} Cancelled"@,
        StopReason::Other => "?"@,
    }
}

/// The mark of a turn's end (see [`stop_mark`]).
pub fn stop_symbol(stop: StopReason) -> (r: &'static str)
    ensures
        r@ == stop_mark(stop),
{
    match stop {
        StopReason::Completed => "\u{2713}",
        StopReason::MaxRounds => "\u{26a0} MaxRounds",
        StopReason::Cancelled => "\u{2717} Cancelled",
        StopReason::Other => "?",
    }
}

/// The plain-text rows of a transcript line.
pub open spec fn plain_rows(l: LineView) -> Seq<Seq<char>> {
    match l {
        LineView::User(s) => seq!["> "@ + s],
        LineView::Assistant(s) => seq![s],
        LineView::Tool { name, args, result, success } => seq![
            "\u{2192} "@ + name + " "@ + args,
            "  "@ + (if success {
                "\u{2713}"@
            } else {
                "\u{2717}"@
            }) + " "@ + result,
        ],
        LineView::Summary { rounds, stop, elapsed } => seq![
            stop_mark(stop) + " "@ + crate::text::dec(rounds as nat) + " rounds \u{b7} "@ + elapsed + "s"@,
        ],
        LineView::Error(s) => seq!["Error: "@ + s],
        LineView::System(s) => seq![s],
    }
}

/// The plain-text rows of a transcript line (see [`plain_rows`]).
pub fn plain_line_rows(line: &TranscriptLine) -> (r: Vec<String>)
    ensures
        crate::capabilities::lines_view(r@) == plain_rows(line@),
{
    let mut out: Vec<String> = Vec::new();
    match line {
        TranscriptLine::User(s) => {
            let mut v: Vec<char> = Vec::new();
            crate::text::push_str(&mut v, "> ");
            crate::text::push_str(&mut v, s.as_str());
            out.push(string_of(v.as_slice()));
        },
        TranscriptLine::Assistant(s) => {
            out.push(s.clone());
        },
        TranscriptLine::Tool { name, args, result, success } => {
            let mut v: Vec<char> = Vec::new();
            crate::text::push_str(&mut v, "\u{2192} ");
            crate::text::push_str(&mut v, name.as_str());
            crate::text::push_str(&mut v, " ");
            crate::text::push_str(&mut v, args.as_str());
            out.push(string_of(v.as_slice()));
            let mut w: Vec<char> = Vec::new();
            crate::text::push_str(&mut w, "  ");
            crate::text::push_str(
                &mut w,
                if *success {
                    "\u{2713}"
                } else {
                    "\u{2717}"
                },
            );
            crate::text::push_str(&mut w, " ");
            crate::text::push_str(&mut w, result.as_str());
            out.push(string_of(w.as_slice()));
        },
        TranscriptLine::Summary { rounds, stop, elapsed } => {
            let mut v: Vec<char> = Vec::new();
            crate::text::push_str(&mut v, stop_symbol(*stop));
            crate::text::push_str(&mut v, " ");
            let d = crate::text::dec_u64(*rounds as u64);
            push_all(&mut v, d.as_slice());
            crate::text::push_str(&mut v, " rounds \u{b7} ");
            crate::text::push_str(&mut v, elapsed.as_str());
            crate::text::push_str(&mut v, "s");
            out.push(string_of(v.as_slice()));
        },
        TranscriptLine::Error(s) => {
            let mut v: Vec<char> = Vec::new();
            crate::text::push_str(&mut v, "Error: ");
            crate::text::push_str(&mut v, s.as_str());
            out.push(string_of(v.as_slice()));
        },
        TranscriptLine::System(s) => {
            out.push(s.clone());
        },
    }
    assert(crate::capabilities::lines_view(out@) =~= plain_rows(line@));
    out
}

/// Pieces of `width` characters, the last one possibly shorter.
pub open spec fn chunks(s: Seq<char>, width: nat) -> Seq<Seq<char>>
    decreases s.len(),
{
    if s.len() == 0 || width == 0 {
        Seq::empty()
    } else if s.len() <= width {
        seq![s]
    } else {
        seq![s.take(width as int)] + chunks(s.skip(width as int), width)
    }
}

/// A text wrapped at `width` characters: kept whole when it fits, else cut
/// into pieces.
pub open spec fn wrapped(s: Seq<char>, width: nat) -> Seq<Seq<char>> {
    if s.len() <= width {
        seq![s]
    } else {
        chunks(s, width)
    }
}

/// Wraps a text at `width` characters (see [`wrapped`]); a text longer than
/// zero needs a width above zero.
pub fn wrap_plain(s: &str, width: usize) -> (r: Vec<String>)
    requires
        width > 0 || s@.len() == 0,
    ensures
        crate::capabilities::lines_view(r@) == wrapped(s@, width as nat),
{
    let c = chars_of(s);
    let mut out: Vec<String> = Vec::new();
    if c.len() <= width {
        out.push(s.to_owned());
        assert(crate::capabilities::lines_view(out@) =~= seq![s@]);
        return out;
    }
    let mut i: usize = 0;
    assert(c@.skip(0) =~= c@);
    assert(crate::capabilities::lines_view(out@) =~= Seq::<Seq<char>>::empty());
    assert(Seq::<Seq<char>>::empty() + chunks(c@, width as nat) =~= chunks(c@, width as nat));
    while i < c.len()
        invariant
            width > 0,
            i <= c.len(),
            c.len() > width,
            crate::capabilities::lines_view(out@) + chunks(c@.skip(i as int), width as nat) == chunks(c@, width as nat),
        decreases c.len() - i,
    {
        let ghost rest = c@.skip(i as int);
        let end = if c.len() - i <= width {
            c.len()
        } else {
            i + width
        };
        let piece = crate::text::slice_to_vec(c.as_slice(), i, end);
        let ghost before = crate::capabilities::lines_view(out@);
        out.push(string_of(piece.as_slice()));
        proof {
            if rest.len() <= width {
                assert(piece@ =~= rest);
                assert(c@.skip(end as int) =~= Seq::<char>::empty());
                assert(chunks(rest, width as nat) == seq![rest]);
            } else {
                assert(piece@ =~= rest.take(width as int));
                assert(rest.skip(width as int) =~= c@.skip(end as int));
            }
            assert(crate::capabilities::lines_view(out@) =~= before.push(piece@));
            assert(crate::capabilities::lines_view(out@) + chunks(c@.skip(end as int), width as nat)
                =~= before + chunks(rest, width as nat));
        }
        i = end;
    }
    assert(c@.skip(c.len() as int) =~= Seq::<char>::empty());
    assert(crate::capabilities::lines_view(out@) =~= chunks(c@, width as nat));
    out
}

/// Rows of a text wrapped piecewise, all rows joined.
pub open spec fn wrapped_rows(rows: Seq<Seq<char>>, width: nat) -> Seq<Seq<char>>
    decreases rows.len(),
{
    if rows.len() == 0 {
        Seq::empty()
    } else {
        wrapped_rows(rows.drop_last(), width) + wrapped(rows.last(), width)
    }
}

/// All transcript lines as plain rows wrapped at `width`.
pub open spec fn transcript_rows(t: Seq<LineView>, width: nat) -> Seq<Seq<char>>
    decreases t.len(),
{
    if t.len() == 0 {
        Seq::empty()
    } else {
        transcript_rows(t.drop_last(), width) + wrapped_rows(plain_rows(t.last()), width)
    }
}

/// The transcript as plain text rows at `width` columns (at least one),
/// with a placeholder when there is nothing yet.
pub open spec fn transcript_text(t: Seq<LineView>, width: nat) -> Seq<Seq<char>> {
    let w = if width == 0 {
        1
    } else {
        width
    };
    let rows = transcript_rows(t, w);
    if rows.len() == 0 {
        seq!["(no messages yet)"@]
    } else {
        rows
    }
}

/// The transcript as plain text, for leaving it on the terminal at exit
/// (see [`transcript_text`]).
pub fn transcript_to_lines(app: &App, width: usize) -> (r: Vec<String>)
    ensures
        crate::capabilities::lines_view(r@) == transcript_text(transcript_view(app.transcript@), width as nat),
{
    let w: usize = if width == 0 {
        1
    } else {
        width
    };
    let ghost tv = transcript_view(app.transcript@);
    let mut out: Vec<String> = Vec::new();
    let mut i: usize = 0;
    while i < app.transcript.len()
        invariant
            w > 0,
            i <= app.transcript.len(),
            tv == transcript_view(app.transcript@),
            crate::capabilities::lines_view(out@) == transcript_rows(tv.take(i as int), w as nat),
        decreases app.transcript.len() - i,
    {
        let rows = plain_line_rows(&app.transcript[i]);
        let ghost start = crate::capabilities::lines_view(out@);
        let mut j: usize = 0;
        while j < rows.len()
            invariant
                w > 0,
                j <= rows.len(),
                crate::capabilities::lines_view(out@) == start + wrapped_rows(
                    crate::capabilities::lines_view(rows@).take(j as int),
                    w as nat,
                ),
            decreases rows.len() - j,
        {
            let pieces = wrap_plain(rows[j].as_str(), w);
            let ghost mid = crate::capabilities::lines_view(out@);
            let mut k: usize = 0;
            while k < pieces.len()
                invariant
                    k <= pieces.len(),
                    crate::capabilities::lines_view(out@) == mid + crate::capabilities::lines_view(
                        pieces@,
                    ).take(k as int),
                decreases pieces.len() - k,
            {
                let ghost before = crate::capabilities::lines_view(out@);
                out.push(pieces[k].clone());
                assert(crate::capabilities::lines_view(out@) =~= before.push(pieces@[k as int]@));
                assert(crate::capabilities::lines_view(pieces@).take(k as int + 1)
                    =~= crate::capabilities::lines_view(pieces@).take(k as int).push(pieces@[k as int]@));
                assert(crate::capabilities::lines_view(out@) =~= mid + crate::capabilities::lines_view(
                    pieces@,
                ).take(k as int + 1));
                k += 1;
            }
            proof {
                let lv = crate::capabilities::lines_view(rows@);
                assert(crate::capabilities::lines_view(pieces@).take(pieces.len() as int)
                    =~= crate::capabilities::lines_view(pieces@));
                assert(lv.take(j as int + 1).drop_last() =~= lv.take(j as int));
                assert(lv.take(j as int + 1).last() == rows@[j as int]@);
                assert(crate::capabilities::lines_view(out@) =~= start + wrapped_rows(
                    lv.take(j as int + 1),
                    w as nat,
                ));
            }
            j += 1;
        }
        proof {
            let lv = crate::capabilities::lines_view(rows@);
            assert(lv.take(rows.len() as int) =~= lv);
            assert(tv.take(i as int + 1).drop_last() =~= tv.take(i as int));
            assert(tv.take(i as int + 1).last() == app.transcript@[i as int]@);
            assert(crate::capabilities::lines_view(out@) =~= transcript_rows(tv.take(i as int + 1), w as nat));
        }
        i += 1;
    }
    assert(tv.take(app.transcript.len() as int) =~= tv);
    if out.len() == 0 {
        out.push("(no messages yet)".to_owned());
        assert(crate::capabilities::lines_view(out@) =~= seq!["(no messages yet)"@]);
    }
    out
}

/// A text cut to `max` bytes: kept when it fits, else its first `max - 1`
/// bytes and an ellipsis.
pub open spec fn truncated(s: Seq<char>, max: nat) -> Seq<char> {
    if byte_len(s) <= max {
        s
    } else {
        s.take(span_end(s, 0, sat_sub(max, 1))->0) + "\u{2026}"@
    }
}

/// Cuts a text to `max` bytes (see [`truncated`]); the cut must fall on a
/// character boundary.
pub fn truncate(s: &str, max: usize) -> (r: String)
    requires
        byte_len(s@) > max ==> span_end(s@, 0, sat_sub(max as nat, 1)) is Some,
    ensures
        r@ == truncated(s@, max as nat),
{
    let c = chars_of(s);
    let n = chars_bytes_wide(c.as_slice());
    if n <= max as u128 {
        return s.to_owned();
    }
    let cut: usize = if max >= 1 {
        max - 1
    } else {
        0
    };
    match span_end_exec(c.as_slice(), 0, cut as u128) {
        Some(k) => {
            let mut v = crate::text::slice_to_vec(c.as_slice(), 0, k);
            crate::text::push_str(&mut v, "\u{2026}");
            assert(c@.subrange(0, k as int) =~= c@.take(k as int));
            string_of(v.as_slice())
        },
        None => s.to_owned(),
    }
}

/// Which rows of the transcript are shown, as `[start, end)`; `None` when
/// there is nothing to show (a placeholder is shown instead). Following
/// shows everything; otherwise the rows above the scroll offset (which is
/// kept below the row count).
pub fn compute_visible(total: usize, follow: bool, scroll_offset: usize) -> (r: Option<(usize, usize)>)
    ensures
        total == 0 ==> r is None,
        total > 0 ==> r == Some(
            (
                0usize,
                if follow {
                    total
                } else {
                    (total - min_nat(scroll_offset as nat, (total - 1) as nat)) as usize
                },
            ),
        ),
{
    if total == 0 {
        return None;
    }
    if follow {
        return Some((0, total));
    }
    let max = total - 1;
    let eff = if scroll_offset < max {
        scroll_offset
    } else {
        max
    };
    Some((0, total - eff))
}


/// Keys never scroll past the top line: an offset within range stays within
/// range, and keys do not change the transcript's length.
pub proof fn law_scroll_stays_in_range(v: UiView, key: KeyInput)
    requires
        v.scroll <= max_scroll(v.lines),
    ensures
        key_step(v, key).0.lines == v.lines,
        key_step(v, key).0.scroll <= max_scroll(v.lines),
{
}

/// Enter without a popup submits exactly the typed line and empties the
/// input.
pub proof fn law_enter_submits_line(v: UiView)
    requires
        v.completion is None,
    ensures
        key_step(v, KeyInput { code: KeyCode::Enter, ctrl: false }).0.pending == Some(v.input),
        key_step(v, KeyInput { code: KeyCode::Enter, ctrl: false }).0.input == Seq::<char>::empty(),
        key_step(v, KeyInput { code: KeyCode::Enter, ctrl: false }).0.cursor == 0,
{
}

/// The transcript after a run of text deltas.
pub open spec fn with_deltas(t: Seq<LineView>, started: bool, texts: Seq<Seq<char>>) -> Seq<LineView>
    decreases texts.len(),
{
    if texts.len() == 0 {
        t
    } else {
        with_deltas(with_delta(t, started, texts[0]), true, texts.drop_first())
    }
}

/// The texts, concatenated.
pub open spec fn concat(texts: Seq<Seq<char>>) -> Seq<char>
    decreases texts.len(),
{
    if texts.len() == 0 {
        Seq::empty()
    } else {
        texts[0] + concat(texts.drop_first())
    }
}

proof fn lemma_deltas_extend(t: Seq<LineView>, prefix: Seq<char>, texts: Seq<Seq<char>>)
    ensures
        with_deltas(t.push(LineView::Assistant(prefix)), true, texts) == t.push(
            LineView::Assistant(prefix + concat(texts)),
        ),
    decreases texts.len(),
{
    if texts.len() == 0 {
        assert(prefix + Seq::<char>::empty() =~= prefix);
    } else {
        let b = t.push(LineView::Assistant(prefix));
        assert(b.last() == LineView::Assistant(prefix));
        assert(with_delta(b, true, texts[0]) =~= t.push(LineView::Assistant(prefix + texts[0])));
        lemma_deltas_extend(t, prefix + texts[0], texts.drop_first());
        assert(prefix + texts[0] + concat(texts.drop_first()) =~= prefix + concat(texts));
    }
}

/// The deltas of a turn make one assistant line: from the turn's start,
/// applying text deltas in order appends a single assistant line holding
/// their concatenation.
pub proof fn law_deltas_make_one_line(t: Seq<LineView>, texts: Seq<Seq<char>>)
    requires
        texts.len() > 0,
    ensures
        with_deltas(t, false, texts) == t.push(LineView::Assistant(concat(texts))),
{
    let b = t.push(LineView::Assistant(Seq::empty()));
    assert(b.last() == LineView::Assistant(Seq::<char>::empty()));
    assert(with_delta(t, false, texts[0]) =~= t.push(LineView::Assistant(Seq::<char>::empty() + texts[0])));
    lemma_deltas_extend(t, Seq::<char>::empty() + texts[0], texts.drop_first());
    assert(Seq::<char>::empty() + texts[0] + concat(texts.drop_first()) =~= concat(texts));
}

/// The pieces, concatenated.
pub open spec fn joined(pieces: Seq<Seq<char>>) -> Seq<char>
    decreases pieces.len(),
{
    if pieces.len() == 0 {
        Seq::empty()
    } else {
        pieces[0] + joined(pieces.drop_first())
    }
}

proof fn lemma_chunks(s: Seq<char>, width: nat)
    requires
        width > 0,
    ensures
        joined(chunks(s, width)) == s,
        forall|i: int| 0 <= i < chunks(s, width).len() ==> 0 < #[trigger] chunks(s, width)[i].len() <= width,
    decreases s.len(),
{
    if s.len() == 0 {
    } else if s.len() <= width {
        assert(chunks(s, width) =~= seq![s]);
        assert(seq![s].drop_first() =~= Seq::<Seq<char>>::empty());
        assert(joined(seq![s]) =~= s + joined(Seq::<Seq<char>>::empty()));
    } else {
        let rest = chunks(s.skip(width as int), width);
        lemma_chunks(s.skip(width as int), width);
        let c = seq![s.take(width as int)] + rest;
        assert(chunks(s, width) == c);
        assert(c.drop_first() =~= rest);
        assert(joined(c) == s.take(width as int) + joined(rest));
        assert(s.take(width as int) + s.skip(width as int) =~= s);
        assert forall|i: int| 0 <= i < c.len() implies 0 < #[trigger] c[i].len() <= width by {
            if i > 0 {
                assert(c[i] == rest[i - 1]);
            }
        }
    }
}

/// Wrapping loses and adds nothing: the pieces put together are the text,
/// and at a width above zero no piece is wider than the width, except a
/// text that fits, which is kept whole.
pub proof fn law_wrap_keeps_text(s: Seq<char>, width: nat)
    requires
        width > 0,
    ensures
        joined(wrapped(s, width)) == s,
        forall|i: int| 0 <= i < wrapped(s, width).len() ==> #[trigger] wrapped(s, width)[i].len() <= width,
{
    if s.len() <= width {
        assert(wrapped(s, width) =~= seq![s]);
        assert(seq![s].drop_first() =~= Seq::<Seq<char>>::empty());
        assert(joined(seq![s]) =~= s + joined(Seq::<Seq<char>>::empty()));
    } else {
        lemma_chunks(s, width);
    }
}

} // verus!
