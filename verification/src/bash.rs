//! The text side of the `bash` tool: keeping the tail of long command output
//! and rendering a command's result.
use vstd::prelude::*;

use crate::model::{ToolError, ToolResult, ToolSpec};
use crate::text::{
    byte_len, char_bytes, char_len_utf8, chars_of, dec, dec_u64, join, join_from, lemma_byte_len_push,
    lemma_byte_len_prefix, lines, push_all, push_str, split_lines, string_of,
};

verus! {

/// Most lines of output a tool result keeps.
pub const MAX_LINES: usize = 2000;

/// Most bytes of output a tool result keeps.
pub const MAX_BYTES: usize = 51200;

/// The `bash` tool, run in a workspace directory.
pub struct BashTool {
    pub workspace: String,
}

impl BashTool {
    pub fn new(workspace: String) -> (t: Self)
        ensures
            t.workspace == workspace,
    {
        BashTool { workspace }
    }
}

/// Bytes that the lines from `i` on take, each counted with one newline.
pub open spec fn suffix_bytes(ls: Seq<Seq<char>>, i: int) -> nat
    decreases ls.len() - i,
{
    if i < 0 || i >= ls.len() {
        0
    } else {
        byte_len(ls[i]) + 1 + suffix_bytes(ls, i + 1)
    }
}

/// Scanning back from line `i`, the first line from which on the tail still
/// fits in `MAX_BYTES`: the smallest `k <= i` with every suffix from `k` to
/// `i` fitting, or `i` when line `i - 1` already overflows.
pub open spec fn fit_start(ls: Seq<Seq<char>>, i: int) -> int
    decreases i,
{
    if i <= 0 {
        0
    } else if suffix_bytes(ls, i - 1) > MAX_BYTES {
        i
    } else {
        fit_start(ls, i - 1)
    }
}

/// The first line kept when output is truncated: the byte budget from the
/// end, and no more than `MAX_LINES` lines.
pub open spec fn keep_from(ls: Seq<Seq<char>>) -> int {
    let by_bytes = fit_start(ls, ls.len() as int);
    let by_lines = if ls.len() > MAX_LINES {
        ls.len() - MAX_LINES
    } else {
        0
    };
    if by_bytes > by_lines {
        by_bytes
    } else {
        by_lines
    }
}

/// `tail_truncate`: output within both limits is returned as it is;
/// otherwise its last lines within the limits are joined with `'\n'`, behind
/// a notice of how many lines were left out when any were.
pub open spec fn tail_truncated(s: Seq<char>) -> Seq<char> {
    let ls = lines(s);
    if ls.len() <= MAX_LINES && byte_len(s) <= MAX_BYTES {
        s
    } else {
        let k = keep_from(ls);
        (if k > 0 {
            "[Truncated "@ + dec(k as nat) + " lines.]\n\n"@
        } else {
            Seq::empty()
        }) + join(ls.skip(k), "\n"@)
    }
}

/// A tail that starts later takes no more bytes.
proof fn lemma_suffix_bytes_shrink(ls: Seq<Seq<char>>, i: int, j: int)
    requires
        0 <= i <= j,
    ensures
        suffix_bytes(ls, j) <= suffix_bytes(ls, i),
    decreases j - i,
{
    if i < j && i < ls.len() {
        lemma_suffix_bytes_shrink(ls, i + 1, j);
    }
}

/// Scanning back from a line whose tail fits ends on a line whose tail
/// fits, and the line before it, if any, would not fit.
proof fn lemma_fit_start(ls: Seq<Seq<char>>, i: int)
    requires
        0 <= i <= ls.len(),
        suffix_bytes(ls, i) <= MAX_BYTES,
    ensures
        0 <= fit_start(ls, i) <= i,
        suffix_bytes(ls, fit_start(ls, i)) <= MAX_BYTES,
        fit_start(ls, i) > 0 ==> suffix_bytes(ls, fit_start(ls, i) - 1) > MAX_BYTES,
    decreases i,
{
    if i > 0 && suffix_bytes(ls, i - 1) <= MAX_BYTES {
        lemma_fit_start(ls, i - 1);
    }
}

/// What long output keeps: a tail of whole lines that takes at most
/// `MAX_BYTES` bytes (each line counted with its newline) and at most
/// `MAX_LINES` lines, and no shorter than it has to be: when lines are left
/// out, taking one more would break one of the two limits. The result is
/// the notice of how many lines were left out, when any were, followed by
/// the kept lines joined with newlines.
pub proof fn law_tail_fits_the_limits(s: Seq<char>)
    requires
        lines(s).len() > MAX_LINES || byte_len(s) > MAX_BYTES,
    ensures
        ({
            let ls = lines(s);
            let k = keep_from(ls);
            &&& 0 <= k <= ls.len()
            &&& suffix_bytes(ls, k) <= MAX_BYTES
            &&& ls.len() - k <= MAX_LINES
            &&& k > 0 ==> (suffix_bytes(ls, k - 1) > MAX_BYTES || ls.len() - (k - 1) > MAX_LINES)
            &&& tail_truncated(s) == (if k > 0 {
                "[Truncated "@ + dec(k as nat) + " lines.]\n\n"@
            } else {
                Seq::empty()
            }) + join(ls.skip(k), "\n"@)
        }),
{
    let ls = lines(s);
    let n = ls.len() as int;
    assert(suffix_bytes(ls, n) == 0);
    lemma_fit_start(ls, n);
    let b = fit_start(ls, n);
    let k = keep_from(ls);
    lemma_suffix_bytes_shrink(ls, b, k);
}

/// Whether `s` takes at most `budget` bytes; when it does, its byte length.
fn bytes_within(s: &[char], budget: usize) -> (r: Option<usize>)
    ensures
        match r {
            Some(n) => n == byte_len(s@) && n <= budget,
            None => byte_len(s@) > budget,
        },
{
    let mut n: usize = 0;
    let mut i: usize = 0;
    while i < s.len()
        invariant
            i <= s.len(),
            n == byte_len(s@.take(i as int)),
            n <= budget,
        decreases s.len() - i,
    {
        let w = char_len_utf8(s[i]);
        proof {
            assert(s@.take(i as int + 1) =~= s@.take(i as int).push(s@[i as int]));
            lemma_byte_len_push(s@.take(i as int), s@[i as int]);
            lemma_byte_len_prefix(s@, i as int + 1);
        }
        if w > budget - n {
            return None;
        }
        n = n + w;
        i += 1;
    }
    assert(s@.take(s.len() as int) =~= s@);
    Some(n)
}

proof fn lemma_fit_start_step(ls: Seq<Seq<char>>, i: int)
    requires
        0 < i <= ls.len(),
        suffix_bytes(ls, i - 1) <= MAX_BYTES,
    ensures
        fit_start(ls, i) == fit_start(ls, i - 1),
{
}

/// Keeps the tail of long command output (see [`tail_truncated`]).
pub fn tail_truncate(output: &str) -> (r: String)
    ensures
        r@ == tail_truncated(output@),
{
    let chars = chars_of(output);
    let ls = split_lines(chars.as_slice());
    let ghost l = lines(output@);
    let total = ls.len();
    if total <= MAX_LINES {
        match bytes_within(chars.as_slice(), MAX_BYTES) {
            Some(_) => {
                return string_of(chars.as_slice());
            },
            None => {},
        }
    }
    let mut byte_count: usize = 0;
    let mut start = total;
    // Scan back from the last line while the tail still fits.
    while start > 0
        invariant
            start <= total,
            total == l.len(),
            ls.deep_view() == l,
            byte_count == suffix_bytes(l, start as int),
            byte_count <= MAX_BYTES,
            fit_start(l, total as int) == fit_start(l, start as int),
        ensures
            start <= total,
            start == fit_start(l, total as int),
        decreases start,
    {
        let i = start - 1;
        assert(ls.deep_view()[i as int] == ls[i as int]@);
        match bytes_within(ls[i].as_slice(), MAX_BYTES - byte_count) {
            Some(n) => {
                if n + 1 > MAX_BYTES - byte_count {
                    assert(suffix_bytes(l, i as int) == n + 1 + byte_count);
                    break;
                }
                byte_count = byte_count + n + 1;
                proof {
                    lemma_fit_start_step(l, start as int);
                }
                start = i;
            },
            None => {
                assert(suffix_bytes(l, i as int) > MAX_BYTES);
                break;
            },
        }
    }
    let min_start = if total > MAX_LINES {
        total - MAX_LINES
    } else {
        0
    };
    if start < min_start {
        start = min_start;
    }
    assert(start == keep_from(l));
    let mut sep: Vec<char> = Vec::new();
    sep.push('\n');
    let body = join_from(&ls, start, sep.as_slice());
    assert(seq!['\n'] =~= "\n"@) by {
        reveal_strlit("\n");
    }
    assert(body@ == join(l.skip(start as int), "\n"@));
    assert(!(l.len() <= MAX_LINES && byte_len(output@) <= MAX_BYTES));
    let mut out: Vec<char> = Vec::new();
    if start > 0 {
        push_str(&mut out, "[Truncated ");
        let digits = dec_u64(start as u64);
        push_all(&mut out, digits.as_slice());
        push_str(&mut out, " lines.]\n\n");
    }
    push_all(&mut out, body.as_slice());
    assert(out@ =~= tail_truncated(output@));
    string_of(out.as_slice())
}

/// The decimal rendering of an exit code, with a minus sign when negative.
pub open spec fn dec_i32(c: i32) -> Seq<char> {
    if c < 0 {
        seq!['-'] + dec((-c) as nat)
    } else {
        dec(c as nat)
    }
}

fn dec_i32_exec(c: i32) -> (r: Vec<char>)
    ensures
        r@ == dec_i32(c),
{
    if c < 0 {
        let m: u64 = (0i64 - (c as i64)) as u64;
        let mut r = Vec::new();
        r.push('-');
        let d = dec_u64(m);
        push_all(&mut r, d.as_slice());
        r
    } else {
        dec_u64(c as u64)
    }
}

/// The text `String::from_utf8_lossy` decodes from bytes: invalid sequences
/// become U+FFFD.
pub uninterp spec fn utf8_lossy(bytes: Seq<u8>) -> Seq<char>;

/// `String::from_utf8_lossy`, made owned. Claimed: the text is
/// `utf8_lossy` of the bytes (a function of them alone), and for valid
/// UTF-8 it is the decoding of the bytes, as std documents.
#[verifier::external_body]
fn decode_lossy(bytes: &[u8]) -> (s: String)
    ensures
        s@ == utf8_lossy(bytes@),
        vstd::utf8::valid_utf8(bytes@) ==> s@ == vstd::utf8::decode_utf8(bytes@),
{
    String::from_utf8_lossy(bytes).into_owned()
}

/// Standard output followed by standard error, with a newline between them
/// when the first does not end in one.
pub open spec fn combined_output(out: Seq<char>, err: Seq<char>) -> Seq<char> {
    if err.len() == 0 {
        out
    } else if out.len() > 0 && out.last() != '\n' {
        out + seq!['\n'] + err
    } else {
        out + err
    }
}

/// The result of a finished command: combined output, tail-truncated; a
/// non-zero exit code (but not a kill by signal, which has none) makes it an
/// error and is reported after the output.
pub open spec fn command_result(out: Seq<char>, err: Seq<char>, exit_code: Option<i32>) -> (
    Seq<char>,
    bool,
) {
    let text = tail_truncated(combined_output(out, err));
    match exit_code {
        Some(c) => if c != 0 {
            (text + "\n\nCommand exited with code "@ + dec_i32(c), true)
        } else {
            (text, false)
        },
        None => (text, false),
    }
}

/// Renders a finished command into a tool result (see [`command_result`]).
pub fn render_result(stdout: &[u8], stderr: &[u8], exit_code: Option<i32>) -> (r: ToolResult)
    ensures
        (r.content@, r.is_error) == command_result(
            utf8_lossy(stdout@),
            utf8_lossy(stderr@),
            exit_code,
        ),
        vstd::utf8::valid_utf8(stdout@) && vstd::utf8::valid_utf8(stderr@) ==> (r.content@, r.is_error)
            == command_result(
            vstd::utf8::decode_utf8(stdout@),
            vstd::utf8::decode_utf8(stderr@),
            exit_code,
        ),
{
    let out = decode_lossy(stdout);
    let err = decode_lossy(stderr);
    let mut combined = chars_of(out.as_str());
    let err_chars = chars_of(err.as_str());
    if err_chars.len() > 0 {
        if combined.len() > 0 && combined[combined.len() - 1] != '\n' {
            combined.push('\n');
        }
        push_all(&mut combined, err_chars.as_slice());
    }
    assert(combined@ =~= combined_output(out@, err@));
    let c = string_of(combined.as_slice());
    let truncated = tail_truncate(c.as_str());
    match exit_code {
        Some(code) => {
            if code != 0 {
                let mut v = chars_of(truncated.as_str());
                push_str(&mut v, "\n\nCommand exited with code ");
                let d = dec_i32_exec(code);
                push_all(&mut v, d.as_slice());
                return ToolResult { content: string_of(v.as_slice()), is_error: true };
            }
        },
        None => {},
    }
    ToolResult { content: truncated, is_error: false }
}


/// What waiting on the command found.
#[derive(Debug)]
pub enum WaitState {
    /// It ended, with this exit code (none when killed by a signal).
    Exited(Option<i32>),
    /// It is still running.
    Running,
    /// Waiting failed with this error.
    Failed(String),
}

/// What to do next while a command runs.
#[derive(Debug)]
pub enum PollAction {
    /// Collect its output and render the result with this exit code.
    Collect(Option<i32>),
    /// Kill it and fail with this error.
    Stop(ToolError),
    /// Sleep and look again.
    Sleep,
}

/// One look at a running command: an ended command is collected; a failed
/// wait, an abort by the user or a passed deadline (given with its length in
/// seconds) stop it; otherwise wait on.
pub fn poll_step(state: WaitState, aborted: bool, deadline: Option<(bool, u64)>) -> (a: PollAction)
    ensures
        match state {
            WaitState::Exited(code) => a matches PollAction::Collect(c) && c == code,
            WaitState::Failed(e) => a matches PollAction::Stop(ToolError::Execution(m)) && m@
                == "Failed to wait for command: "@ + e@,
            WaitState::Running => if aborted {
                a matches PollAction::Stop(ToolError::Execution(m)) && m@ == "aborted by user"@
            } else {
                match deadline {
                    Some((true, secs)) => a matches PollAction::Stop(ToolError::Timeout(m)) && m@
                        == timeout_msg(secs),
                    _ => a is Sleep,
                }
            },
        },
{
    match state {
        WaitState::Exited(code) => PollAction::Collect(code),
        WaitState::Failed(e) => PollAction::Stop(execution_error("Failed to wait for command: ", e.as_str())),
        WaitState::Running => {
            if aborted {
                return PollAction::Stop(ToolError::Execution("aborted by user".to_owned()));
            }
            match deadline {
                Some((true, secs)) => PollAction::Stop(timed_out(secs)),
                _ => PollAction::Sleep,
            }
        },
    }
}

/// The message of a command that ran out of time.
pub open spec fn timeout_msg(secs: u64) -> Seq<char> {
    "Command timed out after "@ + dec(secs as nat) + " seconds"@
}

/// The error of a command that ran out of time.
pub fn timed_out(secs: u64) -> (e: ToolError)
    ensures
        e matches ToolError::Timeout(m) && m@ == timeout_msg(secs),
{
    let mut v: Vec<char> = Vec::new();
    push_str(&mut v, "Command timed out after ");
    let d = dec_u64(secs);
    push_all(&mut v, d.as_slice());
    push_str(&mut v, " seconds");
    ToolError::Timeout(string_of(v.as_slice()))
}

/// A failure of the tool's work: the two texts joined.
pub fn execution_error(what: &str, detail: &str) -> (e: ToolError)
    ensures
        e matches ToolError::Execution(m) && m@ == what@ + detail@,
{
    let mut v: Vec<char> = Vec::new();
    push_str(&mut v, what);
    push_str(&mut v, detail);
    ToolError::Execution(string_of(v.as_slice()))
}

/// A failure to read or write a file: `Failed to {verb} {path}: {error}`.
pub fn file_error(verb: &str, path: &str, error: &str) -> (e: ToolError)
    ensures
        e matches ToolError::Execution(m) && m@ == "Failed to "@ + verb@ + " "@ + path@ + ": "@
            + error@,
{
    let mut v: Vec<char> = Vec::new();
    push_str(&mut v, "Failed to ");
    push_str(&mut v, verb);
    push_str(&mut v, " ");
    push_str(&mut v, path);
    push_str(&mut v, ": ");
    push_str(&mut v, error);
    ToolError::Execution(string_of(v.as_slice()))
}

impl BashTool {
    /// The tool as offered to the model.
    pub fn spec(&self) -> (s: ToolSpec)
        ensures
            s.name@ == "bash"@,
            s.description@ == "Execute shell commands. Supports timeout."@,
            s.parameters@ == "{\"type\":\"object\",\"properties\":{\"command\":{\"type\":\"string\",\"description\":\"Shell command to execute\"},\"timeout\":{\"type\":\"number\",\"description\":\"Timeout in seconds\"}},\"required\":[\"command\"]}"@,
    {
        ToolSpec {
            name: "bash".to_owned(),
            description: "Execute shell commands. Supports timeout.".to_owned(),
            parameters: "{\"type\":\"object\",\"properties\":{\"command\":{\"type\":\"string\",\"description\":\"Shell command to execute\"},\"timeout\":{\"type\":\"number\",\"description\":\"Timeout in seconds\"}},\"required\":[\"command\"]}".to_owned(),
        }
    }
}

} // verus!
