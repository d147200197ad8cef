//! The text side of the `read` tool: numbered lines of a file, a window of
//! them, within the tool-output limits.
use vstd::prelude::*;

use crate::bash::{MAX_BYTES, MAX_LINES};
use crate::model::ToolSpec;
use crate::text::{
    byte_len, char_bytes, char_len_utf8, chars_of, dec, dec_u64, join, lemma_byte_len_concat,
    lemma_byte_len_push, lemma_byte_len_prefix, lines, push_all, push_str, split_lines, string_of,
};

verus! {

/// The `read` tool, reading below a workspace directory.
pub struct ReadTool {
    pub workspace: String,
}

impl ReadTool {
    pub fn new(workspace: String) -> (t: Self)
        ensures
            t.workspace == workspace,
    {
        ReadTool { workspace }
    }
}

/// Spaces that right-align a rendering in a field of 6 (`{:>6}`).
pub open spec fn pad6(d: Seq<char>) -> Seq<char> {
    if d.len() < 6 {
        Seq::new((6 - d.len()) as nat, |i: int| ' ')
    } else {
        Seq::empty()
    }
}

/// One output line: `{number:>6}\t{line}`.
pub open spec fn numbered(n: nat, line: Seq<char>) -> Seq<char> {
    pad6(dec(n)) + dec(n) + seq!['\t'] + line
}

/// Number of lines shown from index `i` on, having shown lines `start..i`
/// that took `used` bytes: lines are shown up to `end`, until one would
/// exceed `MAX_BYTES` (the first line is always shown) or `MAX_LINES` are
/// shown.
pub open spec fn shown_count(ls: Seq<Seq<char>>, start: int, end: int, i: int, used: nat) -> int
    decreases end - i,
{
    if i >= end {
        i - start
    } else {
        let b = byte_len(numbered((i + 1) as nat, ls[i]));
        if used + b > MAX_BYTES && i > start {
            i - start
        } else if i - start + 1 >= MAX_LINES {
            i - start + 1
        } else {
            shown_count(ls, start, end, i + 1, used + b)
        }
    }
}

/// The numbered lines `start..start + k`.
pub open spec fn numbered_lines(ls: Seq<Seq<char>>, start: int, k: int) -> Seq<Seq<char>> {
    Seq::new(k as nat, |j: int| numbered((start + j + 1) as nat, ls[start + j]))
}

/// First line shown (0-based): `offset` counts from 1 and defaults to 1.
pub open spec fn window_start(offset: Option<usize>, total: int) -> int {
    let o: int = match offset {
        Some(o) => o as int,
        None => 1,
    };
    let s = if o > 0 {
        o - 1
    } else {
        0
    };
    if s < total {
        s
    } else {
        total
    }
}

/// One past the last line of the window.
pub open spec fn window_end(start: int, limit: Option<usize>, total: int) -> int {
    match limit {
        Some(l) => if start + l < total {
            start + l
        } else {
            total
        },
        None => total,
    }
}

/// What `read` returns for a file's content: the numbered lines of the
/// window, within the limits, followed by a hint to continue when lines
/// after them were not shown.
pub open spec fn read_output(content: Seq<char>, offset: Option<usize>, limit: Option<usize>) -> Seq<
    char,
> {
    let ls = lines(content);
    let total = ls.len() as int;
    if total == 0 {
        Seq::empty()
    } else {
        let start = window_start(offset, total);
        let end = window_end(start, limit, total);
        let k = shown_count(ls, start, end, start, 0);
        let body = join(numbered_lines(ls, start, k), seq!['\n']);
        let shown_end = start + k;
        if shown_end < total {
            body + "\n\n[Showing lines "@ + dec((start + 1) as nat) + seq!['-'] + dec(
                shown_end as nat,
            ) + " of "@ + dec(total as nat) + ". Use offset="@ + dec((shown_end + 1) as nat)
                + " to continue.]"@
        } else {
            body
        }
    }
}

proof fn lemma_join_starts_with_first(parts: Seq<Seq<char>>, sep: Seq<char>)
    requires
        parts.len() >= 1,
    ensures
        parts[0].is_prefix_of(join(parts, sep)),
    decreases parts.len(),
{
    if parts.len() > 1 {
        lemma_join_starts_with_first(parts.drop_last(), sep);
        let j = join(parts.drop_last(), sep);
        assert(join(parts, sep) == j + sep + parts.last());
        assert forall|i: int| 0 <= i < parts[0].len() implies parts[0][i] == join(parts, sep)[i] by {
            assert(parts.drop_last()[0] == parts[0]);
            assert(j[i] == parts[0][i]);
        }
    }
}

/// From line `i` of the window on, at least the lines before `i` are shown,
/// and never more than the window holds; the first line of a window is
/// always shown.
proof fn lemma_shown_count_bounds(ls: Seq<Seq<char>>, start: int, end: int, i: int, used: nat)
    requires
        start <= i <= end,
    ensures
        i - start <= shown_count(ls, start, end, i, used) <= end - start,
        i == start && start < end ==> shown_count(ls, start, end, i, used) >= 1,
    decreases end - i,
{
    if i < end {
        let b = byte_len(numbered((i + 1) as nat, ls[i]));
        lemma_shown_count_bounds(ls, start, end, i + 1, used + b);
    }
}

/// Every line `read` shows carries its own line number in the file: the
/// `j`-th line shown is the file's line `n = start + j + 1` (counting from 1),
/// rendered as `n` right-aligned in six columns, a tab, and that line; the
/// output begins with the shown lines joined by newlines. So with an offset
/// `o` inside the file (and a limit other than zero) the output begins with
/// line `o`, numbered `o`.
pub proof fn law_read_numbers_lines_in_the_file(content: Seq<char>, offset: Option<usize>, limit: Option<usize>)
    requires
        lines(content).len() > 0,
    ensures
        ({
            let ls = lines(content);
            let total = ls.len() as int;
            let start = window_start(offset, total);
            let end = window_end(start, limit, total);
            let k = shown_count(ls, start, end, start, 0);
            let shown = numbered_lines(ls, start, k);
            &&& 0 <= k <= end - start
            &&& forall|j: int|
                #![trigger shown[j]]
                0 <= j < k ==> shown[j] == pad6(dec((start + j + 1) as nat)) + dec(
                    (start + j + 1) as nat,
                ) + seq!['\t'] + ls[start + j]
            &&& join(shown, seq!['\n']).is_prefix_of(read_output(content, offset, limit))
            &&& offset matches Some(o) ==> (1 <= o <= total && limit != Some(0usize) ==> (pad6(
                dec(o as nat),
            ) + dec(o as nat) + seq!['\t'] + ls[o - 1]).is_prefix_of(
                read_output(content, offset, limit),
            ))
        }),
{
    let ls = lines(content);
    let total = ls.len() as int;
    let start = window_start(offset, total);
    let end = window_end(start, limit, total);
    let k = shown_count(ls, start, end, start, 0);
    let shown = numbered_lines(ls, start, k);
    lemma_shown_count_bounds(ls, start, end, start, 0);
    let body = join(shown, seq!['\n']);
    let out = read_output(content, offset, limit);
    assert(body.is_prefix_of(out)) by {
        if start + k < total {
            let tail = out.skip(body.len() as int);
            assert(out == body + ("\n\n[Showing lines "@ + dec((start + 1) as nat) + seq!['-'] + dec(
                (start + k) as nat,
            ) + " of "@ + dec(total as nat) + ". Use offset="@ + dec((start + k + 1) as nat)
                + " to continue.]"@));
        }
    }
    if let Some(o) = offset {
        if 1 <= o <= total && limit != Some(0usize) {
            assert(start == o - 1);
            assert(start < end);
            assert(k >= 1);
            lemma_join_starts_with_first(shown, seq!['\n']);
            assert(shown[0] == numbered(o as nat, ls[o - 1]));
        }
    }
}

fn numbered_exec(n: usize, line: &[char]) -> (r: Vec<char>)
    ensures
        r@ == numbered(n as nat, line@),
{
    let d = dec_u64(n as u64);
    let mut r: Vec<char> = Vec::new();
    let mut pad: usize = if d.len() < 6 {
        6 - d.len()
    } else {
        0
    };
    let ghost p = pad;
    while pad > 0
        invariant
            pad <= p,
            r@ == Seq::new((p - pad) as nat, |i: int| ' '),
        decreases pad,
    {
        r.push(' ');
        assert(r@ =~= Seq::new((p - pad + 1) as nat, |i: int| ' '));
        pad -= 1;
    }
    assert(r@ =~= pad6(dec(n as nat)));
    let ghost r0 = r@;
    push_all(&mut r, d.as_slice());
    assert(r@ == r0 + dec(n as nat));
    let ghost r1 = r@;
    r.push('\t');
    assert(r@ =~= r1 + seq!['\t']);
    let ghost r2 = r@;
    push_all(&mut r, line);
    assert(r@ == r2 + line@);
    assert(r@ =~= numbered(n as nat, line@));
    r
}

/// Byte length of `s` when it is within `budget`.
fn bytes_within(s: &[char], budget: usize) -> (r: Option<usize>)
    ensures
        match r {
            Some(n) => n == byte_len(s@) && n <= budget,
            None => byte_len(s@) > budget,
        },
{
    let mut n: usize = 0;
    let mut i: usize = 0;
    while i < s.len()
        invariant
            i <= s.len(),
            n == byte_len(s@.take(i as int)),
            n <= budget,
        decreases s.len() - i,
    {
        let w = char_len_utf8(s[i]);
        proof {
            assert(s@.take(i as int + 1) =~= s@.take(i as int).push(s@[i as int]));
            lemma_byte_len_push(s@.take(i as int), s@[i as int]);
            lemma_byte_len_prefix(s@, i as int + 1);
        }
        if w > budget - n {
            return None;
        }
        n = n + w;
        i += 1;
    }
    assert(s@.take(s.len() as int) =~= s@);
    Some(n)
}

/// Renders what `read` returns for a file's content (see [`read_output`]).
pub fn render_read(content: &str, offset: Option<usize>, limit: Option<usize>) -> (r: String)
    ensures
        r@ == read_output(content@, offset, limit),
{
    let chars = chars_of(content);
    let ls = split_lines(chars.as_slice());
    let ghost l = lines(content@);
    let total = ls.len();
    if total == 0 {
        return String::new();
    }
    let o = match offset {
        Some(o) => o,
        None => 1,
    };
    let s0 = if o > 0 {
        o - 1
    } else {
        0
    };
    let start = if s0 < total {
        s0
    } else {
        total
    };
    let end = match limit {
        Some(lim) => if lim < total - start {
            start + lim
        } else {
            total
        },
        None => total,
    };
    assert(start == window_start(offset, total as int));
    assert(end == window_end(start as int, limit, total as int));
    let mut out: Vec<Vec<char>> = Vec::new();
    // Bytes shown so far, saturated just past the limit.
    let mut used: usize = 0;
    let ghost mut used_exact: nat = 0;
    let mut i = start;
    while i < end
        invariant_except_break
            i - start < MAX_LINES,
            shown_count(l, start as int, end as int, start as int, 0) == shown_count(
                l,
                start as int,
                end as int,
                i as int,
                used_exact,
            ),
        invariant
            start <= i <= end <= total,
            total == l.len(),
            ls.deep_view() == l,
            out@.len() == i - start,
            out.deep_view() == numbered_lines(l, start as int, (i - start) as int),
            used <= MAX_BYTES + 1,
            used == (if used_exact > MAX_BYTES {
                MAX_BYTES + 1
            } else {
                used_exact as int
            }),
        ensures
            start <= i <= end,
            out.deep_view() == numbered_lines(l, start as int, (i - start) as int),
            shown_count(l, start as int, end as int, start as int, 0) == i - start,
        decreases end - i,
    {
        assert(ls.deep_view()[i as int] == ls[i as int]@);
        let f = numbered_exec(i + 1, ls[i].as_slice());
        let budget = if used <= MAX_BYTES {
            MAX_BYTES - used
        } else {
            0
        };
        let fits = bytes_within(f.as_slice(), budget);
        let ghost b = byte_len(f@);
        let exceeds = used > MAX_BYTES || fits.is_none();
        assert(exceeds == (used_exact + b > MAX_BYTES));
        if exceeds && i > start {
            break;
        }
        let ghost old_out = out.deep_view();
        assert(f.deep_view() =~= f@);
        out.push(f);
        assert(out.deep_view() =~= old_out.push(f@));
        assert(out.deep_view() =~= numbered_lines(l, start as int, (i + 1 - start) as int));
        used = match fits {
            Some(n) => if used <= MAX_BYTES {
                used + n
            } else {
                MAX_BYTES + 1
            },
            None => MAX_BYTES + 1,
        };
        proof {
            used_exact = used_exact + b;
        }
        if i - start + 1 >= MAX_LINES {
            i = i + 1;
            break;
        }
        i = i + 1;
    }
    let shown_end = i;
    let mut sep: Vec<char> = Vec::new();
    sep.push('\n');
    let body = crate::text::join_from(&out, 0, sep.as_slice());
    assert(out.deep_view().skip(0) =~= out.deep_view());
    let mut v = body;
    if shown_end < total {
        push_str(&mut v, "\n\n[Showing lines ");
        let a = dec_u64((start + 1) as u64);
        push_all(&mut v, a.as_slice());
        v.push('-');
        let b = dec_u64(shown_end as u64);
        push_all(&mut v, b.as_slice());
        push_str(&mut v, " of ");
        let c = dec_u64(total as u64);
        push_all(&mut v, c.as_slice());
        push_str(&mut v, ". Use offset=");
        let d = dec_u64((shown_end + 1) as u64);
        push_all(&mut v, d.as_slice());
        push_str(&mut v, " to continue.]");
    }
    assert(v@ =~= read_output(content@, offset, limit));
    string_of(v.as_slice())
}


impl ReadTool {
    /// The tool as offered to the model.
    pub fn spec(&self) -> (s: ToolSpec)
        ensures
            s.name@ == "read"@,
            s.description@ == "Read file contents. Supports text files."@,
            s.parameters@ == "{\"type\":\"object\",\"properties\":{\"path\":{\"type\":\"string\",\"description\":\"Path to the file to read\"},\"offset\":{\"type\":\"number\",\"description\":\"Line number to start reading from (1-indexed)\"},\"limit\":{\"type\":\"number\",\"description\":\"Maximum number of lines to read\"}},\"required\":[\"path\"]}"@,
    {
        ToolSpec {
            name: "read".to_owned(),
            description: "Read file contents. Supports text files.".to_owned(),
            parameters: "{\"type\":\"object\",\"properties\":{\"path\":{\"type\":\"string\",\"description\":\"Path to the file to read\"},\"offset\":{\"type\":\"number\",\"description\":\"Line number to start reading from (1-indexed)\"},\"limit\":{\"type\":\"number\",\"description\":\"Maximum number of lines to read\"}},\"required\":[\"path\"]}".to_owned(),
        }
    }
}

} // verus!
