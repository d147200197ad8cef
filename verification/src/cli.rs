//! The command line: run mode, task text and the `--stats` switch; and the
//! capacity of the event channel.
use vstd::prelude::*;

use crate::text::{join, push_str, string_of};

verus! {

/// How the agent runs.
#[derive(Debug, PartialEq, Eq)]
pub enum Mode {
    /// One task; streamed text printed as it comes.
    Print(String),
    /// One task; every event printed as a line of JSON.
    Json(String),
    /// The interactive terminal UI.
    Interactive,
}

/// The parsed command line.
#[derive(Debug, PartialEq, Eq)]
pub struct Args {
    pub mode: Mode,
    /// `--stats`: always report channel back-pressure at the end.
    pub stats: bool,
}

/// Arguments, viewed.
pub open spec fn args_view(v: Seq<String>) -> Seq<Seq<char>> {
    v.map_values(|s: String| s@)
}

/// Takes a `--stats` standing right after the mode flag, before the task
/// text; anywhere else it is part of the text.
pub fn split_stats_flag(rest: &[String]) -> (r: (bool, &[String]))
    ensures
        if rest@.len() > 0 && rest@[0]@ == "--stats"@ {
            r.0 && r.1@ == rest@.drop_first()
        } else {
            !r.0 && r.1@ == rest@
        },
{
    if rest.len() > 0 && crate::text::str_eq(rest[0].as_str(), "--stats") {
        let tail = vstd::slice::slice_subrange(rest, 1, rest.len());
        assert(tail@ =~= rest@.drop_first());
        (true, tail)
    } else {
        (false, rest)
    }
}

/// Message for a mode flag without a task.
pub open spec fn missing_task_msg(flag: Seq<char>) -> Seq<char> {
    if flag == "-p"@ {
        "-p 需要一个任务参数，例如：ys-coding-agent -p \"修复这个 bug\""@
    } else {
        "--json 需要一个任务参数，例如：ys-coding-agent --json \"修复这个 bug\""@
    }
}

/// Message for an unknown flag.
pub open spec fn unknown_flag_msg(flag: Seq<char>) -> Seq<char> {
    "未知参数："@ + flag + "（可用：-p [--stats] <任务> | --json [--stats] <任务>）"@
}

/// The task text: the arguments after the mode flag (and `--stats`),
/// joined with single spaces.
pub open spec fn task_text(argv: Seq<Seq<char>>) -> (bool, Seq<char>) {
    let rest = argv.drop_first();
    if rest.len() > 0 && rest[0] == "--stats"@ {
        (true, join(rest.drop_first(), " "@))
    } else {
        (false, join(rest, " "@))
    }
}

/// What the command line asks for. Only the first argument can be a flag;
/// the task text is kept as given.
pub open spec fn parsed_args(argv: Seq<Seq<char>>) -> Result<(Option<(bool, Seq<char>)>, bool), Seq<char>> {
    if argv.len() == 0 {
        Ok((None, false))
    } else {
        let first = argv[0];
        if first == "-p"@ || first == "--json"@ {
            let (stats, task) = task_text(argv);
            if task.len() == 0 {
                Err(missing_task_msg(first))
            } else {
                Ok((Some((first == "-p"@, task)), stats))
            }
        } else if first.len() > 0 && first[0] == '-' && first != "-"@ {
            Err(unknown_flag_msg(first))
        } else {
            Ok((None, false))
        }
    }
}

/// Joins arguments with single spaces.
fn join_args(parts: &[String]) -> (r: String)
    ensures
        r@ == join(args_view(parts@), " "@),
{
    let mut v: Vec<char> = Vec::new();
    let mut i: usize = 0;
    while i < parts.len()
        invariant
            i <= parts.len(),
            v@ == join(args_view(parts@).take(i as int), " "@),
        decreases parts.len() - i,
    {
        let ghost before = v@;
        if i > 0 {
            push_str(&mut v, " ");
        }
        push_str(&mut v, parts[i].as_str());
        proof {
            let t = args_view(parts@).take(i as int + 1);
            assert(t.drop_last() =~= args_view(parts@).take(i as int));
            assert(t.last() == parts@[i as int]@);
            if i == 0 {
                assert(t.len() == 1);
                assert(v@ =~= t[0]);
            } else {
                assert(v@ =~= before + " "@ + parts@[i as int]@);
            }
        }
        i += 1;
    }
    assert(args_view(parts@).take(parts.len() as int) =~= args_view(parts@));
    string_of(v.as_slice())
}

/// Parses the arguments after the program name (see [`parsed_args`]).
pub fn parse_args(argv: &[String]) -> (r: Result<Args, String>)
    ensures
        match parsed_args(args_view(argv@)) {
            Ok((None, _)) => r matches Ok(a) && a.mode is Interactive && !a.stats,
            Ok((Some((print, task)), stats)) => r matches Ok(a) && a.stats == stats && if print {
                a.mode matches Mode::Print(t) && t@ == task
            } else {
                a.mode matches Mode::Json(t) && t@ == task
            },
            Err(m) => r matches Err(e) && e@ == m,
        },
{
    let ghost av = args_view(argv@);
    if argv.len() == 0 {
        return Ok(Args { mode: Mode::Interactive, stats: false });
    }
    assert(av[0] == argv@[0]@);
    let first = argv[0].as_str();
    let is_p = crate::text::str_eq(first, "-p");
    let is_json = crate::text::str_eq(first, "--json");
    if is_p || is_json {
        let rest = vstd::slice::slice_subrange(argv, 1, argv.len());
        assert(args_view(rest@) =~= av.drop_first());
        let (stats, tail) = split_stats_flag(rest);
        proof {
            if rest@.len() > 0 && rest@[0]@ == "--stats"@ {
                assert(args_view(tail@) =~= av.drop_first().drop_first());
            } else {
                assert(args_view(tail@) =~= av.drop_first());
            }
        }
        let task = join_args(tail);
        if task.as_str().is_empty() {
            let mut v: Vec<char> = Vec::new();
            if is_p {
                push_str(&mut v, "-p 需要一个任务参数，例如：ys-coding-agent -p \"修复这个 bug\"");
            } else {
                push_str(
                    &mut v,
                    "--json 需要一个任务参数，例如：ys-coding-agent --json \"修复这个 bug\"",
                );
            }
            return Err(string_of(v.as_slice()));
        }
        let mode = if is_p {
            Mode::Print(task)
        } else {
            Mode::Json(task)
        };
        return Ok(Args { mode, stats });
    }
    let c = crate::text::chars_of(first);
    if c.len() > 0 && c[0] == '-' && !crate::text::str_eq(first, "-") {
        let mut v: Vec<char> = Vec::new();
        push_str(&mut v, "未知参数：");
        push_str(&mut v, first);
        push_str(&mut v, "（可用：-p [--stats] <任务> | --json [--stats] <任务>）");
        return Err(string_of(v.as_slice()));
    }
    Ok(Args { mode: Mode::Interactive, stats: false })
}

/// Channel capacity for interactive use.
pub const DEFAULT_CHANNEL_CAPACITY: usize = 1024;

/// Smallest channel capacity used.
pub const MIN_CHANNEL_CAPACITY: usize = 16;

/// A requested capacity raised to at least [`MIN_CHANNEL_CAPACITY`].
pub open spec fn clamped(requested: usize) -> usize {
    if requested < MIN_CHANNEL_CAPACITY {
        MIN_CHANNEL_CAPACITY
    } else {
        requested
    }
}

/// Raises a requested capacity to at least [`MIN_CHANNEL_CAPACITY`].
pub fn clamp_capacity(requested: usize) -> (c: usize)
    ensures
        c == clamped(requested),
{
    if requested < MIN_CHANNEL_CAPACITY {
        MIN_CHANNEL_CAPACITY
    } else {
        requested
    }
}

/// The value of a decimal digit character.
pub open spec fn digit_value(c: char) -> int {
    (c as u32) - ('0' as u32)
}

/// The number that decimal digits spell.
pub open spec fn digits_value(s: Seq<char>) -> int
    decreases s.len(),
{
    if s.len() == 0 {
        0
    } else {
        digits_value(s.drop_last()) * 10 + digit_value(s.last())
    }
}

/// All characters are ASCII digits.
pub open spec fn all_digits(s: Seq<char>) -> bool {
    forall|i: int| 0 <= i < s.len() ==> '0' <= #[trigger] s[i] <= '9'
}

/// `usize::from_str`: an optional `+`, then at least one digit, the value
/// fitting in `usize`.
pub open spec fn parsed_usize(s: Seq<char>) -> Option<int> {
    let d = if s.len() > 0 && s[0] == '+' {
        s.drop_first()
    } else {
        s
    };
    if d.len() > 0 && all_digits(d) && digits_value(d) <= usize::MAX {
        Some(digits_value(d))
    } else {
        None
    }
}

proof fn lemma_digits_nonneg(s: Seq<char>)
    requires
        all_digits(s),
    ensures
        digits_value(s) >= 0,
    decreases s.len(),
{
    if s.len() > 0 {
        assert(all_digits(s.drop_last()));
        lemma_digits_nonneg(s.drop_last());
    }
}

/// Parses a decimal `usize` (see [`parsed_usize`]).
pub fn parse_usize(s: &str) -> (r: Option<usize>)
    ensures
        match r {
            Some(k) => parsed_usize(s@) == Some(k as int),
            None => parsed_usize(s@) is None,
        },
{
    let c = crate::text::chars_of(s);
    let start: usize = if c.len() > 0 && c[0] == '+' {
        1
    } else {
        0
    };
    let ghost d = c@.skip(start as int);
    assert(start == 1 ==> d =~= c@.drop_first());
    assert(start == 0 ==> d =~= c@);
    if start >= c.len() {
        return None;
    }
    let mut n: usize = 0;
    let mut i: usize = start;
    while i < c.len()
        invariant
            start <= i <= c.len(),
            d == c@.skip(start as int),
            d == (if s@.len() > 0 && s@[0] == '+' {
                s@.drop_first()
            } else {
                s@
            }),
            d.len() > 0,
            all_digits(c@.subrange(start as int, i as int)),
            n == digits_value(c@.subrange(start as int, i as int)),
        decreases c.len() - i,
    {
        let ch = c[i];
        let ghost pre = c@.subrange(start as int, i as int);
        let ghost next = c@.subrange(start as int, i as int + 1);
        assert(next.drop_last() =~= pre);
        if !('0' <= ch && ch <= '9') {
            assert(d[i - start] == ch);
            return None;
        }
        let v = (ch as u32 - '0' as u32) as usize;
        proof {
            lemma_digits_nonneg(pre);
            assert(all_digits(next));
        }
        if n > (usize::MAX - v) / 10 {
            proof {
                assert(next.last() == ch);
                assert(digits_value(next) == n * 10 + v);
                assert(n * 10 + v > usize::MAX) by (nonlinear_arith)
                    requires
                        n > (usize::MAX - v) / 10,
                        v <= 9,
                ;
                assert(d.take(i - start + 1) =~= next);
                lemma_prefix_value_le(d, (i - start + 1) as int);
            }
            return None;
        }
        n = n * 10 + v;
        i += 1;
    }
    assert(c@.subrange(start as int, c.len() as int) =~= d);
    Some(n)
}

/// Extending digits never lowers their value.
proof fn lemma_prefix_value_le(d: Seq<char>, k: int)
    requires
        0 <= k <= d.len(),
    ensures
        all_digits(d) ==> digits_value(d.take(k)) <= digits_value(d),
    decreases d.len() - k,
{
    if k < d.len() && all_digits(d) {
        lemma_prefix_value_le(d, k + 1);
        assert(d.take(k + 1).drop_last() =~= d.take(k));
        assert(all_digits(d.take(k)));
        lemma_digits_nonneg(d.take(k));
        assert('0' <= d.take(k + 1).last() <= '9');
    }
    if k == d.len() {
        assert(d.take(k) =~= d);
    }
}

/// The channel capacity from the value of `YUSHAN_CHANNEL_CAPACITY`: a
/// positive decimal number, else the default; raised to the minimum. Gives
/// the warning to print when the value was raised.
pub fn channel_capacity_from(value: Option<&str>) -> (r: (usize, Option<String>))
    ensures
        ({
            let requested: int = match value {
                Some(v) => match parsed_usize(v@) {
                    Some(n) => if n > 0 {
                        n
                    } else {
                        DEFAULT_CHANNEL_CAPACITY as int
                    },
                    None => DEFAULT_CHANNEL_CAPACITY as int,
                },
                None => DEFAULT_CHANNEL_CAPACITY as int,
            };
            &&& r.0 == if requested < MIN_CHANNEL_CAPACITY {
                MIN_CHANNEL_CAPACITY as int
            } else {
                requested
            }
            &&& (r.1 is Some <==> requested < MIN_CHANNEL_CAPACITY)
            &&& (r.1 matches Some(w) ==> w@ == "warning: YUSHAN_CHANNEL_CAPACITY="@
                + crate::text::dec(requested as nat) + " 低于下限 16，已 clamp 到 16"@)
        }),
{
    let requested = match value {
        Some(v) => match parse_usize(v) {
            Some(n) => if n > 0 {
                n
            } else {
                DEFAULT_CHANNEL_CAPACITY
            },
            None => DEFAULT_CHANNEL_CAPACITY,
        },
        None => DEFAULT_CHANNEL_CAPACITY,
    };
    let clamped = clamp_capacity(requested);
    if clamped != requested {
        let mut v: Vec<char> = Vec::new();
        push_str(&mut v, "warning: YUSHAN_CHANNEL_CAPACITY=");
        let d = crate::text::dec_u128(requested as u128);
        crate::text::push_all(&mut v, d.as_slice());
        push_str(&mut v, " 低于下限 16，已 clamp 到 16");
        (clamped, Some(string_of(v.as_slice())))
    } else {
        (clamped, None)
    }
}


/// The capacity is never below the floor, a capacity at or above it is
/// kept, and clamping twice is clamping once.
pub proof fn law_clamp_floor(requested: usize)
    ensures
        clamped(requested) >= MIN_CHANNEL_CAPACITY,
        requested >= MIN_CHANNEL_CAPACITY ==> clamped(requested) == requested,
        clamped(clamped(requested)) == clamped(requested),
{
}

/// The task text is kept as given: everything after the mode flag (and a
/// `--stats` right after it) joined with spaces, even words that look like
/// flags; a `--stats` later on is part of the text.
pub proof fn law_task_text_verbatim(argv: Seq<Seq<char>>)
    requires
        argv.len() >= 2,
        argv[0] == "-p"@,
        argv[1] != "--stats"@,
        join(argv.drop_first(), " "@).len() > 0,
    ensures
        parsed_args(argv) == Ok::<(Option<(bool, Seq<char>)>, bool), Seq<char>>(
            (Some((true, join(argv.drop_first(), " "@))), false),
        ),
{
}

} // verus!
