//! Completion and hints for slash commands typed at the prompt.
use vstd::prelude::*;

use crate::text::{
    byte_len, chars_of, is_prefix, push_str, slice_to_vec, span_end, span_end_exec, starts_with,
    string_of,
};

verus! {

/// A slash command as offered for completion.
#[derive(Clone, Debug)]
pub struct CmdEntry {
    /// The command without its `/`.
    pub name: &'static str,
    pub description: &'static str,
    /// Placeholder of the command's argument, such as `[model_name]`.
    pub arg_hint: Option<&'static str>,
}

/// A completion: the text shown and the text put on the line.
#[derive(Clone, Debug)]
pub struct CmdPair {
    pub display: String,
    pub replacement: String,
}

/// The line starts with `/`.
pub open spec fn starts_slash(line: Seq<char>) -> bool {
    line.len() > 0 && line[0] == '/'
}

/// The byte position completion stops at: the cursor, or the line's end.
pub open spec fn cut(line: Seq<char>, pos: nat) -> nat {
    if pos < byte_len(line) {
        pos
    } else {
        byte_len(line)
    }
}

/// A line that starts with `/` can be cut at the cursor: the cut is past the
/// `/` and on a character boundary.
pub open spec fn cuttable(line: Seq<char>, pos: nat) -> bool {
    starts_slash(line) ==> cut(line, pos) >= 1 && span_end(line, 0, cut(line, pos)) is Some
}

/// What was typed after the `/`, up to the cursor.
pub open spec fn typed_prefix(line: Seq<char>, pos: nat) -> Seq<char> {
    line.subrange(1, span_end(line, 0, cut(line, pos))->0)
}

/// The text shown for a command: `/name hint  — description`.
pub open spec fn display_of(e: CmdEntry) -> Seq<char> {
    match e.arg_hint {
        Some(h) => "/"@ + e.name@ + " "@ + h@ + "  \u{2014} "@ + e.description@,
        None => "/"@ + e.name@ + "  \u{2014} "@ + e.description@,
    }
}

/// The text a command's completion puts on the line: `/name `.
pub open spec fn replacement_of(e: CmdEntry) -> Seq<char> {
    "/"@ + e.name@ + " "@
}

/// A command entry as `(name, description, argument hint)`.
pub open spec fn cmd_view(e: CmdEntry) -> (Seq<char>, Seq<char>, Option<Seq<char>>) {
    (
        e.name@,
        e.description@,
        match e.arg_hint {
            Some(h) => Some(h@),
            None => None,
        },
    )
}

/// The text shown for a command entry, viewed (see [`display_of`]).
pub open spec fn display_v(e: (Seq<char>, Seq<char>, Option<Seq<char>>)) -> Seq<char> {
    match e.2 {
        Some(h) => "/"@ + e.0 + " "@ + h + "  \u{2014} "@ + e.1,
        None => "/"@ + e.0 + "  \u{2014} "@ + e.1,
    }
}

/// The completions of the entries whose name starts with `prefix`, in
/// order.
pub open spec fn completions(entries: Seq<(Seq<char>, Seq<char>, Option<Seq<char>>)>, prefix: Seq<char>) -> Seq<(Seq<char>, Seq<char>)>
    decreases entries.len(),
{
    if entries.len() == 0 {
        Seq::empty()
    } else {
        let r = completions(entries.drop_last(), prefix);
        let e = entries.last();
        if is_prefix(prefix, e.0) {
            r.push((display_v(e), "/"@ + e.0 + " "@))
        } else {
            r
        }
    }
}

/// Completions, viewed.
pub open spec fn pairs_view(v: Seq<CmdPair>) -> Seq<(Seq<char>, Seq<char>)> {
    v.map_values(|p: CmdPair| (p.display@, p.replacement@))
}

/// The entry at `i` is the first whose name starts with `prefix`.
pub open spec fn first_match(entries: Seq<CmdEntry>, prefix: Seq<char>, i: int) -> bool {
    0 <= i < entries.len() && is_prefix(prefix, entries[i].name@) && forall|j: int|
        0 <= j < i ==> !is_prefix(prefix, #[trigger] entries[j].name@)
}

/// What was typed after the `/` up to the cursor (`line[1..min(pos, len)]`).
fn prefix_of(line: &str, pos: usize) -> (r: Vec<char>)
    requires
        starts_slash(line@),
        cuttable(line@, pos as nat),
    ensures
        r@ == typed_prefix(line@, pos as nat),
{
    let c = chars_of(line);
    let n = crate::text::chars_bytes_wide(c.as_slice());
    let cut: u128 = if (pos as u128) < n {
        pos as u128
    } else {
        n
    };
    match span_end_exec(c.as_slice(), 0, cut) {
        Some(k) => {
            proof {
                assert(c@.subrange(0, 1) =~= seq![c@[0]]);
                crate::text::lemma_byte_len_single(c@[0]);
                crate::text::lemma_char_bytes(c@[0]);
                if k == 0 {
                    assert(c@.subrange(0, 0) =~= Seq::<char>::empty());
                }
            }
            slice_to_vec(c.as_slice(), 1, k)
        },
        None => Vec::new(),
    }
}

/// The completion of one entry.
fn pair_of(e: &CmdEntry) -> (p: CmdPair)
    ensures
        p.display@ == display_of(*e),
        p.replacement@ == replacement_of(*e),
{
    let mut d: Vec<char> = Vec::new();
    push_str(&mut d, "/");
    push_str(&mut d, e.name);
    match e.arg_hint {
        Some(h) => {
            push_str(&mut d, " ");
            push_str(&mut d, h);
        },
        None => {},
    }
    push_str(&mut d, "  \u{2014} ");
    push_str(&mut d, e.description);
    let mut r: Vec<char> = Vec::new();
    push_str(&mut r, "/");
    push_str(&mut r, e.name);
    push_str(&mut r, " ");
    CmdPair { display: string_of(d.as_slice()), replacement: string_of(r.as_slice()) }
}

/// Completes a slash command (`line[1..cursor]` as the typed prefix): no
/// completion without a leading `/`; otherwise every entry whose name
/// starts with the prefix, replacing from position 1.
pub fn complete_inline(entries: &[CmdEntry], line: &str, pos: usize) -> (r: (usize, Vec<CmdPair>))
    requires
        cuttable(line@, pos as nat),
    ensures
        if starts_slash(line@) {
            r.0 == 1 && pairs_view(r.1@) == completions(
                entries@.map_values(|e: CmdEntry| cmd_view(e)),
                typed_prefix(line@, pos as nat),
            )
        } else {
            r.0 == 0 && r.1@.len() == 0
        },
{
    let c = chars_of(line);
    if !(c.len() > 0 && c[0] == '/') {
        return (0, Vec::new());
    }
    let prefix = prefix_of(line, pos);
    let mut out: Vec<CmdPair> = Vec::new();
    let mut i: usize = 0;
    while i < entries.len()
        invariant
            i <= entries.len(),
            pairs_view(out@) == completions(
                entries@.take(i as int).map_values(|e: CmdEntry| cmd_view(e)),
                prefix@,
            ),
        decreases entries.len() - i,
    {
        let ghost before = out@;
        let name = chars_of(entries[i].name);
        proof {
            let t = entries@.take(i as int + 1).map_values(|e: CmdEntry| cmd_view(e));
            assert(t.drop_last() =~= entries@.take(i as int).map_values(|e: CmdEntry| cmd_view(e)));
            assert(t.last() == cmd_view(entries@[i as int]));
        }
        if starts_with(name.as_slice(), prefix.as_slice()) {
            let p = pair_of(&entries[i]);
            out.push(p);
            assert(pairs_view(out@) =~= pairs_view(before).push(
                (display_of(entries@[i as int]), replacement_of(entries@[i as int])),
            ));
        }
        i += 1;
    }
    assert(entries@.take(entries.len() as int) =~= entries@);
    (1, out)
}

/// Completes slash commands typed at a line editor.
pub struct CmdCompleter {
    pub entries: Vec<CmdEntry>,
}

impl CmdCompleter {
    pub fn new(entries: Vec<CmdEntry>) -> (c: Self)
        ensures
            c.entries == entries,
    {
        CmdCompleter { entries }
    }

    /// The completions of a line (see [`complete_inline`]).
    pub fn complete_pure(&self, line: &str, pos: usize) -> (r: (usize, Vec<CmdPair>))
        requires
            cuttable(line@, pos as nat),
        ensures
            if starts_slash(line@) {
                r.0 == 1 && pairs_view(r.1@) == completions(
                    self.entries@.map_values(|e: CmdEntry| cmd_view(e)),
                    typed_prefix(line@, pos as nat),
                )
            } else {
                r.0 == 0 && r.1@.len() == 0
            },
    {
        complete_inline(self.entries.as_slice(), line, pos)
    }

    /// The hint for a line: ` — description` of the first command whose name
    /// starts with what was typed after the `/`.
    pub fn hint_pure(&self, line: &str, pos: usize) -> (r: Option<String>)
        requires
            cuttable(line@, pos as nat),
        ensures
            if starts_slash(line@) {
                let prefix = typed_prefix(line@, pos as nat);
                match r {
                    Some(h) => exists|i: int|
                        #![trigger first_match(self.entries@, prefix, i)]
                        first_match(self.entries@, prefix, i) && h@ == " \u{2014} "@
                            + self.entries@[i].description@,
                    None => forall|i: int|
                        0 <= i < self.entries@.len() ==> !is_prefix(
                            prefix,
                            #[trigger] self.entries@[i].name@,
                        ),
                }
            } else {
                r is None
            },
    {
        let c = chars_of(line);
        if !(c.len() > 0 && c[0] == '/') {
            return None;
        }
        let prefix = prefix_of(line, pos);
        let mut i: usize = 0;
        while i < self.entries.len()
            invariant
                i <= self.entries.len(),
                starts_slash(line@),
                prefix@ == typed_prefix(line@, pos as nat),
                forall|j: int| 0 <= j < i ==> !is_prefix(prefix@, #[trigger] self.entries@[j].name@),
            decreases self.entries.len() - i,
        {
            let name = chars_of(self.entries[i].name);
            if starts_with(name.as_slice(), prefix.as_slice()) {
                let mut v: Vec<char> = Vec::new();
                push_str(&mut v, " \u{2014} ");
                push_str(&mut v, self.entries[i].description);
                assert(first_match(self.entries@, prefix@, i as int));
                return Some(string_of(v.as_slice()));
            }
            i += 1;
        }
        None
    }
}

/// Completion only offers commands that go on from what was typed: every
/// completion puts `/` and the typed prefix back on the line, followed by
/// the rest of a command's name, and there are no more completions than
/// commands.
pub proof fn law_completions_extend_prefix(
    entries: Seq<(Seq<char>, Seq<char>, Option<Seq<char>>)>,
    prefix: Seq<char>,
)
    ensures
        completions(entries, prefix).len() <= entries.len(),
        forall|i: int|
            0 <= i < completions(entries, prefix).len() ==> is_prefix(
                "/"@ + prefix,
                (#[trigger] completions(entries, prefix)[i]).1,
            ),
    decreases entries.len(),
{
    if entries.len() > 0 {
        let init = entries.drop_last();
        let e = entries.last();
        law_completions_extend_prefix(init, prefix);
        let r = completions(init, prefix);
        if is_prefix(prefix, e.0) {
            let rep = "/"@ + e.0 + " "@;
            let p = "/"@ + prefix;
            assert(rep.take(p.len() as int) =~= "/"@ + e.0.take(prefix.len() as int));
            assert forall|i: int| 0 <= i < r.push((display_v(e), rep)).len() implies is_prefix(
                p,
                (#[trigger] r.push((display_v(e), rep))[i]).1,
            ) by {
                if i < r.len() {
                    assert(r.push((display_v(e), rep))[i] == r[i]);
                }
            }
        }
    }
}

} // verus!
