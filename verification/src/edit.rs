//! The text side of the `edit` tool: exact and fuzzy location of the text to
//! replace, replacement of each edit in turn, and line-ending and BOM
//! preservation.
use unicode_normalization::UnicodeNormalization;
use vstd::prelude::*;
use vstd::string::StrSliceExecFns;

use crate::model::{ToolError, ToolResult};
use crate::text::{
    byte_len, char_bytes, char_len_utf8, chars_eq, chars_of, count_matches, count_matches_exec,
    dec, dec_u128, find_chars, find_first, lemma_byte_len_concat, lemma_byte_len_ge_len,
    lemma_byte_len_prefix, lemma_byte_len_push, occurs_at, push_all, push_str, slice_to_vec,
    string_of, trim, trim_chars,
};

verus! {

/// The `edit` tool, editing files below a workspace directory.
pub struct EditTool {
    pub workspace: String,
}

impl EditTool {
    pub fn new(workspace: String) -> (t: Self)
        ensures
            t.workspace == workspace,
    {
        EditTool { workspace }
    }
}

// ---------------------------------------------------------------------------
// Fuzzy normalization
// ---------------------------------------------------------------------------

/// Unicode compatibility normalization (NFKC) of a character sequence.
pub uninterp spec fn nfkc(s: Seq<char>) -> Seq<char>;

/// `UnicodeNormalization::nfkc` of the unicode-normalization crate, collected
/// into characters. Claimed: the characters are `nfkc` of the input's
/// characters, and depend on nothing else.
#[verifier::external_body]
fn nfkc_chars(s: &str) -> (r: Vec<char>)
    ensures
        r@ == nfkc(s@),
{
    s.nfkc().collect()
}

/// Folding of one normalized character for fuzzy comparison: typographic
/// quotes become `"`, dashes `-`, a no-break space a space, and zero-width
/// characters disappear.
pub open spec fn fold_char(c: char) -> Seq<char> {
    if c == '\u{2018}' || c == '\u{2019}' || c == '\u{201A}' || c == '\u{201B}' || c
        == '\u{2039}' || c == '\u{203A}' || c == '\u{201C}' || c == '\u{201D}' || c == '\u{201E}'
        || c == '\u{201F}' {
        seq!['"']
    } else if c == '\u{2013}' || c == '\u{2014}' || c == '\u{2015}' {
        seq!['-']
    } else if c == '\u{00A0}' {
        seq![' ']
    } else if c == '\u{200B}' || c == '\u{200C}' || c == '\u{200D}' || c == '\u{FEFF}' {
        Seq::empty()
    } else {
        seq![c]
    }
}

/// `fold_char` applied to each character, in order.
pub open spec fn fold_chars(s: Seq<char>) -> Seq<char>
    decreases s.len(),
{
    if s.len() == 0 {
        Seq::empty()
    } else {
        fold_chars(s.drop_last()) + fold_char(s.last())
    }
}

/// The form in which the edit tool compares text fuzzily: NFKC, folded,
/// trimmed.
pub open spec fn fuzzy(s: Seq<char>) -> Seq<char> {
    trim(fold_chars(nfkc(s)))
}

/// The typographic quotes: single and double, low and high, reversed, and
/// the single angle quotes.
pub open spec fn typographic_quote(c: char) -> bool {
    c == '\u{2018}' || c == '\u{2019}' || c == '\u{201A}' || c == '\u{201B}' || c == '\u{2039}'
        || c == '\u{203A}' || c == '\u{201C}' || c == '\u{201D}' || c == '\u{201E}' || c
        == '\u{201F}'
}

/// How each character folds: every typographic quote becomes `"`; the en
/// dash, the em dash and the horizontal bar become `-`; the no-break space a
/// space; the zero-width space, non-joiner and joiner and the byte-order mark
/// vanish; every other character is kept as it is.
pub proof fn law_fold_table(c: char)
    ensures
        c == '\u{2018}' ==> fold_char(c) == seq!['"'],
        c == '\u{2019}' ==> fold_char(c) == seq!['"'],
        c == '\u{201A}' ==> fold_char(c) == seq!['"'],
        c == '\u{201B}' ==> fold_char(c) == seq!['"'],
        c == '\u{2039}' ==> fold_char(c) == seq!['"'],
        c == '\u{203A}' ==> fold_char(c) == seq!['"'],
        c == '\u{201C}' ==> fold_char(c) == seq!['"'],
        c == '\u{201D}' ==> fold_char(c) == seq!['"'],
        c == '\u{201E}' ==> fold_char(c) == seq!['"'],
        c == '\u{201F}' ==> fold_char(c) == seq!['"'],
        c == '\u{2013}' ==> fold_char(c) == seq!['-'],
        c == '\u{2014}' ==> fold_char(c) == seq!['-'],
        c == '\u{2015}' ==> fold_char(c) == seq!['-'],
        c == '\u{00A0}' ==> fold_char(c) == seq![' '],
        c == '\u{200B}' ==> fold_char(c).len() == 0,
        c == '\u{200C}' ==> fold_char(c).len() == 0,
        c == '\u{200D}' ==> fold_char(c).len() == 0,
        c == '\u{FEFF}' ==> fold_char(c).len() == 0,
        !typographic_quote(c) && c != '\u{2013}' && c != '\u{2014}' && c != '\u{2015}' && c
            != '\u{00A0}' && c != '\u{200B}' && c != '\u{200C}' && c != '\u{200D}' && c
            != '\u{FEFF}' ==> fold_char(c) == seq![c],
{
}

/// Typographic quotes and the plain `"` fold alike: replacing every
/// typographic quote of a text by `"` leaves its folded form unchanged, so
/// an `oldText` typed with curly quotes matches a file written with
/// straight ones, and the other way round.
pub proof fn law_quotes_fold_alike(s: Seq<char>)
    ensures
        fold_chars(s) == fold_chars(s.map_values(|c: char| if typographic_quote(c) { '"' } else { c })),
    decreases s.len(),
{
    let f = |c: char| if typographic_quote(c) { '"' } else { c };
    if s.len() > 0 {
        law_quotes_fold_alike(s.drop_last());
        assert(s.map_values(f).drop_last() =~= s.drop_last().map_values(f));
        assert(s.map_values(f).last() == f(s.last()));
    } else {
        assert(s.map_values(f) =~= s);
    }
}

/// Folds and trims already normalized characters.
pub fn fold_normalized(normalized: &[char]) -> (r: Vec<char>)
    ensures
        r@ == trim(fold_chars(normalized@)),
{
    let mut v: Vec<char> = Vec::new();
    let mut i: usize = 0;
    while i < normalized.len()
        invariant
            i <= normalized.len(),
            v@ == fold_chars(normalized@.take(i as int)),
        decreases normalized.len() - i,
    {
        let c = normalized[i];
        let ghost before = v@;
        if c == '\u{2018}' || c == '\u{2019}' || c == '\u{201A}' || c == '\u{201B}' || c
            == '\u{2039}' || c == '\u{203A}' || c == '\u{201C}' || c == '\u{201D}' || c
            == '\u{201E}' || c == '\u{201F}' {
            v.push('"');
        } else if c == '\u{2013}' || c == '\u{2014}' || c == '\u{2015}' {
            v.push('-');
        } else if c == '\u{00A0}' {
            v.push(' ');
        } else if c == '\u{200B}' || c == '\u{200C}' || c == '\u{200D}' || c == '\u{FEFF}' {
        } else {
            v.push(c);
        }
        proof {
            let t = normalized@.take(i as int + 1);
            assert(t.drop_last() =~= normalized@.take(i as int));
            assert(t.last() == c);
            assert(v@ =~= before + fold_char(c));
        }
        i += 1;
    }
    assert(normalized@.take(normalized.len() as int) =~= normalized@);
    trim_chars(v.as_slice())
}

/// The fuzzy form of a string, as characters.
fn fuzzy_chars(s: &str) -> (r: Vec<char>)
    ensures
        r@ == fuzzy(s@),
{
    let n = nfkc_chars(s);
    fold_normalized(n.as_slice())
}

/// Normalizes text for fuzzy matching (see [`fuzzy`]).
pub fn fuzzy_normalize(s: &str) -> (r: String)
    ensures
        r@ == fuzzy(s@),
{
    let v = fuzzy_chars(s);
    string_of(v.as_slice())
}

// ---------------------------------------------------------------------------
// Line endings and byte-order mark
// ---------------------------------------------------------------------------

/// Whether CRLF line endings dominate: more `"\r\n"` than lone `'\n'`.
pub open spec fn crlf_dominant(s: Seq<char>) -> bool {
    let crlf = count_matches(s, seq!['\r', '\n']);
    let lf = count_matches(s, seq!['\n']) - crlf;
    crlf > lf
}

/// Detects whether a text's line endings are mostly CRLF.
pub fn detect_crlf(content: &str) -> (b: bool)
    ensures
        b == crlf_dominant(content@),
{
    let c = chars_of(content);
    let mut crlf_pat: Vec<char> = Vec::new();
    crlf_pat.push('\r');
    crlf_pat.push('\n');
    let mut lf_pat: Vec<char> = Vec::new();
    lf_pat.push('\n');
    let crlf = count_matches_exec(c.as_slice(), crlf_pat.as_slice());
    let lf = count_matches_exec(c.as_slice(), lf_pat.as_slice());
    assert(crlf_pat@ =~= seq!['\r', '\n']);
    assert(lf_pat@ =~= seq!['\n']);
    proof {
    }
    if lf < crlf {
        true
    } else {
        crlf > lf - crlf
    }
}

/// A text without its leading byte-order mark, if it has one.
pub open spec fn without_bom(s: Seq<char>) -> Seq<char> {
    if s.len() > 0 && s[0] == '\u{FEFF}' {
        s.drop_first()
    } else {
        s
    }
}

/// Strips a leading byte-order mark.
pub fn strip_bom(content: &str) -> (r: &str)
    ensures
        r@ == without_bom(content@),
{
    let n = content.unicode_len();
    if n > 0 && content.get_char(0) == '\u{FEFF}' {
        content.substring_char(1, n)
    } else {
        content
    }
}

// ---------------------------------------------------------------------------
// Locating the text to replace
// ---------------------------------------------------------------------------

/// The fuzzy form of `content` matches `f` in the window of `f.len()`
/// characters at `start`.
pub open spec fn fuzzy_hit(content: Seq<char>, f: Seq<char>, start: int) -> bool {
    0 <= start < content.len() && start + f.len() <= content.len() && fuzzy(
        content.subrange(start, start + f.len()),
    ) == f
}

/// Character index of the first window of `content` whose fuzzy form equals
/// that of `old`; the windows are as long as the fuzzy form of `old`.
#[verifier::opaque]
pub open spec fn fuzzy_find(content: Seq<char>, old: Seq<char>) -> Option<int> {
    let f = fuzzy(old);
    if exists|i: int| fuzzy_hit(content, f, i) {
        Some(
            choose|i: int| fuzzy_hit(content, f, i) && forall|j: int| 0 <= j < i ==> !fuzzy_hit(content, f, j),
        )
    } else {
        None
    }
}

proof fn lemma_first_hit(content: Seq<char>, old: Seq<char>, i: int)
    requires
        fuzzy_hit(content, fuzzy(old), i),
        forall|j: int| 0 <= j < i ==> !fuzzy_hit(content, fuzzy(old), j),
    ensures
        fuzzy_find(content, old) == Some(i),
{
    reveal(fuzzy_find);
    let f = fuzzy(old);
    let c = choose|j: int| fuzzy_hit(content, f, j) && forall|k: int| 0 <= k < j ==> !fuzzy_hit(content, f, k);
    assert(fuzzy_hit(content, f, c));
    if c < i {
        assert(!fuzzy_hit(content, f, c));
    } else if c > i {
        assert(!fuzzy_hit(content, f, i));
    }
}

/// [`fuzzy_find`] on characters.
pub fn fuzzy_find_index(content: &[char], old_text: &str) -> (r: Option<usize>)
    ensures
        match r {
            Some(i) => fuzzy_find(content@, old_text@) == Some(i as int) && i < content.len(),
            None => fuzzy_find(content@, old_text@) is None,
        },
{
    let f = fuzzy_chars(old_text);
    let m = f.len();
    let n = content.len();
    let mut start: usize = 0;
    while start < n && m <= n - start
        invariant
            start <= n,
            n == content.len(),
            m == f.len(),
            f@ == fuzzy(old_text@),
            forall|j: int| 0 <= j < start ==> !fuzzy_hit(content@, f@, j),
        decreases n - start,
    {
        let cand = slice_to_vec(content, start, start + m);
        let cs = string_of(cand.as_slice());
        let fc = fuzzy_chars(cs.as_str());
        if chars_eq(fc.as_slice(), f.as_slice()) {
            proof {
                assert(fuzzy_hit(content@, f@, start as int));
                lemma_first_hit(content@, old_text@, start as int);
            }
            return Some(start);
        }
        start += 1;
    }
    assert forall|j: int| !fuzzy_hit(content@, f@, j) by {
        if 0 <= j < content@.len() && j + f@.len() <= content@.len() {
            assert(j < start);
        }
    }
    proof {
        reveal(fuzzy_find);
    }
    None
}

/// Byte offset of the character at index `i`.
pub open spec fn byte_offset(s: Seq<char>, i: int) -> nat {
    byte_len(s.take(i))
}

/// Byte offset of the first `k` characters of `s`.
fn prefix_bytes(s: &[char], k: usize) -> (n: usize)
    requires
        k <= s.len(),
        byte_len(s@) <= usize::MAX,
    ensures
        n == byte_offset(s@, k as int),
{
    proof {
        lemma_byte_len_prefix(s@, k as int);
    }
    let p = slice_to_vec(s, 0, k);
    assert(p@ =~= s@.take(k as int));
    crate::text::chars_byte_len(p.as_slice())
}

/// Finds `old_text` in `content` by fuzzy matching; the byte offset of the
/// first window whose fuzzy form equals that of `old_text`.
pub fn find_match_fuzzy(content: &str, old_text: &str) -> (r: Option<usize>)
    requires
        byte_len(content@) <= usize::MAX,
    ensures
        match fuzzy_find(content@, old_text@) {
            Some(i) => r == Some(byte_offset(content@, i) as usize),
            None => r is None,
        },
{
    let c = chars_of(content);
    match fuzzy_find_index(c.as_slice(), old_text) {
        Some(i) => Some(prefix_bytes(c.as_slice(), i)),
        None => None,
    }
}

/// Finds `old_text` in `content`: the byte offset of its first exact
/// occurrence (`false`), else of its first fuzzy match (`true`).
pub fn find_match(content: &str, old_text: &str) -> (r: Option<(usize, bool)>)
    requires
        byte_len(content@) <= usize::MAX,
    ensures
        match find_first(content@, old_text@) {
            Some(i) => r == Some((byte_offset(content@, i) as usize, false)),
            None => match fuzzy_find(content@, old_text@) {
                Some(i) => r == Some((byte_offset(content@, i) as usize, true)),
                None => r is None,
            },
        },
{
    let c = chars_of(content);
    let o = chars_of(old_text);
    match find_chars(c.as_slice(), o.as_slice()) {
        Some(i) => Some((prefix_bytes(c.as_slice(), i), false)),
        None => match fuzzy_find_index(c.as_slice(), old_text) {
            Some(i) => Some((prefix_bytes(c.as_slice(), i), true)),
            None => None,
        },
    }
}

// ---------------------------------------------------------------------------
// Tool arguments
// ---------------------------------------------------------------------------

/// One element of the `edits` argument: its `oldText` and `newText` fields,
/// each where it is present as a string.
#[derive(Debug, Clone)]
pub struct EditItem {
    pub old_text: Option<String>,
    pub new_text: Option<String>,
}

/// The `edits` argument.
#[derive(Debug, Clone)]
pub enum EditsArg {
    /// Missing, or of a JSON kind other than array, string and object.
    Absent,
    /// An array of edits.
    List(Vec<EditItem>),
    /// A string, taken as the text to remove.
    Text(String),
    /// A single edit object.
    Single(EditItem),
}

/// The arguments of an `edit` call: `path`, the top-level `oldText` and
/// `newText` (each where present as a string) and `edits`.
#[derive(Debug, Clone)]
pub struct EditInput {
    pub path: Option<String>,
    pub old_text: Option<String>,
    pub new_text: Option<String>,
    pub edits: EditsArg,
}

/// A text argument, or the empty text where it is absent.
pub open spec fn text_or_empty(o: Option<String>) -> Seq<char> {
    match o {
        Some(s) => s@,
        None => Seq::empty(),
    }
}

/// Edit pairs `(oldText, newText)`, viewed.
pub open spec fn pairs_view(v: Seq<(String, String)>) -> Seq<(Seq<char>, Seq<char>)> {
    v.map_values(|e: (String, String)| (e.0@, e.1@))
}

/// The item at `i` lacks `oldText`.
pub open spec fn lacks_old(items: Seq<EditItem>, i: int) -> bool {
    0 <= i < items.len() && items[i].old_text is None
}

/// Index of the first item lacking `oldText`.
pub open spec fn first_lacking(items: Seq<EditItem>) -> int {
    choose|i: int| lacks_old(items, i) && forall|j: int| 0 <= j < i ==> !lacks_old(items, j)
}

/// The edits an `edit` call asks for, or the message of the argument error:
/// a top-level `oldText` wins; otherwise `edits` as an array (every item
/// needs `oldText`), a string (removed) or one object.
pub open spec fn parsed_edits(input: EditInput) -> Result<Seq<(Seq<char>, Seq<char>)>, Seq<char>> {
    match input.old_text {
        Some(o) => Ok(seq![(o@, text_or_empty(input.new_text))]),
        None => match input.edits {
            EditsArg::List(items) => if exists|i: int| lacks_old(items@, i) {
                Err("edits["@ + dec(first_lacking(items@) as nat) + "]: missing 'oldText'"@)
            } else {
                Ok(
                    Seq::new(
                        items@.len(),
                        |i: int|
                            (text_or_empty(items@[i].old_text), text_or_empty(items@[i].new_text)),
                    ),
                )
            },
            EditsArg::Text(t) => Ok(seq![(t@, Seq::empty())]),
            EditsArg::Single(it) => match it.old_text {
                Some(o) => Ok(seq![(o@, text_or_empty(it.new_text))]),
                None => Err("edits: missing 'oldText'"@),
            },
            EditsArg::Absent => Err("missing 'edits' or 'oldText'"@),
        },
    }
}

fn text_or_empty_exec(o: &Option<String>) -> (r: String)
    ensures
        r@ == text_or_empty(*o),
{
    match o {
        Some(s) => s.clone(),
        None => String::new(),
    }
}

/// A required string argument, or the error naming it.
pub fn resolve_path(value: &Option<String>, path_field: &str) -> (r: Result<String, ToolError>)
    ensures
        match value {
            Some(p) => r matches Ok(q) && q@ == p@,
            None => r matches Err(ToolError::InvalidInput(m)) && m@ == "missing '"@ + path_field@
                + "'"@,
        },
{
    match value {
        Some(p) => Ok(p.clone()),
        None => {
            let mut v: Vec<char> = Vec::new();
            push_str(&mut v, "missing '");
            push_str(&mut v, path_field);
            push_str(&mut v, "'");
            Err(ToolError::InvalidInput(string_of(v.as_slice())))
        },
    }
}

fn invalid(msg: &str) -> (e: ToolError)
    ensures
        e matches ToolError::InvalidInput(m) && m@ == msg@,
{
    ToolError::InvalidInput(msg.to_owned())
}

fn item_lacks_old(i: usize) -> (e: ToolError)
    ensures
        e matches ToolError::InvalidInput(m) && m@ == "edits["@ + dec(i as nat)
            + "]: missing 'oldText'"@,
{
    let mut v: Vec<char> = Vec::new();
    push_str(&mut v, "edits[");
    let d = dec_u128(i as u128);
    push_all(&mut v, d.as_slice());
    push_str(&mut v, "]: missing 'oldText'");
    ToolError::InvalidInput(string_of(v.as_slice()))
}

/// Reads the edits out of the arguments of an `edit` call.
pub fn parse_edits(input: &EditInput) -> (r: Result<Vec<(String, String)>, ToolError>)
    ensures
        match parsed_edits(*input) {
            Ok(es) => r matches Ok(v) && pairs_view(v@) == es,
            Err(m) => r matches Err(ToolError::InvalidInput(e)) && e@ == m,
        },
{
    let mut edits: Vec<(String, String)> = Vec::new();
    match &input.old_text {
        Some(o) => {
            edits.push((o.clone(), text_or_empty_exec(&input.new_text)));
            assert(pairs_view(edits@) =~= seq![(o@, text_or_empty(input.new_text))]);
            return Ok(edits);
        },
        None => {},
    }
    match &input.edits {
        EditsArg::List(items) => {
            let mut i: usize = 0;
            while i < items.len()
                invariant
                    i <= items.len(),
                    input.old_text is None,
                    input.edits == EditsArg::List(*items),
                    forall|j: int| 0 <= j < i ==> !lacks_old(items@, j),
                    pairs_view(edits@) =~= Seq::new(
                        i as nat,
                        |k: int|
                            (text_or_empty(items@[k].old_text), text_or_empty(items@[k].new_text)),
                    ),
                decreases items.len() - i,
            {
                let ghost before = edits@;
                match &items[i].old_text {
                    Some(o) => {
                        edits.push((o.clone(), text_or_empty_exec(&items[i].new_text)));
                        assert(pairs_view(edits@) =~= pairs_view(before).push(
                            (text_or_empty(items@[i as int].old_text), text_or_empty(
                                items@[i as int].new_text,
                            )),
                        ));
                    },
                    None => {
                        proof {
                            let c = first_lacking(items@);
                            assert(lacks_old(items@, i as int));
                            assert(lacks_old(items@, c) && forall|j: int|
                                0 <= j < c ==> !lacks_old(items@, j));
                            if c < i {
                                assert(!lacks_old(items@, c));
                            } else if c > i {
                                assert(!lacks_old(items@, i as int));
                            }
                            assert(c == i);
                        }
                        return Err(item_lacks_old(i));
                    },
                }
                i += 1;
            }
            assert(!exists|j: int| lacks_old(items@, j));
            Ok(edits)
        },
        EditsArg::Text(t) => {
            edits.push((t.clone(), String::new()));
            assert(pairs_view(edits@) =~= seq![(t@, Seq::<char>::empty())]);
            Ok(edits)
        },
        EditsArg::Single(it) => match &it.old_text {
            Some(o) => {
                edits.push((o.clone(), text_or_empty_exec(&it.new_text)));
                assert(pairs_view(edits@) =~= seq![(o@, text_or_empty(it.new_text))]);
                Ok(edits)
            },
            None => Err(invalid("edits: missing 'oldText'")),
        },
        EditsArg::Absent => Err(invalid("missing 'edits' or 'oldText'")),
    }
}

/// Checks the arguments of an `edit` call: the path, then the edits, of
/// which there must be at least one.
pub fn edit_request(input: &EditInput) -> (r: Result<(String, Vec<(String, String)>), ToolError>)
    ensures
        match input.path {
            None => r matches Err(ToolError::InvalidInput(m)) && m@ == "missing '"@ + "path"@
                + "'"@,
            Some(p) => match parsed_edits(*input) {
                Err(msg) => r matches Err(ToolError::InvalidInput(m)) && m@ == msg,
                Ok(es) => if es.len() == 0 {
                    r matches Err(ToolError::InvalidInput(m)) && m@ == "no edits provided"@
                } else {
                    r matches Ok((q, v)) && q@ == p@ && pairs_view(v@) == es
                },
            },
        },
{
    let path = match resolve_path(&input.path, "path") {
        Ok(p) => p,
        Err(e) => return Err(e),
    };
    let edits = match parse_edits(input) {
        Ok(v) => v,
        Err(e) => return Err(e),
    };
    if edits.len() == 0 {
        return Err(invalid("no edits provided"));
    }
    Ok((path, edits))
}

// ---------------------------------------------------------------------------
// Applying edits
// ---------------------------------------------------------------------------

/// Where one edit applies in the text `base`, as read: the character range
/// of its only exact occurrence; without one, the window of its first fuzzy
/// match.
pub ghost enum Locate {
    At(int, int),
    NotFound,
    Ambiguous(nat),
}

/// Locates `old` in `base` (see [`Locate`]).
pub open spec fn locate(base: Seq<char>, old: Seq<char>) -> Locate {
    let n = count_matches(base, old);
    if n > 1 {
        Locate::Ambiguous(n)
    } else if n == 1 {
        match find_first(base, old) {
            Some(i) => Locate::At(i, i + old.len()),
            None => Locate::NotFound,
        }
    } else {
        match fuzzy_find(base, old) {
            Some(st) => Locate::At(st, st + fuzzy(old).len()),
            None => Locate::NotFound,
        }
    }
}

/// A replacement: the character range of `base` it replaces and the new text.
pub type Range = (int, int, Seq<char>);

/// The range `(a, b)` clashes with one already taken: the same start, or
/// overlapping characters.
pub open spec fn clashes(rs: Seq<Range>, a: int, b: int) -> bool {
    exists|k: int| 0 <= k < rs.len() && (#[trigger] rs[k].0 == a || (rs[k].0 < b && a < rs[k].1))
}

/// How an edit call ends.
pub ghost enum EditRun {
    /// Every edit was located; the text with all of them applied.
    Done(Seq<char>),
    /// This `oldText` was not found.
    NotFound(Seq<char>),
    /// This `oldText` occurs this many times.
    Ambiguous(nat, Seq<char>),
    /// This `oldText` overlaps an earlier edit's.
    Overlap(Seq<char>),
}

/// Every edit located in `base` (the text before any edit), in the order
/// given; the first that cannot be located, or that clashes with an earlier
/// one, ends it.
pub open spec fn located(base: Seq<char>, edits: Seq<(Seq<char>, Seq<char>)>) -> Result<Seq<Range>, EditRun>
    decreases edits.len(),
{
    if edits.len() == 0 {
        Ok(Seq::empty())
    } else {
        match located(base, edits.drop_last()) {
            Err(e) => Err(e),
            Ok(rs) => {
                let (old, new) = edits.last();
                match locate(base, old) {
                    Locate::NotFound => Err(EditRun::NotFound(old)),
                    Locate::Ambiguous(n) => Err(EditRun::Ambiguous(n, old)),
                    Locate::At(a, b) => if clashes(rs, a, b) {
                        Err(EditRun::Overlap(old))
                    } else {
                        Ok(rs.push((a, b, new)))
                    },
                }
            },
        }
    }
}

/// The replacement that starts at position `p`, if any.
pub open spec fn start_at(rs: Seq<Range>, p: int) -> Option<int> {
    if exists|k: int| 0 <= k < rs.len() && #[trigger] rs[k].0 == p {
        Some(choose|k: int| 0 <= k < rs.len() && #[trigger] rs[k].0 == p)
    } else {
        None
    }
}

/// `base` from position `p` on with the replacements applied: at a
/// replacement's start its new text is put, and its range is skipped.
pub open spec fn build(base: Seq<char>, rs: Seq<Range>, p: int) -> Seq<char>
    decreases base.len() - p,
{
    if p < 0 || p > base.len() {
        Seq::empty()
    } else if p == base.len() {
        match start_at(rs, p) {
            Some(k) => rs[k].2,
            None => Seq::empty(),
        }
    } else {
        match start_at(rs, p) {
            Some(k) => if p < rs[k].1 <= base.len() {
                rs[k].2 + build(base, rs, rs[k].1)
            } else {
                rs[k].2 + seq![base[p]] + build(base, rs, p + 1)
            },
            None => seq![base[p]] + build(base, rs, p + 1),
        }
    }
}

/// The outcome of the edits on `base`: all of them applied at once, or the
/// first failure.
pub open spec fn run_edits(base: Seq<char>, edits: Seq<(Seq<char>, Seq<char>)>) -> EditRun {
    match located(base, edits) {
        Ok(rs) => EditRun::Done(build(base, rs, 0)),
        Err(e) => e,
    }
}

/// Replacements within the text, with distinct starts and no overlap.
pub open spec fn ranges_ok(rs: Seq<Range>, n: int) -> bool {
    &&& forall|k: int| 0 <= k < rs.len() ==> 0 <= #[trigger] rs[k].0 <= rs[k].1 <= n
    &&& forall|k: int, l: int|
        0 <= k < l < rs.len() ==> #[trigger] rs[k].0 != #[trigger] rs[l].0 && !(rs[k].0 < rs[l].1
            && rs[l].0 < rs[k].1)
}

proof fn lemma_count_pos_occurs(s: Seq<char>, p: Seq<char>)
    requires
        count_matches(s, p) > 0,
    ensures
        exists|i: int| occurs_at(s, p, i),
    decreases s.len(),
{
    if p.len() == 0 {
        assert(s.subrange(0, 0) =~= p);
        assert(occurs_at(s, p, 0));
    } else if s.take(p.len() as int) == p {
        assert(s.subrange(0, p.len() as int) =~= s.take(p.len() as int));
        assert(occurs_at(s, p, 0));
    } else {
        lemma_count_pos_occurs(s.drop_first(), p);
        let i = choose|i: int| occurs_at(s.drop_first(), p, i);
        assert(s.subrange(i + 1, i + 1 + p.len()) =~= s.drop_first().subrange(i, i + p.len()));
        assert(occurs_at(s, p, i + 1));
    }
}

/// A hit at `i` means there is a first hit.
proof fn lemma_first_fuzzy_hit_exists(content: Seq<char>, f: Seq<char>, i: int)
    requires
        fuzzy_hit(content, f, i),
    ensures
        exists|m: int| fuzzy_hit(content, f, m) && forall|j: int| 0 <= j < m ==> !fuzzy_hit(content, f, j),
    decreases i,
{
    if exists|j: int| 0 <= j < i && fuzzy_hit(content, f, j) {
        let j = choose|j: int| 0 <= j < i && fuzzy_hit(content, f, j);
        lemma_first_fuzzy_hit_exists(content, f, j);
    } else {
        assert(fuzzy_hit(content, f, i) && forall|j: int| 0 <= j < i ==> !fuzzy_hit(content, f, j));
    }
}

/// An occurrence at `i` means there is a first occurrence.
proof fn lemma_first_occurrence_exists(s: Seq<char>, p: Seq<char>, i: int)
    requires
        occurs_at(s, p, i),
    ensures
        exists|m: int| occurs_at(s, p, m) && forall|j: int| 0 <= j < m ==> !occurs_at(s, p, j),
    decreases i,
{
    if exists|j: int| 0 <= j < i && occurs_at(s, p, j) {
        let j = choose|j: int| 0 <= j < i && occurs_at(s, p, j);
        lemma_first_occurrence_exists(s, p, j);
    } else {
        assert(occurs_at(s, p, i) && forall|j: int| 0 <= j < i ==> !occurs_at(s, p, j));
    }
}

/// A fuzzy find is a hit.
proof fn lemma_fuzzy_find_hit(base: Seq<char>, old: Seq<char>)
    ensures
        fuzzy_find(base, old) matches Some(st) ==> fuzzy_hit(base, fuzzy(old), st),
{
    reveal(fuzzy_find);
    let f = fuzzy(old);
    if exists|i: int| fuzzy_hit(base, f, i) {
        let i = choose|i: int| fuzzy_hit(base, f, i);
        lemma_first_fuzzy_hit_exists(base, f, i);
    }
}

/// A first occurrence is an occurrence.
proof fn lemma_find_first_occurs(base: Seq<char>, old: Seq<char>)
    ensures
        find_first(base, old) matches Some(i) ==> occurs_at(base, old, i),
{
    if exists|i: int| occurs_at(base, old, i) {
        let i = choose|i: int| occurs_at(base, old, i);
        lemma_first_occurrence_exists(base, old, i);
    }
}

/// A located edit lies within the text.
proof fn lemma_locate_in_range(base: Seq<char>, old: Seq<char>)
    ensures
        locate(base, old) matches Locate::At(a, b) ==> 0 <= a <= b <= base.len(),
{
    lemma_fuzzy_find_hit(base, old);
    lemma_find_first_occurs(base, old);
}

/// A located failure is a failure.
proof fn lemma_located_err(base: Seq<char>, edits: Seq<(Seq<char>, Seq<char>)>)
    ensures
        located(base, edits) matches Err(e) ==> !(e is Done),
    decreases edits.len(),
{
    if edits.len() > 0 {
        lemma_located_err(base, edits.drop_last());
    }
}

/// Located replacements are within the text and do not clash.
proof fn lemma_located_ok(base: Seq<char>, edits: Seq<(Seq<char>, Seq<char>)>)
    ensures
        located(base, edits) matches Ok(rs) ==> ranges_ok(rs, base.len() as int) && rs.len() == edits.len(),
    decreases edits.len(),
{
    if edits.len() > 0 {
        lemma_located_ok(base, edits.drop_last());
        lemma_locate_in_range(base, edits.last().0);
        if let Ok(rs) = located(base, edits.drop_last()) {
            if let Locate::At(a, b) = locate(base, edits.last().0) {
                if !clashes(rs, a, b) {
                    let t = rs.push((a, b, edits.last().1));
                    assert forall|k: int, l: int| 0 <= k < l < t.len() implies #[trigger] t[k].0 != #[trigger] t[l].0
                        && !(t[k].0 < t[l].1 && t[l].0 < t[k].1) by {
                        if l == rs.len() {
                            assert(t[k] == rs[k]);
                            if rs[k].0 == a || (rs[k].0 < b && a < rs[k].1) {
                                assert(clashes(rs, a, b));
                            }
                        } else {
                            assert(t[k] == rs[k] && t[l] == rs[l]);
                        }
                    }
                    assert forall|k: int| 0 <= k < t.len() implies 0 <= #[trigger] t[k].0 <= t[k].1 <= base.len() by {
                        if k < rs.len() {
                            assert(t[k] == rs[k]);
                        }
                    }
                }
            }
        }
    }
}

/// An edit that cannot be located makes the whole call fail: nothing is
/// applied, whatever the other edits are.
pub proof fn law_failing_edit_applies_nothing(base: Seq<char>, edits: Seq<(Seq<char>, Seq<char>)>, k: int)
    requires
        0 <= k < edits.len(),
        !(locate(base, edits[k].0) is At),
    ensures
        located(base, edits) is Err,
        !(run_edits(base, edits) is Done),
    decreases edits.len(),
{
    lemma_located_err(base, edits);
    if k < edits.len() - 1 {
        assert(edits.drop_last()[k] == edits[k]);
        law_failing_edit_applies_nothing(base, edits.drop_last(), k);
    }
}

/// Text found more than once is never replaced: the edit is refused, with
/// the number of occurrences, and a call holding it fails.
pub proof fn law_ambiguous_edit_refused(base: Seq<char>, edits: Seq<(Seq<char>, Seq<char>)>, k: int)
    requires
        0 <= k < edits.len(),
        count_matches(base, edits[k].0) > 1,
    ensures
        locate(base, edits[k].0) == Locate::Ambiguous(count_matches(base, edits[k].0)),
        !(run_edits(base, edits) is Done),
{
    law_failing_edit_applies_nothing(base, edits, k);
}

/// The text from `p` up to `q`, where no replacement starts, is copied.
proof fn lemma_build_plain(base: Seq<char>, rs: Seq<Range>, p: int, q: int)
    requires
        0 <= p <= q <= base.len(),
        forall|k: int| 0 <= k < rs.len() ==> !(p <= #[trigger] rs[k].0 < q),
    ensures
        build(base, rs, p) == base.subrange(p, q) + build(base, rs, q),
    decreases q - p,
{
    if p < q {
        assert(start_at(rs, p) is None) by {
            if exists|k: int| 0 <= k < rs.len() && #[trigger] rs[k].0 == p {
                let k = choose|k: int| 0 <= k < rs.len() && #[trigger] rs[k].0 == p;
                assert(!(p <= rs[k].0 < q));
            }
        }
        lemma_build_plain(base, rs, p + 1, q);
        assert(base.subrange(p, q) =~= seq![base[p]] + base.subrange(p + 1, q));
    } else {
        assert(base.subrange(p, q) =~= Seq::<char>::empty());
    }
}

/// A single edit whose text occurs exactly once replaces that occurrence
/// in place: what comes before and after it is kept.
#[verifier::spinoff_prover]
#[verifier::rlimit(60)]
pub proof fn law_unique_edit_replaces(base: Seq<char>, old: Seq<char>, new: Seq<char>)
    requires
        count_matches(base, old) == 1,
        old.len() > 0,
    ensures
        find_first(base, old) matches Some(i) && run_edits(base, seq![(old, new)]) == EditRun::Done(
            base.take(i) + new + base.skip(i + old.len()),
        ),
{
    lemma_count_pos_occurs(base, old);
    lemma_find_first_occurs(base, old);
    let i = find_first(base, old)->0;
    let e = i + old.len();
    assert(0 <= i && e <= base.len());
    let edits = seq![(old, new)];
    let rs = seq![(i, e, new)];
    assert(locate(base, old) == Locate::At(i, e));
    assert(located(base, edits) == Ok::<Seq<Range>, EditRun>(rs)) by {
        assert(edits.drop_last() =~= Seq::<(Seq<char>, Seq<char>)>::empty());
        assert(located(base, edits.drop_last()) == Ok::<Seq<Range>, EditRun>(Seq::empty()));
        assert(!clashes(Seq::<Range>::empty(), i, e));
        assert(Seq::<Range>::empty().push((i, e, new)) =~= rs);
    }
    assert(build(base, rs, 0) == base.subrange(0, i) + build(base, rs, i)) by {
        lemma_build_plain(base, rs, 0, i);
    }
    assert(build(base, rs, e) == base.subrange(e, base.len() as int) + build(base, rs, base.len() as int)) by {
        lemma_build_plain(base, rs, e, base.len() as int);
    }
    assert(start_at(rs, i) == Some(0int)) by {
        assert(rs[0].0 == i);
    }
    assert(start_at(rs, base.len() as int) is None) by {
        if exists|k: int| 0 <= k < rs.len() && #[trigger] rs[k].0 == base.len() {
            assert(rs[0].0 == i);
        }
    }
    assert(build(base, rs, base.len() as int) == Seq::<char>::empty());
    assert(build(base, rs, i) == new + build(base, rs, e));
    assert(base.subrange(0, i) =~= base.take(i));
    assert(base.subrange(e, base.len() as int) =~= base.skip(e));
    assert(build(base, rs, 0) =~= base.take(i) + new + base.skip(e));
}

/// A replacement: its range in the text as read and the new text.
struct Repl {
    start: usize,
    end: usize,
    new: Vec<char>,
}

spec fn repls_view(v: Seq<Repl>) -> Seq<Range> {
    v.map_values(|r: Repl| (r.start as int, r.end as int, r.new@))
}

/// What locating one edit gave.
enum Found {
    At(usize, usize),
    NotFound,
    Ambiguous(u128),
}

/// Locates one edit (see [`locate`]).
fn locate_exec(base: &[char], old: &str) -> (r: Found)
    ensures
        match locate(base@, old@) {
            Locate::At(a, b) => r matches Found::At(x, y) && x == a && y == b,
            Locate::NotFound => r is NotFound,
            Locate::Ambiguous(n) => r matches Found::Ambiguous(m) && m == n,
        },
{
    let oc = chars_of(old);
    let n = count_matches_exec(base, oc.as_slice());
    if n > 1 {
        Found::Ambiguous(n)
    } else if n == 1 {
        match find_chars(base, oc.as_slice()) {
            Some(i) => Found::At(i, i + oc.len()),
            None => Found::NotFound,
        }
    } else {
        match fuzzy_find_index(base, old) {
            Some(st) => {
                let f = fuzzy_chars(old);
                proof {
                    lemma_locate_in_range(base@, old@);
                }
                Found::At(st, st + f.len())
            },
            None => Found::NotFound,
        }
    }
}

/// Whether `(a, b)` clashes with a replacement already taken.
fn clashes_exec(rs: &Vec<Repl>, a: usize, b: usize) -> (c: bool)
    ensures
        c == clashes(repls_view(rs@), a as int, b as int),
{
    let ghost v = repls_view(rs@);
    let mut k: usize = 0;
    while k < rs.len()
        invariant
            k <= rs.len(),
            v == repls_view(rs@),
            forall|j: int| 0 <= j < k ==> !(#[trigger] v[j].0 == a || (v[j].0 < b && a < v[j].1)),
        decreases rs.len() - k,
    {
        let r = &rs[k];
        assert(v[k as int] == (r.start as int, r.end as int, r.new@));
        if r.start == a || (r.start < b && a < r.end) {
            assert(v[k as int].0 == r.start as int);
            return true;
        }
        k += 1;
    }
    false
}

/// Applies the located replacements to `base` (see [`build`]).
fn build_exec(base: &[char], rs: &Vec<Repl>) -> (r: Vec<char>)
    requires
        ranges_ok(repls_view(rs@), base.len() as int),
    ensures
        r@ == build(base@, repls_view(rs@), 0),
{
    let ghost v = repls_view(rs@);
    let n = base.len();
    let mut out: Vec<char> = Vec::new();
    let mut p: usize = 0;
    while p < n
        invariant
            p <= n,
            n == base.len(),
            v == repls_view(rs@),
            ranges_ok(v, n as int),
            out@ + build(base@, v, p as int) == build(base@, v, 0),
        decreases n - p,
    {
        let ghost before = out@;
        let mut k: usize = 0;
        let mut found: Option<usize> = None;
        while k < rs.len()
            invariant
                k <= rs.len(),
                v == repls_view(rs@),
                found is None ==> forall|j: int| 0 <= j < k ==> #[trigger] v[j].0 != p,
                found matches Some(f) ==> f < rs.len() && v[f as int].0 == p,
            decreases rs.len() - k,
        {
            if found.is_none() && rs[k].start == p {
                found = Some(k);
            }
            assert(v[k as int].0 == rs@[k as int].start);
            k += 1;
        }
        match found {
            Some(f) => {
                proof {
                    let c = choose|j: int| 0 <= j < v.len() && #[trigger] v[j].0 == p as int;
                    assert(v[c].0 == p);
                    if c != f as int {
                        assert(v[c].0 != v[f as int].0);
                    }
                    assert(start_at(v, p as int) == Some(f as int));
                }
                push_all(&mut out, rs[f].new.as_slice());
                let e = rs[f].end;
                if p < e && e <= n {
                    proof {
                        assert(out@ + build(base@, v, e as int) =~= before + (v[f as int].2 + build(base@, v, e as int)));
                    }
                    p = e;
                } else {
                    out.push(base[p]);
                    proof {
                        assert(out@ + build(base@, v, p + 1) =~= before + (v[f as int].2 + seq![base@[p as int]] + build(base@, v, p + 1)));
                    }
                    p += 1;
                }
            },
            None => {
                proof {
                    assert(start_at(v, p as int) is None);
                }
                out.push(base[p]);
                proof {
                    assert(out@ + build(base@, v, p + 1) =~= before + (seq![base@[p as int]] + build(base@, v, p + 1)));
                }
                p += 1;
            },
        }
    }
    let mut k: usize = 0;
    let mut found: Option<usize> = None;
    while k < rs.len()
        invariant
            k <= rs.len(),
            v == repls_view(rs@),
            found is None ==> forall|j: int| 0 <= j < k ==> #[trigger] v[j].0 != n,
            found matches Some(f) ==> f < rs.len() && v[f as int].0 == n,
        decreases rs.len() - k,
    {
        if found.is_none() && rs[k].start == n {
            found = Some(k);
        }
        assert(v[k as int].0 == rs@[k as int].start);
        k += 1;
    }
    match found {
        Some(f) => {
            proof {
                let c = choose|j: int| 0 <= j < v.len() && #[trigger] v[j].0 == n as int;
                if c != f as int {
                    assert(v[c].0 != v[f as int].0);
                }
                assert(start_at(v, n as int) == Some(f as int));
            }
            push_all(&mut out, rs[f].new.as_slice());
        },
        None => {
            proof {
                assert(start_at(v, n as int) is None);
            }
        },
    }
    proof {
        if found is None {
            assert(out@ =~= out@ + Seq::<char>::empty());
        }
    }
    out
}

/// `'\n'` written as `"\r\n"` (`str::replace('\n', "\r\n")`).
pub open spec fn crlf_expand(s: Seq<char>) -> Seq<char>
    decreases s.len(),
{
    if s.len() == 0 {
        Seq::empty()
    } else {
        crlf_expand(s.drop_last()) + if s.last() == '\n' {
            seq!['\r', '\n']
        } else {
            seq![s.last()]
        }
    }
}

/// The file text written after edits turned the BOM-less text into `t`:
/// newlines written as CRLF when the file as read (`raw`) mostly used CRLF,
/// and its byte-order mark put back.
pub open spec fn edited_file(raw: Seq<char>, t: Seq<char>) -> Seq<char> {
    let body = if crlf_dominant(raw) {
        crlf_expand(t)
    } else {
        t
    };
    if raw.len() > 0 && raw[0] == '\u{FEFF}' {
        seq!['\u{FEFF}'] + body
    } else {
        body
    }
}

/// Rust's `Debug` rendering of a string: quoted, with escapes.
pub uninterp spec fn str_debug(s: Seq<char>) -> Seq<char>;

/// `format!("{:?}", s)` for a string slice (std's `Debug` for `str`).
/// Claimed: the rendering is `str_debug` of the characters, a function of
/// them alone.
#[verifier::external_body]
fn debug_quoted(s: &str) -> (r: String)
    ensures
        r@ == str_debug(s@),
{
    format!("{:?}", s)
}

/// Message of an edit whose text was not found.
pub open spec fn not_found_msg(path: Seq<char>, old: Seq<char>) -> Seq<char> {
    "oldText not found in "@ + path + ": "@ + str_debug(old)
}

/// Message of an edit whose text occurs `n` times.
pub open spec fn ambiguous_msg(path: Seq<char>, n: nat, old: Seq<char>) -> Seq<char> {
    "oldText matches "@ + dec(n) + " times in "@ + path + ", must match exactly once: "@
        + str_debug(old)
}

/// Message of a successful edit of `k` blocks.
pub open spec fn replaced_msg(path: Seq<char>, k: nat) -> Seq<char> {
    "Successfully replaced "@ + dec(k) + " block(s) in "@ + path + "."@
}

fn expand_crlf(s: &[char]) -> (r: Vec<char>)
    ensures
        r@ == crlf_expand(s@),
{
    let mut r: Vec<char> = Vec::new();
    let mut i: usize = 0;
    while i < s.len()
        invariant
            i <= s.len(),
            r@ == crlf_expand(s@.take(i as int)),
        decreases s.len() - i,
    {
        let ghost before = r@;
        if s[i] == '\n' {
            r.push('\r');
            r.push('\n');
        } else {
            r.push(s[i]);
        }
        proof {
            let t = s@.take(i as int + 1);
            assert(t.drop_last() =~= s@.take(i as int));
            assert(t.last() == s@[i as int]);
            if s@[i as int] == '\n' {
                assert(r@ =~= before + seq!['\r', '\n']);
            } else {
                assert(r@ =~= before + seq![s@[i as int]]);
            }
        }
        i += 1;
    }
    assert(s@.take(s.len() as int) =~= s@);
    r
}

/// CRLF line endings turned into `'\n'` (each `"\r\n"` read from the
/// start becomes `'\n'`).
pub open spec fn crlf_collapse(s: Seq<char>) -> Seq<char>
    decreases s.len(),
{
    if s.len() == 0 {
        Seq::empty()
    } else if s.len() >= 2 && s[0] == '\r' && s[1] == '\n' {
        seq!['\n'] + crlf_collapse(s.skip(2))
    } else {
        seq![s[0]] + crlf_collapse(s.drop_first())
    }
}

fn collapse_crlf(s: &[char]) -> (r: Vec<char>)
    ensures
        r@ == crlf_collapse(s@),
{
    let mut r: Vec<char> = Vec::new();
    let mut i: usize = 0;
    assert(s@.skip(0) =~= s@);
    while i < s.len()
        invariant
            i <= s.len(),
            r@ + crlf_collapse(s@.skip(i as int)) == crlf_collapse(s@),
        decreases s.len() - i,
    {
        let ghost before = r@;
        let ghost t = s@.skip(i as int);
        if i + 1 < s.len() && s[i] == '\r' && s[i + 1] == '\n' {
            assert(t[0] == '\r' && t[1] == '\n');
            assert(t.skip(2) =~= s@.skip(i as int + 2));
            r.push('\n');
            assert(r@ + crlf_collapse(s@.skip(i as int + 2)) =~= before + crlf_collapse(t));
            i += 2;
        } else {
            assert(t[0] == s@[i as int]);
            assert(t.drop_first() =~= s@.skip(i as int + 1));
            r.push(s[i]);
            assert(r@ + crlf_collapse(s@.skip(i as int + 1)) =~= before + crlf_collapse(t));
            i += 1;
        }
    }
    assert(s@.skip(i as int) =~= Seq::<char>::empty());
    assert(r@ + Seq::<char>::empty() =~= r@);
    r
}

/// The text the edits work on: without its byte-order mark, and with CRLF
/// line endings turned into `'\n'` when they dominate (they are written
/// back as CRLF).
pub open spec fn edit_base(raw: Seq<char>) -> Seq<char> {
    if crlf_dominant(raw) {
        crlf_collapse(without_bom(raw))
    } else {
        without_bom(raw)
    }
}

/// Message of an edit whose text overlaps an earlier edit's.
pub open spec fn overlap_msg(path: Seq<char>, old: Seq<char>) -> Seq<char> {
    "oldText overlaps another edit in "@ + path + ": "@ + str_debug(old)
}

fn edit_error(lead: &str, path: &str, tail: &str, old: &str) -> (e: ToolError)
    ensures
        e matches ToolError::Execution(m) && m@ == lead@ + path@ + tail@ + str_debug(old@),
{
    let mut v: Vec<char> = Vec::new();
    push_str(&mut v, lead);
    push_str(&mut v, path);
    push_str(&mut v, tail);
    let d = debug_quoted(old);
    push_str(&mut v, d.as_str());
    ToolError::Execution(string_of(v.as_slice()))
}

/// Applies the edits of an `edit` call to the text `raw` of the file at
/// `path`: every `oldText` is located in the text as read (see
/// [`run_edits`] and [`edit_base`]) and all replacements are made at once.
/// Gives the text to write back and the tool's answer, or the error of the
/// first edit that cannot be applied.
pub fn edit_text(path: &str, raw: &str, edits: &Vec<(String, String)>) -> (r: Result<(String, ToolResult), ToolError>)
    requires
        edits.len() <= u32::MAX,
    ensures
        match run_edits(edit_base(raw@), pairs_view(edits@)) {
            EditRun::Done(t) => r matches Ok((text, res)) && text@ == edited_file(raw@, t)
                && res.content@ == replaced_msg(path@, edits.len() as nat) && !res.is_error,
            EditRun::NotFound(old) => r matches Err(ToolError::Execution(m)) && m@ == not_found_msg(
                path@,
                old,
            ),
            EditRun::Ambiguous(n, old) => r matches Err(ToolError::Execution(m)) && m@
                == ambiguous_msg(path@, n, old),
            EditRun::Overlap(old) => r matches Err(ToolError::Execution(m)) && m@ == overlap_msg(
                path@,
                old,
            ),
        },
{
    let crlf = detect_crlf(raw);
    let content = chars_of(strip_bom(raw));
    let base = if crlf {
        collapse_crlf(content.as_slice())
    } else {
        content
    };
    let ghost pv = pairs_view(edits@);
    let mut rs: Vec<Repl> = Vec::new();
    let mut i: usize = 0;
    assert(pv.take(0) =~= Seq::<(Seq<char>, Seq<char>)>::empty());
    assert(repls_view(rs@) =~= Seq::<Range>::empty());
    while i < edits.len()
        invariant
            i <= edits.len(),
            pv == pairs_view(edits@),
            base@ == edit_base(raw@),
            located(base@, pv.take(i as int)) == Ok::<Seq<Range>, EditRun>(repls_view(rs@)),
        decreases edits.len() - i,
    {
        let (old, new) = &edits[i];
        let ghost pre = pv.take(i as int);
        let ghost cur = pv.take(i as int + 1);
        assert(cur.drop_last() =~= pre);
        assert(cur.last() == (old@, new@));
        match locate_exec(base.as_slice(), old.as_str()) {
            Found::At(a, b) => {
                if clashes_exec(&rs, a, b) {
                    proof {
                        lemma_located_prefix_err(base@, pv, i as int + 1);
                    }
                    return Err(edit_error("oldText overlaps another edit in ", path, ": ", old.as_str()));
                }
                let ghost rv = repls_view(rs@);
                rs.push(Repl { start: a, end: b, new: chars_of(new.as_str()) });
                assert(repls_view(rs@) =~= rv.push((a as int, b as int, new@)));
            },
            Found::NotFound => {
                proof {
                    lemma_located_prefix_err(base@, pv, i as int + 1);
                }
                return Err(edit_error("oldText not found in ", path, ": ", old.as_str()));
            },
            Found::Ambiguous(n) => {
                proof {
                    lemma_located_prefix_err(base@, pv, i as int + 1);
                }
                let mut v: Vec<char> = Vec::new();
                push_str(&mut v, "oldText matches ");
                let c = dec_u128(n);
                push_all(&mut v, c.as_slice());
                push_str(&mut v, " times in ");
                push_str(&mut v, path);
                push_str(&mut v, ", must match exactly once: ");
                let d = debug_quoted(old.as_str());
                push_str(&mut v, d.as_str());
                return Err(ToolError::Execution(string_of(v.as_slice())));
            },
        }
        i += 1;
    }
    assert(pv.take(i as int) =~= pv);
    proof {
        lemma_located_ok(base@, pv);
    }
    let cur = build_exec(base.as_slice(), &rs);
    let body = if crlf {
        expand_crlf(cur.as_slice())
    } else {
        cur
    };
    let rc = chars_of(raw);
    let mut text: Vec<char> = Vec::new();
    if rc.len() > 0 && rc[0] == '\u{FEFF}' {
        text.push('\u{FEFF}');
    }
    push_all(&mut text, body.as_slice());
    let mut v: Vec<char> = Vec::new();
    push_str(&mut v, "Successfully replaced ");
    let c = dec_u128(edits.len() as u128);
    push_all(&mut v, c.as_slice());
    push_str(&mut v, " block(s) in ");
    push_str(&mut v, path);
    push_str(&mut v, ".");
    let res = ToolResult { content: string_of(v.as_slice()), is_error: false };
    Ok((string_of(text.as_slice()), res))
}

/// A failure while locating a prefix of the edits is the failure of the
/// whole call.
proof fn lemma_located_prefix_err(base: Seq<char>, edits: Seq<(Seq<char>, Seq<char>)>, k: int)
    requires
        0 <= k <= edits.len(),
        located(base, edits.take(k)) is Err,
    ensures
        located(base, edits) == located(base, edits.take(k)),
    decreases edits.len() - k,
{
    if k < edits.len() {
        assert(edits.take(k + 1).drop_last() =~= edits.take(k));
        assert(located(base, edits.take(k + 1)) == located(base, edits.take(k)));
        lemma_located_prefix_err(base, edits, k + 1);
    } else {
        assert(edits.take(k) =~= edits);
    }
}

/// `s` with its items at `i` and `i + 1` swapped.
pub open spec fn swapped<T>(s: Seq<T>, i: int) -> Seq<T> {
    s.update(i, s[i + 1]).update(i + 1, s[i])
}

/// Swapping two neighbouring replacements changes no clash.
proof fn lemma_clashes_swapped(rs: Seq<Range>, i: int, a: int, b: int)
    requires
        0 <= i < rs.len() - 1,
    ensures
        clashes(swapped(rs, i), a, b) == clashes(rs, a, b),
{
    let t = swapped(rs, i);
    if clashes(rs, a, b) {
        let k = choose|k: int| 0 <= k < rs.len() && (#[trigger] rs[k].0 == a || (rs[k].0 < b && a < rs[k].1));
        let k2 = if k == i { i + 1 } else if k == i + 1 { i } else { k };
        assert(t[k2] == rs[k]);
    }
    if clashes(t, a, b) {
        let k = choose|k: int| 0 <= k < t.len() && (#[trigger] t[k].0 == a || (t[k].0 < b && a < t[k].1));
        let k2 = if k == i { i + 1 } else if k == i + 1 { i } else { k };
        assert(rs[k2] == t[k]);
    }
}

/// Located edits with two neighbours swapped are located at the same
/// places, with those two replacements swapped.
proof fn lemma_located_swapped(base: Seq<char>, edits: Seq<(Seq<char>, Seq<char>)>, i: int)
    requires
        0 <= i < edits.len() - 1,
        located(base, edits) is Ok,
    ensures
        located(base, swapped(edits, i)) == Ok::<Seq<Range>, EditRun>(
            swapped(located(base, edits)->Ok_0, i),
        ),
    decreases edits.len(),
{
    let e = edits;
    let s = swapped(e, i);
    let n = e.len();
    lemma_located_ok(base, e);
    lemma_located_ok(base, e.drop_last());
    let rs = located(base, e)->Ok_0;
    if n == i + 2 {
        let p = e.drop_last().drop_last();
        lemma_located_ok(base, p);
        assert(s.drop_last().drop_last() =~= p);
        assert(located(base, e.drop_last()) is Ok);
        let rs0 = located(base, p)->Ok_0;
        let ri = located(base, e.drop_last())->Ok_0.last();
        let rj = rs.last();
        assert(e.drop_last().last() == e[i]);
        assert(located(base, e.drop_last()) == Ok::<Seq<Range>, EditRun>(rs0.push(ri)));
        assert(rs == rs0.push(ri).push(rj));
        let (ai, bi, ni) = ri;
        let (aj, bj, nj) = rj;
        assert(locate(base, e[i].0) == Locate::At(ai, bi));
        assert(locate(base, e[i + 1].0) == Locate::At(aj, bj));
        assert(!clashes(rs0.push(ri), aj, bj));
        assert(!clashes(rs0, aj, bj)) by {
            if clashes(rs0, aj, bj) {
                let k = choose|k: int| 0 <= k < rs0.len() && (#[trigger] rs0[k].0 == aj || (rs0[k].0 < bj && aj < rs0[k].1));
                assert(rs0.push(ri)[k] == rs0[k]);
            }
        }
        assert(rs0.push(ri)[rs0.len() as int] == ri);
        assert(!(ai == aj || (ai < bj && aj < bi)));
        assert(!clashes(rs0, ai, bi));
        assert(!clashes(rs0.push(rj), ai, bi)) by {
            if clashes(rs0.push(rj), ai, bi) {
                let t = rs0.push(rj);
                let k = choose|k: int| 0 <= k < t.len() && (#[trigger] t[k].0 == ai || (t[k].0 < bi && ai < t[k].1));
                if k < rs0.len() {
                    assert(t[k] == rs0[k]);
                }
            }
        }
        assert(s.drop_last() =~= p.push(e[i + 1]));
        assert(s.last() == e[i]);
        assert(located(base, s.drop_last()) == Ok::<Seq<Range>, EditRun>(rs0.push(rj)));
        assert(located(base, s) == Ok::<Seq<Range>, EditRun>(rs0.push(rj).push(ri)));
        assert(rs0.push(rj).push(ri) =~= swapped(rs, i));
    } else {
        let d = e.drop_last();
        assert(located(base, d) is Ok);
        let rd = located(base, d)->Ok_0;
        lemma_located_swapped(base, d, i);
        assert(s.drop_last() =~= swapped(d, i));
        assert(s.last() == e.last());
        let (old, new) = e.last();
        let (a, b) = (locate(base, old)->At_0, locate(base, old)->At_1);
        assert(locate(base, old) == Locate::At(a, b));
        assert(rs == rd.push((a, b, new)));
        lemma_clashes_swapped(rd, i, a, b);
        assert(located(base, s) == Ok::<Seq<Range>, EditRun>(swapped(rd, i).push((a, b, new))));
        assert(swapped(rd, i).push((a, b, new)) =~= swapped(rs, i));
    }
}

/// With distinct starts, swapping two neighbouring replacements finds the
/// same replacement at every position.
proof fn lemma_start_at_swapped(rs: Seq<Range>, i: int, p: int)
    requires
        0 <= i < rs.len() - 1,
        forall|k: int, l: int| 0 <= k < l < rs.len() ==> #[trigger] rs[k].0 != #[trigger] rs[l].0,
    ensures
        start_at(rs, p) is Some <==> start_at(swapped(rs, i), p) is Some,
        start_at(rs, p) is Some ==> rs[start_at(rs, p)->0] == swapped(rs, i)[start_at(swapped(rs, i), p)->0],
{
    let t = swapped(rs, i);
    if start_at(rs, p) is Some {
        let k = start_at(rs, p)->0;
        let k2 = if k == i { i + 1 } else if k == i + 1 { i } else { k };
        assert(t[k2] == rs[k]);
        let j = start_at(t, p)->0;
        let j2 = if j == i { i + 1 } else if j == i + 1 { i } else { j };
        assert(rs[j2] == t[j]);
        if j2 != k {
            if j2 < k {
                assert(rs[j2].0 != rs[k].0);
            } else {
                assert(rs[k].0 != rs[j2].0);
            }
        }
    } else {
        if start_at(t, p) is Some {
            let j = start_at(t, p)->0;
            let j2 = if j == i { i + 1 } else if j == i + 1 { i } else { j };
            assert(rs[j2] == t[j]);
        }
    }
}

/// With distinct starts, swapping two neighbouring replacements builds the
/// same text.
proof fn lemma_build_swapped(base: Seq<char>, rs: Seq<Range>, i: int, p: int)
    requires
        0 <= i < rs.len() - 1,
        forall|k: int, l: int| 0 <= k < l < rs.len() ==> #[trigger] rs[k].0 != #[trigger] rs[l].0,
    ensures
        build(base, swapped(rs, i), p) == build(base, rs, p),
    decreases base.len() - p,
{
    lemma_start_at_swapped(rs, i, p);
    if 0 <= p < base.len() {
        lemma_build_swapped(base, rs, i, p + 1);
        if start_at(rs, p) is Some {
            let k = start_at(rs, p)->0;
            if p < rs[k].1 <= base.len() {
                lemma_build_swapped(base, rs, i, rs[k].1);
            }
        }
    }
}

/// Every edit is located in the text as read, so the order of the edits
/// does not matter: swapping two neighbouring edits of a call that succeeds
/// gives the same text.
pub proof fn law_edit_order_irrelevant(base: Seq<char>, edits: Seq<(Seq<char>, Seq<char>)>, i: int)
    requires
        0 <= i < edits.len() - 1,
        run_edits(base, edits) is Done,
    ensures
        run_edits(base, swapped(edits, i)) == run_edits(base, edits),
{
    lemma_located_err(base, edits);
    lemma_located_ok(base, edits);
    assert(located(base, edits) is Ok);
    lemma_located_swapped(base, edits, i);
    let rs = located(base, edits)->Ok_0;
    lemma_build_swapped(base, rs, i, 0);
}

/// A byte-order mark is kept: the written text starts with one when the
/// file as read did.
pub proof fn law_bom_kept(raw: Seq<char>, t: Seq<char>)
    ensures
        raw.len() > 0 && raw[0] == '\u{FEFF}' ==> edited_file(raw, t)[0] == '\u{FEFF}',
{
}


impl EditTool {
    /// The tool as offered to the model.
    pub fn spec(&self) -> (s: crate::model::ToolSpec)
        ensures
            s.name@ == "edit"@,
            s.description@ == "Edit files with precise or fuzzy text matching. Supports batch edits."@,
            s.parameters@ == "{\"type\":\"object\",\"properties\":{\"path\":{\"type\":\"string\",\"description\":\"Path to the file to edit\"},\"edits\":{\"description\":\"Array of edit operations, each with oldText and newText\",\"oneOf\":[{\"type\":\"array\",\"items\":{\"type\":\"object\",\"properties\":{\"oldText\":{\"type\":\"string\"},\"newText\":{\"type\":\"string\"}}}},{\"type\":\"object\",\"properties\":{\"oldText\":{\"type\":\"string\"},\"newText\":{\"type\":\"string\"}}}]},\"oldText\":{\"type\":\"string\",\"description\":\"Legacy: text to find\"},\"newText\":{\"type\":\"string\",\"description\":\"Legacy: replacement text\"}},\"required\":[\"path\"]}"@,
    {
        crate::model::ToolSpec {
            name: "edit".to_owned(),
            description: "Edit files with precise or fuzzy text matching. Supports batch edits.".to_owned(),
            parameters: "{\"type\":\"object\",\"properties\":{\"path\":{\"type\":\"string\",\"description\":\"Path to the file to edit\"},\"edits\":{\"description\":\"Array of edit operations, each with oldText and newText\",\"oneOf\":[{\"type\":\"array\",\"items\":{\"type\":\"object\",\"properties\":{\"oldText\":{\"type\":\"string\"},\"newText\":{\"type\":\"string\"}}}},{\"type\":\"object\",\"properties\":{\"oldText\":{\"type\":\"string\"},\"newText\":{\"type\":\"string\"}}}]},\"oldText\":{\"type\":\"string\",\"description\":\"Legacy: text to find\"},\"newText\":{\"type\":\"string\",\"description\":\"Legacy: replacement text\"}},\"required\":[\"path\"]}".to_owned(),
        }
    }
}

} // verus!
