//! Character-level string helpers shared by the rest of the library.
//!
//! Strings are reasoned about through their view, a `Seq<char>`. Byte
//! positions and byte lengths, which the agent's text tools use, are the
//! lengths of the UTF-8 encoding given by vstd's `encode_utf8`.
use vstd::prelude::*;
use vstd::utf8::*;

verus! {

/// Appends one character to a string (`String::push`). Claimed: the
/// string's characters gain `c` at the end.
#[verifier::external_body]
pub(crate) fn push_char(s: &mut String, c: char)
    ensures
        final(s)@ == old(s)@.push(c),
{
    s.push(c);
}

/// The characters of a string slice, in order.
pub fn chars_of(s: &str) -> (v: Vec<char>)
    ensures
        v@ == s@,
{
    let mut v: Vec<char> = Vec::new();
    for c in it: s.chars()
        invariant
            v@ == it.seq().take(it.index() as int),
            it.seq() == s@,
    {
        v.push(c);
    }
    v
}

/// Builds a string holding exactly the given characters.
pub fn string_of(v: &[char]) -> (s: String)
    ensures
        s@ == v@,
{
    let mut s = String::new();
    let mut i: usize = 0;
    while i < v.len()
        invariant
            i <= v.len(),
            s@ == v@.take(i as int),
        decreases v.len() - i,
    {
        push_char(&mut s, v[i]);
        assert(v@.take(i as int + 1) =~= v@.take(i as int).push(v@[i as int]));
        i += 1;
    }
    assert(v@.take(v.len() as int) =~= v@);
    s
}

/// Copies a string slice into an owned string.
pub fn owned(s: &str) -> (r: String)
    ensures
        r@ == s@,
{
    s.to_owned()
}

// ---------------------------------------------------------------------------
// UTF-8 byte lengths
// ---------------------------------------------------------------------------

/// Number of bytes of the UTF-8 encoding of one character.
pub open spec fn char_bytes(c: char) -> nat {
    encode_scalar(c as u32).len()
}

/// Number of bytes of the UTF-8 encoding of a character sequence
/// (what `str::len` returns).
pub open spec fn byte_len(s: Seq<char>) -> nat {
    encode_utf8(s).len()
}

pub proof fn lemma_char_bytes(c: char)
    ensures
        1 <= char_bytes(c) <= 4,
        (c as u32) < 0x80 ==> char_bytes(c) == 1,
        0x80 <= (c as u32) < 0x800 ==> char_bytes(c) == 2,
        0x800 <= (c as u32) < 0x10000 ==> char_bytes(c) == 3,
        0x10000 <= (c as u32) ==> char_bytes(c) == 4,
{
    broadcast use char_is_scalar;

}

pub proof fn lemma_encode_concat(a: Seq<char>, b: Seq<char>)
    ensures
        encode_utf8(a + b) == encode_utf8(a) + encode_utf8(b),
    decreases a.len(),
{
    if a.len() == 0 {
        assert(a + b =~= b);
        assert(encode_utf8(a) + encode_utf8(b) =~= encode_utf8(b));
    } else {
        assert((a + b).drop_first() =~= a.drop_first() + b);
        lemma_encode_concat(a.drop_first(), b);
        assert((a + b)[0] == a[0]);
        assert(encode_utf8(a + b) =~= encode_scalar(a[0] as u32) + (encode_utf8(a.drop_first())
            + encode_utf8(b)));
    }
}

pub proof fn lemma_byte_len_concat(a: Seq<char>, b: Seq<char>)
    ensures
        byte_len(a + b) == byte_len(a) + byte_len(b),
{
    lemma_encode_concat(a, b);
}

pub proof fn lemma_byte_len_single(c: char)
    ensures
        byte_len(seq![c]) == char_bytes(c),
{
    assert(seq![c].drop_first() =~= Seq::<char>::empty());
    assert(encode_utf8(seq![c]) =~= encode_scalar(c as u32) + encode_utf8(Seq::<char>::empty()));
}

pub proof fn lemma_byte_len_push(s: Seq<char>, c: char)
    ensures
        byte_len(s.push(c)) == byte_len(s) + char_bytes(c),
{
    assert(s.push(c) =~= s + seq![c]);
    lemma_byte_len_concat(s, seq![c]);
    lemma_byte_len_single(c);
}

/// A prefix is never longer in bytes than the whole.
pub proof fn lemma_byte_len_prefix(s: Seq<char>, k: int)
    requires
        0 <= k <= s.len(),
    ensures
        byte_len(s.take(k)) <= byte_len(s),
        byte_len(s) == byte_len(s.take(k)) + byte_len(s.skip(k)),
{
    assert(s =~= s.take(k) + s.skip(k));
    lemma_byte_len_concat(s.take(k), s.skip(k));
}

/// Characters take at least one byte each.
pub proof fn lemma_byte_len_ge_len(s: Seq<char>)
    ensures
        s.len() <= byte_len(s) <= 4 * s.len(),
    decreases s.len(),
{
    if s.len() > 0 {
        assert(s =~= s.drop_last().push(s.last()));
        lemma_byte_len_ge_len(s.drop_last());
        lemma_byte_len_push(s.drop_last(), s.last());
        lemma_char_bytes(s.last());
    }
}

/// `c.len_utf8()`.
pub fn char_len_utf8(c: char) -> (n: usize)
    ensures
        n == char_bytes(c),
        1 <= n <= 4,
{
    proof {
        lemma_char_bytes(c);
    }
    let u = c as u32;
    if u < 0x80 {
        1
    } else if u < 0x800 {
        2
    } else if u < 0x10000 {
        3
    } else {
        4
    }
}

/// The byte length of a character slice.
pub fn chars_byte_len(s: &[char]) -> (n: usize)
    requires
        byte_len(s@) <= usize::MAX,
    ensures
        n == byte_len(s@),
{
    let mut n: usize = 0;
    let mut i: usize = 0;
    while i < s.len()
        invariant
            i <= s.len(),
            n == byte_len(s@.take(i as int)),
            byte_len(s@) <= usize::MAX,
        decreases s.len() - i,
    {
        proof {
            assert(s@.take(i as int + 1) =~= s@.take(i as int).push(s@[i as int]));
            lemma_byte_len_push(s@.take(i as int), s@[i as int]);
            lemma_byte_len_prefix(s@, i as int + 1);
        }
        n = n + char_len_utf8(s[i]);
        i += 1;
    }
    assert(s@.take(s.len() as int) =~= s@);
    n
}

// ---------------------------------------------------------------------------
// Sequence helpers
// ---------------------------------------------------------------------------

/// `p` is a prefix of `s`.
pub open spec fn is_prefix(p: Seq<char>, s: Seq<char>) -> bool {
    p.len() <= s.len() && s.take(p.len() as int) == p
}

/// `p` is a suffix of `s`.
pub open spec fn is_suffix(p: Seq<char>, s: Seq<char>) -> bool {
    p.len() <= s.len() && s.skip(s.len() - p.len()) == p
}

/// `str::starts_with` on character sequences.
pub fn starts_with(s: &[char], p: &[char]) -> (b: bool)
    ensures
        b == is_prefix(p@, s@),
{
    if p.len() > s.len() {
        return false;
    }
    let mut i: usize = 0;
    while i < p.len()
        invariant
            p.len() <= s.len(),
            i <= p.len(),
            forall|j: int| 0 <= j < i ==> s@[j] == p@[j],
        decreases p.len() - i,
    {
        if s[i] != p[i] {
            assert(s@.take(p.len() as int)[i as int] != p@[i as int]);
            return false;
        }
        i += 1;
    }
    assert(s@.take(p.len() as int) =~= p@);
    true
}

/// `str::ends_with` on character sequences.
pub fn ends_with(s: &[char], p: &[char]) -> (b: bool)
    ensures
        b == is_suffix(p@, s@),
{
    if p.len() > s.len() {
        return false;
    }
    let off = s.len() - p.len();
    let mut i: usize = 0;
    while i < p.len()
        invariant
            p.len() <= s.len(),
            off == s.len() - p.len(),
            i <= p.len(),
            forall|j: int| 0 <= j < i ==> s@[off + j] == p@[j],
        decreases p.len() - i,
    {
        if s[off + i] != p[i] {
            assert(s@.skip(off as int)[i as int] != p@[i as int]);
            return false;
        }
        i += 1;
    }
    assert(s@.skip(off as int) =~= p@);
    true
}

/// Equality of two character slices.
pub fn chars_eq(a: &[char], b: &[char]) -> (r: bool)
    ensures
        r == (a@ == b@),
{
    if a.len() != b.len() {
        return false;
    }
    let mut i: usize = 0;
    while i < a.len()
        invariant
            a.len() == b.len(),
            i <= a.len(),
            forall|j: int| 0 <= j < i ==> a@[j] == b@[j],
        decreases a.len() - i,
    {
        if a[i] != b[i] {
            return false;
        }
        i += 1;
    }
    assert(a@ =~= b@);
    true
}

/// Equality of two string slices.
pub fn str_eq(a: &str, b: &str) -> (r: bool)
    ensures
        r == (a@ == b@),
{
    let x = chars_of(a);
    let y = chars_of(b);
    chars_eq(x.as_slice(), y.as_slice())
}

/// Appends all characters of `s` to `v`.
pub fn push_all(v: &mut Vec<char>, s: &[char])
    ensures
        final(v)@ == old(v)@ + s@,
{
    let ghost start = v@;
    let mut i: usize = 0;
    while i < s.len()
        invariant
            i <= s.len(),
            v@ == start + s@.take(i as int),
        decreases s.len() - i,
    {
        v.push(s[i]);
        assert(s@.take(i as int + 1) =~= s@.take(i as int).push(s@[i as int]));
        i += 1;
    }
    assert(s@.take(s.len() as int) =~= s@);
}

/// Appends all characters of a string slice to `v`.
pub fn push_str(v: &mut Vec<char>, s: &str)
    ensures
        final(v)@ == old(v)@ + s@,
{
    let c = chars_of(s);
    push_all(v, c.as_slice());
}

/// A copy of `s[from..to]`.
pub fn slice_to_vec(s: &[char], from: usize, to: usize) -> (r: Vec<char>)
    requires
        from <= to <= s.len(),
    ensures
        r@ == s@.subrange(from as int, to as int),
{
    let mut r: Vec<char> = Vec::new();
    let mut i = from;
    while i < to
        invariant
            from <= i <= to,
            to <= s.len(),
            r@ == s@.subrange(from as int, i as int),
        decreases to - i,
    {
        r.push(s[i]);
        assert(s@.subrange(from as int, i as int + 1) =~= s@.subrange(from as int, i as int).push(
            s@[i as int],
        ));
        i += 1;
    }
    r
}


// ---------------------------------------------------------------------------
// Whitespace and trimming (`char::is_whitespace`, `str::trim`)
// ---------------------------------------------------------------------------

/// The Unicode `White_Space` property, which `char::is_whitespace` tests.
pub open spec fn is_ws(c: char) -> bool {
    let u = c as u32;
    ||| 0x09 <= u <= 0x0D
    ||| u == 0x20
    ||| u == 0x85
    ||| u == 0xA0
    ||| u == 0x1680
    ||| 0x2000 <= u <= 0x200A
    ||| u == 0x2028
    ||| u == 0x2029
    ||| u == 0x202F
    ||| u == 0x205F
    ||| u == 0x3000
}

pub fn is_whitespace(c: char) -> (b: bool)
    ensures
        b == is_ws(c),
{
    let u = c as u32;
    (0x09 <= u && u <= 0x0D) || u == 0x20 || u == 0x85 || u == 0xA0 || u == 0x1680 || (0x2000
        <= u && u <= 0x200A) || u == 0x2028 || u == 0x2029 || u == 0x202F || u == 0x205F || u
        == 0x3000
}

/// `str::trim_start`.
pub open spec fn trim_start(s: Seq<char>) -> Seq<char>
    decreases s.len(),
{
    if s.len() > 0 && is_ws(s[0]) {
        trim_start(s.drop_first())
    } else {
        s
    }
}

/// `str::trim_end`.
pub open spec fn trim_end(s: Seq<char>) -> Seq<char>
    decreases s.len(),
{
    if s.len() > 0 && is_ws(s.last()) {
        trim_end(s.drop_last())
    } else {
        s
    }
}

/// `str::trim`.
pub open spec fn trim(s: Seq<char>) -> Seq<char> {
    trim_end(trim_start(s))
}

/// Index of the first character of `s` that is not whitespace (or `s.len()`).
fn first_non_ws(s: &[char]) -> (a: usize)
    ensures
        a <= s.len(),
        trim_start(s@) == s@.skip(a as int),
{
    let mut i: usize = 0;
    assert(s@.skip(0) =~= s@);
    while i < s.len() && is_whitespace(s[i])
        invariant
            i <= s.len(),
            trim_start(s@) == trim_start(s@.skip(i as int)),
        decreases s.len() - i,
    {
        assert(s@.skip(i as int).drop_first() =~= s@.skip(i as int + 1));
        i += 1;
    }
    proof {
        if i < s.len() {
            assert(s@.skip(i as int)[0] == s@[i as int]);
        } else {
            assert(s@.skip(i as int) =~= Seq::<char>::empty());
        }
    }
    i
}

/// One past the index of the last character of `s` that is not whitespace
/// (or `0`).
fn last_non_ws(s: &[char]) -> (b: usize)
    ensures
        b <= s.len(),
        trim_end(s@) == s@.take(b as int),
{
    let mut j: usize = s.len();
    assert(s@.take(s.len() as int) =~= s@);
    while j > 0 && is_whitespace(s[j - 1])
        invariant
            j <= s.len(),
            trim_end(s@) == trim_end(s@.take(j as int)),
        decreases j,
    {
        assert(s@.take(j as int).drop_last() =~= s@.take(j as int - 1));
        j -= 1;
    }
    proof {
        if j > 0 {
            assert(s@.take(j as int).last() == s@[j as int - 1]);
        } else {
            assert(s@.take(0) =~= Seq::<char>::empty());
        }
    }
    j
}

/// `str::trim` on characters.
pub fn trim_chars(s: &[char]) -> (r: Vec<char>)
    ensures
        r@ == trim(s@),
{
    let a = first_non_ws(s);
    let tail = slice_to_vec(s, a, s.len());
    assert(tail@ =~= s@.skip(a as int));
    let b = last_non_ws(tail.as_slice());
    slice_to_vec(tail.as_slice(), 0, b)
}

/// `str::trim` on a string slice.
pub fn trim_str(s: &str) -> (r: Vec<char>)
    ensures
        r@ == trim(s@),
{
    let c = chars_of(s);
    trim_chars(c.as_slice())
}



// ---------------------------------------------------------------------------
// Substring search (`str::find`, `str::matches`)
// ---------------------------------------------------------------------------

/// `p` occurs in `s` at character index `i`.
pub open spec fn occurs_at(s: Seq<char>, p: Seq<char>, i: int) -> bool {
    0 <= i && i + p.len() <= s.len() && s.subrange(i, i + p.len()) == p
}

/// Character index of the first occurrence of `p` in `s` (`str::find`).
pub open spec fn find_first(s: Seq<char>, p: Seq<char>) -> Option<int> {
    if exists|i: int| occurs_at(s, p, i) {
        Some(choose|i: int| occurs_at(s, p, i) && forall|j: int| 0 <= j < i ==> !occurs_at(s, p, j))
    } else {
        None
    }
}

/// Number of non-overlapping occurrences of `p` in `s`, scanning from the
/// left (`str::matches(p).count()`); an empty pattern matches at every
/// character boundary.
pub open spec fn count_matches(s: Seq<char>, p: Seq<char>) -> nat
    decreases s.len(),
{
    if p.len() == 0 {
        s.len() + 1
    } else if s.len() < p.len() {
        0
    } else if s.take(p.len() as int) == p {
        1 + count_matches(s.skip(p.len() as int), p)
    } else {
        count_matches(s.drop_first(), p)
    }
}

/// Whether `p` occurs in `s` at character index `i`.
pub fn occurs_at_exec(s: &[char], p: &[char], i: usize) -> (b: bool)
    ensures
        b == occurs_at(s@, p@, i as int),
{
    if i > s.len() || p.len() > s.len() - i {
        return false;
    }
    let mut k: usize = 0;
    while k < p.len()
        invariant
            i + p.len() <= s.len(),
            k <= p.len(),
            forall|j: int| 0 <= j < k ==> s@[i + j] == p@[j],
        decreases p.len() - k,
    {
        if s[i + k] != p[k] {
            assert(s@.subrange(i as int, i + p.len())[k as int] != p@[k as int]);
            return false;
        }
        k += 1;
    }
    assert(s@.subrange(i as int, i + p.len()) =~= p@);
    true
}

/// `str::find`, as a character index.
pub fn find_chars(s: &[char], p: &[char]) -> (r: Option<usize>)
    ensures
        match r {
            Some(i) => find_first(s@, p@) == Some(i as int) && i + p.len() <= s.len(),
            None => find_first(s@, p@) is None,
        },
{
    let mut i: usize = 0;
    while i < s.len()
        invariant
            i <= s.len(),
            forall|j: int| 0 <= j < i ==> !occurs_at(s@, p@, j),
        decreases s.len() - i,
    {
        if occurs_at_exec(s, p, i) {
            proof {
                lemma_first_is_find(s@, p@, i as int);
            }
            return Some(i);
        }
        i += 1;
    }
    if occurs_at_exec(s, p, i) {
        proof {
            lemma_first_is_find(s@, p@, i as int);
        }
        return Some(i);
    }
    assert forall|j: int| !occurs_at(s@, p@, j) by {
        if 0 <= j && j + p@.len() <= s@.len() {
            assert(j <= i);
        }
    }
    None
}

proof fn lemma_first_is_find(s: Seq<char>, p: Seq<char>, i: int)
    requires
        occurs_at(s, p, i),
        forall|j: int| 0 <= j < i ==> !occurs_at(s, p, j),
    ensures
        find_first(s, p) == Some(i),
{
    let c = choose|j: int| occurs_at(s, p, j) && forall|k: int| 0 <= k < j ==> !occurs_at(s, p, k);
    assert(occurs_at(s, p, c));
    if c < i {
        assert(!occurs_at(s, p, c));
    } else if c > i {
        assert(!occurs_at(s, p, i));
    }
}

pub proof fn lemma_count_matches_le(s: Seq<char>, p: Seq<char>)
    ensures
        count_matches(s, p) <= s.len() + 1,
    decreases s.len(),
{
    if p.len() > 0 && s.len() >= p.len() {
        if s.take(p.len() as int) == p {
            lemma_count_matches_le(s.skip(p.len() as int), p);
        } else {
            lemma_count_matches_le(s.drop_first(), p);
        }
    }
}

/// `str::matches(p).count()`.
pub fn count_matches_exec(s: &[char], p: &[char]) -> (n: u128)
    ensures
        n == count_matches(s@, p@),
{
    if p.len() == 0 {
        return (s.len() as u128) + 1;
    }
    let mut i: usize = 0;
    let mut n: u128 = 0;
    assert(s@.skip(0) =~= s@);
    while i < s.len()
        invariant
            p.len() > 0,
            i <= s.len(),
            n + count_matches(s@.skip(i as int), p@) == count_matches(s@, p@),
            n <= i,
        ensures
            n == count_matches(s@, p@),
        decreases s.len() - i,
    {
        let ghost rest = s@.skip(i as int);
        if p.len() > s.len() - i {
            assert(rest.len() < p@.len());
            break;
        }
        if occurs_at_exec(s, p, i) {
            assert(rest.take(p.len() as int) =~= s@.subrange(i as int, i + p.len()));
            assert(rest.skip(p.len() as int) =~= s@.skip(i + p.len()));
            n += 1;
            i += p.len();
        } else {
            assert(rest.take(p.len() as int) =~= s@.subrange(i as int, i + p.len()));
            assert(rest.drop_first() =~= s@.skip(i + 1));
            i += 1;
        }
    }
    n
}

// ---------------------------------------------------------------------------
// Lines (`str::lines`) and joining (`[S]::join`)
// ---------------------------------------------------------------------------

/// Index of the first `'\n'` in `s`, or `s.len()` when there is none.
pub open spec fn first_nl(s: Seq<char>) -> nat
    decreases s.len(),
{
    if s.len() == 0 {
        0
    } else if s[0] == '\n' {
        0
    } else {
        1 + first_nl(s.drop_first())
    }
}

/// A line without the `'\r'` that ended it, if one did.
pub open spec fn strip_cr(x: Seq<char>) -> Seq<char> {
    if x.len() > 0 && x.last() == '\r' {
        x.drop_last()
    } else {
        x
    }
}

/// `str::lines`: lines end at `'\n'` or at `"\r\n"`; the final line ending
/// is optional, and a last line without one keeps a trailing `'\r'`.
pub open spec fn lines(s: Seq<char>) -> Seq<Seq<char>>
    decreases s.len(),
{
    if s.len() == 0 {
        Seq::empty()
    } else {
        let e = first_nl(s);
        if e >= s.len() {
            seq![s]
        } else {
            seq![strip_cr(s.take(e as int))] + lines(s.skip(e as int + 1))
        }
    }
}

/// `parts.join(sep)`.
pub open spec fn join(parts: Seq<Seq<char>>, sep: Seq<char>) -> Seq<char>
    decreases parts.len(),
{
    if parts.len() == 0 {
        Seq::empty()
    } else if parts.len() == 1 {
        parts[0]
    } else {
        join(parts.drop_last(), sep) + sep + parts.last()
    }
}

proof fn lemma_first_nl(s: Seq<char>)
    ensures
        first_nl(s) <= s.len(),
        forall|j: int| 0 <= j < first_nl(s) ==> s[j] != '\n',
        first_nl(s) < s.len() ==> s[first_nl(s) as int] == '\n',
    decreases s.len(),
{
    if s.len() > 0 && s[0] != '\n' {
        lemma_first_nl(s.drop_first());
        assert forall|j: int| 0 <= j < first_nl(s) implies s[j] != '\n' by {
            if j > 0 {
                assert(s[j] == s.drop_first()[j - 1]);
            }
        }
    }
}

/// Index of the next `'\n'` at or after `i` (or `s.len()`).
fn next_nl(s: &[char], i: usize) -> (e: usize)
    requires
        i <= s.len(),
    ensures
        e == i + first_nl(s@.skip(i as int)),
        e <= s.len(),
{
    let mut e = i;
    proof {
        lemma_first_nl(s@.skip(i as int));
    }
    while e < s.len() && s[e] != '\n'
        invariant
            i <= e <= s.len(),
            first_nl(s@.skip(i as int)) == (e - i) + first_nl(s@.skip(e as int)),
        decreases s.len() - e,
    {
        assert(s@.skip(e as int).drop_first() =~= s@.skip(e as int + 1));
        assert(s@.skip(e as int)[0] == s@[e as int]);
        e += 1;
    }
    proof {
        if e < s.len() {
            assert(s@.skip(e as int)[0] == s@[e as int]);
        }
    }
    e
}

/// The lines of a character sequence (`str::lines`).
pub fn split_lines(s: &[char]) -> (r: Vec<Vec<char>>)
    ensures
        r.deep_view() == lines(s@),
{
    let mut res: Vec<Vec<char>> = Vec::new();
    let mut i: usize = 0;
    assert(s@.skip(0) =~= s@);
    while i < s.len()
        invariant
            i <= s.len(),
            res.deep_view() + lines(s@.skip(i as int)) == lines(s@),
        decreases s.len() - i,
    {
        let ghost rest = s@.skip(i as int);
        let e = next_nl(s, i);
        let ghost old_res = res.deep_view();
        if e == s.len() {
            let line = slice_to_vec(s, i, e);
            assert(line@ =~= rest);
            assert(line.deep_view() =~= line@);
            res.push(line);
            assert(res.deep_view() =~= old_res.push(line@));
            assert(lines(rest) =~= seq![rest]);
            assert(s@.skip(s.len() as int) =~= Seq::<char>::empty());
            i = e;
        } else {
            let mut line = slice_to_vec(s, i, e);
            assert(line@ =~= rest.take((e - i) as int));
            if line.len() > 0 && line[line.len() - 1] == '\r' {
                line.pop();
            }
            assert(line@ =~= strip_cr(rest.take((e - i) as int)));
            assert(line.deep_view() =~= line@);
            res.push(line);
            assert(res.deep_view() =~= old_res.push(line@));
            assert(rest.skip((e - i) as int + 1) =~= s@.skip(e as int + 1));
            assert(old_res.push(line@) + lines(s@.skip(e as int + 1)) =~= old_res + lines(rest));
            i = e + 1;
        }
    }
    assert(s@.skip(s.len() as int) =~= Seq::<char>::empty());
    assert(res.deep_view() + Seq::<Seq<char>>::empty() =~= res.deep_view());
    res
}

/// `parts[from..].join(sep)`.
pub fn join_from(parts: &Vec<Vec<char>>, from: usize, sep: &[char]) -> (r: Vec<char>)
    requires
        from <= parts.len(),
    ensures
        r@ == join(parts.deep_view().skip(from as int), sep@),
{
    let ghost ps = parts.deep_view().skip(from as int);
    let mut r: Vec<char> = Vec::new();
    let mut k = from;
    while k < parts.len()
        invariant
            from <= k <= parts.len(),
            ps == parts.deep_view().skip(from as int),
            r@ == join(ps.take((k - from) as int), sep@),
        decreases parts.len() - k,
    {
        let ghost done = ps.take((k - from) as int);
        assert(ps.take((k - from) as int + 1).drop_last() =~= done);
        assert(ps.take((k - from) as int + 1).last() == parts[k as int]@);
        assert(parts.deep_view()[k as int] == parts[k as int]@);
        if k > from {
            push_all(&mut r, sep);
        } else {
            assert(ps.take(1) =~= seq![ps[0]]);
        }
        push_all(&mut r, parts[k].as_slice());
        k += 1;
    }
    assert(ps.take((parts.len() - from) as int) =~= ps);
    r
}

// ---------------------------------------------------------------------------
// Decimal rendering
// ---------------------------------------------------------------------------

/// The ASCII digit for `d` (`0 <= d < 10`).
pub open spec fn digit_char(d: nat) -> char {
    ((d + 48) as u32) as char
}

/// Decimal rendering of a natural number, as `to_string` gives it.
pub open spec fn dec(n: nat) -> Seq<char>
    decreases n,
{
    if n < 10 {
        seq![digit_char(n)]
    } else {
        dec(n / 10).push(digit_char(n % 10))
    }
}

fn digit(d: u64) -> (c: char)
    requires
        d < 10,
    ensures
        c == digit_char(d as nat),
{
    if d == 0 {
        '0'
    } else if d == 1 {
        '1'
    } else if d == 2 {
        '2'
    } else if d == 3 {
        '3'
    } else if d == 4 {
        '4'
    } else if d == 5 {
        '5'
    } else if d == 6 {
        '6'
    } else if d == 7 {
        '7'
    } else if d == 8 {
        '8'
    } else {
        '9'
    }
}

/// Decimal digits of `n`.
pub fn dec_u64(n: u64) -> (r: Vec<char>)
    ensures
        r@ == dec(n as nat),
{
    dec_u128(n as u128)
}

/// Decimal digits of `n`.
pub fn dec_u128(n: u128) -> (r: Vec<char>)
    ensures
        r@ == dec(n as nat),
    decreases n,
{
    if n < 10 {
        let mut r = Vec::new();
        r.push(digit(n as u64));
        r
    } else {
        let mut r = dec_u128(n / 10);
        r.push(digit((n % 10) as u64));
        r
    }
}

/// `dec` never yields an empty rendering.
pub proof fn lemma_dec_nonempty(n: nat)
    ensures
        dec(n).len() >= 1,
    decreases n,
{
    if n >= 10 {
        lemma_dec_nonempty(n / 10);
    }
}

// ---------------------------------------------------------------------------
// Byte positions
// ---------------------------------------------------------------------------

/// The character index at which the text from `start` on spans exactly
/// `nbytes` bytes, if it does.
pub open spec fn span_end(s: Seq<char>, start: int, nbytes: nat) -> Option<int> {
    if exists|k: int| start <= k <= s.len() && byte_len(s.subrange(start, k)) == nbytes {
        Some(choose|k: int| start <= k <= s.len() && byte_len(s.subrange(start, k)) == nbytes)
    } else {
        None
    }
}

pub proof fn lemma_span_step(s: Seq<char>, start: int, k: int)
    requires
        0 <= start <= k < s.len(),
    ensures
        byte_len(s.subrange(start, k + 1)) == byte_len(s.subrange(start, k)) + char_bytes(s[k]),
{
    assert(s.subrange(start, k + 1) =~= s.subrange(start, k).push(s[k]));
    lemma_byte_len_push(s.subrange(start, k), s[k]);
}

pub proof fn lemma_span_monotone(s: Seq<char>, start: int, j: int, k: int)
    requires
        0 <= start <= j < k <= s.len(),
    ensures
        byte_len(s.subrange(start, j)) < byte_len(s.subrange(start, k)),
{
    assert(s.subrange(start, k) =~= s.subrange(start, j) + s.subrange(j, k));
    lemma_byte_len_concat(s.subrange(start, j), s.subrange(j, k));
    lemma_byte_len_ge_len(s.subrange(j, k));
}

/// [`span_end`] on characters.
pub fn span_end_exec(s: &[char], start: usize, nbytes: u128) -> (r: Option<usize>)
    requires
        start <= s.len(),
    ensures
        match r {
            Some(k) => span_end(s@, start as int, nbytes as nat) == Some(k as int) && start <= k
                <= s.len(),
            None => span_end(s@, start as int, nbytes as nat) is None,
        },
{
    let mut k = start;
    let mut acc: u128 = 0;
    assert(s@.subrange(start as int, start as int) =~= Seq::<char>::empty());
    while k < s.len() && acc < nbytes
        invariant
            start <= k <= s.len(),
            acc == byte_len(s@.subrange(start as int, k as int)),
            acc <= 4 * (k - start),
            forall|j: int| start <= j < k ==> byte_len(#[trigger] s@.subrange(start as int, j)) < nbytes,
        decreases s.len() - k,
    {
        proof {
            lemma_span_step(s@, start as int, k as int);
            lemma_char_bytes(s@[k as int]);
        }
        acc = acc + char_len_utf8(s[k]) as u128;
        k += 1;
    }
    if acc == nbytes {
        proof {
            let c = choose|c: int| start <= c <= s@.len() && byte_len(s@.subrange(start as int, c))
                == nbytes;
            if c < k {
                lemma_span_monotone(s@, start as int, c, k as int);
            } else if c > k {
                lemma_span_monotone(s@, start as int, k as int, c);
            }
        }
        Some(k)
    } else {
        proof {
            assert forall|c: int| start <= c <= s@.len() implies byte_len(
                s@.subrange(start as int, c),
            ) != nbytes by {
                if c > k {
                    lemma_span_monotone(s@, start as int, k as int, c);
                }
            }
        }
        None
    }
}

/// Byte length of characters, without a bound on it.
pub fn chars_bytes_wide(s: &[char]) -> (n: u128)
    ensures
        n == byte_len(s@),
{
    let mut n: u128 = 0;
    let mut i: usize = 0;
    while i < s.len()
        invariant
            i <= s.len(),
            n == byte_len(s@.take(i as int)),
            n <= 4 * i,
        decreases s.len() - i,
    {
        proof {
            assert(s@.take(i as int + 1) =~= s@.take(i as int).push(s@[i as int]));
            lemma_byte_len_push(s@.take(i as int), s@[i as int]);
            lemma_char_bytes(s@[i as int]);
        }
        n = n + char_len_utf8(s[i]) as u128;
        i += 1;
    }
    assert(s@.take(s.len() as int) =~= s@);
    n
}

} // verus!
