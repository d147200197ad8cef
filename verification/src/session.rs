//! Session files: the name of a new session and which stored session is
//! the latest.
use vstd::prelude::*;

use crate::text::{chars_of, dec, dec_u64, push_all, push_str, string_of};

verus! {

/// `n` in decimal, padded with zeros to at least `w` digits.
pub open spec fn zero_padded(n: nat, w: nat) -> Seq<char> {
    let d = dec(n);
    if d.len() < w {
        Seq::new((w - d.len()) as nat, |i: int| '0') + d
    } else {
        d
    }
}

/// The id of a session started at a time: seconds since the epoch, `_`,
/// and the nanoseconds padded to nine digits.
pub open spec fn session_id(secs: u64, nanos: u32) -> Seq<char> {
    dec(secs as nat) + "_"@ + zero_padded(nanos as nat, 9)
}

/// The id of a session started at a time (see [`session_id`]).
pub fn new_session_id(secs: u64, nanos: u32) -> (r: String)
    ensures
        r@ == session_id(secs, nanos),
{
    let mut v: Vec<char> = Vec::new();
    let a = dec_u64(secs);
    push_all(&mut v, a.as_slice());
    push_str(&mut v, "_");
    let b = dec_u64(nanos as u64);
    let mut k: usize = b.len();
    let ghost start = v@;
    while k < 9
        invariant
            b.len() <= k <= 9 || (b.len() > 9 && k == b.len()),
            v@ == start + Seq::new((k - b.len()) as nat, |i: int| '0'),
        decreases 9 - k,
    {
        v.push('0');
        assert(v@ =~= start + Seq::new((k + 1 - b.len()) as nat, |i: int| '0'));
        k += 1;
    }
    let ghost pad = v@;
    push_all(&mut v, b.as_slice());
    proof {
        if b@.len() < 9 {
            assert(pad =~= start + Seq::new((9 - b@.len()) as nat, |i: int| '0'));
        } else {
            assert(pad =~= start);
        }
        assert(v@ =~= session_id(secs, nanos));
    }
    string_of(v.as_slice())
}

/// `a` comes before `b` in code-point order (the order of their UTF-8
/// bytes).
pub open spec fn lex_lt(a: Seq<char>, b: Seq<char>) -> bool
    decreases a.len(),
{
    if a.len() == 0 {
        b.len() > 0
    } else if b.len() == 0 {
        false
    } else if a[0] != b[0] {
        (a[0] as int) < (b[0] as int)
    } else {
        lex_lt(a.drop_first(), b.drop_first())
    }
}

/// Whether `a` comes before `b`.
fn lex_lt_exec(a: &[char], b: &[char]) -> (r: bool)
    ensures
        r == lex_lt(a@, b@),
{
    let mut i: usize = 0;
    assert(a@.skip(0) =~= a@);
    assert(b@.skip(0) =~= b@);
    while i < a.len() && i < b.len() && a[i] == b[i]
        invariant
            i <= a.len(),
            i <= b.len(),
            lex_lt(a@, b@) == lex_lt(a@.skip(i as int), b@.skip(i as int)),
        decreases a.len() - i,
    {
        assert(a@.skip(i as int).drop_first() =~= a@.skip(i as int + 1));
        assert(b@.skip(i as int).drop_first() =~= b@.skip(i as int + 1));
        i += 1;
    }
    proof {
        if i < a.len() {
            assert(a@.skip(i as int)[0] == a@[i as int]);
        }
        if i < b.len() {
            assert(b@.skip(i as int)[0] == b@[i as int]);
        }
    }
    if i == a.len() {
        i < b.len()
    } else if i == b.len() {
        false
    } else {
        a[i] < b[i]
    }
}

/// A file name with the `jsonl` extension: it ends in `.jsonl` after at
/// least one other character.
pub open spec fn jsonl_name(n: Seq<char>) -> bool {
    n.len() > 6 && n.subrange(n.len() - 6, n.len() as int) == ".jsonl"@
}

/// Of the file names in the sessions directory, the greatest in code-point
/// order with the `jsonl` extension (of equal ones, the last).
pub open spec fn latest_session(names: Seq<Seq<char>>) -> Option<Seq<char>>
    decreases names.len(),
{
    if names.len() == 0 {
        None
    } else {
        let prev = latest_session(names.drop_last());
        let n = names.last();
        if !jsonl_name(n) {
            prev
        } else {
            match prev {
                Some(b) => if lex_lt(n, b) {
                    Some(b)
                } else {
                    Some(n)
                },
                None => Some(n),
            }
        }
    }
}

/// The latest stored session (see [`latest_session`]).
pub fn latest_session_path(names: &[String]) -> (r: Option<String>)
    ensures
        match latest_session(names@.map_values(|s: String| s@)) {
            Some(b) => r matches Some(x) && x@ == b,
            None => r is None,
        },
{
    let ghost nv = names@.map_values(|s: String| s@);
    let mut best: Option<String> = None;
    let mut i: usize = 0;
    let suffix = chars_of(".jsonl");
    while i < names.len()
        invariant
            i <= names.len(),
            nv == names@.map_values(|s: String| s@),
            suffix@ == ".jsonl"@,
            match latest_session(nv.take(i as int)) {
                Some(b) => best matches Some(x) && x@ == b,
                None => best is None,
            },
        decreases names.len() - i,
    {
        let n = chars_of(names[i].as_str());
        assert(nv.take(i as int + 1).drop_last() =~= nv.take(i as int));
        assert(nv.take(i as int + 1).last() == n@);
        let jsonl = n.len() > 6 && crate::text::ends_with(n.as_slice(), suffix.as_slice());
        proof {
            reveal_strlit(".jsonl");
            if n@.len() > 6 {
                assert(n@.skip(n@.len() - 6) =~= n@.subrange(n@.len() - 6, n@.len() as int));
            }
        }
        if jsonl {
            let take = match &best {
                Some(b) => {
                    let bc = chars_of(b.as_str());
                    !lex_lt_exec(n.as_slice(), bc.as_slice())
                },
                None => true,
            };
            if take {
                best = Some(names[i].clone());
            }
        }
        i += 1;
    }
    assert(nv.take(names.len() as int) =~= nv);
    best
}

/// Code-point order is asymmetric.
proof fn lemma_lex_asym(a: Seq<char>, b: Seq<char>)
    ensures
        lex_lt(a, b) ==> !lex_lt(b, a),
    decreases a.len(),
{
    if a.len() > 0 && b.len() > 0 && a[0] == b[0] {
        lemma_lex_asym(a.drop_first(), b.drop_first());
    }
}

/// Code-point order is total on distinct strings.
proof fn lemma_lex_total(a: Seq<char>, b: Seq<char>)
    ensures
        a != b ==> lex_lt(a, b) || lex_lt(b, a),
    decreases a.len(),
{
    if a.len() > 0 && b.len() > 0 && a[0] == b[0] {
        lemma_lex_total(a.drop_first(), b.drop_first());
        if a.drop_first() == b.drop_first() {
            assert(a =~= seq![a[0]] + a.drop_first());
            assert(b =~= seq![b[0]] + b.drop_first());
        }
    } else if a.len() > 0 && b.len() > 0 {
        assert((a[0] as int) != (b[0] as int));
    } else if a.len() == 0 && b.len() == 0 {
        assert(a =~= b);
    }
}

/// Code-point order is transitive.
proof fn lemma_lex_trans(a: Seq<char>, b: Seq<char>, c: Seq<char>)
    ensures
        lex_lt(a, b) && lex_lt(b, c) ==> lex_lt(a, c),
    decreases a.len(),
{
    if a.len() > 0 && b.len() > 0 && c.len() > 0 && a[0] == b[0] && b[0] == c[0] {
        lemma_lex_trans(a.drop_first(), b.drop_first(), c.drop_first());
    }
}

/// The session picked at start-up is the latest one stored: a `jsonl` file
/// of the directory that no other `jsonl` file comes after; there is none
/// only when the directory holds no `jsonl` file.
pub proof fn law_latest_session_is_greatest(names: Seq<Seq<char>>)
    ensures
        match latest_session(names) {
            Some(b) => {
                &&& names.contains(b)
                &&& jsonl_name(b)
                &&& forall|i: int| 0 <= i < names.len() && jsonl_name(#[trigger] names[i]) ==> !lex_lt(b, names[i])
            },
            None => forall|i: int| 0 <= i < names.len() ==> !jsonl_name(#[trigger] names[i]),
        },
    decreases names.len(),
{
    if names.len() > 0 {
        let init = names.drop_last();
        let n = names.last();
        law_latest_session_is_greatest(init);
        assert forall|i: int| 0 <= i < init.len() implies #[trigger] init[i] == names[i] by {}
        match latest_session(init) {
            Some(b) => {
                let j = choose|j: int| 0 <= j < init.len() && init[j] == b;
                assert(names[j] == b);
                if jsonl_name(n) {
                    lemma_lex_asym(n, b);
                    if !lex_lt(n, b) {
                        assert forall|i: int| 0 <= i < names.len() && jsonl_name(#[trigger] names[i]) implies !lex_lt(n, names[i]) by {
                            if i < init.len() {
                                assert(init[i] == names[i]);
                                assert(!lex_lt(b, names[i]));
                                lemma_lex_total(names[i], b);
                                lemma_lex_trans(n, names[i], b);
                            } else {
                                lemma_lex_asym(n, n);
                            }
                        }
                        assert(names[names.len() - 1] == n);
                    } else {
                        assert forall|i: int| 0 <= i < names.len() && jsonl_name(#[trigger] names[i]) implies !lex_lt(b, names[i]) by {
                            if i < init.len() {
                                assert(init[i] == names[i]);
                            }
                        }
                    }
                } else {
                    assert forall|i: int| 0 <= i < names.len() && jsonl_name(#[trigger] names[i]) implies !lex_lt(b, names[i]) by {
                        if i < init.len() {
                            assert(init[i] == names[i]);
                        }
                    }
                }
            },
            None => {
                if jsonl_name(n) {
                    assert(names[names.len() - 1] == n);
                    assert forall|i: int| 0 <= i < names.len() && jsonl_name(#[trigger] names[i]) implies !lex_lt(n, names[i]) by {
                        if i < init.len() {
                            assert(init[i] == names[i]);
                        } else {
                            lemma_lex_asym(n, n);
                        }
                    }
                } else {
                    assert forall|i: int| 0 <= i < names.len() implies !jsonl_name(#[trigger] names[i]) by {
                        if i < init.len() {
                            assert(init[i] == names[i]);
                        }
                    }
                }
            },
        }
    }
}

// ---------------------------------------------------------------------------
// Session ids sort by time
// ---------------------------------------------------------------------------

/// Every character is a decimal digit.
pub open spec fn all_digits(s: Seq<char>) -> bool {
    forall|i: int| 0 <= i < s.len() ==> 48 <= #[trigger] (s[i] as int) <= 57
}

/// The number a string of decimal digits stands for.
pub open spec fn digits_value(s: Seq<char>) -> int
    decreases s.len(),
{
    if s.len() == 0 {
        0
    } else {
        10 * digits_value(s.drop_last()) + (s.last() as int - 48)
    }
}

/// `10` to the power `k`.
pub open spec fn pow10(k: nat) -> nat
    decreases k,
{
    if k == 0 {
        1
    } else {
        10 * pow10((k - 1) as nat)
    }
}

/// Comparing two concatenations whose first parts have the same length:
/// the first parts decide, and on a tie the second parts.
proof fn lemma_lex_concat(x: Seq<char>, y: Seq<char>, u: Seq<char>, v: Seq<char>)
    requires
        x.len() == u.len(),
    ensures
        lex_lt(x + y, u + v) == (lex_lt(x, u) || (x == u && lex_lt(y, v))),
    decreases x.len(),
{
    if x.len() == 0 {
        assert(x =~= u);
        assert(x + y =~= y);
        assert(u + v =~= v);
    } else {
        assert((x + y)[0] == x[0]);
        assert((u + v)[0] == u[0]);
        assert((x + y).drop_first() =~= x.drop_first() + y);
        assert((u + v).drop_first() =~= u.drop_first() + v);
        lemma_lex_concat(x.drop_first(), y, u.drop_first(), v);
        if x[0] == u[0] {
            if x.drop_first() == u.drop_first() {
                assert(x =~= seq![x[0]] + x.drop_first());
                assert(u =~= seq![u[0]] + u.drop_first());
            }
            if x == u {
                assert(x.drop_first() == u.drop_first());
            }
        } else {
            assert(x != u);
        }
    }
}

/// Between digit strings of one length, code-point order is numeric order.
proof fn lemma_digits_order(s: Seq<char>, t: Seq<char>)
    requires
        all_digits(s),
        all_digits(t),
        s.len() == t.len(),
    ensures
        lex_lt(s, t) == (digits_value(s) < digits_value(t)),
        (s == t) == (digits_value(s) == digits_value(t)),
    decreases s.len(),
{
    if s.len() == 0 {
        assert(s =~= t);
    } else {
        let p = s.drop_last();
        let q = t.drop_last();
        let c = s.last();
        let d = t.last();
        assert(all_digits(p));
        assert(all_digits(q));
        assert(48 <= (c as int) <= 57) by {
            assert(s[s.len() - 1] == c);
        }
        assert(48 <= (d as int) <= 57) by {
            assert(t[t.len() - 1] == d);
        }
        lemma_digits_order(p, q);
        lemma_digits_order(q, p);
        lemma_lex_total(p, q);
        lemma_lex_asym(p, q);
        assert(s =~= p + seq![c]);
        assert(t =~= q + seq![d]);
        lemma_lex_concat(p, seq![c], q, seq![d]);
        assert(seq![c].drop_first() =~= Seq::<char>::empty());
        assert(seq![d].drop_first() =~= Seq::<char>::empty());
        assert(lex_lt(seq![c], seq![d]) == ((c as int) < (d as int))) by {
            if c == d {
                assert(!lex_lt(Seq::<char>::empty(), Seq::<char>::empty()));
            }
        }
        let vp = digits_value(p);
        let vq = digits_value(q);
        assert(digits_value(s) == 10 * vp + (c as int - 48));
        assert(digits_value(t) == 10 * vq + (d as int - 48));
        if s == t {
            assert(c == d);
        }
        if p == q && c == d {
            assert(s == t);
        }
    }
}

/// Decimal renderings are digit strings of the number's value.
proof fn lemma_dec_value(n: nat)
    ensures
        all_digits(crate::text::dec(n)),
        digits_value(crate::text::dec(n)) == n,
        crate::text::dec(n).len() >= 1,
    decreases n,
{
    let d = crate::text::dec(n);
    if n < 10 {
        assert(crate::text::digit_char(n) as int == n + 48);
        assert(d.drop_last() =~= Seq::<char>::empty());
        assert(d.last() == crate::text::digit_char(n));
        assert(digits_value(d) == 10 * digits_value(d.drop_last()) + (d.last() as int - 48));
    } else {
        lemma_dec_value(n / 10);
        let c = crate::text::digit_char(n % 10);
        assert(c as int == n % 10 + 48);
        assert(d.drop_last() =~= crate::text::dec(n / 10));
        assert(d.last() == c);
        assert(n == 10 * (n / 10) + n % 10);
        assert(digits_value(d) == 10 * digits_value(d.drop_last()) + (d.last() as int - 48));
        assert forall|i: int| 0 <= i < d.len() implies 48 <= #[trigger] (d[i] as int) <= 57 by {
            if i < d.len() - 1 {
                assert(d[i] == crate::text::dec(n / 10)[i]);
            }
        }
    }
}

/// A number below `10^k` (with `k >= 1`) has at most `k` digits.
proof fn lemma_dec_len(n: nat, k: nat)
    requires
        k >= 1,
        n < pow10(k),
    ensures
        crate::text::dec(n).len() <= k,
    decreases n,
{
    if n >= 10 {
        let p = pow10((k - 1) as nat);
        assert(n / 10 < p) by (nonlinear_arith)
            requires
                n < 10 * p,
        ;
        if k == 1 {
            assert(false);
        }
        lemma_dec_len(n / 10, (k - 1) as nat);
    }
}

/// Leading zeros do not change the value.
proof fn lemma_leading_zeros(z: Seq<char>, s: Seq<char>)
    requires
        forall|i: int| 0 <= i < z.len() ==> #[trigger] z[i] == '0',
    ensures
        digits_value(z + s) == digits_value(s),
    decreases s.len(), z.len(),
{
    if s.len() == 0 {
        assert(z + s =~= z);
        if z.len() > 0 {
            assert(z.last() == '0');
            lemma_leading_zeros(z.drop_last(), s);
            assert(z.drop_last() + s =~= z.drop_last());
        }
    } else {
        assert((z + s).drop_last() =~= z + s.drop_last());
        assert((z + s).last() == s.last());
        lemma_leading_zeros(z, s.drop_last());
    }
}

/// Padding to nine digits gives nine digits standing for the number.
proof fn lemma_nanos_field(n: nat)
    requires
        n < 1_000_000_000,
    ensures
        all_digits(zero_padded(n, 9)),
        digits_value(zero_padded(n, 9)) == n,
        zero_padded(n, 9).len() == 9,
{
    let d = crate::text::dec(n);
    lemma_dec_value(n);
    assert(pow10(9) == 1_000_000_000) by {
        reveal_with_fuel(pow10, 10);
    }
    lemma_dec_len(n, 9);
    if d.len() < 9 {
        let z = Seq::new((9 - d.len()) as nat, |i: int| '0');
        lemma_leading_zeros(z, d);
        assert(zero_padded(n, 9) == z + d);
        assert forall|i: int| 0 <= i < (z + d).len() implies 48 <= #[trigger] ((z + d)[i] as int) <= 57 by {
            if i < z.len() {
                assert((z + d)[i] == '0');
            } else {
                assert((z + d)[i] == d[i - z.len()]);
            }
        }
    }
}

/// Session ids sort as the times they were made, as long as the seconds
/// have the same number of digits (ids made in the same epoch decade).
pub proof fn law_session_ids_follow_time(s1: u64, n1: u32, s2: u64, n2: u32)
    requires
        crate::text::dec(s1 as nat).len() == crate::text::dec(s2 as nat).len(),
        n1 < 1_000_000_000,
        n2 < 1_000_000_000,
    ensures
        lex_lt(session_id(s1, n1), session_id(s2, n2)) == (s1 < s2 || (s1 == s2 && n1 < n2)),
{
    let a = crate::text::dec(s1 as nat);
    let b = crate::text::dec(s2 as nat);
    let za = zero_padded(n1 as nat, 9);
    let zb = zero_padded(n2 as nat, 9);
    lemma_dec_value(s1 as nat);
    lemma_dec_value(s2 as nat);
    lemma_nanos_field(n1 as nat);
    lemma_nanos_field(n2 as nat);
    lemma_digits_order(a, b);
    lemma_digits_order(za, zb);
    assert(session_id(s1, n1) =~= a + ("_"@ + za));
    assert(session_id(s2, n2) =~= b + ("_"@ + zb));
    lemma_lex_concat(a, "_"@ + za, b, "_"@ + zb);
    lemma_lex_concat("_"@, za, "_"@, zb);
    lemma_lex_asym("_"@, "_"@);
}

} // verus!
