//! Compact token counts for the status line: `999`, `1.0k`, `10k`, `1.0M`.
//!
//! Thousands and millions are shown with one decimal the way
//! `format!("{:.1}", n as f64 / scale)` shows them: the quotient is first
//! rounded to the nearest double, then to one decimal (an exact tie goes to
//! the even digit). Both roundings are stated here over integers.
use vstd::prelude::*;

use crate::text::{dec, dec_u64, digit_char, push_all, string_of};

verus! {

/// 2 to the power `k`.
pub open spec fn two_pow(k: nat) -> nat
    decreases k,
{
    if k == 0 {
        1
    } else {
        2 * two_pow((k - 1) as nat)
    }
}

proof fn lemma_two_pow_pos(k: nat)
    ensures
        two_pow(k) >= 1,
    decreases k,
{
    if k > 0 {
        lemma_two_pow_pos((k - 1) as nat);
    }
}

proof fn lemma_two_pow_le(a: nat, b: nat)
    requires
        a <= b,
    ensures
        two_pow(a) <= two_pow(b),
    decreases b - a,
{
    if a < b {
        lemma_two_pow_le(a, (b - 1) as nat);
        lemma_two_pow_pos((b - 1) as nat);
    }
}

/// `n / scale` is a double of the binade in which shifting it left by `s`
/// bits puts its leading bit at position 52.
pub open spec fn is_shift(n: nat, scale: nat, s: nat) -> bool {
    scale * two_pow(52) <= n * two_pow(s) < scale * two_pow(53)
}

/// The shift of `n / scale` (see [`is_shift`]).
pub open spec fn shift(n: nat, scale: nat) -> nat {
    choose|s: nat| is_shift(n, scale, s)
}

/// The double nearest to `n / scale` lies above it: the bits that do not fit
/// in the 53-bit significand are more than half a unit in the last place.
pub open spec fn rounds_up(n: nat, scale: nat) -> bool {
    (n * two_pow(shift(n, scale))) % scale > scale / 2
}

/// Tenths of `n / scale` as `{:.1}` prints them; `five` is the power of
/// five in `scale`, so that the quotient is a double exactly when `five`
/// divides `n`.
pub open spec fn tenths(n: nat, scale: nat, five: nat) -> nat {
    let unit = scale / 10;
    let q = n / unit;
    let r = n % unit;
    if 2 * r < unit {
        q
    } else if 2 * r > unit {
        q + 1
    } else if n % five == 0 {
        if q % 2 == 0 {
            q
        } else {
            q + 1
        }
    } else if rounds_up(n, scale) {
        q + 1
    } else {
        q
    }
}

/// `n / scale` with one decimal and the suffix; from `whole_from` on, a
/// zero decimal is dropped.
pub open spec fn scaled(n: nat, scale: nat, five: nat, suffix: char, whole_from: nat) -> Seq<char> {
    let d = tenths(n, scale, five);
    if n >= whole_from && d % 10 == 0 {
        dec(d / 10) + seq![suffix]
    } else {
        dec(d / 10) + seq!['.', digit_char(d % 10), suffix]
    }
}

/// A token count: as is below a thousand, in thousands below a million, in
/// millions above.
pub open spec fn tokens_text(n: nat) -> Seq<char> {
    if n < 1_000 {
        dec(n)
    } else if n < 1_000_000 {
        scaled(n, 1_000, 125, 'k', 10_000)
    } else {
        scaled(n, 1_000_000, 15_625, 'M', 10_000_000)
    }
}

proof fn lemma_shift_unique(n: nat, scale: nat, s: nat)
    requires
        is_shift(n, scale, s),
    ensures
        shift(n, scale) == s,
{
    let c = shift(n, scale);
    assert(is_shift(n, scale, c));
    if c < s {
        lemma_two_pow_le(c + 1, s);
        assert(n * two_pow(c + 1) <= n * two_pow(s)) by (nonlinear_arith)
            requires
                two_pow(c + 1) <= two_pow(s),
        ;
        assert(two_pow(c + 1) == 2 * two_pow(c));
        assert(two_pow(53) == 2 * two_pow(52));
        assert(n * two_pow(c + 1) == 2 * (n * two_pow(c))) by (nonlinear_arith)
            requires
                two_pow(c + 1) == 2 * two_pow(c),
        ;
        assert(scale * two_pow(53) == 2 * (scale * two_pow(52))) by (nonlinear_arith)
            requires
                two_pow(53) == 2 * two_pow(52),
        ;
    } else if c > s {
        lemma_two_pow_le(s + 1, c);
        assert(n * two_pow(s + 1) <= n * two_pow(c)) by (nonlinear_arith)
            requires
                two_pow(s + 1) <= two_pow(c),
        ;
        assert(two_pow(s + 1) == 2 * two_pow(s));
        assert(two_pow(53) == 2 * two_pow(52));
        assert(n * two_pow(s + 1) == 2 * (n * two_pow(s))) by (nonlinear_arith)
            requires
                two_pow(s + 1) == 2 * two_pow(s),
        ;
        assert(scale * two_pow(53) == 2 * (scale * two_pow(52))) by (nonlinear_arith)
            requires
                two_pow(53) == 2 * two_pow(52),
        ;
    }
}

proof fn lemma_two_pow_values()
    ensures
        two_pow(52) == 0x10_0000_0000_0000,
        two_pow(53) == 0x20_0000_0000_0000,
        two_pow(73) == 0x200_0000_0000_0000_0000,
{
    reveal_with_fuel(two_pow, 74);
}

/// Whether the double nearest to `n / scale` lies above it (see
/// [`rounds_up`]).
fn rounds_up_exec(n: u32, scale: u32) -> (b: bool)
    requires
        1 <= n,
        1_000 <= scale <= 1_000_000,
    ensures
        b == rounds_up(n as nat, scale as nat),
{
    proof {
        lemma_two_pow_values();
    }
    let low: u128 = (scale as u128) * 0x10_0000_0000_0000u128;
    let mut big: u128 = n as u128;
    let mut s: u64 = 0;
    assert(two_pow(0) == 1);
    while big < low
        invariant
            1 <= n,
            1_000 <= scale <= 1_000_000,
            low == scale * two_pow(52),
            two_pow(52) == 0x10_0000_0000_0000,
            two_pow(53) == 0x20_0000_0000_0000,
            two_pow(73) == 0x200_0000_0000_0000_0000,
            big == n * two_pow(s as nat),
            big < scale * two_pow(53),
            s <= 128,
            n * two_pow(s as nat) >= n,
        decreases 128 - s,
    {
        assert(two_pow(s as nat + 1) == 2 * two_pow(s as nat));
        assert(n * two_pow(s as nat + 1) == 2 * (n * two_pow(s as nat))) by (nonlinear_arith)
            requires
                two_pow(s as nat + 1) == 2 * two_pow(s as nat),
        ;
        big = big * 2;
        s = s + 1;
        proof {
            if s > 128 {
                lemma_two_pow_le(73, s as nat);
                assert(n * two_pow(s as nat) >= two_pow(s as nat)) by (nonlinear_arith)
                    requires
                        n >= 1,
                ;
            }
        }
    }
    proof {
        if n * two_pow(s as nat) >= scale * two_pow(53) {
        }
        assert(is_shift(n as nat, scale as nat, s as nat));
        lemma_shift_unique(n as nat, scale as nat, s as nat);
    }
    (big % (scale as u128)) > (scale as u128) / 2
}

/// Tenths of `n / scale` as printed (see [`tenths`]).
fn tenths_exec(n: u32, scale: u32, five: u32) -> (d: u32)
    requires
        scale == 1_000 || scale == 1_000_000,
        five >= 1,
    ensures
        d == tenths(n as nat, scale as nat, five as nat),
{
    let unit = scale / 10;
    let q = n / unit;
    let r = n % unit;
    assert(q < 0xFFFF_FFFF) by (nonlinear_arith)
        requires
            q == n / unit,
            unit >= 100,
            n <= 0xFFFF_FFFF,
    ;
    if 2 * (r as u64) < unit as u64 {
        q
    } else if 2 * (r as u64) > unit as u64 {
        q + 1
    } else if n % five == 0 {
        if q % 2 == 0 {
            q
        } else {
            q + 1
        }
    } else {
        assert(n >= 1) by (nonlinear_arith)
            requires
                r == n % unit,
                unit >= 100,
                2 * r >= unit,
        ;
        if rounds_up_exec(n, scale) {
            q + 1
        } else {
            q
        }
    }
}

fn scaled_exec(n: u32, scale: u32, five: u32, suffix: char, whole_from: u32) -> (r: String)
    requires
        scale == 1_000 || scale == 1_000_000,
        five >= 1,
    ensures
        r@ == scaled(n as nat, scale as nat, five as nat, suffix, whole_from as nat),
{
    let d = tenths_exec(n, scale, five);
    let mut v: Vec<char> = dec_u64((d / 10) as u64);
    if n >= whole_from && d % 10 == 0 {
        v.push(suffix);
    } else {
        v.push('.');
        let t = crate::text::dec_u64((d % 10) as u64);
        proof {
            reveal_with_fuel(dec, 2);
        }
        assert(t@ == seq![digit_char((d % 10) as nat)]);
        push_all(&mut v, t.as_slice());
        v.push(suffix);
    }
    string_of(v.as_slice())
}

/// `n / 1000` with one decimal and `k`; from 10k on a zero decimal is
/// dropped.
pub fn format_scaled_k(n: u32) -> (r: String)
    ensures
        r@ == scaled(n as nat, 1_000, 125, 'k', 10_000),
{
    scaled_exec(n, 1_000, 125, 'k', 10_000)
}

/// `n / 1000000` with one decimal and `M`; from 10M on a zero decimal is
/// dropped.
pub fn format_scaled_m(n: u32) -> (r: String)
    ensures
        r@ == scaled(n as nat, 1_000_000, 15_625, 'M', 10_000_000),
{
    scaled_exec(n, 1_000_000, 15_625, 'M', 10_000_000)
}

/// A compact token count (see [`tokens_text`]).
pub fn format_tokens(n: u32) -> (r: String)
    ensures
        r@ == tokens_text(n as nat),
{
    if n < 1_000 {
        let v = dec_u64(n as u64);
        string_of(v.as_slice())
    } else if n < 1_000_000 {
        format_scaled_k(n)
    } else {
        format_scaled_m(n)
    }
}

} // verus!
