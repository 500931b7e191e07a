use vstd::prelude::*;

verus! {

/// One in 16.16 fixed-point form: values carry 16 fractional bits.
pub const FIXED_ONE: i64 = 0x1_0000;

/// One at the scale of a product of two 16.16 values (32 fractional bits).
pub const SCALED_ONE: i128 = 0x1_0000_0000;

/// The integer nearest to `n / d` (for a positive, even `d`), with ties
/// rounded away from zero.  This is the rounding law used for every
/// fixed-point to integer conversion in this crate.
pub open spec fn spec_round_div_away(n: int, d: int) -> int
    recommends
        d > 0,
        d % 2 == 0,
{
    if n >= 0 {
        (n + d / 2) / d
    } else {
        -((-n + d / 2) / d)
    }
}

/// `x` forced into the range of `i16`.
pub open spec fn spec_clamp_i16(x: int) -> int {
    if x < -0x8000 {
        -0x8000
    } else if x > 0x7fff {
        0x7fff
    } else {
        x
    }
}

/// Rounding away from zero is an odd function: negating the input negates
/// the result, so a tie below zero moves further below zero.
pub proof fn lemma_round_div_away_odd(n: int, d: int)
    requires
        d > 0,
        d % 2 == 0,
    ensures
        spec_round_div_away(-n, d) == -spec_round_div_away(n, d),
{
    if n == 0 {
        vstd::arithmetic::div_mod::lemma_fundamental_div_mod(d, 2);
        vstd::arithmetic::div_mod::lemma_basic_div(d / 2, d);
    }
}

/// On an exact tie (`n` is halfway between two multiples of `d`), the
/// result is the quotient rounded up, i.e. away from zero for `n >= 0`.
pub proof fn lemma_round_div_away_tie(n: int, d: int)
    requires
        d > 0,
        d % 2 == 0,
        n >= 0,
        n % d == d / 2,
    ensures
        spec_round_div_away(n, d) == n / d + 1,
{
    let h = d / 2;
    assert(d == 2 * h) by {
        vstd::arithmetic::div_mod::lemma_fundamental_div_mod(d, 2);
    }
    assert((n + h) / d == n / d + 1) by {
        vstd::arithmetic::div_mod::lemma_fundamental_div_mod(n, d);
        assert(n + h == d * (n / d) + 2 * h);
        assert(d * (n / d + 1) == d * (n / d) + d) by (nonlinear_arith);
        vstd::arithmetic::div_mod::lemma_div_multiples_vanish_fancy(n / d + 1, 0, d);
        assert((d * (n / d + 1) + 0) / d == n / d + 1);
    }
}

/// The rounded value is never further than half of `d` from the input:
/// `r * d` lies within `d / 2` of `n`.
pub proof fn lemma_round_div_away_nearest(n: int, d: int)
    requires
        d > 0,
        d % 2 == 0,
    ensures
        spec_round_div_away(n, d) * d - d / 2 <= n <= spec_round_div_away(n, d) * d + d / 2,
{
    let h = d / 2;
    assert(d == 2 * h) by {
        vstd::arithmetic::div_mod::lemma_fundamental_div_mod(d, 2);
    }
    if n >= 0 {
        let r = (n + h) / d;
        vstd::arithmetic::div_mod::lemma_fundamental_div_mod(n + h, d);
        vstd::arithmetic::div_mod::lemma_mod_bound(n + h, d);
        assert(d * r == r * d) by (nonlinear_arith);
        assert(n - r * d == (n + h) % d - h);
    } else {
        let m = -n;
        let r = (m + h) / d;
        vstd::arithmetic::div_mod::lemma_fundamental_div_mod(m + h, d);
        vstd::arithmetic::div_mod::lemma_mod_bound(m + h, d);
        assert(d * r == r * d) by (nonlinear_arith);
        assert(m - r * d == (m + h) % d - h);
        assert(spec_round_div_away(n, d) == -r);
        assert(-r * d == -(r * d)) by (nonlinear_arith);
    }
}

/// Round a 16.16 fixed-point value to the nearest integer, ties away from
/// zero.
pub fn round_fixed(v: i64) -> (r: i64)
    requires
        -0x7fff_ffff_ffff_0000 <= v <= 0x7fff_ffff_ffff_0000,
    ensures
        r == spec_round_div_away(v as int, FIXED_ONE as int),
{
    if v >= 0 {
        let q: u64 = ((v as u64) + 0x8000) / 0x1_0000;
        q as i64
    } else {
        let q: u64 = (((-v) as u64) + 0x8000) / 0x1_0000;
        -(q as i64)
    }
}

/// Round a value carrying 32 fractional bits to the nearest integer, ties
/// away from zero.
pub fn round_scaled(n: i128) -> (r: i128)
    requires
        -0x7fff_ffff_ffff_ffff_ffff_ffff_ffff_0000 <= n <= 0x7fff_ffff_ffff_ffff_ffff_ffff_ffff_0000,
    ensures
        r == spec_round_div_away(n as int, SCALED_ONE as int),
{
    if n >= 0 {
        let q: u128 = ((n as u128) + 0x8000_0000) / 0x1_0000_0000;
        q as i128
    } else {
        let q: u128 = (((-n) as u128) + 0x8000_0000) / 0x1_0000_0000;
        -(q as i128)
    }
}

/// Force a value into the range of `i16`, saturating at the ends.
pub fn clamp_i16(x: i128) -> (r: i16)
    ensures
        r as int == spec_clamp_i16(x as int),
{
    if x < -0x8000 {
        -0x8000
    } else if x > 0x7fff {
        0x7fff
    } else {
        x as i16
    }
}

} // verus!
