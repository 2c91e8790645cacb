//! The perceptual frequency warp of the spectral views: pixel column `x` of a
//! surface `width` pixels wide reads spectrum bucket
//! `floor((2^(x/width) - 1) * half)`, where `half` is the number of
//! meaningful buckets (half the transform size for a real input). The
//! exponential is evaluated in fixed point, by linear interpolation between
//! tabulated breakpoints of `2^t` at sixteenths, so that the mapping yields
//! identical results on every execution strategy. The mapping is
//! non-decreasing in `x`, sends column 0 to bucket 0, and stays below `half`.

use vstd::prelude::*;

use vstd::arithmetic::div_mod::{
    lemma_div_is_ordered, lemma_div_multiples_vanish, lemma_div_multiples_vanish_fancy,
    lemma_fundamental_div_mod,
};
use vstd::arithmetic::mul::lemma_mul_inequality;

verus! {

/// The fixed-point representation of 1.0 on the warp scale (Q32).
pub const WARP_ONE: u64 = 0x1_0000_0000;

/// The width of one interpolation segment: 1/16 on the warp scale.
pub const WARP_SEG: u64 = 0x1000_0000;

/// `2^(32 + k/16)`, rounded to the nearest integer: the tabulated value of
/// the exponential at the start of interpolation segment `k`.
pub open spec fn exp2_breakpoint(k: int) -> u64 {
    if k <= 0 {
        0x1_0000_0000u64
    } else if k == 1 {
        0x1_0b55_86d0u64
    } else if k == 2 {
        0x1_172b_83c8u64
    } else if k == 3 {
        0x1_2387_a6e7u64
    } else if k == 4 {
        0x1_306f_e0a3u64
    } else if k == 5 {
        0x1_3dea_64c1u64
    } else if k == 6 {
        0x1_4bfd_ad53u64
    } else if k == 7 {
        0x1_5ab0_7dd5u64
    } else if k == 8 {
        0x1_6a09_e668u64
    } else if k == 9 {
        0x1_7a11_473fu64
    } else if k == 10 {
        0x1_8ace_5423u64
    } else if k == 11 {
        0x1_9c49_182au64
    } else if k == 12 {
        0x1_ae89_f996u64
    } else if k == 13 {
        0x1_c199_bdd8u64
    } else if k == 14 {
        0x1_d581_8dd0u64
    } else if k == 15 {
        0x1_ea4a_fa2au64
    } else {
        0x2_0000_0000u64
    }
}

/// The breakpoint table is strictly increasing from one segment to the next.
pub proof fn lemma_breakpoint_step(k: int)
    requires
        0 <= k <= 15,
    ensures
        exp2_breakpoint(k) < exp2_breakpoint(k + 1),
        exp2_breakpoint(k + 1) - exp2_breakpoint(k) < 0x2000_0000,
{
    if k == 0 {
        assert(exp2_breakpoint(0) < exp2_breakpoint(1) < exp2_breakpoint(0) + 0x2000_0000);
    } else if k == 1 {
        assert(exp2_breakpoint(1) < exp2_breakpoint(2) < exp2_breakpoint(1) + 0x2000_0000);
    } else if k == 2 {
        assert(exp2_breakpoint(2) < exp2_breakpoint(3) < exp2_breakpoint(2) + 0x2000_0000);
    } else if k == 3 {
        assert(exp2_breakpoint(3) < exp2_breakpoint(4) < exp2_breakpoint(3) + 0x2000_0000);
    } else if k == 4 {
        assert(exp2_breakpoint(4) < exp2_breakpoint(5) < exp2_breakpoint(4) + 0x2000_0000);
    } else if k == 5 {
        assert(exp2_breakpoint(5) < exp2_breakpoint(6) < exp2_breakpoint(5) + 0x2000_0000);
    } else if k == 6 {
        assert(exp2_breakpoint(6) < exp2_breakpoint(7) < exp2_breakpoint(6) + 0x2000_0000);
    } else if k == 7 {
        assert(exp2_breakpoint(7) < exp2_breakpoint(8) < exp2_breakpoint(7) + 0x2000_0000);
    } else if k == 8 {
        assert(exp2_breakpoint(8) < exp2_breakpoint(9) < exp2_breakpoint(8) + 0x2000_0000);
    } else if k == 9 {
        assert(exp2_breakpoint(9) < exp2_breakpoint(10) < exp2_breakpoint(9) + 0x2000_0000);
    } else if k == 10 {
        assert(exp2_breakpoint(10) < exp2_breakpoint(11) < exp2_breakpoint(10) + 0x2000_0000);
    } else if k == 11 {
        assert(exp2_breakpoint(11) < exp2_breakpoint(12) < exp2_breakpoint(11) + 0x2000_0000);
    } else if k == 12 {
        assert(exp2_breakpoint(12) < exp2_breakpoint(13) < exp2_breakpoint(12) + 0x2000_0000);
    } else if k == 13 {
        assert(exp2_breakpoint(13) < exp2_breakpoint(14) < exp2_breakpoint(13) + 0x2000_0000);
    } else if k == 14 {
        assert(exp2_breakpoint(14) < exp2_breakpoint(15) < exp2_breakpoint(14) + 0x2000_0000);
    } else if k == 15 {
        assert(exp2_breakpoint(15) < exp2_breakpoint(16) < exp2_breakpoint(15) + 0x2000_0000);
    } else {
        assert(exp2_breakpoint(15) < exp2_breakpoint(16) < exp2_breakpoint(15) + 0x2000_0000);
    }
}

/// The breakpoint table is monotone: a later segment never starts lower.
pub proof fn lemma_breakpoint_le(a: int, b: int)
    requires
        0 <= a <= b <= 17,
    ensures
        exp2_breakpoint(a) <= exp2_breakpoint(b),
    decreases b - a,
{
    if a < b {
        lemma_breakpoint_le(a, b - 1);
        if b - 1 <= 15 {
            lemma_breakpoint_step(b - 1);
        } else {
            assert(exp2_breakpoint(b - 1) <= exp2_breakpoint(b));
        }
    }
}

/// Every breakpoint lies within one octave above the warp unit.
pub proof fn lemma_breakpoint_bounds(k: int)
    requires
        0 <= k <= 17,
    ensures
        WARP_ONE <= exp2_breakpoint(k) <= 2 * WARP_ONE,
{
}

/// `2^t` on the Q32 scale, for `t` in `[0, WARP_ONE)`: the breakpoint of
/// `t`'s segment plus the linear share of the next breakpoint, the quotient
/// truncated.
pub open spec fn spec_exp2_q32(t: int) -> int {
    let k = t / (WARP_SEG as int);
    let r = t % (WARP_SEG as int);
    exp2_breakpoint(k) + (exp2_breakpoint(k + 1) - exp2_breakpoint(k)) * r / (WARP_SEG as int)
}

/// The segment index of every warp argument below 1.0 is one of the 16
/// tabulated segments, and the offset within it is canonical.
proof fn lemma_exp2_segment(t: int)
    requires
        0 <= t < WARP_ONE,
    ensures
        0 <= t / (WARP_SEG as int) <= 15,
        0 <= t % (WARP_SEG as int) < WARP_SEG,
        t == (WARP_SEG as int) * (t / (WARP_SEG as int)) + t % (WARP_SEG as int),
{
    let seg = WARP_SEG as int;
    lemma_fundamental_div_mod(t, seg);
    lemma_div_is_ordered(0, t, seg);
    lemma_div_multiples_vanish(0, seg);
    lemma_div_is_ordered(t, WARP_ONE as int - 1, seg);
    lemma_div_multiples_vanish_fancy(15, seg - 1, seg);
    assert(seg * 15 + (seg - 1) == WARP_ONE - 1);
}

/// The interpolated share never reaches the next breakpoint: for an offset
/// `r` within a segment of rise `d`, `d * r / WARP_SEG <= d - 1`.
proof fn lemma_interp_share_below(d: int, r: int)
    requires
        1 <= d,
        0 <= r < WARP_SEG,
    ensures
        0 <= d * r / (WARP_SEG as int) <= d - 1,
{
    let seg = WARP_SEG as int;
    lemma_mul_inequality(r, seg - 1, d);
    assert(r * d == d * r) by (nonlinear_arith);
    assert((seg - 1) * d == seg * (d - 1) + (seg - d)) by (nonlinear_arith);
    assert(d * r <= seg * (d - 1) + (seg - 1));
    lemma_div_is_ordered(d * r, seg * (d - 1) + (seg - 1), seg);
    lemma_div_multiples_vanish_fancy(d - 1, seg - 1, seg);
    lemma_div_is_ordered(0, d * r, seg);
    lemma_div_multiples_vanish(0, seg);
    assert(d * r >= 0) by (nonlinear_arith)
        requires
            d >= 0,
            r >= 0,
    ;
}

/// The interpolated exponential stays within its segment's breakpoints.
pub proof fn lemma_exp2_q32_bounds(t: int)
    requires
        0 <= t < WARP_ONE,
    ensures
        exp2_breakpoint(t / (WARP_SEG as int)) <= spec_exp2_q32(t),
        spec_exp2_q32(t) < exp2_breakpoint(t / (WARP_SEG as int) + 1),
        WARP_ONE <= spec_exp2_q32(t) < 2 * WARP_ONE,
{
    let seg = WARP_SEG as int;
    let k = t / seg;
    let r = t % seg;
    lemma_exp2_segment(t);
    lemma_breakpoint_step(k);
    let d = exp2_breakpoint(k + 1) - exp2_breakpoint(k);
    lemma_interp_share_below(d, r);
    lemma_breakpoint_bounds(k);
    lemma_breakpoint_bounds(k + 1);
}

/// The interpolated exponential is exactly the warp unit at zero.
pub proof fn lemma_exp2_q32_zero()
    ensures
        spec_exp2_q32(0) == WARP_ONE,
{
    let seg = WARP_SEG as int;
    lemma_div_multiples_vanish(0, seg);
}

/// The interpolated exponential is non-decreasing on `[0, WARP_ONE)`.
pub proof fn lemma_exp2_q32_monotone(t1: int, t2: int)
    requires
        0 <= t1 <= t2 < WARP_ONE,
    ensures
        spec_exp2_q32(t1) <= spec_exp2_q32(t2),
{
    let seg = WARP_SEG as int;
    lemma_exp2_segment(t1);
    lemma_exp2_segment(t2);
    let k1 = t1 / seg;
    let r1 = t1 % seg;
    let k2 = t2 / seg;
    let r2 = t2 % seg;
    lemma_div_is_ordered(t1, t2, seg);
    lemma_breakpoint_step(k1);
    lemma_breakpoint_step(k2);
    let d1 = exp2_breakpoint(k1 + 1) - exp2_breakpoint(k1);
    let d2 = exp2_breakpoint(k2 + 1) - exp2_breakpoint(k2);
    lemma_interp_share_below(d1, r1);
    lemma_interp_share_below(d2, r2);
    if k1 == k2 {
        assert(r1 <= r2);
        lemma_mul_inequality(r1, r2, d1);
        assert(r1 * d1 == d1 * r1) by (nonlinear_arith);
        assert(r2 * d1 == d1 * r2) by (nonlinear_arith);
        lemma_div_is_ordered(d1 * r1, d1 * r2, seg);
    } else {
        assert(k1 < k2);
        lemma_breakpoint_le(k1 + 1, k2);
    }
}

/// The normalized horizontal position of pixel column `x` on the warp scale:
/// `x / width`, truncated on the Q32 scale.
pub open spec fn spec_column_warp(x: int, width: int) -> int {
    x * (WARP_ONE as int) / width
}

/// The spectrum bucket read by pixel column `x`:
/// `floor((2^(x/width) - 1) * half)`, evaluated in Q32 fixed point.
pub open spec fn spec_bucket(x: int, width: int, half: int) -> int {
    (spec_exp2_q32(spec_column_warp(x, width)) - WARP_ONE) * half / (WARP_ONE as int)
}

/// A column inside the surface normalizes to a warp position inside `[0, 1.0)`.
pub proof fn lemma_column_warp_range(x: int, width: int)
    requires
        0 <= x < width <= 0x8000_0000,
    ensures
        0 <= spec_column_warp(x, width) < WARP_ONE,
        x == 0 ==> spec_column_warp(x, width) == 0,
{
    let one = WARP_ONE as int;
    lemma_mul_inequality(x, width - 1, one);
    assert(x * one == one * x) by (nonlinear_arith);
    assert((width - 1) * one == one * (width - 1)) by (nonlinear_arith);
    assert(one * (width - 1) <= (one - 1) * width) by (nonlinear_arith)
        requires
            1 <= width <= one,
    ;
    lemma_div_is_ordered(x * one, (one - 1) * width, width);
    vstd::arithmetic::div_mod::lemma_div_by_multiple(one - 1, width);
    assert(x * one >= 0) by (nonlinear_arith)
        requires
            x >= 0,
            one >= 0,
    ;
    lemma_div_is_ordered(0, x * one, width);
    lemma_div_multiples_vanish(0, width);
}

/// The bucket of every column lies within the meaningful half-spectrum.
pub proof fn lemma_bucket_in_range(x: int, width: int, half: int)
    requires
        0 <= x < width <= 0x8000_0000,
        1 <= half <= 0x8000_0000,
    ensures
        0 <= spec_bucket(x, width, half) < half,
{
    let one = WARP_ONE as int;
    lemma_column_warp_range(x, width);
    let t = spec_column_warp(x, width);
    lemma_exp2_q32_bounds(t);
    let w = spec_exp2_q32(t) - one;
    assert(0 <= w <= one - 1);
    lemma_mul_inequality(w, one - 1, half);
    assert(w * half == half * w) by (nonlinear_arith);
    assert((one - 1) * half == half * (one - 1)) by (nonlinear_arith);
    assert(half * (one - 1) == one * (half - 1) + (one - half)) by (nonlinear_arith);
    lemma_div_is_ordered(w * half, one * (half - 1) + (one - half), one);
    lemma_div_multiples_vanish_fancy(half - 1, one - half, one);
    assert(w * half >= 0) by (nonlinear_arith)
        requires
            w >= 0,
            half >= 0,
    ;
    lemma_div_is_ordered(0, w * half, one);
    lemma_div_multiples_vanish(0, one);
}

/// The leftmost column always reads bucket 0.
pub proof fn lemma_bucket_zero(width: int, half: int)
    requires
        1 <= width <= 0x8000_0000,
        1 <= half,
    ensures
        spec_bucket(0, width, half) == 0,
{
    let one = WARP_ONE as int;
    assert(0 * one == 0) by (nonlinear_arith);
    lemma_div_multiples_vanish(0, width);
    assert(spec_column_warp(0, width) == 0);
    lemma_exp2_q32_zero();
    lemma_div_multiples_vanish(0, one);
    assert(0 * half == 0) by (nonlinear_arith);
}

/// The bucket mapping is non-decreasing in the pixel column.
pub proof fn lemma_bucket_monotone(x1: int, x2: int, width: int, half: int)
    requires
        0 <= x1 <= x2 < width <= 0x8000_0000,
        1 <= half <= 0x8000_0000,
    ensures
        spec_bucket(x1, width, half) <= spec_bucket(x2, width, half),
{
    let one = WARP_ONE as int;
    lemma_column_warp_range(x1, width);
    lemma_column_warp_range(x2, width);
    lemma_mul_inequality(x1, x2, one);
    assert(x1 * one == one * x1) by (nonlinear_arith);
    assert(x2 * one == one * x2) by (nonlinear_arith);
    lemma_div_is_ordered(x1 * one, x2 * one, width);
    let t1 = spec_column_warp(x1, width);
    let t2 = spec_column_warp(x2, width);
    lemma_exp2_q32_monotone(t1, t2);
    lemma_exp2_q32_bounds(t1);
    lemma_exp2_q32_bounds(t2);
    let w1 = spec_exp2_q32(t1) - one;
    let w2 = spec_exp2_q32(t2) - one;
    lemma_mul_inequality(w1, w2, half);
    assert(w1 * half == half * w1) by (nonlinear_arith);
    assert(w2 * half == half * w2) by (nonlinear_arith);
    lemma_div_is_ordered(w1 * half, w2 * half, one);
}

/// An executable breakpoint lookup.
fn exp2_breakpoint_at(k: usize) -> (b: u64)
    requires
        k <= 17,
    ensures
        b == exp2_breakpoint(k as int),
{
    match k {
        0 => 0x1_0000_0000u64,
        1 => 0x1_0b55_86d0u64,
        2 => 0x1_172b_83c8u64,
        3 => 0x1_2387_a6e7u64,
        4 => 0x1_306f_e0a3u64,
        5 => 0x1_3dea_64c1u64,
        6 => 0x1_4bfd_ad53u64,
        7 => 0x1_5ab0_7dd5u64,
        8 => 0x1_6a09_e668u64,
        9 => 0x1_7a11_473fu64,
        10 => 0x1_8ace_5423u64,
        11 => 0x1_9c49_182au64,
        12 => 0x1_ae89_f996u64,
        13 => 0x1_c199_bdd8u64,
        14 => 0x1_d581_8dd0u64,
        15 => 0x1_ea4a_fa2au64,
        _ => 0x2_0000_0000u64,
    }
}

/// `2^t` on the Q32 scale for `t` in `[0, 1.0)`, by table interpolation.
pub fn exp2_q32(t: u64) -> (e: u64)
    requires
        t < WARP_ONE,
    ensures
        e == spec_exp2_q32(t as int),
        WARP_ONE <= e < 2 * WARP_ONE,
{
    proof {
        lemma_exp2_segment(t as int);
        lemma_exp2_q32_bounds(t as int);
    }
    let k = (t / WARP_SEG) as usize;
    let r = t % WARP_SEG;
    let lo = exp2_breakpoint_at(k);
    let hi = exp2_breakpoint_at(k + 1);
    proof {
        lemma_breakpoint_step(k as int);
        lemma_interp_share_below(hi - lo, r as int);
        assert((hi - lo) * (r as int) < 0x2000_0000 * 0x1000_0000) by (nonlinear_arith)
            requires
                0 <= hi - lo < 0x2000_0000,
                0 <= r < 0x1000_0000,
        ;
    }
    lo + ((hi - lo) * r) / WARP_SEG
}

/// The spectrum bucket read by pixel column `x` of a surface `width` pixels
/// wide, out of `half` meaningful buckets. Column 0 reads bucket 0, the
/// result is non-decreasing in `x` (see [`lemma_bucket_monotone`]) and always
/// stays below `half`.
pub fn bucket(x: usize, width: usize, half: usize) -> (b: usize)
    requires
        x < width <= 0x8000_0000,
        1 <= half <= 0x8000_0000,
    ensures
        b == spec_bucket(x as int, width as int, half as int),
        b < half,
        x == 0 ==> b == 0,
{
    proof {
        lemma_column_warp_range(x as int, width as int);
        lemma_bucket_in_range(x as int, width as int, half as int);
        if x == 0 {
            lemma_bucket_zero(width as int, half as int);
        }
        assert((x as int) * (WARP_ONE as int) <= 0x8000_0000 * 0x1_0000_0000) by (nonlinear_arith)
            requires
                0 <= x <= 0x8000_0000,
        ;
    }
    let t = (x as u64 * WARP_ONE) / (width as u64);
    let e = exp2_q32(t);
    let w = e - WARP_ONE;
    proof {
        assert(w * (half as int) < 0x1_0000_0000 * 0x8000_0001) by (nonlinear_arith)
            requires
                0 <= w < 0x1_0000_0000,
                0 <= half <= 0x8000_0000,
        ;
    }
    ((w * half as u64) / WARP_ONE) as usize
}

} // verus!
