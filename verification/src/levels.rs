//! Magnitude and level computation of the spectral views: the magnitude of a
//! complex spectrum bin, its level as a scaled base-10 logarithm with an
//! explicit silence sentinel in place of the undefined logarithm of zero, and
//! the clamped vertical pixel the level maps to. Levels are fixed point, with
//! [`LEVEL_UNIT`] standing for 1.0.

use vstd::prelude::*;

use vstd::arithmetic::div_mod::{
    lemma_div_by_multiple, lemma_div_is_ordered, lemma_div_multiples_vanish,
    lemma_div_multiples_vanish_fancy,
};
use vstd::arithmetic::mul::lemma_mul_inequality;
use vstd::arithmetic::power2::{
    lemma2_to64, lemma_pow2_pos, lemma_pow2_strictly_increases, lemma_pow2_unfold, pow2,
};

use crate::warp::{bucket, spec_bucket};

verus! {

/// The fixed-point representation of 1.0 on the level scale (Q16).
pub const LEVEL_UNIT: i64 = 65536;

/// The sentinel level of a silent (zero-magnitude) bin: -1000.0 on the level
/// scale, standing in for the undefined logarithm of zero.
pub const SILENCE_LEVEL: i64 = -65536000;

/// `log10(2)` on the Q16 level scale, rounded.
pub const LOG10_2_Q16: u64 = 19728;

/// The base-2 logarithm of the magnitude that stands for 1.0
/// ([`crate::sample::SAMPLE_UNIT`]), scaled to Q16: `24 * 65536`.
pub const MAG_ONE_LOG2_Q16: u64 = 1572864;

/// `r` is the integer square root of `v`.
pub open spec fn is_isqrt(v: int, r: int) -> bool {
    0 <= r && r * r <= v < (r + 1) * (r + 1)
}

/// The integer square root: the largest `r` with `r * r <= v`.
pub open spec fn spec_isqrt(v: nat) -> nat
    decreases v,
{
    if v == 0 {
        0
    } else {
        let p = spec_isqrt((v - 1) as nat);
        if (p + 1) * (p + 1) <= v {
            p + 1
        } else {
            p
        }
    }
}

/// [`spec_isqrt`] meets the square-root characterization.
pub proof fn lemma_isqrt_correct(v: nat)
    ensures
        is_isqrt(v as int, spec_isqrt(v) as int),
    decreases v,
{
    if v == 0 {
    } else {
        lemma_isqrt_correct((v - 1) as nat);
        let p = spec_isqrt((v - 1) as nat) as int;
        if (p + 1) * (p + 1) <= v {
            assert((p + 1 + 1) * (p + 1 + 1) > v) by (nonlinear_arith)
                requires
                    0 <= p,
                    v - 1 < (p + 1) * (p + 1),
                    (p + 1) * (p + 1) <= v,
            ;
        }
    }
}

/// The square-root characterization pins the root down.
pub proof fn lemma_isqrt_unique(v: int, r1: int, r2: int)
    requires
        is_isqrt(v, r1),
        is_isqrt(v, r2),
    ensures
        r1 == r2,
{
    assert(r1 == r2) by (nonlinear_arith)
        requires
            0 <= r1 && r1 * r1 <= v < (r1 + 1) * (r1 + 1),
            0 <= r2 && r2 * r2 <= v < (r2 + 1) * (r2 + 1),
    ;
}

/// The integer square root of a machine word, by bisection.
pub fn isqrt64(v: u64) -> (r: u64)
    ensures
        r == spec_isqrt(v as nat),
        is_isqrt(v as int, r as int),
{
    let mut lo: u64 = 0;
    let mut hi: u64 = 0x1_0000_0000;
    proof {
        assert((0x1_0000_0000u64 as int) * (0x1_0000_0000u64 as int) > u64::MAX as int)
            by (nonlinear_arith);
    }
    while hi - lo > 1
        invariant
            lo < hi <= 0x1_0000_0000,
            (lo as int) * (lo as int) <= v as int,
            (hi as int) * (hi as int) > v as int,
        decreases hi - lo,
    {
        let mid = lo + (hi - lo) / 2;
        assert(lo < mid < hi);
        proof {
            assert((mid as int) * (mid as int) <= 0x1_0000_0000 * 0x1_0000_0000)
                by (nonlinear_arith)
                requires
                    0 <= mid <= 0x1_0000_0000,
            ;
        }
        if (mid as u128) * (mid as u128) <= v as u128 {
            lo = mid;
        } else {
            hi = mid;
        }
    }
    proof {
        assert(hi == lo + 1);
        lemma_isqrt_correct(v as nat);
        lemma_isqrt_unique(v as int, lo as int, spec_isqrt(v as nat) as int);
    }
    lo
}

/// The squared magnitude of a complex bin.
pub open spec fn spec_energy(re: i32, im: i32) -> int {
    (re as int) * (re as int) + (im as int) * (im as int)
}

/// The magnitude of a complex bin: the integer square root of its energy,
/// on the same fixed-point scale as the bin's parts.
pub open spec fn spec_magnitude(re: i32, im: i32) -> int {
    spec_isqrt(spec_energy(re, im) as nat) as int
}

/// The magnitude of the complex bin `(re, im)`. Zero exactly for a silent
/// bin (both parts zero).
pub fn magnitude(re: i32, im: i32) -> (m: u64)
    ensures
        m == spec_magnitude(re, im),
        m == 0 <==> (re == 0 && im == 0),
{
    let re64 = re as i64;
    let im64 = im as i64;
    proof {
        assert(0 <= re64 * re64 <= 0x4000_0000_0000_0000
            && 0 <= im64 * im64 <= 0x4000_0000_0000_0000
            && (re64 == 0 <==> re64 * re64 == 0)
            && (im64 == 0 <==> im64 * im64 == 0)) by (nonlinear_arith)
            requires
                -0x8000_0000 <= re64 <= 0x7fff_ffff,
                -0x8000_0000 <= im64 <= 0x7fff_ffff,
        ;
    }
    let energy: u64 = (re64 * re64) as u64 + (im64 * im64) as u64;
    let m = isqrt64(energy);
    proof {
        if energy == 0 {
            assert(spec_isqrt(0nat) == 0);
        } else {
            if m == 0 {
                assert(false) by (nonlinear_arith)
                    requires
                        m == 0,
                        energy >= 1,
                        (energy as int) < (m as int + 1) * (m as int + 1),
                ;
            }
        }
    }
    m
}

/// The exponent of the highest power of two not above `v`.
pub open spec fn spec_floor_log2(v: nat) -> nat
    decreases v,
{
    if v <= 1 {
        0
    } else {
        1 + spec_floor_log2(v / 2)
    }
}

/// The power-of-two sandwich determines the floor logarithm.
proof fn lemma_floor_log2_sandwich(v: nat, e: nat)
    requires
        pow2(e) <= v < pow2(e + 1),
    ensures
        spec_floor_log2(v) == e,
    decreases e,
{
    lemma2_to64();
    if e == 0 {
        assert(v == 1);
    } else {
        lemma_pow2_unfold(e);
        lemma_pow2_unfold((e + 1) as nat);
        lemma_pow2_pos((e - 1) as nat);
        let p1 = pow2((e - 1) as nat) as int;
        assert(pow2(e) == 2 * p1);
        lemma_div_is_ordered(2 * p1, v as int, 2);
        lemma_div_multiples_vanish(p1, 2);
        lemma_div_is_ordered(v as int, 2 * pow2(e) - 1, 2);
        lemma_div_multiples_vanish_fancy(pow2(e) as int - 1, 1, 2);
        assert(2 * (pow2(e) as int - 1) + 1 == 2 * pow2(e) - 1);
        lemma_floor_log2_sandwich(v / 2, (e - 1) as nat);
        assert(v >= 2);
    }
}

/// The floor logarithm of `v >= 1` together with its power of two:
/// afterwards `p == 2^e <= v < 2^(e+1)`.
pub fn floor_log2(v: u64) -> (ep: (u64, u64))
    requires
        v >= 1,
    ensures
        ep.1 == pow2(ep.0 as nat),
        ep.1 <= v < 2 * ep.1,
        ep.0 == spec_floor_log2(v as nat),
        ep.0 <= 63,
    {
    let mut e: u64 = 0;
    let mut p: u64 = 1;
    proof {
        lemma2_to64();
    }
    while p <= v / 2
        invariant
            v >= 1,
            1 <= p <= v,
            p == pow2(e as nat),
            e <= 63,
        decreases v - p,
    {
        proof {
            lemma_div_is_ordered(2 * p, v as int, 2);
            lemma_div_multiples_vanish(p as int, 2);
            assert(2 * p <= v);
            lemma_pow2_unfold((e + 1) as nat);
            if e + 1 > 63 {
                lemma2_to64();
                if e + 1 > 64 {
                    lemma_pow2_strictly_increases(64, (e + 1) as nat);
                }
                assert(pow2((e + 1) as nat) >= 0x1_0000_0000_0000_0000);
            }
        }
        p = p * 2;
        e = e + 1;
    }
    proof {
        lemma_div_is_ordered(v as int, 2 * p - 1, 2);
        lemma_div_multiples_vanish_fancy(p as int - 1, 1, 2);
        assert(2 * (p as int - 1) + 1 == 2 * p - 1);
        assert(v < 2 * p) by {
            if v >= 2 * p {
                lemma_div_multiples_vanish(p as int, 2);
                lemma_div_is_ordered(2 * p, v as int, 2);
            }
        }
        lemma_pow2_unfold((e + 1) as nat);
        lemma_floor_log2_sandwich(v as nat, e as nat);
    }
    (e, p)
}

/// The base-2 logarithm of `v >= 1` on the Q16 scale: the floor exponent
/// plus a truncated linear share of the distance to the next power of two.
pub open spec fn spec_log2_q16(v: nat) -> int {
    let e = spec_floor_log2(v);
    e * 65536 + (v - pow2(e)) * 65536 / (pow2(e) as int)
}

/// The level of a spectral magnitude: `log10(mag)` on the Q16 level scale,
/// with magnitude 1.0 ([`crate::sample::SAMPLE_UNIT`]) at level 0, computed
/// as `log2(mag) * log10(2)`; a zero magnitude yields the explicit
/// [`SILENCE_LEVEL`] sentinel.
pub open spec fn spec_level_q16(mag: nat) -> int {
    if mag == 0 {
        SILENCE_LEVEL as int
    } else {
        let d = spec_log2_q16(mag) - MAG_ONE_LOG2_Q16;
        if d >= 0 {
            d * (LOG10_2_Q16 as int) / 65536
        } else {
            -((-d) * (LOG10_2_Q16 as int) / 65536)
        }
    }
}

/// The level of a magnitude. The silence sentinel is returned exactly for
/// magnitude zero; every audible magnitude maps far above it.
pub fn level_q16(mag: u64) -> (l: i64)
    ensures
        l == spec_level_q16(mag as nat),
        l == SILENCE_LEVEL <==> mag == 0,
        SILENCE_LEVEL <= l < 0x20_0000,
{
    if mag == 0 {
        return SILENCE_LEVEL;
    }
    let (e, p) = floor_log2(mag);
    proof {
        lemma_pow2_pos(e as nat);
        assert((mag - p) * 65536 <= (p as int - 1) * 65536) by {
            lemma_mul_inequality(mag as int - p, p as int - 1, 65536);
        }
        assert((p as int - 1) * 65536 <= (p as int) * 65535 + (p - 1)) by (nonlinear_arith)
            requires
                p >= 1,
        ;
        lemma_div_is_ordered((mag - p) * 65536, (p as int) * 65535 + (p - 1), p as int);
        lemma_div_multiples_vanish_fancy(65535, p as int - 1, p as int);
        assert(0 <= (mag - p) * 65536) by (nonlinear_arith)
            requires
                p <= mag,
        ;
        lemma_div_is_ordered(0, (mag - p) * 65536, p as int);
        lemma_div_multiples_vanish(0, p as int);
    }
    let frac: u64 = (((mag - p) as u128 * 65536) / (p as u128)) as u64;
    let l2: u64 = e * 65536 + frac;
    proof {
        assert(l2 == spec_log2_q16(mag as nat));
        assert(l2 < 0x40_0000);
    }
    if l2 >= MAG_ONE_LOG2_Q16 {
        let d = l2 - MAG_ONE_LOG2_Q16;
        proof {
            assert(d * 19728 < 0x40_0000 * 19728) by {
                lemma_mul_inequality(d as int, 0x40_0000 - 1, 19728);
                assert((0x40_0000 - 1) * 19728 < 0x40_0000 * 19728);
            }
            lemma_div_is_ordered(d * 19728, 0x40_0000 * 19728 - 1, 65536);
            lemma_div_multiples_vanish_fancy(0x40_0000 * 19728 / 65536 - 1 + 1, 0, 65536);
            assert(0x40_0000int * 19728 == 65536int * (64 * 19728)) by (nonlinear_arith);
            lemma_div_is_ordered(d * 19728, 65536int * (64 * 19728), 65536);
            lemma_div_multiples_vanish(64int * 19728, 65536);
            assert(0 <= d * 19728) by (nonlinear_arith)
                requires
                    d >= 0,
            ;
            lemma_div_is_ordered(0, d * 19728, 65536);
            lemma_div_multiples_vanish(0, 65536);
        }
        ((d * 19728) / 65536) as i64
    } else {
        let nd = MAG_ONE_LOG2_Q16 - l2;
        proof {
            assert(nd * 19728 <= 1572864 * 19728) by {
                lemma_mul_inequality(nd as int, 1572864, 19728);
            }
            assert(1572864int * 19728 == 65536int * (24 * 19728)) by (nonlinear_arith);
            lemma_div_is_ordered(nd * 19728, 65536int * (24 * 19728), 65536);
            lemma_div_multiples_vanish(24int * 19728, 65536);
            assert(0 <= nd * 19728) by (nonlinear_arith)
                requires
                    nd >= 0,
            ;
            lemma_div_is_ordered(0, nd * 19728, 65536);
            lemma_div_multiples_vanish(0, 65536);
        }
        -(((nd * 19728) / 65536) as i64)
    }
}

/// The vertical pixel a level maps to on a graph of height `gh`:
/// `clamp((bias + level) * (-gh) / range, 0, gh)`, with the quotient
/// truncated toward zero. `bias` and `range` are the user's calibration
/// knobs on the same Q16 level scale; levels at or above `-bias` pin to the
/// top (row 0), levels `range` below it or further pin to the bottom.
pub open spec fn spec_level_to_y(level: int, bias: int, range: int, gh: int) -> int {
    let s = bias + level;
    if s >= 0 {
        0
    } else {
        let t = (-s) * gh / range;
        if t > gh {
            gh
        } else {
            t
        }
    }
}

/// Maps a level to its clamped vertical pixel.
pub fn level_to_y(level: i64, bias: i64, range: i64, graph_height: u32) -> (y: u32)
    requires
        -0x1_0000_0000 <= level <= 0x1_0000_0000,
        -0x1_0000_0000 <= bias <= 0x1_0000_0000,
        1 <= range <= 0x1_0000_0000,
        graph_height <= 65536,
    ensures
        y == spec_level_to_y(level as int, bias as int, range as int, graph_height as int),
        y <= graph_height,
{
    let s = bias + level;
    if s >= 0 {
        0
    } else {
        let ns = (-s) as u64;
        proof {
            assert(ns * (graph_height as u64) <= 0x2_0000_0000 * 0x1_0000) by (nonlinear_arith)
                requires
                    ns <= 0x2_0000_0000,
                    graph_height <= 0x1_0000,
            ;
        }
        let t = (ns * graph_height as u64) / (range as u64);
        if t > graph_height as u64 {
            graph_height
        } else {
            t as u32
        }
    }
}

/// The waterfall intensity byte of a vertical pixel: full brightness at the
/// top of the graph, zero at the bottom, linear in between:
/// `255 * (gh - y) / gh`.
pub open spec fn spec_intensity(y: int, gh: int) -> int {
    255 * (gh - y) / gh
}

/// The intensity byte written into the waterfall for a column whose graph
/// pixel is `y`.
pub fn intensity(y: u32, graph_height: u32) -> (a: u8)
    requires
        1 <= graph_height <= 65536,
        y <= graph_height,
    ensures
        a == spec_intensity(y as int, graph_height as int),
        y == 0 ==> a == 255,
        y == graph_height ==> a == 0,
{
    let gh = graph_height as u64;
    let d = gh - y as u64;
    let a = (255 * d) / gh;
    proof {
        let ghi = gh as int;
        assert(255 * (d as int) <= 255 * ghi) by {
            lemma_mul_inequality(d as int, ghi, 255);
            assert((d as int) * 255 == 255 * (d as int)) by (nonlinear_arith);
            assert(ghi * 255 == 255 * ghi) by (nonlinear_arith);
        }
        assert(255 * ghi == ghi * 255) by (nonlinear_arith);
        lemma_div_is_ordered(255 * (d as int), ghi * 255, ghi);
        lemma_div_by_multiple(255, ghi);
        assert((255int * ghi) / ghi == 255) by {
            assert(255int * ghi == ghi * 255) by (nonlinear_arith);
            lemma_div_multiples_vanish(255, ghi);
        }
        assert(0 <= 255 * (d as int));
        lemma_div_is_ordered(0, 255 * (d as int), ghi);
        lemma_div_multiples_vanish(0, ghi);
        if y == graph_height {
            assert(255int * 0 == 0) by (nonlinear_arith);
        }
    }
    a as u8
}

/// One column of the spectral views, per the frequency/level mapping: the
/// warped bucket the column reads, the level of that bucket's magnitude, and
/// the clamped vertical graph pixel. Identical for every column and frame;
/// the spectrogram and any accelerated variant of it share this one mapping.
pub fn spectral_lookup(
    x: usize,
    width: usize,
    spectrum: &[(i32, i32)],
    bias: i64,
    range: i64,
    graph_height: u32,
) -> (r: (usize, i64, u32))
    requires
        x < width <= 0x8000_0000,
        2 <= spectrum@.len() <= 0x1_0000_0000,
        -0x1_0000_0000 <= bias <= 0x1_0000_0000,
        1 <= range <= 0x1_0000_0000,
        1 <= graph_height <= 65536,
    ensures
        r.0 == spec_bucket(x as int, width as int, spectrum@.len() as int / 2),
        r.0 < spectrum@.len() / 2,
        r.1 == spec_level_q16(spec_magnitude(spectrum@[r.0 as int].0, spectrum@[r.0 as int].1) as nat),
        r.2 == spec_level_to_y(r.1 as int, bias as int, range as int, graph_height as int),
        r.2 <= graph_height,
        x == 0 ==> r.0 == 0,
{
    let half = spectrum.len() / 2;
    let b = bucket(x, width, half);
    let (re, im) = spectrum[b];
    let mag = magnitude(re, im);
    let level = level_q16(mag);
    let y = level_to_y(level, bias, range, graph_height);
    (b, level, y)
}

} // verus!
