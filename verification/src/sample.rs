//! The fixed-point sample model.
//!
//! A sample is a signed fixed-point value: [`SAMPLE_UNIT`] stands for 1.0,
//! `-SAMPLE_UNIT` for -1.0. Samples are nominally within that range; values
//! outside it denote clipping and are only used to pick a warning color.

use vstd::prelude::*;

verus! {

/// The fixed-point representation of the sample value 1.0.
pub const SAMPLE_UNIT: i32 = 0x0100_0000;

/// True when a sample lies outside the nominal [-1.0, 1.0] range, which the
/// oscilloscope displays in a distinct clip-indicator color.
pub open spec fn spec_is_clipping(samp: i32) -> bool {
    samp > SAMPLE_UNIT || samp < -SAMPLE_UNIT
}

/// Whether `samp` lies outside the nominal [-1.0, 1.0] range.
pub fn is_clipping(samp: i32) -> (c: bool)
    ensures
        c == spec_is_clipping(samp),
{
    samp > SAMPLE_UNIT || samp < -SAMPLE_UNIT
}

/// The magnitude of a sample, widened so that the smallest sample is
/// representable.
pub open spec fn spec_sample_abs(samp: i32) -> int {
    if samp >= 0 {
        samp as int
    } else {
        -(samp as int)
    }
}

/// The vertical pixel for a sample on a surface of `height` pixels:
/// `height/2 - (height/2) * samp`, evaluated in fixed point with the
/// quotient truncated toward zero, so that 0.0 maps to the center line,
/// 1.0 to the top and -1.0 to the bottom.
pub open spec fn spec_normalize_centered(samp: i32, height: u32) -> int {
    let hh = height as int / 2;
    if samp >= 0 {
        hh - (hh * samp) / (SAMPLE_UNIT as int)
    } else {
        hh + (hh * spec_sample_abs(samp)) / (SAMPLE_UNIT as int)
    }
}

/// Maps a sample to its vertical pixel, center line at `height/2`.
pub fn normalize_centered(samp: i32, height: u32) -> (y: i32)
    requires
        height <= 65536,
    ensures
        y == spec_normalize_centered(samp, height),
        -0x40_0000 <= y <= 0x41_0000,
{
    let hh: u64 = (height / 2) as u64;
    let mag: u64 = if samp >= 0 {
        samp as u64
    } else {
        (-(samp as i64)) as u64
    };
    proof {
        assert(hh * mag <= 32768 * 0x8000_0000) by (nonlinear_arith)
            requires
                hh <= 32768,
                mag <= 0x8000_0000,
        ;
    }
    let q: u64 = (hh * mag) / (SAMPLE_UNIT as u64);
    proof {
        vstd::arithmetic::div_mod::lemma_div_is_ordered(
            (hh * mag) as int,
            32768int * 0x8000_0000,
            SAMPLE_UNIT as int,
        );
        assert(32768int * 0x8000_0000 == 0x40_0000 * (SAMPLE_UNIT as int)) by (nonlinear_arith);
        vstd::arithmetic::div_mod::lemma_div_by_multiple(0x40_0000, SAMPLE_UNIT as int);
    }
    if samp >= 0 {
        (hh as i64 - q as i64) as i32
    } else {
        (hh as i64 + q as i64) as i32
    }
}

} // verus!
