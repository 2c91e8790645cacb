//! The vectorscope: plots the two channels against each other as one
//! connected polyline of (right-channel sample, left-channel sample) points,
//! revealing inter-channel phase. The exponential decay of earlier frames
//! lives in the drawing surface's accumulated pixel state, not here.

use vstd::prelude::*;

use crate::sample::{normalize_centered, spec_normalize_centered};

verus! {

/// The plotted point of one stereo sample pair on a `width` by `height`
/// surface: the right channel drives the horizontal axis (mirrored, so that
/// positive samples move right), the left channel the vertical one.
pub open spec fn spec_vector_point(l: i32, r: i32, width: u32, height: u32) -> (int, int) {
    (width - spec_normalize_centered(r, width), spec_normalize_centered(l, height))
}

/// The polyline of all stereo sample pairs; pairing stops at the shorter
/// channel.
pub fn vector_points(left: &[i32], right: &[i32], width: u32, height: u32) -> (pts: Vec<
    (i32, i32),
>)
    requires
        width <= 65536,
        height <= 65536,
    ensures
        pts@.len() == if left@.len() <= right@.len() {
            left@.len()
        } else {
            right@.len()
        },
        forall|j: int|
            0 <= j < pts@.len() ==> #[trigger] pts@[j] == (
                spec_vector_point(left@[j], right@[j], width, height).0 as i32,
                spec_vector_point(left@[j], right@[j], width, height).1 as i32,
            ),
{
    let n = if left.len() <= right.len() {
        left.len()
    } else {
        right.len()
    };
    let mut pts: Vec<(i32, i32)> = Vec::new();
    let mut j: usize = 0;
    while j < n
        invariant
            n <= left@.len(),
            n <= right@.len(),
            width <= 65536,
            height <= 65536,
            j <= n,
            pts@.len() == j,
            forall|i: int|
                0 <= i < j ==> #[trigger] pts@[i] == (
                    spec_vector_point(left@[i], right@[i], width, height).0 as i32,
                    spec_vector_point(left@[i], right@[i], width, height).1 as i32,
                ),
        decreases n - j,
    {
        let x = width as i32 - normalize_centered(right[j], width);
        let y = normalize_centered(left[j], height);
        pts.push((x, y));
        j = j + 1;
    }
    pts
}

} // verus!
