//! The triggered oscilloscope: finds a stable sync offset in the recent
//! samples (a rising-edge-biased local-minimum-energy heuristic), then maps
//! each sample of both channels to a vertical pixel, marking samples that
//! clip. Drawing the resulting polylines is the caller's concern.

use vstd::prelude::*;

use crate::sample::{
    is_clipping, normalize_centered, spec_is_clipping, spec_normalize_centered, spec_sample_abs,
};

verus! {

/// The scan anchor: the column `width * horiz_q16 / 65536` (the user's
/// anchor fraction in Q16), clamped into the sample window.
pub open spec fn spec_zc_mark(width: int, horiz_q16: int, winsz: int) -> int {
    let m = width * horiz_q16 / 65536;
    if m >= winsz {
        winsz - 1
    } else {
        m
    }
}

/// Computes the scan anchor for a surface `width` pixels wide over a window
/// of `winsz` samples.
pub fn zc_mark(width: u32, horiz_q16: u32, winsz: usize) -> (m: usize)
    requires
        winsz >= 1,
    ensures
        m == spec_zc_mark(width as int, horiz_q16 as int, winsz as int),
        m < winsz,
{
    proof {
        assert((width as int) * (horiz_q16 as int) < 0x1_0000_0000 * 0x1_0000_0000)
            by (nonlinear_arith)
            requires
                width < 0x1_0000_0000,
                horiz_q16 < 0x1_0000_0000,
        ;
    }
    let raw = (width as u64 * horiz_q16 as u64) / 65536;
    proof {
        vstd::arithmetic::div_mod::lemma_div_is_ordered(
            0,
            (width as int) * (horiz_q16 as int),
            65536,
        );
        vstd::arithmetic::div_mod::lemma_div_multiples_vanish(0, 65536);
        assert((width as int) * (horiz_q16 as int) >= 0) by (nonlinear_arith);
    }
    if raw >= winsz as u64 {
        winsz - 1
    } else {
        raw as usize
    }
}

/// The trigger energy at position `i`: the summed magnitudes of both
/// channels' samples there.
pub open spec fn spec_trigger_energy(l: Seq<i32>, r: Seq<i32>, i: int) -> int {
    spec_sample_abs(l[i]) + spec_sample_abs(r[i])
}

/// The trigger sum at position `i`: both channels' samples added, whose rise
/// from one position to the next marks a rising edge.
pub open spec fn spec_trigger_sum(l: Seq<i32>, r: Seq<i32>, i: int) -> int {
    l[i] + r[i]
}

/// The scan state after examining the first `k >= 1` positions from `mark`:
/// (retained offset, retained energy, sum at the last examined position).
/// The first position is always retained; a later position replaces the
/// retained one when its energy is below the retained energy and its sum has
/// not fallen since the immediately preceding position.
pub open spec fn spec_trigger_state(l: Seq<i32>, r: Seq<i32>, mark: int, k: int) -> (int, int, int)
    decreases k,
{
    if k <= 1 {
        (0, spec_trigger_energy(l, r, mark), spec_trigger_sum(l, r, mark))
    } else {
        let prev = spec_trigger_state(l, r, mark, k - 1);
        let en = spec_trigger_energy(l, r, mark + k - 1);
        let sm = spec_trigger_sum(l, r, mark + k - 1);
        if en < prev.1 && prev.2 <= sm {
            (k - 1, en, sm)
        } else {
            (prev.0, prev.1, sm)
        }
    }
}

/// The sync offset of a scan of up to `zc_search` positions starting at
/// `mark`: the offset retained after all positions inside the window have
/// been examined, or 0 when there is nothing to scan.
pub open spec fn spec_trigger_offset(
    l: Seq<i32>,
    r: Seq<i32>,
    mark: int,
    zc_search: int,
) -> int {
    let count = if zc_search <= l.len() - mark {
        zc_search
    } else {
        l.len() - mark
    };
    if count <= 0 {
        0
    } else {
        spec_trigger_state(l, r, mark, count).0
    }
}

/// The retained offset always points at an examined position.
pub proof fn lemma_trigger_state_bounds(l: Seq<i32>, r: Seq<i32>, mark: int, k: int)
    requires
        k >= 1,
    ensures
        0 <= spec_trigger_state(l, r, mark, k).0 < k,
    decreases k,
{
    if k > 1 {
        lemma_trigger_state_bounds(l, r, mark, k - 1);
    }
}

/// On silent input the scan never finds a qualifying later position: the
/// first scanned position, offset 0, is retained throughout.
pub proof fn lemma_trigger_silence(l: Seq<i32>, r: Seq<i32>, mark: int, zc_search: int)
    requires
        l.len() == r.len(),
        0 <= mark < l.len(),
        forall|i: int| 0 <= i < l.len() ==> l[i] == 0i32,
        forall|i: int| 0 <= i < r.len() ==> r[i] == 0i32,
    ensures
        spec_trigger_offset(l, r, mark, zc_search) == 0,
{
    let count = if zc_search <= l.len() - mark {
        zc_search
    } else {
        l.len() - mark
    };
    if count > 0 {
        lemma_trigger_state_silence(l, r, mark, count);
    }
}

/// On silent input the scan state never leaves (offset 0, energy 0).
proof fn lemma_trigger_state_silence(l: Seq<i32>, r: Seq<i32>, mark: int, k: int)
    requires
        l.len() == r.len(),
        1 <= k,
        0 <= mark,
        mark + k <= l.len(),
        forall|i: int| 0 <= i < l.len() ==> l[i] == 0i32,
        forall|i: int| 0 <= i < r.len() ==> r[i] == 0i32,
    ensures
        spec_trigger_state(l, r, mark, k) == (0int, 0int, 0int),
    decreases k,
{
    if k > 1 {
        lemma_trigger_state_silence(l, r, mark, k - 1);
    }
}

/// The summed magnitude of both channels' samples at index `i`.
fn trigger_energy(l: &[i32], r: &[i32], i: usize) -> (en: i64)
    requires
        i < l@.len(),
        i < r@.len(),
    ensures
        en == spec_trigger_energy(l@, r@, i as int),
        0 <= en <= 0x1_0000_0000,
{
    let lv = l[i];
    let rv = r[i];
    let la: i64 = if lv >= 0 {
        lv as i64
    } else {
        -(lv as i64)
    };
    let ra: i64 = if rv >= 0 {
        rv as i64
    } else {
        -(rv as i64)
    };
    la + ra
}

/// Scans up to `zc_search` consecutive positions starting at the anchor
/// `mark` and returns the sync offset: the last position scanned whose
/// energy undercut the retained minimum while its sum had risen relative to
/// the immediately preceding position; 0 when no later position qualifies or
/// there is nothing to scan.
pub fn trigger_search(left: &[i32], right: &[i32], mark: usize, zc_search: usize) -> (offset:
    usize)
    requires
        left@.len() == right@.len(),
        mark < left@.len(),
    ensures
        offset == spec_trigger_offset(left@, right@, mark as int, zc_search as int),
        mark + offset < left@.len(),
        offset <= zc_search,
{
    let len = left.len();
    let count = if zc_search <= len - mark {
        zc_search
    } else {
        len - mark
    };
    if count == 0 {
        return 0;
    }
    proof {
        lemma_trigger_state_bounds(left@, right@, mark as int, count as int);
    }
    let mut best_i: usize = 0;
    let mut best_en: i64 = trigger_energy(left, right, mark);
    let mut last_sm: i64 = left[mark] as i64 + right[mark] as i64;
    let mut k: usize = 1;
    while k < count
        invariant
            left@.len() == right@.len() == len,
            mark < len,
            1 <= count <= len - mark,
            count <= zc_search,
            1 <= k <= count,
            best_i < k,
            best_i as int == spec_trigger_state(left@, right@, mark as int, k as int).0,
            best_en as int == spec_trigger_state(left@, right@, mark as int, k as int).1,
            last_sm as int == spec_trigger_state(left@, right@, mark as int, k as int).2,
            0 <= best_en <= 0x1_0000_0000,
        decreases count - k,
    {
        let en = trigger_energy(left, right, mark + k);
        let sm = left[mark + k] as i64 + right[mark + k] as i64;
        if en < best_en && last_sm <= sm {
            best_i = k;
            best_en = en;
        }
        last_sm = sm;
        k = k + 1;
    }
    best_i
}

/// The vertical pixel and clip flag of every displayed sample, starting at
/// the sync offset: entry `j` belongs to column `j` of the surface.
pub fn scope_points(samples: &[i32], offset: usize, height: u32) -> (pts: Vec<(i32, bool)>)
    requires
        offset <= samples@.len(),
        height <= 65536,
    ensures
        pts@.len() == samples@.len() - offset,
        forall|j: int|
            0 <= j < pts@.len() ==> #[trigger] pts@[j] == (
                spec_normalize_centered(samples@[offset + j], height) as i32,
                spec_is_clipping(samples@[offset + j]),
            ),
{
    let mut pts: Vec<(i32, bool)> = Vec::new();
    let mut j: usize = 0;
    while j < samples.len() - offset
        invariant
            offset <= samples@.len(),
            height <= 65536,
            j <= samples@.len() - offset,
            pts@.len() == j,
            forall|i: int|
                0 <= i < j ==> #[trigger] pts@[i] == (
                    spec_normalize_centered(samples@[offset + i], height) as i32,
                    spec_is_clipping(samples@[offset + i]),
                ),
        decreases samples@.len() - offset - j,
    {
        let s = samples[offset + j];
        let y = normalize_centered(s, height);
        let c = is_clipping(s);
        pts.push((y, c));
        j = j + 1;
    }
    pts
}

/// The sample-window length the oscilloscope asks for: one sample per pixel
/// column plus the trigger scan headroom.
pub fn scope_requested_window(width: usize, zc_search: usize) -> (n: usize)
    requires
        width + zc_search <= usize::MAX,
    ensures
        n == width + zc_search,
{
    width + zc_search
}

} // verus!
