//! The window-function boundary: a window function hands the analyzer a
//! weighting curve of one weight per sample, here in Q16 fixed point with
//! 65536 standing for 1.0. The catalog of window functions lives with the
//! caller; this module holds the curve itself, its application to a sample
//! block, and the rectangular (all-ones) curve.

use vstd::prelude::*;

verus! {

/// The fixed-point representation of the weight 1.0.
pub const WEIGHT_UNIT: i32 = 65536;

/// A weighting curve: one Q16 weight per sample of the analyzer's input.
pub struct GenericWindow(Vec<i32>);

/// A sample scaled by a Q16 weight, the quotient truncated toward zero.
pub open spec fn spec_weighted(s: i32, w: i32) -> int {
    let p = (s as int) * (w as int);
    if p >= 0 {
        p / (WEIGHT_UNIT as int)
    } else {
        -((-p) / (WEIGHT_UNIT as int))
    }
}

/// The weight of 1.0 leaves a sample unchanged.
pub proof fn lemma_weighted_unit(s: i32)
    ensures
        spec_weighted(s, WEIGHT_UNIT) == s,
{
    let u = WEIGHT_UNIT as int;
    assert((s as int) * u == u * (s as int)) by (nonlinear_arith);
    vstd::arithmetic::div_mod::lemma_div_multiples_vanish(s as int, u);
    if s < 0 {
        assert(-((s as int) * u) == u * (-(s as int))) by (nonlinear_arith);
        vstd::arithmetic::div_mod::lemma_div_multiples_vanish(-(s as int), u);
    }
}

impl View for GenericWindow {
    type V = Seq<i32>;

    closed spec fn view(&self) -> Seq<i32> {
        self.0@
    }
}

impl GenericWindow {
    /// The curve's length: the analyzer input length it was made for.
    pub fn size(&self) -> (n: usize)
        ensures
            n == self@.len(),
    {
        self.0.len()
    }

    /// The weights themselves.
    pub fn shape(&self) -> (s: &[i32])
        ensures
            s@ == self@,
    {
        self.0.as_slice()
    }

    /// A curve from explicit Q16 weights. Weights beyond four times unity
    /// are refused so that weighting arithmetic stays within bounds.
    pub fn from_weights(weights: Vec<i32>) -> (w: GenericWindow)
        requires
            forall|i: int|
                0 <= i < weights@.len() ==> -0x4_0000 <= #[trigger] weights@[i] <= 0x4_0000,
        ensures
            w@ == weights@,
            w.bounded(),
    {
        GenericWindow(weights)
    }

    /// The curve is bounded by four times unity.
    pub closed spec fn bounded(&self) -> bool {
        forall|i: int| 0 <= i < self.0@.len() ==> -0x4_0000 <= #[trigger] self.0@[i] <= 0x4_0000
    }

    /// Weights each sample in place by the curve. The caller hands a block
    /// of exactly the curve's length, as the analyzer's input always is.
    pub fn apply(&self, data: &mut Vec<i32>)
        requires
            self.bounded(),
            old(data)@.len() == self@.len(),
            forall|i: int|
                0 <= i < old(data)@.len() ==> -0x1000_0000 <= #[trigger] old(data)@[i]
                    <= 0x1000_0000,
        ensures
            final(data)@.len() == old(data)@.len(),
            forall|i: int|
                0 <= i < final(data)@.len() ==> final(data)@[i] == spec_weighted(
                    old(data)@[i],
                    self@[i],
                ),
    {
        let n = data.len();
        let mut i: usize = 0;
        while i < n
            invariant
                self.bounded(),
                n == data@.len() == self@.len(),
                i <= n,
                forall|j: int|
                    0 <= j < n ==> -0x1000_0000 <= #[trigger] old(data)@[j] <= 0x1000_0000,
                forall|j: int| i <= j < n ==> data@[j] == old(data)@[j],
                forall|j: int|
                    0 <= j < i ==> data@[j] == spec_weighted(old(data)@[j], self@[j]),
            decreases n - i,
        {
            let s = data[i];
            let w = self.0[i];
            proof {
                assert(-0x1000_0000int * 0x4_0000 <= (s as int) * (w as int) <= 0x1000_0000int
                    * 0x4_0000) by (nonlinear_arith)
                    requires
                        -0x1000_0000 <= s <= 0x1000_0000,
                        -0x4_0000 <= w <= 0x4_0000,
                ;
            }
            let p: i64 = (s as i64) * (w as i64);
            let q: i64 = if p >= 0 {
                ((p as u64) / (WEIGHT_UNIT as u64)) as i64
            } else {
                -((((-p) as u64) / (WEIGHT_UNIT as u64)) as i64)
            };
            proof {
                if p >= 0 {
                    vstd::arithmetic::div_mod::lemma_div_is_ordered(
                        p as int,
                        0x1000_0000int * 0x4_0000,
                        WEIGHT_UNIT as int,
                    );
                    assert(0x1000_0000int * 0x4_0000 == 0x4000_0000 * (WEIGHT_UNIT as int))
                        by (nonlinear_arith);
                    vstd::arithmetic::div_mod::lemma_div_multiples_vanish(
                        0x4000_0000,
                        WEIGHT_UNIT as int,
                    );
                    vstd::arithmetic::div_mod::lemma_div_is_ordered(0, p as int, WEIGHT_UNIT as int);
                    vstd::arithmetic::div_mod::lemma_div_multiples_vanish(0, WEIGHT_UNIT as int);
                } else {
                    vstd::arithmetic::div_mod::lemma_div_is_ordered(
                        (-p) as int,
                        0x1000_0000int * 0x4_0000,
                        WEIGHT_UNIT as int,
                    );
                    assert(0x1000_0000int * 0x4_0000 == 0x4000_0000 * (WEIGHT_UNIT as int))
                        by (nonlinear_arith);
                    vstd::arithmetic::div_mod::lemma_div_multiples_vanish(
                        0x4000_0000,
                        WEIGHT_UNIT as int,
                    );
                    vstd::arithmetic::div_mod::lemma_div_is_ordered(
                        0,
                        (-p) as int,
                        WEIGHT_UNIT as int,
                    );
                    vstd::arithmetic::div_mod::lemma_div_multiples_vanish(0, WEIGHT_UNIT as int);
                }
            }
            data.set(i, q as i32);
            i = i + 1;
        }
    }
}

/// The rectangular window: every weight is 1.0, so the analyzer's input
/// passes through unweighted.
pub fn new_rect(sz: usize) -> (w: GenericWindow)
    ensures
        w@.len() == sz,
        forall|i: int| 0 <= i < sz ==> #[trigger] w@[i] == WEIGHT_UNIT,
        w.bounded(),
{
    GenericWindow(vec![WEIGHT_UNIT; sz])
}

} // verus!
