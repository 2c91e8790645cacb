//! The render orchestrator's per-frame bookkeeping: each frame the active
//! views' requested window lengths are aggregated into one display-buffer
//! length, floored at a minimum so the views never starve, and the shared
//! display buffers are resized when the aggregate changes.

use vstd::prelude::*;

verus! {

/// The minimum display-buffer length, whatever the views request.
pub const MIN_SAMPS: usize = 256;

/// The display-buffer length for the coming frame: the largest of the
/// active views' requested window lengths, floored at [`MIN_SAMPS`].
pub fn aggregate_window(requests: &[usize]) -> (n: usize)
    ensures
        n >= MIN_SAMPS,
        forall|i: int| 0 <= i < requests@.len() ==> n >= #[trigger] requests@[i],
        n == MIN_SAMPS || exists|i: int| 0 <= i < requests@.len() && n == #[trigger] requests@[i],
{
    let mut n: usize = MIN_SAMPS;
    let mut i: usize = 0;
    while i < requests.len()
        invariant
            i <= requests@.len(),
            n >= MIN_SAMPS,
            forall|j: int| 0 <= j < i ==> n >= #[trigger] requests@[j],
            n == MIN_SAMPS || exists|j: int| 0 <= j < i && n == #[trigger] requests@[j],
        decreases requests@.len() - i,
    {
        if requests[i] > n {
            n = requests[i];
        }
        i = i + 1;
    }
    n
}

} // verus!
