//! Shared audio state: per channel, a pair of ring buffers — the display
//! buffer visualized by the views and the window buffer feeding the spectral
//! transform. The capture side de-interleaves each delivered block of
//! interleaved stereo samples and pushes each channel's sequence into both of
//! that channel's buffers; the render side snapshots and resizes them. The
//! mutual-exclusion lock serializing the two actors lives with the caller:
//! every operation here is bounded, so the lock is never held across
//! unbounded work.

use vstd::prelude::*;

use crate::fifo::{fifo_push, fifo_resize, zeros, Fifo};

verus! {

/// One channel's buffers: `scope` holds the visualized history, `win` the
/// spectral-transform input (its length is the transform size, fixed for the
/// life of the process).
#[derive(Debug, Clone)]
pub struct ChannelState {
    pub scope: Fifo,
    pub win: Fifo,
}

/// Both channels of shared audio state.
#[derive(Debug, Clone)]
pub struct State {
    pub left: ChannelState,
    pub right: ChannelState,
}

/// The samples of channel `chan` in an interleaved stereo block:
/// every second sample, starting at offset `chan`.
pub open spec fn channel_seq(block: Seq<i32>, chan: int) -> Seq<i32> {
    Seq::new((block.len() / 2) as nat, |i: int| block[2 * i + chan])
}

/// Extracts channel `chan` from an interleaved stereo block.
pub fn deinterleave(block: &[i32], chan: usize) -> (v: Vec<i32>)
    requires
        chan < 2,
    ensures
        v@ =~= channel_seq(block@, chan as int),
{
    let n = block.len() / 2;
    let mut v: Vec<i32> = Vec::new();
    let mut i: usize = 0;
    while i < n
        invariant
            chan < 2,
            n == block.len() / 2,
            i <= n,
            v.len() == i,
            forall|j: int| 0 <= j < i ==> v@[j] == block@[2 * j + chan],
        decreases n - i,
    {
        v.push(block[2 * i + chan]);
        i = i + 1;
    }
    v
}

impl State {
    /// Fresh state: display buffers of `display_sz` zero samples, window
    /// buffers of `fft_sz` zero samples, identical for both channels.
    pub fn new(display_sz: usize, fft_sz: usize) -> (s: State)
        ensures
            s.left.scope@ =~= zeros(display_sz as nat),
            s.left.win@ =~= zeros(fft_sz as nat),
            s.right.scope@ =~= zeros(display_sz as nat),
            s.right.win@ =~= zeros(fft_sz as nat),
    {
        State {
            left: ChannelState { scope: Fifo::new(display_sz), win: Fifo::new(fft_sz) },
            right: ChannelState { scope: Fifo::new(display_sz), win: Fifo::new(fft_sz) },
        }
    }

    /// The capture path: de-interleaves a stereo block and pushes each
    /// channel's samples into both of that channel's buffers, so the two are
    /// never observed half-updated. A block whose length is not a multiple of
    /// the channel count is a protocol violation the caller must treat as
    /// fatal.
    pub fn ingest(&mut self, block: &[i32])
        requires
            block@.len() % 2 == 0,
        ensures
            final(self).left.scope@ == fifo_push(old(self).left.scope@, channel_seq(block@, 0)),
            final(self).left.win@ == fifo_push(old(self).left.win@, channel_seq(block@, 0)),
            final(self).right.scope@ == fifo_push(old(self).right.scope@, channel_seq(block@, 1)),
            final(self).right.win@ == fifo_push(old(self).right.win@, channel_seq(block@, 1)),
    {
        let l = deinterleave(block, 0);
        self.left.scope.push(l.as_slice());
        self.left.win.push(l.as_slice());
        let r = deinterleave(block, 1);
        self.right.scope.push(r.as_slice());
        self.right.win.push(r.as_slice());
    }

    /// The render path's resize: sets both channels' display buffers to the
    /// newly aggregated length; the window buffers are untouched.
    pub fn resize_display(&mut self, n: usize)
        ensures
            final(self).left.scope@ == fifo_resize(old(self).left.scope@, n as nat),
            final(self).right.scope@ == fifo_resize(old(self).right.scope@, n as nat),
            final(self).left.win == old(self).left.win,
            final(self).right.win == old(self).right.win,
    {
        self.left.scope.resize(n);
        self.right.scope.resize(n);
    }

    /// A copy of both channels' window buffers, for the spectral transform to
    /// run on after the lock is released.
    pub fn window_snapshot(&self) -> (snap: (Vec<i32>, Vec<i32>))
        ensures
            snap.0@ == self.left.win@,
            snap.1@ == self.right.win@,
    {
        (self.left.win.to_vec(), self.right.win.to_vec())
    }

    /// A copy of both channels' display buffers, for the views to render
    /// after the lock is released.
    pub fn display_snapshot(&self) -> (snap: (Vec<i32>, Vec<i32>))
        ensures
            snap.0@ == self.left.scope@,
            snap.1@ == self.right.scope@,
    {
        (self.left.scope.to_vec(), self.right.scope.to_vec())
    }
}

} // verus!
