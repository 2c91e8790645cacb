//! Fixed-capacity ring buffer: an ordered window of the most recently pushed
//! samples. The buffer is always fully populated; a freshly constructed or
//! grown buffer is padded with zero (silence) samples. Every operation is
//! total: there are no error states.

use vstd::prelude::*;

verus! {

/// A fixed-size sliding window over the most recently pushed samples.
///
/// Samples are signed fixed-point values (see [`crate::sample`]). The view of
/// a `Fifo` is the sequence of its samples, oldest first.
#[derive(Debug, Clone)]
pub struct Fifo(Vec<i32>);

/// A sequence of `n` zero (silence) samples.
pub open spec fn zeros(n: nat) -> Seq<i32> {
    Seq::new(n, |i: int| 0i32)
}

/// The contents of a ring buffer of contents `buf` after pushing `data`:
/// the trailing `buf.len()` elements of `buf + data`.
pub open spec fn fifo_push(buf: Seq<i32>, data: Seq<i32>) -> Seq<i32> {
    if data.len() >= buf.len() {
        data.subrange(data.len() - buf.len(), data.len() as int)
    } else {
        buf.skip(data.len() as int) + data
    }
}

/// The contents of a ring buffer of contents `buf` after resizing to `n`:
/// the trailing `n` elements when shrinking; zero padding at the front
/// (the oldest positions) when growing.
pub open spec fn fifo_resize(buf: Seq<i32>, n: nat) -> Seq<i32> {
    if n <= buf.len() {
        buf.skip(buf.len() - n)
    } else {
        zeros((n - buf.len()) as nat) + buf
    }
}

impl View for Fifo {
    type V = Seq<i32>;

    closed spec fn view(&self) -> Seq<i32> {
        self.0@
    }
}

impl Fifo {
    /// A buffer of `sz` zero samples.
    pub fn new(sz: usize) -> (f: Fifo)
        ensures
            f@ =~= zeros(sz as nat),
    {
        Fifo(vec![0i32; sz])
    }

    /// Slides `data` in at the tail: afterwards the buffer holds the trailing
    /// `size()` elements of the old contents followed by `data`. The size
    /// never changes.
    pub fn push(&mut self, data: &[i32])
        ensures
            final(self)@.len() == old(self)@.len(),
            final(self)@ =~= fifo_push(old(self)@, data@),
    {
        let dlen = data.len();
        let blen = self.0.len();

        if dlen >= blen {
            let mut i: usize = 0;
            while i < blen
                invariant
                    blen == self.0.len(),
                    blen <= dlen == data.len(),
                    i <= blen,
                    forall|j: int| 0 <= j < i ==> self.0@[j] == data@[dlen - blen + j],
                    forall|j: int| i <= j < blen ==> self.0@[j] == old(self)@[j],
                decreases blen - i,
            {
                self.0.set(i, data[dlen - blen + i]);
                i = i + 1;
            }
        } else {
            let mut i: usize = 0;
            while i < blen - dlen
                invariant
                    blen == self.0.len(),
                    dlen == data.len() < blen,
                    i <= blen - dlen,
                    forall|j: int| 0 <= j < i ==> self.0@[j] == old(self)@[j + dlen],
                    forall|j: int| i <= j < blen ==> self.0@[j] == old(self)@[j],
                decreases blen - dlen - i,
            {
                let v = self.0[i + dlen];
                self.0.set(i, v);
                i = i + 1;
            }
            let mut i: usize = 0;
            while i < dlen
                invariant
                    blen == self.0.len(),
                    dlen == data.len() < blen,
                    i <= dlen,
                    forall|j: int| 0 <= j < blen - dlen ==> self.0@[j] == old(self)@[j + dlen],
                    forall|j: int| 0 <= j < i ==> self.0@[blen - dlen + j] == data@[j],
                decreases dlen - i,
            {
                self.0.set(blen - dlen + i, data[i]);
                i = i + 1;
            }
        }
    }

    /// The current capacity, which is also the number of samples held.
    pub fn size(&self) -> (n: usize)
        ensures
            n == self@.len(),
    {
        self.0.len()
    }

    /// Sets the capacity to `newsz`: shrinking keeps the trailing (most
    /// recent) samples, growing pads with zeros at the front (the oldest
    /// positions), preserving the existing trailing content.
    pub fn resize(&mut self, newsz: usize)
        ensures
            final(self)@.len() == newsz,
            final(self)@ =~= fifo_resize(old(self)@, newsz as nat),
    {
        let len = self.0.len();
        let mut v: Vec<i32> = vec![0i32; newsz];
        if newsz <= len {
            let mut i: usize = 0;
            while i < newsz
                invariant
                    newsz <= len == self.0.len(),
                    v.len() == newsz,
                    i <= newsz,
                    forall|j: int| 0 <= j < i ==> v@[j] == self.0@[len - newsz + j],
                decreases newsz - i,
            {
                v.set(i, self.0[len - newsz + i]);
                i = i + 1;
            }
        } else {
            let mut i: usize = 0;
            while i < len
                invariant
                    len == self.0.len() < newsz,
                    v.len() == newsz,
                    i <= len,
                    forall|j: int| 0 <= j < i ==> v@[newsz - len + j] == self.0@[j],
                    forall|j: int| 0 <= j < newsz - len ==> v@[j] == 0i32,
                    forall|j: int| newsz - len + i <= j < newsz ==> v@[j] == 0i32,
                decreases len - i,
            {
                v.set(newsz - len + i, self.0[i]);
                i = i + 1;
            }
        }
        self.0 = v;
    }

    /// Read access to the samples, oldest first.
    pub fn as_slice(&self) -> (s: &[i32])
        ensures
            s@ == self@,
    {
        self.0.as_slice()
    }

    /// A fresh copy of the samples, oldest first.
    pub fn to_vec(&self) -> (v: Vec<i32>)
        ensures
            v@ == self@,
    {
        let mut v: Vec<i32> = Vec::new();
        let mut i: usize = 0;
        while i < self.0.len()
            invariant
                i <= self.0.len(),
                v@ =~= self.0@.take(i as int),
            decreases self.0.len() - i,
        {
            v.push(self.0[i]);
            i = i + 1;
        }
        proof {
            assert(v@ =~= self@);
        }
        v
    }
}

/// Pushing never changes the size of the window; only `resize` does.
pub proof fn lemma_push_preserves_size(buf: Seq<i32>, data: Seq<i32>)
    ensures
        fifo_push(buf, data).len() == buf.len(),
{
}

/// A push of a block at least as long as the buffer leaves exactly the
/// trailing `buf.len()` elements of the block.
pub proof fn lemma_push_long_block(buf: Seq<i32>, data: Seq<i32>)
    requires
        data.len() >= buf.len(),
    ensures
        fifo_push(buf, data) == data.subrange(data.len() - buf.len(), data.len() as int),
{
}

/// A push of a block shorter than the buffer drops the first `data.len()`
/// elements of the old contents and appends the block at the tail.
pub proof fn lemma_push_short_block(buf: Seq<i32>, data: Seq<i32>)
    requires
        data.len() < buf.len(),
    ensures
        fifo_push(buf, data) == buf.skip(data.len() as int) + data,
{
}

/// Resizing to `n` always yields a window of exactly `n` samples.
pub proof fn lemma_resize_sets_size(buf: Seq<i32>, n: nat)
    ensures
        fifo_resize(buf, n).len() == n,
{
}

} // verus!
