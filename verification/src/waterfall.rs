//! The waterfall: a persistent pixel image of the recent spectral history.
//! Each frame the image scrolls up one row (the newly exposed bottom row is
//! zero-filled) and both channels write their per-column intensity into the
//! bottom row before it scrolls away. Pixels are four bytes each, laid out
//! alpha, blue, green, red; the left channel writes the green byte, the right
//! channel the blue one.

use vstd::prelude::*;

use vstd::arithmetic::mul::{lemma_mul_inequality, lemma_mul_is_distributive_sub_other_way};

verus! {

/// One waterfall pixel, in the byte order of the image.
#[derive(Clone, Copy, Debug, PartialEq, Eq, Structural)]
pub struct Pixel {
    pub a: u8,
    pub b: u8,
    pub g: u8,
    pub r: u8,
}

/// A sequence of `n` zero bytes.
pub open spec fn byte_zeros(n: nat) -> Seq<u8> {
    Seq::new(n, |i: int| 0u8)
}

/// One scroll step: the image loses its top row and gains a zeroed bottom
/// row. `rb` is the byte length of one row.
pub open spec fn spec_scroll(s: Seq<u8>, rb: nat) -> Seq<u8> {
    s.skip(rb as int) + byte_zeros(rb)
}

/// `k` scroll steps.
pub open spec fn spec_scroll_n(s: Seq<u8>, rb: nat, k: nat) -> Seq<u8>
    decreases k,
{
    if k == 0 {
        s
    } else {
        spec_scroll(spec_scroll_n(s, rb, (k - 1) as nat), rb)
    }
}

/// After `k` scroll steps every byte of the starting image has moved up `k` rows
/// (`k * rb` bytes) or scrolled out, and the freed bottom rows are zero: no
/// byte is duplicated or left behind.
pub proof fn lemma_scroll_n(s: Seq<u8>, rb: nat, k: nat)
    requires
        k * (rb as int) <= s.len(),
    ensures
        spec_scroll_n(s, rb, k).len() == s.len(),
        forall|j: int|
            0 <= j < s.len() - k * (rb as int) ==> spec_scroll_n(s, rb, k)[j] == s[j + k * (
            rb as int)],
        forall|j: int|
            s.len() - k * (rb as int) <= j < s.len() ==> spec_scroll_n(s, rb, k)[j] == 0u8,
    decreases k,
{
    if k > 0 {
        let prev = (k - 1) as nat;
        assert(prev * (rb as int) == k * (rb as int) - rb) by {
            lemma_mul_is_distributive_sub_other_way(rb as int, k as int, 1);
        }
        lemma_scroll_n(s, rb, prev);
        let ps = spec_scroll_n(s, rb, prev);
        let res = spec_scroll_n(s, rb, k);
        assert(res == spec_scroll(ps, rb));
        assert(ps.len() == s.len());
        assert forall|j: int|
            0 <= j < s.len() - k * (rb as int) implies res[j] == s[j + k * (rb as int)] by {
            assert(res[j] == ps.skip(rb as int)[j]);
            assert(ps.skip(rb as int)[j] == ps[j + rb]);
            assert(ps[j + rb] == s[j + rb + prev * (rb as int)]);
        }
        assert forall|j: int|
            s.len() - k * (rb as int) <= j < s.len() implies res[j] == 0u8 by {
            if j < s.len() - rb {
                assert(res[j] == ps.skip(rb as int)[j]);
                assert(ps.skip(rb as int)[j] == ps[j + rb]);
                assert(ps[j + rb] == 0u8);
            } else {
                assert(res[j] == byte_zeros(rb)[j - (s.len() - rb)]);
            }
        }
    } else {
        assert(k * (rb as int) == 0) by (nonlinear_arith)
            requires
                k == 0,
        ;
    }
}

/// A well-formed image's byte count is exactly its surface's pixel count
/// times four.
pub proof fn lemma_wf_dims(w: &Waterfall)
    requires
        w.wf(),
    ensures
        w@.len() == w.spec_width() * w.spec_height() * 4,
        1 <= w.spec_width(),
        1 <= w.spec_height(),
{
}

/// The persistent scrolling image of the spectrogram view, `width` columns
/// by `height` rows of four-byte pixels.
pub struct Waterfall {
    data: Vec<u8>,
    width: usize,
    height: usize,
}

impl View for Waterfall {
    type V = Seq<u8>;

    closed spec fn view(&self) -> Seq<u8> {
        self.data@
    }
}

impl Waterfall {
    /// The image's column count.
    pub closed spec fn spec_width(&self) -> int {
        self.width as int
    }

    /// The image's row count.
    pub closed spec fn spec_height(&self) -> int {
        self.height as int
    }

    /// The image holds exactly its surface's pixels.
    pub closed spec fn wf(&self) -> bool {
        &&& self.data@.len() == self.width * self.height * 4
        &&& 1 <= self.width
        &&& 1 <= self.height
    }

    /// The byte index of channel `chan`'s intensity within the pixel at
    /// column `x` of the bottom row: the green byte for the left channel,
    /// the blue byte for the right.
    pub open spec fn spec_bottom_index(&self, x: int, chan: int) -> int {
        (self.spec_height() - 1) * self.spec_width() * 4 + x * 4 + (2 - chan)
    }

    /// A fresh, all-black image.
    pub fn new(width: usize, height: usize) -> (w: Waterfall)
        requires
            1 <= width,
            1 <= height,
            width * height * 4 <= usize::MAX,
        ensures
            w.wf(),
            w.spec_width() == width,
            w.spec_height() == height,
            w@ =~= byte_zeros((width * height * 4) as nat),
    {
        let n = width * height * 4;
        Waterfall { data: vec![0u8; n], width, height }
    }

    /// The image's column count.
    pub fn width(&self) -> (w: usize)
        ensures
            w == self.spec_width(),
    {
        self.width
    }

    /// The image's row count.
    pub fn height(&self) -> (h: usize)
        ensures
            h == self.spec_height(),
    {
        self.height
    }

    /// The raw bytes, row by row from the top, for uploading to a streaming
    /// texture.
    pub fn as_bytes(&self) -> (s: &[u8])
        ensures
            s@ == self@,
    {
        self.data.as_slice()
    }

    /// Scrolls the image up one row: row `i` becomes row `i + 1` for all but
    /// the last row, and the newly exposed bottom row is zero-filled.
    pub fn scroll_up(&mut self)
        requires
            old(self).wf(),
        ensures
            final(self).wf(),
            final(self).spec_width() == old(self).spec_width(),
            final(self).spec_height() == old(self).spec_height(),
            final(self)@ =~= spec_scroll(old(self)@, (old(self).spec_width() * 4) as nat),
    {
        let len = self.data.len();
        proof {
            lemma_mul_inequality(1, self.height as int, self.width as int * 4);
            assert((self.width as int) * (self.height as int) * 4 == (self.height as int) * (
            self.width as int * 4)) by (nonlinear_arith);
            assert(self.width as int * 4 <= len);
        }
        let rb = self.width * 4;
        let mut j: usize = 0;
        while j < len - rb
            invariant
                rb <= len == self.data.len(),
                rb == old(self).spec_width() * 4,
                j <= len - rb,
                self.width == old(self).width,
                self.height == old(self).height,
                forall|i: int| 0 <= i < j ==> self.data@[i] == old(self)@[i + rb],
                forall|i: int| j <= i < len ==> self.data@[i] == old(self)@[i],
            decreases len - rb - j,
        {
            let v = self.data[j + rb];
            self.data.set(j, v);
            j = j + 1;
        }
        while j < len
            invariant
                rb <= len == self.data.len(),
                rb == old(self).spec_width() * 4,
                len - rb <= j <= len,
                self.width == old(self).width,
                self.height == old(self).height,
                forall|i: int| 0 <= i < len - rb ==> self.data@[i] == old(self)@[i + rb],
                forall|i: int| len - rb <= i < j ==> self.data@[i] == 0u8,
            decreases len - j,
        {
            self.data.set(j, 0);
            j = j + 1;
        }
    }

    /// Writes channel `chan`'s intensity byte for column `x` into the bottom
    /// row; every other byte of the image is untouched.
    pub fn write_bottom(&mut self, x: usize, chan: usize, value: u8)
        requires
            old(self).wf(),
            x < old(self).spec_width(),
            chan < 2,
        ensures
            final(self).wf(),
            final(self).spec_width() == old(self).spec_width(),
            final(self).spec_height() == old(self).spec_height(),
            final(self)@ =~= old(self)@.update(old(self).spec_bottom_index(x as int, chan as int), value),
    {
        proof {
            vstd::std_specs::vec::axiom_spec_len(&self.data);
            let w = self.width as int;
            let h = self.height as int;
            assert(0 <= (h - 1) * w && 0 <= (h - 1) * w * 4 && (h - 1) * w * 4 + (x as int) * 4
                + 2 - chan < w * h * 4) by (nonlinear_arith)
                requires
                    0 <= x < w,
                    1 <= h,
                    0 <= chan < 2,
            ;
        }
        let idx = (self.height - 1) * self.width * 4 + x * 4 + (2 - chan);
        self.data.set(idx, value);
    }

    /// The pixel at `(row, col)`, assembled from its four bytes.
    pub fn pixel_at(&self, row: usize, col: usize) -> (p: Pixel)
        requires
            self.wf(),
            row < self.spec_height(),
            col < self.spec_width(),
        ensures
            ({
                let base = row * self.spec_width() * 4 + col * 4;
                p == (Pixel {
                    a: self@[base],
                    b: self@[base + 1],
                    g: self@[base + 2],
                    r: self@[base + 3],
                })
            }),
    {
        proof {
            vstd::std_specs::vec::axiom_spec_len(&self.data);
            let w = self.width as int;
            let h = self.height as int;
            assert(0 <= (row as int) * w && 0 <= (row as int) * w * 4 && (row as int) * w * 4 + (
            col as int) * 4 + 3 < w * h * 4) by (nonlinear_arith)
                requires
                    0 <= row < h,
                    0 <= col < w,
            ;
        }
        let base = row * self.width * 4 + col * 4;
        Pixel {
            a: self.data[base],
            b: self.data[base + 1],
            g: self.data[base + 2],
            r: self.data[base + 3],
        }
    }
}

} // verus!
