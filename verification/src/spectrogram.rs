//! The spectrogram view's per-frame work for one channel: every pixel column
//! looks up its warped spectrum bucket, turns the bucket's magnitude into a
//! level and a clamped graph pixel, and writes its intensity byte into the
//! bottom row of the waterfall image. The vertical pixels of all columns are
//! returned for the caller to draw the graph polyline above the waterfall.

use vstd::prelude::*;

use crate::levels::{
    intensity, spec_intensity, spec_level_q16, spec_level_to_y, spec_magnitude, spectral_lookup,
};
use crate::warp::spec_bucket;
use crate::waterfall::Waterfall;

verus! {

/// The byte at offset `b` of the pixel at column `x` of the row starting at
/// byte `base`.
pub open spec fn pixel_byte(s: Seq<u8>, base: int, x: int, b: int) -> u8 {
    s[base + x * 4 + b]
}

/// The level of the spectrum bucket that pixel column `x` reads.
pub open spec fn spec_column_level(spectrum: Seq<(i32, i32)>, x: int, width: int) -> int {
    let b = spec_bucket(x, width, spectrum.len() as int / 2);
    spec_level_q16(spec_magnitude(spectrum[b].0, spectrum[b].1) as nat)
}

/// The clamped vertical graph pixel of column `x`.
pub open spec fn spec_column_y(
    spectrum: Seq<(i32, i32)>,
    x: int,
    width: int,
    bias: int,
    range: int,
    gh: int,
) -> int {
    spec_level_to_y(spec_column_level(spectrum, x, width), bias, range, gh)
}

/// Renders one channel's spectrum into the waterfall's bottom row and
/// returns each column's graph pixel. Only this channel's intensity byte of
/// each bottom-row pixel changes; every other byte of the image, including
/// the other channel's plane, is untouched.
pub fn render_spectrum_row(
    wf: &mut Waterfall,
    spectrum: &[(i32, i32)],
    chan: usize,
    bias: i64,
    range: i64,
    graph_height: u32,
) -> (ys: Vec<u32>)
    requires
        old(wf).wf(),
        old(wf).spec_width() <= 0x8000_0000,
        chan < 2,
        2 <= spectrum@.len() <= 0x1_0000_0000,
        -0x1_0000_0000 <= bias <= 0x1_0000_0000,
        1 <= range <= 0x1_0000_0000,
        1 <= graph_height <= 65536,
    ensures
        final(wf).wf(),
        final(wf).spec_width() == old(wf).spec_width(),
        final(wf).spec_height() == old(wf).spec_height(),
        final(wf)@.len() == old(wf)@.len(),
        ys@.len() == old(wf).spec_width(),
        forall|x: int|
            0 <= x < ys@.len() ==> ys@[x] == spec_column_y(
                spectrum@,
                x,
                old(wf).spec_width(),
                bias as int,
                range as int,
                graph_height as int,
            ),
        forall|x: int|
            0 <= x < old(wf).spec_width() ==> final(wf)@[old(wf).spec_bottom_index(x, chan as int)]
                == spec_intensity(
                spec_column_y(
                    spectrum@,
                    x,
                    old(wf).spec_width(),
                    bias as int,
                    range as int,
                    graph_height as int,
                ),
                graph_height as int,
            ),
        forall|j: int|
            0 <= j < (old(wf).spec_height() - 1) * old(wf).spec_width() * 4 ==> final(wf)@[j]
                == old(wf)@[j],
        forall|x: int, b: int|
            0 <= x < old(wf).spec_width() && 0 <= b < 4 && b != 2 - chan ==> #[trigger] pixel_byte(
                final(wf)@,
                (old(wf).spec_height() - 1) * old(wf).spec_width() * 4,
                x,
                b,
            ) == pixel_byte(
                old(wf)@,
                (old(wf).spec_height() - 1) * old(wf).spec_width() * 4,
                x,
                b,
            ),
{
    let width = wf.width();
    let ghost base = (old(wf).spec_height() - 1) * old(wf).spec_width() * 4;
    let mut ys: Vec<u32> = Vec::new();
    let mut x: usize = 0;
    while x < width
        invariant
            wf.wf(),
            wf.spec_width() == old(wf).spec_width() == width <= 0x8000_0000,
            wf.spec_height() == old(wf).spec_height(),
            wf@.len() == old(wf)@.len(),
            base == (old(wf).spec_height() - 1) * old(wf).spec_width() * 4,
            chan < 2,
            2 <= spectrum@.len() <= 0x1_0000_0000,
            -0x1_0000_0000 <= bias <= 0x1_0000_0000,
            1 <= range <= 0x1_0000_0000,
            1 <= graph_height <= 65536,
            x <= width,
            ys@.len() == x,
            forall|i: int|
                0 <= i < x ==> ys@[i] == spec_column_y(
                    spectrum@,
                    i,
                    width as int,
                    bias as int,
                    range as int,
                    graph_height as int,
                ),
            forall|i: int|
                0 <= i < x ==> wf@[base + i * 4 + (2 - chan)] == spec_intensity(
                    spec_column_y(
                        spectrum@,
                        i,
                        width as int,
                        bias as int,
                        range as int,
                        graph_height as int,
                    ),
                    graph_height as int,
                ),
            forall|j: int| 0 <= j < base ==> wf@[j] == old(wf)@[j],
            forall|i: int, b: int|
                0 <= i < width && 0 <= b < 4 && (b != 2 - chan || i >= x) ==> #[trigger] pixel_byte(
                    wf@,
                    base,
                    i,
                    b,
                ) == pixel_byte(old(wf)@, base, i, b),
        decreases width - x,
    {
        proof {
            crate::waterfall::lemma_wf_dims(wf);
            assert(0 <= base && base + (width as int) * 4 == wf@.len()) by (nonlinear_arith)
                requires
                    base == (wf.spec_height() - 1) * (width as int) * 4,
                    wf@.len() == (width as int) * wf.spec_height() * 4,
                    1 <= wf.spec_height(),
                    1 <= width,
            ;
        }
        let (_bucket, _level, y) = spectral_lookup(x, width, spectrum, bias, range, graph_height);
        let a = intensity(y, graph_height);
        let ghost prev = *wf;
        wf.write_bottom(x, chan, a);
        proof {
            crate::waterfall::lemma_wf_dims(wf);
            assert(0 <= base && base + (width as int) * 4 == wf@.len()) by (nonlinear_arith)
                requires
                    base == (wf.spec_height() - 1) * (width as int) * 4,
                    wf@.len() == (width as int) * wf.spec_height() * 4,
                    1 <= wf.spec_height(),
                    1 <= width,
            ;
            let idx = prev.spec_bottom_index(x as int, chan as int);
            assert(idx == base + (x as int) * 4 + (2 - chan));
            assert forall|i: int, b: int|
                0 <= i < width && 0 <= b < 4 && (b != 2 - chan || i >= x + 1) implies pixel_byte(
                wf@,
                base,
                i,
                b,
            ) == pixel_byte(old(wf)@, base, i, b) by {
                assert(base + i * 4 + b != idx);
                assert(pixel_byte(prev@, base, i, b) == pixel_byte(old(wf)@, base, i, b));
                assert(wf@[base + i * 4 + b] == prev@[base + i * 4 + b]);
            }
            assert(pixel_byte(wf@, base, x as int, 2 - chan) == a);
        }
        ys.push(y);
        x = x + 1;
    }
    ys
}

} // verus!
