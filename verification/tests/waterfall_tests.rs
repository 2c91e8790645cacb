use audioscope::levels::LEVEL_UNIT;
use audioscope::sample::SAMPLE_UNIT;
use audioscope::spectrogram::render_spectrum_row;
use audioscope::waterfall::{Pixel, Waterfall};

#[test]
fn new_image_is_black() {
    let w = Waterfall::new(3, 2);
    assert_eq!(w.width(), 3);
    assert_eq!(w.height(), 2);
    assert_eq!(w.as_bytes(), &[0u8; 24]);
}

#[test]
fn write_bottom_hits_the_channel_plane() {
    let mut w = Waterfall::new(2, 2);
    // Left channel: the green byte (offset 2) of the bottom-row pixel.
    w.write_bottom(0, 0, 200);
    // Right channel: the blue byte (offset 1).
    w.write_bottom(1, 1, 100);
    assert_eq!(w.pixel_at(1, 0), Pixel { a: 0, b: 0, g: 200, r: 0 });
    assert_eq!(w.pixel_at(1, 1), Pixel { a: 0, b: 100, g: 0, r: 0 });
    // The row above is untouched.
    assert_eq!(w.pixel_at(0, 0), Pixel { a: 0, b: 0, g: 0, r: 0 });
    assert_eq!(w.pixel_at(0, 1), Pixel { a: 0, b: 0, g: 0, r: 0 });
}

#[test]
fn rows_scroll_up_without_duplication() {
    // Width 1, height 4: tag each bottom row with a frame number and scroll.
    let mut w = Waterfall::new(1, 4);
    for frame in 1u8..=3 {
        w.scroll_up();
        w.write_bottom(0, 0, frame);
    }
    // After three frames, frame k's row has moved up 3 - k rows.
    assert_eq!(w.pixel_at(1, 0).g, 1);
    assert_eq!(w.pixel_at(2, 0).g, 2);
    assert_eq!(w.pixel_at(3, 0).g, 3);
    assert_eq!(w.pixel_at(0, 0).g, 0);
    // Two more frames scroll the oldest rows out entirely; nothing is
    // duplicated.
    w.scroll_up();
    w.scroll_up();
    assert_eq!(w.pixel_at(0, 0).g, 2);
    assert_eq!(w.pixel_at(1, 0).g, 3);
    assert_eq!(w.pixel_at(2, 0).g, 0);
    assert_eq!(w.pixel_at(3, 0).g, 0);
}

#[test]
fn scroll_zero_fills_the_new_bottom_row() {
    let mut w = Waterfall::new(2, 2);
    w.write_bottom(0, 0, 255);
    w.write_bottom(1, 1, 255);
    w.scroll_up();
    assert_eq!(w.pixel_at(1, 0), Pixel { a: 0, b: 0, g: 0, r: 0 });
    assert_eq!(w.pixel_at(1, 1), Pixel { a: 0, b: 0, g: 0, r: 0 });
    // The written row moved up.
    assert_eq!(w.pixel_at(0, 0).g, 255);
    assert_eq!(w.pixel_at(0, 1).b, 255);
}

#[test]
fn render_spectrum_row_writes_one_plane_and_returns_the_graph() {
    // A loud bin 0 and silence elsewhere, rendered for both channels.
    let spectrum: Vec<(i32, i32)> = vec![(SAMPLE_UNIT, 0), (0, 0), (0, 0), (0, 0)];
    let mut w = Waterfall::new(4, 3);
    w.scroll_up();
    let ys_l = render_spectrum_row(&mut w, &spectrum, 0, 0, 3 * LEVEL_UNIT, 300);
    let ys_r = render_spectrum_row(&mut w, &spectrum, 1, 0, 3 * LEVEL_UNIT, 300);
    assert_eq!(ys_l.len(), 4);
    assert_eq!(ys_l, ys_r);
    // Column 0 reads the loud bin: top of the graph, full intensity.
    assert_eq!(ys_l[0], 0);
    let p0 = w.pixel_at(2, 0);
    assert_eq!(p0.g, 255);
    assert_eq!(p0.b, 255);
    assert_eq!(p0.r, 0);
    assert_eq!(p0.a, 0);
    // The last column reads the silent bin 1: bottom of the graph, zero
    // intensity.
    assert_eq!(ys_l[3], 300);
    assert_eq!(w.pixel_at(2, 3).g, 0);
    // The rows above the bottom are untouched.
    assert_eq!(w.pixel_at(0, 0), Pixel { a: 0, b: 0, g: 0, r: 0 });
    assert_eq!(w.pixel_at(1, 2), Pixel { a: 0, b: 0, g: 0, r: 0 });
}
