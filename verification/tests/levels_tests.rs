use audioscope::levels::{
    floor_log2, intensity, isqrt64, level_q16, level_to_y, magnitude, spectral_lookup,
    LEVEL_UNIT, LOG10_2_Q16, SILENCE_LEVEL,
};

#[test]
fn isqrt_exact_values() {
    assert_eq!(isqrt64(0), 0);
    assert_eq!(isqrt64(1), 1);
    assert_eq!(isqrt64(3), 1);
    assert_eq!(isqrt64(4), 2);
    assert_eq!(isqrt64(15), 3);
    assert_eq!(isqrt64(16), 4);
    assert_eq!(isqrt64(u64::MAX), 0xffff_ffff);
}

#[test]
fn magnitude_of_pythagorean_bin() {
    assert_eq!(magnitude(3, 4), 5);
    assert_eq!(magnitude(-3, 4), 5);
    assert_eq!(magnitude(0, 0), 0);
    assert_eq!(magnitude(0, -7), 7);
}

#[test]
fn floor_log2_sandwich() {
    assert_eq!(floor_log2(1), (0, 1));
    assert_eq!(floor_log2(2), (1, 2));
    assert_eq!(floor_log2(3), (1, 2));
    assert_eq!(floor_log2(1 << 24), (24, 1 << 24));
    assert_eq!(floor_log2(u64::MAX), (63, 1 << 63));
}

#[test]
fn silence_maps_to_the_sentinel_level() {
    // -1000.0 on the Q16 level scale, never an undefined logarithm.
    assert_eq!(level_q16(0), SILENCE_LEVEL);
    assert_eq!(SILENCE_LEVEL, -1000 * LEVEL_UNIT);
}

#[test]
fn level_is_zero_at_unit_magnitude() {
    assert_eq!(level_q16(1 << 24), 0);
}

#[test]
fn level_steps_by_log10_of_two_per_octave() {
    // One octave above or below unit magnitude: +/- log10(2).
    assert_eq!(level_q16(1 << 25), LOG10_2_Q16 as i64);
    assert_eq!(level_q16(1 << 23), -(LOG10_2_Q16 as i64));
    assert_eq!(level_q16(1 << 26), 2 * LOG10_2_Q16 as i64);
}

#[test]
fn level_to_y_scales_and_clamps() {
    // bias 0, range 3.0, graph 300 pixels: a level of -1.0 sits a third of
    // the way down.
    assert_eq!(level_to_y(-LEVEL_UNIT, 0, 3 * LEVEL_UNIT, 300), 100);
    // At or above the calibration top: pinned to row 0.
    assert_eq!(level_to_y(LEVEL_UNIT, 0, 3 * LEVEL_UNIT, 300), 0);
    assert_eq!(level_to_y(0, 0, 3 * LEVEL_UNIT, 300), 0);
    // Far below: pinned to the bottom; the silence sentinel in particular.
    assert_eq!(level_to_y(-4 * LEVEL_UNIT, 0, 3 * LEVEL_UNIT, 300), 300);
    assert_eq!(level_to_y(SILENCE_LEVEL, 0, 3 * LEVEL_UNIT, 300), 300);
    // The bias shifts the level before scaling.
    assert_eq!(level_to_y(-2 * LEVEL_UNIT, LEVEL_UNIT, 3 * LEVEL_UNIT, 300), 100);
}

#[test]
fn intensity_is_linear_in_the_graph_pixel() {
    assert_eq!(intensity(0, 200), 255);
    assert_eq!(intensity(200, 200), 0);
    assert_eq!(intensity(100, 200), 127);
}

#[test]
fn spectral_lookup_reads_the_warped_bucket() {
    // Four bins, only the first two meaningful. Column 0 of any width reads
    // bin 0.
    let spectrum: Vec<(i32, i32)> = vec![(1 << 24, 0), (0, 0), (0, 0), (0, 0)];
    let (b, level, y) = spectral_lookup(0, 800, &spectrum, 0, 3 * LEVEL_UNIT, 300);
    assert_eq!(b, 0);
    assert_eq!(level, 0);
    assert_eq!(y, 0);
    // A silent bin yields the sentinel and the bottom of the graph.
    let (b1, level1, y1) = spectral_lookup(799, 800, &spectrum, 0, 3 * LEVEL_UNIT, 300);
    assert_eq!(b1, 1);
    assert_eq!(level1, SILENCE_LEVEL);
    assert_eq!(y1, 300);
}
