use audioscope::warp::{bucket, exp2_q32, WARP_ONE, WARP_SEG};

#[test]
fn exp2_is_exact_at_the_breakpoints() {
    // 2^0 = 1.0 and 2^(1/2) = sqrt(2), both tabulated exactly.
    assert_eq!(exp2_q32(0), WARP_ONE);
    assert_eq!(exp2_q32(8 * WARP_SEG), 0x1_6a09_e668);
}

#[test]
fn exp2_interpolates_between_breakpoints() {
    // Halfway into the first segment the result lies strictly between the
    // segment's breakpoints.
    let e = exp2_q32(WARP_SEG / 2);
    assert!(WARP_ONE < e && e < 0x1_0b55_86d0);
}

#[test]
fn bucket_of_column_zero_is_zero() {
    for width in [2usize, 3, 17, 800] {
        assert_eq!(bucket(0, width, 512), 0);
    }
}

#[test]
fn bucket_is_non_decreasing_and_stays_below_half() {
    let width = 800usize;
    let half = 512usize;
    let mut prev = 0usize;
    for x in 0..width {
        let b = bucket(x, width, half);
        assert!(b >= prev);
        assert!(b < half);
        prev = b;
    }
    // The warp is exponential: the last column lands near the top.
    assert!(prev > half / 2);
}

#[test]
fn bucket_covers_one_octave() {
    // A surface of two columns: column 1 sits at 2^(1/2) - 1 of the way up.
    let b = bucket(1, 2, 1000);
    // (sqrt(2) - 1) * 1000, truncated.
    assert_eq!(b, 414);
}
