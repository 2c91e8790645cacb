use audioscope::sample::{is_clipping, normalize_centered, SAMPLE_UNIT};
use audioscope::scope::{scope_points, scope_requested_window, trigger_search, zc_mark};

#[test]
fn normalize_centered_maps_the_nominal_range() {
    // height 200: 0.0 at the center line, 1.0 at the top, -1.0 at the bottom.
    assert_eq!(normalize_centered(0, 200), 100);
    assert_eq!(normalize_centered(SAMPLE_UNIT, 200), 0);
    assert_eq!(normalize_centered(-SAMPLE_UNIT, 200), 200);
    assert_eq!(normalize_centered(SAMPLE_UNIT / 2, 200), 50);
}

#[test]
fn clipping_is_strictly_outside_the_nominal_range() {
    assert!(!is_clipping(SAMPLE_UNIT));
    assert!(!is_clipping(-SAMPLE_UNIT));
    assert!(!is_clipping(0));
    assert!(is_clipping(SAMPLE_UNIT + 1));
    assert!(is_clipping(-SAMPLE_UNIT - 1));
}

#[test]
fn zc_mark_scales_and_clamps() {
    // Anchor fraction 0.5 of an 800-pixel surface.
    assert_eq!(zc_mark(800, 32768, 10_000), 400);
    // Clamped to the last sample of a short window.
    assert_eq!(zc_mark(800, 32768, 100), 99);
}

#[test]
fn trigger_search_finds_the_qualifying_position() {
    // One unambiguous qualifying position: index 3 has the lowest energy so
    // far while the sum rises from its predecessor.
    let l = vec![5, -4, -4, 1, 2, 6, 7, 8];
    let r = l.clone();
    assert_eq!(trigger_search(&l, &r, 0, 8), 3);
}

#[test]
fn trigger_search_on_silence_returns_zero() {
    let l = vec![0i32; 64];
    let r = vec![0i32; 64];
    assert_eq!(trigger_search(&l, &r, 10, 32), 0);
}

#[test]
fn trigger_search_scan_stops_at_the_window_end() {
    // Only two positions fit after the anchor; the qualifying minimum beyond
    // them must not be found.
    let l = vec![9, 9, 9, 9, 5, -6, 0];
    let r = vec![0i32; 7];
    assert_eq!(trigger_search(&l, &r, 4, 2), 0);
    // With headroom the falling-then-rising edge at the end qualifies.
    assert_eq!(trigger_search(&l, &r, 4, 16), 2);
}

#[test]
fn scope_points_start_at_the_offset() {
    let samples = vec![0, SAMPLE_UNIT, -SAMPLE_UNIT, 2 * SAMPLE_UNIT];
    let pts = scope_points(&samples, 1, 200);
    assert_eq!(pts.len(), 3);
    assert_eq!(pts[0], (0, false));
    assert_eq!(pts[1], (200, false));
    assert_eq!(pts[2], (-100, true));
}

#[test]
fn requested_window_adds_the_scan_headroom() {
    assert_eq!(scope_requested_window(800, 1024), 1824);
}
