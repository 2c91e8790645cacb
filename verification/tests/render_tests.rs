use audioscope::render::{aggregate_window, MIN_SAMPS};
use audioscope::sample::SAMPLE_UNIT;
use audioscope::vector::vector_points;

#[test]
fn aggregate_window_takes_the_largest_request() {
    assert_eq!(aggregate_window(&[10, 500, 300]), 500);
    assert_eq!(aggregate_window(&[1824, 0, 0]), 1824);
}

#[test]
fn aggregate_window_floors_at_the_minimum() {
    assert_eq!(aggregate_window(&[]), MIN_SAMPS);
    assert_eq!(aggregate_window(&[10, 20, 30]), MIN_SAMPS);
    assert_eq!(aggregate_window(&[MIN_SAMPS]), MIN_SAMPS);
}

#[test]
fn vector_points_pair_the_channels() {
    // 400 x 400 surface: silence plots at the center, full deflection at the
    // edges; the right channel drives the mirrored horizontal axis, the left
    // channel the vertical one.
    let left = vec![0, SAMPLE_UNIT, -SAMPLE_UNIT];
    let right = vec![0, 0, SAMPLE_UNIT];
    let pts = vector_points(&left, &right, 400, 400);
    assert_eq!(pts.len(), 3);
    assert_eq!(pts[0], (200, 200));
    assert_eq!(pts[1], (200, 0));
    assert_eq!(pts[2], (400, 400));
}

#[test]
fn vector_points_stop_at_the_shorter_channel() {
    let left = vec![0, 0, 0, 0];
    let right = vec![0, 0];
    assert_eq!(vector_points(&left, &right, 100, 100).len(), 2);
}
