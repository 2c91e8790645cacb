use audioscope::state::{deinterleave, State};

#[test]
fn deinterleave_splits_channels() {
    let block = [10, -10, 20, -20, 30, -30];
    assert_eq!(deinterleave(&block, 0), vec![10, 20, 30]);
    assert_eq!(deinterleave(&block, 1), vec![-10, -20, -30]);
}

#[test]
fn new_state_is_silent() {
    let s = State::new(4, 8);
    assert_eq!(s.left.scope.as_slice(), &[0; 4]);
    assert_eq!(s.left.win.as_slice(), &[0; 8]);
    assert_eq!(s.right.scope.as_slice(), &[0; 4]);
    assert_eq!(s.right.win.as_slice(), &[0; 8]);
}

#[test]
fn ingest_pushes_both_buffers_per_channel() {
    let mut s = State::new(4, 4);
    s.ingest(&[1, -1, 2, -2, 3, -3]);
    assert_eq!(s.left.scope.as_slice(), &[0, 1, 2, 3]);
    assert_eq!(s.left.win.as_slice(), &[0, 1, 2, 3]);
    assert_eq!(s.right.scope.as_slice(), &[0, -1, -2, -3]);
    assert_eq!(s.right.win.as_slice(), &[0, -1, -2, -3]);
}

#[test]
fn ingest_long_block_keeps_most_recent() {
    let mut s = State::new(2, 2);
    s.ingest(&[1, 10, 2, 20, 3, 30]);
    assert_eq!(s.left.scope.as_slice(), &[2, 3]);
    assert_eq!(s.right.win.as_slice(), &[20, 30]);
}

#[test]
fn resize_display_leaves_window_buffers_alone() {
    let mut s = State::new(2, 3);
    s.ingest(&[1, -1, 2, -2, 3, -3]);
    s.resize_display(4);
    assert_eq!(s.left.scope.size(), 4);
    assert_eq!(s.right.scope.size(), 4);
    assert_eq!(s.left.scope.as_slice(), &[0, 0, 2, 3]);
    assert_eq!(s.left.win.size(), 3);
    assert_eq!(s.left.win.as_slice(), &[1, 2, 3]);
}

#[test]
fn snapshots_copy_contents() {
    let mut s = State::new(2, 2);
    s.ingest(&[5, 6, 7, 8]);
    let (lw, rw) = s.window_snapshot();
    assert_eq!(lw, vec![5, 7]);
    assert_eq!(rw, vec![6, 8]);
    let (ld, rd) = s.display_snapshot();
    assert_eq!(ld, vec![5, 7]);
    assert_eq!(rd, vec![6, 8]);
}
