use audioscope::fifo::Fifo;

#[test]
fn new_buffer_is_zero_filled() {
    let f = Fifo::new(8);
    assert_eq!(f.size(), 8);
    assert_eq!(f.as_slice(), &[0; 8]);
}

#[test]
fn push_short_block_shifts_and_appends() {
    // Capacity-8 zero buffer; push [1,2,3].
    let mut f = Fifo::new(8);
    f.push(&[1, 2, 3]);
    assert_eq!(f.as_slice(), &[0, 0, 0, 0, 0, 1, 2, 3]);
    // Then push a 7-element block (7 < 8).
    f.push(&[4, 5, 6, 7, 8, 9, 10]);
    assert_eq!(f.as_slice(), &[3, 4, 5, 6, 7, 8, 9, 10]);
}

#[test]
fn push_long_block_keeps_trailing_elements() {
    // Capacity-8 buffer; a 10-element block leaves its trailing 8 elements.
    let mut f = Fifo::new(8);
    let block: Vec<i32> = (1..=10).collect();
    f.push(&block);
    assert_eq!(f.as_slice(), &[3, 4, 5, 6, 7, 8, 9, 10]);
}

#[test]
fn push_block_of_exact_capacity_replaces_contents() {
    let mut f = Fifo::new(4);
    f.push(&[9, 8, 7, 6]);
    assert_eq!(f.as_slice(), &[9, 8, 7, 6]);
}

#[test]
fn size_is_invariant_across_pushes() {
    let mut f = Fifo::new(5);
    for block in [vec![], vec![1], vec![1, 2, 3], vec![1; 20]] {
        f.push(&block);
        assert_eq!(f.size(), 5);
    }
}

#[test]
fn resize_sets_size() {
    let mut f = Fifo::new(8);
    f.resize(3);
    assert_eq!(f.size(), 3);
    f.resize(12);
    assert_eq!(f.size(), 12);
    f.resize(0);
    assert_eq!(f.size(), 0);
}

#[test]
fn resize_shrink_keeps_trailing_samples() {
    let mut f = Fifo::new(5);
    f.push(&[1, 2, 3, 4, 5]);
    f.resize(3);
    assert_eq!(f.as_slice(), &[3, 4, 5]);
}

#[test]
fn resize_grow_pads_zeros_at_front() {
    let mut f = Fifo::new(3);
    f.push(&[1, 2, 3]);
    f.resize(5);
    assert_eq!(f.as_slice(), &[0, 0, 1, 2, 3]);
}

#[test]
fn to_vec_copies_contents() {
    let mut f = Fifo::new(3);
    f.push(&[7, 8]);
    assert_eq!(f.to_vec(), vec![0, 7, 8]);
}

#[test]
fn zero_capacity_buffer_stays_empty() {
    let mut f = Fifo::new(0);
    f.push(&[1, 2, 3]);
    assert_eq!(f.size(), 0);
    assert!(f.as_slice().is_empty());
}
