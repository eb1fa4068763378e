use transaction_core::padding::resize_slice_to_pow2;

// For every n in 1..1000, padding a length-n batch yields the smallest power
// of two at or above n, keeps the first n entries unchanged, and fills the
// rest with the original last entry.
#[test]
fn test_pad_lengths_one_to_thousand() {
    for n in 1usize..1000 {
        let batch: Vec<u64> = (0..n as u64).collect();
        let padded = resize_slice_to_pow2(&batch).unwrap();
        assert_eq!(padded.len(), n.next_power_of_two());
        assert_eq!(&padded[..n], &batch[..]);
        for k in n..padded.len() {
            assert_eq!(padded[k], batch[n - 1]);
        }
    }
}

// A batch whose length is already a power of two comes back unchanged.
#[test]
fn test_pad_pow2_unchanged() {
    for n in [1usize, 2, 4, 8, 16, 32, 64, 128] {
        let batch: Vec<u64> = (0..n as u64).map(|v| v.wrapping_mul(977)).collect();
        let padded = resize_slice_to_pow2(&batch).unwrap();
        assert_eq!(padded, batch);
    }
}

// One exact expected value: a length-5 batch pads to length 8 by repeating
// the final element.
#[test]
fn test_pad_exact_shape() {
    let batch: Vec<u64> = vec![10, 20, 30, 40, 50];
    let padded = resize_slice_to_pow2(&batch).unwrap();
    assert_eq!(padded, vec![10, 20, 30, 40, 50, 50, 50, 50]);
}
