use audio_capture::ring::{SampleRing, RING_BUFFER_CAPACITY};

#[test]
fn new_ring_is_empty() {
    let mut ring = SampleRing::new();
    assert_eq!(ring.occupied_len(), 0);
    assert!(ring.pop_available().is_empty());
}

#[test]
fn samples_come_out_in_order() {
    let mut ring = SampleRing::new();
    assert_eq!(ring.push_slice(&[1, 2, 3]), 3);
    assert_eq!(ring.push_slice(&[4, -5]), 2);
    assert_eq!(ring.occupied_len(), 5);
    assert_eq!(ring.pop_available(), vec![1, 2, 3, 4, -5]);
    assert_eq!(ring.occupied_len(), 0);
    assert_eq!(ring.push_slice(&[7]), 1);
    assert_eq!(ring.pop_available(), vec![7]);
}

#[test]
fn excess_newest_samples_are_dropped() {
    let mut ring = SampleRing::new();
    let almost_full: Vec<i16> = (0..(RING_BUFFER_CAPACITY - 2)).map(|i| (i % 1000) as i16).collect();
    assert_eq!(ring.push_slice(&almost_full), RING_BUFFER_CAPACITY - 2);
    assert_eq!(ring.push_slice(&[100, 200, 300, 400]), 2);
    assert_eq!(ring.occupied_len(), RING_BUFFER_CAPACITY);
    assert_eq!(ring.push_slice(&[500]), 0);
    let drained = ring.pop_available();
    assert_eq!(drained.len(), RING_BUFFER_CAPACITY);
    assert_eq!(&drained[..RING_BUFFER_CAPACITY - 2], &almost_full[..]);
    assert_eq!(&drained[RING_BUFFER_CAPACITY - 2..], &[100, 200]);
}

#[test]
fn clear_drops_stale_samples() {
    let mut ring = SampleRing::new();
    ring.push_slice(&[9, 8, 7]);
    ring.clear();
    assert_eq!(ring.occupied_len(), 0);
    assert!(ring.pop_available().is_empty());
    ring.push_slice(&[1]);
    assert_eq!(ring.pop_available(), vec![1]);
}
