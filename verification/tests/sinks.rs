//! Tests of the audio sinks.
use hl2::receiver::sink::{AudioSink, BufSink, VecSink};

#[test]
fn vecsink_appends_frames() {
    let mut s = VecSink::new();
    s.write(&[1, 2, 3]).unwrap();
    s.write(&[4, 5, 6, 7]).unwrap();
    assert_eq!(s.samples(), [1, 2, 3, 4, 5, 6, 7]);
}

#[test]
fn vecsink_bounds_frames_when_max_set() {
    let mut s = VecSink::new().with_max(4);
    s.write(&[1, 2, 3, 4, 5]).unwrap();
    assert_eq!(s.samples(), [2, 3, 4, 5]);
    s.write(&[6]).unwrap();
    assert_eq!(s.samples(), [3, 4, 5, 6]);
}

#[test]
fn vecsink_into_samples_and_clear() {
    let mut s = VecSink::new();
    s.write(&[1, 2]).unwrap();
    s.clear();
    assert!(s.samples().is_empty());
    s.write(&[9]).unwrap();
    assert_eq!(s.into_samples(), [9]);
}

#[test]
fn bufsink_drains_fifo() {
    let (mut s, h) = BufSink::pair(16);
    s.write(&[1, 2, 3, 4, 5]).unwrap();
    assert_eq!(h.len(), 5);
    assert_eq!(h.drain_into(&mut [0, 0, 0]), 3);
    let rest: Vec<i16> = h.drain(8);
    assert_eq!(rest, vec![4, 5]);
    assert!(h.is_empty());
}

#[test]
fn bufsink_drops_oldest_over_cap() {
    let (mut s, h) = BufSink::pair(4);
    s.write(&[1, 2, 3, 4, 5, 6]).unwrap();
    assert_eq!(h.len(), 4);
    assert_eq!(h.drain(8), vec![3, 4, 5, 6]);
}

#[test]
fn bufsink_shared_across_handles() {
    let (mut s, h1) = BufSink::pair(16);
    let h2 = h1.clone();
    s.write(&[9, 8, 7]).unwrap();
    assert_eq!(h2.drain(2), vec![9, 8]);
    assert_eq!(h1.drain(2), vec![7]);
}
