//! Tests of the ring of baseband samples.
use hl2::receiver::baseband_ring::{BasebandRing, BASEBAND_RING_CAP};
use num_complex::Complex;

fn c(re: f32, im: f32) -> Complex<f32> {
    Complex::new(re, im)
}

fn seq(from: u64, n: usize) -> Vec<Complex<f32>> {
    (from..from + n as u64).map(|i| c(i as f32, 0.0)).collect()
}

#[test]
fn peek_simple_fifo() {
    let mut r = BasebandRing::new(8);
    let mut out = Vec::new();
    let d = seq(10, 4);
    r.push(&d);
    assert_eq!(r.len(), 4);
    assert_eq!(r.base_seq(), 0);
    assert_eq!(r.peek(0, &mut out, 10), 4);
    assert_eq!(out, d);
    assert_eq!(r.peek(4, &mut out, 10), 0);
    assert_eq!(r.peek(1, &mut out, 10), 3);
    assert_eq!(out, &d[1..4]);
}

#[test]
fn push_larger_than_cap_keeps_trailing() {
    let mut r = BasebandRing::new(4);
    let data = seq(100, 10);
    r.push(&data);
    assert!(r.is_full());
    assert_eq!(r.base_seq(), 6);
    let mut out = Vec::new();
    assert_eq!(r.peek(6, &mut out, 100), 4);
    assert_eq!(out, &data[10 - 4..]);
}

#[test]
fn peek_beyond_head_returns_zero() {
    let mut r = BasebandRing::new(16);
    r.push(&seq(0, 5));
    let mut out = Vec::new();
    assert_eq!(r.peek(5, &mut out, 100), 0);
    assert!(out.is_empty());
    assert_eq!(r.peek(10, &mut out, 100), 0);
}

#[test]
fn peek_multiple_readers_independent_cursors() {
    let mut r = BasebandRing::new(16);
    r.push(&seq(0, 8));

    let mut a = Vec::new();
    let mut b = Vec::new();
    let mut c = Vec::new();

    assert_eq!(r.peek(0, &mut a, 2), 2);
    assert_eq!(a, seq(0, 2));
    assert_eq!(r.peek(4, &mut c, 2), 2);
    assert_eq!(c, seq(4, 2));
    assert_eq!(r.peek(2, &mut b, 2), 2);
    assert_eq!(b, seq(2, 2));
    assert_eq!(r.peek(0, &mut a, 2), 2);
    assert_eq!(a, seq(0, 2));
    assert_eq!(r.peek(4, &mut c, 2), 2);
    assert_eq!(c, seq(4, 2));
    assert_eq!(r.peek(2, &mut b, 2), 2);
    assert_eq!(b, seq(2, 2));
}

#[test]
fn push_more_than_cap_advances_base_seq() {
    let mut r = BasebandRing::new(4);
    let first = seq(0, 4);
    let second = seq(4, 4);
    r.push(&first);
    r.push(&second);
    assert!(r.is_full());
    assert_eq!(r.base_seq(), 4);
    assert_eq!(r.len(), 4);
    let mut out = Vec::new();
    assert_eq!(r.peek(0, &mut out, 10), 0);
    assert!(out.is_empty());
    assert_eq!(r.peek(4, &mut out, 10), 4);
    assert_eq!(out, second);
}

#[test]
fn push_then_peek_preserves_order() {
    let mut r = BasebandRing::new(6);
    let first = seq(0, 4);
    r.push(&first);
    let second = seq(10, 3);
    r.push(&second);
    assert!(r.is_full());
    let mut out = Vec::new();
    let mut expected = Vec::new();
    expected.extend_from_slice(&first[1..]);
    expected.extend_from_slice(&second);
    assert_eq!(r.peek(r.base_seq(), &mut out, 100), 6);
    assert_eq!(out, expected);
}

#[test]
fn peek_window_wraps_physical_ring() {
    let mut r = BasebandRing::new(6);
    r.push(&seq(0, 6));
    r.push(&seq(6, 4));
    assert_eq!(r.base_seq(), 4);
    let mut out = Vec::new();
    assert_eq!(r.peek(6, &mut out, 10), 4);
    assert_eq!(out, [c(6.0, 0.0), c(7.0, 0.0), c(8.0, 0.0), c(9.0, 0.0)]);
}

#[test]
fn peek_reuses_out_allocation() {
    let mut r = BasebandRing::new(32);
    let d = seq(0, 8);
    r.push(&d);
    let mut out: Vec<Complex<f32>> = Vec::with_capacity(64);
    let n = r.peek(0, &mut out, 100);
    assert_eq!(n, 8);
    assert_eq!(out.len(), 8);
    assert!(out.capacity() >= 8);
}

#[test]
fn fuzz_push_peek_stays_in_buffer() {
    let mut r = BasebandRing::new(13);
    let mut refq: Vec<Complex<f32>> = Vec::new();
    let mut next_seq = 0u64;
    let mut out = Vec::new();
    let mut seed: u64 = 0x5DEECE66D;
    let mut rnd = || {
        seed = seed
            .wrapping_mul(6364136223846793005)
            .wrapping_add(1442695040888963407);
        (seed >> 33) as usize
    };
    for _ in 0..20_000 {
        let n = rnd() % 31;
        if n > 0 {
            let s = seq(next_seq, n);
            r.push(&s);
            next_seq += n as u64;
            let combined = refq.len() + n;
            if combined <= r.capacity() {
                refq.extend(s);
            } else if n >= r.capacity() {
                refq = s[n - r.capacity()..].to_vec();
            } else {
                refq.drain(..combined - r.capacity());
                refq.extend(s);
            }
            assert!(r.len() <= r.capacity());
            assert_eq!(r.len(), refq.len());
        }
        let base = r.base_seq();
        let head = base + refq.len() as u64;
        let cursor = base.saturating_sub(2) + rnd() as u64 % (refq.len() as u64 + 8);
        let max = 1 + rnd() % 64;
        let got = r.peek(cursor, &mut out, max);
        if cursor < base || cursor >= head {
            assert_eq!(got, 0, "cursor {cursor}, base {base}, head {head}");
        } else {
            let off = (cursor - base) as usize;
            let want = ((refq.len() - off).min(max)) as usize;
            assert_eq!(got, want);
            assert_eq!(out, &refq[off..off + got]);
        }
    }
}

#[test]
fn default_capacity_is_const() {
    let r: BasebandRing<Complex<f32>> = BasebandRing::default();
    assert_eq!(r.capacity(), BASEBAND_RING_CAP);
}
