//! Tests of the fan-out of slots to rings.
use hl2::receiver::baseband_ring::BasebandRing;
use hl2::receiver::fanout::BasebandFanout;
use num_complex::Complex;
use std::sync::{Arc, Mutex};

type Owned = BasebandFanout<BasebandRing<Complex<f32>>>;
type Shared = BasebandFanout<Arc<Mutex<BasebandRing<Complex<f32>>>>>;

fn c(re: f32, im: f32) -> Complex<f32> {
    Complex::new(re, im)
}

fn push_one(f: &mut Owned, vals: &[Complex<f32>]) {
    let borrows: Vec<&[Complex<f32>]> = vec![vals];
    f.push_frame(&borrows);
}

#[test]
fn seed_slot1_is_active() {
    let f = Shared::new();
    assert_eq!(f.rx_count(), 1);
    assert_eq!(f.slots(), vec![1u8]);
}

#[test]
fn unregister_removes_entry() {
    let mut f = Shared::new();
    f.register_slot(2);
    f.register_slot(3);
    assert_eq!(f.slots(), vec![1u8, 2, 3]);
    f.unregister_slot(2);
    assert_eq!(f.slots(), vec![1u8, 3]);
    assert_eq!(f.rx_count(), 2);
}

#[test]
fn push_frame_fans_into_position_order() {
    let mut f = Owned::new();
    f.register_slot(3);
    f.register_slot(2);
    let per_rx: Vec<Vec<Complex<f32>>> =
        vec![vec![c(1.0, 0.0)], vec![c(2.0, 0.0)], vec![c(3.0, 0.0)]];
    let borrows: Vec<&[Complex<f32>]> = per_rx.iter().map(Vec::as_slice).collect();
    assert_eq!(f.push_frame(&borrows), 3, "all 3 active slots filled");
    let mut out = Vec::new();
    assert_eq!(f.peek_slot(1, 0, &mut out, 10), 1);
    assert_eq!(out, vec![c(1.0, 0.0)]);
    assert_eq!(f.peek_slot(2, 0, &mut out, 10), 1);
    assert_eq!(out, vec![c(2.0, 0.0)]);
    assert_eq!(f.peek_slot(3, 0, &mut out, 10), 1);
    assert_eq!(out, vec![c(3.0, 0.0)]);
}

#[test]
fn peek_slot_resync_via_ring_bounds() {
    let mut f = Owned::new();
    push_one(&mut f, &[c(0.0, 0.0); 10]);
    let (base, head) = f.ring_bounds(1).expect("slot 1 active");
    assert_eq!(base, 0);
    assert_eq!(head, 10);
    let mut out = Vec::new();
    assert_eq!(f.peek_slot(1, head, &mut out, 100), 0);
    assert_eq!(f.peek_slot(1, base, &mut out, 100), 10);
}

#[test]
fn peek_inactive_slot_zero_and_no_bounds() {
    let mut f = Owned::new();
    let mut out = Vec::new();
    assert_eq!(f.peek_slot(9, 0, &mut out, 10), 0);
    assert!(out.is_empty());
    assert!(f.ring_bounds(9).is_none());
}

#[test]
fn extra_per_rx_beyond_active_set_ignored() {
    let mut f = Owned::new();
    let per_rx: Vec<Vec<Complex<f32>>> =
        vec![vec![c(1.0, 0.0)], vec![c(2.0, 0.0)], vec![c(3.0, 0.0)]];
    let borrows: Vec<&[Complex<f32>]> = per_rx.iter().map(Vec::as_slice).collect();
    assert_eq!(f.push_frame(&borrows), 1);
    let mut out = Vec::new();
    assert_eq!(f.peek_slot(1, 0, &mut out, 10), 1);
    assert_eq!(out, vec![c(1.0, 0.0)]);
}

#[test]
fn seed_slot1_has_ring() {
    let f = Shared::new();
    assert!(f.ring_for_slot(1).is_some());
    assert!(f.ring_for_slot(2).is_none());
}

#[test]
fn register_is_idempotent_and_preserves_data() {
    let mut f = Shared::new();
    let r1 = f.ring_for_slot(1).unwrap().clone();
    r1.lock().unwrap().push(&[c(7.0, 0.0)]);
    f.register_slot(1);
    let r1b = f.ring_for_slot(1).unwrap().clone();
    assert!(
        Arc::ptr_eq(&r1, &r1b),
        "re-register must keep the same ring"
    );
    let mut out = Vec::new();
    assert_eq!(r1b.lock().unwrap().peek(0, &mut out, 1), 1);
    assert_eq!(out, vec![c(7.0, 0.0)]);
}

#[test]
fn register_three_slots_keeps_sorted_position_order() {
    let mut f = Shared::new();
    f.register_slot(3);
    f.register_slot(2);
    let r3 = f.ring_for_slot(3).unwrap().clone();
    r3.lock().unwrap().push(&[c(3.0, 0.0)]);
    assert_eq!(f.slots(), vec![1u8, 2, 3]);
    let rings = f.rings_in_order();
    assert_eq!(rings.len(), 3);
    let mut out = Vec::new();
    assert_eq!(rings[2].lock().unwrap().peek(0, &mut out, 1), 1);
    assert_eq!(out, vec![c(3.0, 0.0)], "ring[2] must be slot 3's data");
}

#[test]
fn register_distinct_slots_get_distinct_rings() {
    let mut f = Shared::new();
    f.register_slot(2);
    f.register_slot(3);
    let r1 = f.ring_for_slot(1).unwrap().clone();
    let r2 = f.ring_for_slot(2).unwrap().clone();
    let r3 = f.ring_for_slot(3).unwrap().clone();
    assert!(!Arc::ptr_eq(&r1, &r2));
    assert!(!Arc::ptr_eq(&r2, &r3));
    assert!(!Arc::ptr_eq(&r1, &r3));
}

#[test]
fn snapshot_matches_rx_count() {
    let mut f = Shared::new();
    f.register_slot(2);
    let (n, rings) = f.snapshot();
    assert_eq!(n, 2);
    assert_eq!(rings.len(), 2);
}
