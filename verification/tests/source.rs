//! Tests of the source in memory.
use hl2::receiver::source::{BasebandSource, VecSource};
use num_complex::Complex;

fn c(re: f32, im: f32) -> Complex<f32> {
    Complex::new(re, im)
}

#[test]
fn vecsource_drains_blocks_in_order() {
    let mut src = VecSource::new(48_000);
    assert_eq!(src.queued_blocks(), 0);
    let a: Vec<Complex<f32>> = vec![c(1.0, 0.0), c(0.0, 1.0)];
    let b: Vec<Complex<f32>> = vec![c(-1.0, 0.0), c(0.0, -1.0), c(0.5, 0.5), c(2.0, 1.0)];
    src.push(a.clone());
    src.push(b.clone());
    assert_eq!(src.queued_blocks(), 2);

    let mut buf = vec![c(0.0, 0.0); 8];
    assert_eq!(src.next_block(&mut buf), 2);
    assert_eq!(&buf[..2], a.as_slice());

    assert_eq!(src.next_block(&mut buf), 4);
    assert_eq!(&buf[..4], b.as_slice());

    assert_eq!(src.next_block(&mut buf), 0);
    assert_eq!(src.queued_blocks(), 0);
}

#[test]
fn vecsource_truncates_to_buffer_capacity() {
    let mut src = VecSource::new(48_000);
    let blk: Vec<Complex<f32>> = vec![c(1.0, 0.0), c(0.0, 1.0), c(2.0, 0.0), c(0.0, 3.0)];
    assert_eq!(blk.len(), 4);
    src.push(blk);
    let mut buf = vec![c(0.0, 0.0); 2];
    assert_eq!(src.next_block(&mut buf), 2);
    assert_eq!(buf[0], c(1.0, 0.0));
    assert_eq!(buf[1], c(0.0, 1.0));
}
