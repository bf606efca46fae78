//! The scan of a window, the passes over it, and the removal of signals, in integers.
use hl2::js8::decoder::Hit;
use hl2::js8::msg::{DecodedFrame, FRAME_HEARTBEAT};
use hl2::js8::params::{mode_a, mode_c, Mode};
use hl2::js8::passes::decode_window;
use hl2::js8::scan::Scoring;
use hl2::js8::search::{strongest_first, sync_power};
use hl2::js8::spectra::{subtract, symbol_spectra};
use std::cell::RefCell;

fn plus(a: i64, b: i64) -> i64 {
    a + b
}

fn gt(a: i64, b: i64) -> bool {
    a > b
}

#[test]
fn scores_are_ordered_by_strength() {
    assert_eq!(strongest_first(&[3, 9, 1, 9, 5]), vec![1, 3, 4, 0, 2]);
    assert_eq!(strongest_first(&[]), Vec::<usize>::new());
}

#[test]
fn scan_chooses_peaks() {
    let m = mode_a();
    let scoring = Scoring {
        floor: i64::MIN,
        score: |bin: usize, offset: i64| {
            let base = match bin {
                40 => 900,
                41 => 800,
                60 => 1_000,
                _ => 10,
            };
            base - (offset - 7).abs()
        },
        greater: gt,
        key: |v: i64| v,
        over: |v: i64, middle: i64| v / middle,
        strong: |v: i64| v >= 2,
    };
    let found = scoring.sync_pass(32, 80, &m);
    let got: Vec<(usize, i64, i64)> =
        found.iter().map(|c| (c.bin, c.offset, c.score)).collect();
    assert_eq!(got, vec![(60, 7, 100), (40, 7, 90)]);
    assert!(scoring.sync_pass(5, 4, &m).is_empty());
}

#[test]
fn silence_has_no_offset() {
    let scoring = Scoring {
        floor: 0i64,
        score: |_: usize, _: i64| 0i64,
        greater: gt,
        key: |v: i64| v,
        over: |v: i64, _: i64| v,
        strong: |_: i64| true,
    };
    let found = scoring.sync_pass(32, 32, &mode_a());
    assert_eq!((found.len(), found[0].offset, found[0].score), (1, -1, 0));
}

fn frame(call: &str) -> DecodedFrame {
    DecodedFrame {
        kind: FRAME_HEARTBEAT,
        callsign: call.to_string(),
        to: None,
        grid: None,
        cmd: None,
        num: None,
        bits3: 0,
        is_alt: false,
        text: String::new(),
        message: String::new(),
    }
}

#[test]
fn passes_uncover_what_lies_below() {
    let passes = RefCell::new(0);
    let search = |w: Vec<i64>| {
        *passes.borrow_mut() += 1;
        let peaks: Vec<usize> =
            (0..w.len()).filter(|i| w[*i] > 0).collect();
        (w, peaks)
    };
    let attempt = |mut w: Vec<i64>, at: usize, take_out: bool| {
        let level = w[at];
        if level < 5 {
            return (w, None);
        }
        if take_out {
            w[at] -= 10;
        }
        let hit = Hit { frame: frame(&format!("N{at}")), freq: at as i64, dt: 0, snr: level };
        (w, Some(hit))
    };
    let hits = decode_window(vec![0, 16, 8, 0], &search, &attempt, &gt);
    let got: Vec<(i64, i64)> = hits.iter().map(|h| (h.freq, h.snr)).collect();
    assert_eq!(got, vec![(1, 16), (2, 8)]);
    assert_eq!(*passes.borrow(), 3);
    *passes.borrow_mut() = 0;
    assert!(decode_window(vec![0, 1], &search, &attempt, &gt).is_empty());
    assert_eq!(*passes.borrow(), 1);
    *passes.borrow_mut() = 0;
    let hits = decode_window(vec![100], &search, &attempt, &gt);
    assert_eq!((hits.len(), hits[0].snr, *passes.borrow()), (1, 100, 3));
}

#[test]
fn spectra_of_whole_steps() {
    let m: Mode = mode_c();
    let window: Vec<i64> = (0..1_600).collect();
    let spectrum = |chunk: Vec<i64>| {
        assert_eq!(chunk.len(), m.nfft1);
        (0..m.nsps as i64).map(|i| chunk[0] + 1_000 * i).collect::<Vec<i64>>()
    };
    let (s, savg) = symbol_spectra(&window, &m, 0, &spectrum, &plus);
    assert_eq!((s.len(), savg.len()), (m.nsps * m.nhsym, m.nsps));
    assert_eq!(s[..4], [0, 150, 300, 0]);
    assert_eq!(s[2 * m.nhsym..2 * m.nhsym + 4], [2_000, 2_150, 2_300, 0]);
    assert_eq!((savg[0], savg[2]), (450, 6_450));
    let (s, _) = symbol_spectra(&window[..1_199], &m, 0, &spectrum, &plus);
    assert!(s.iter().all(|v| *v == 0));
}

#[test]
fn signals_are_taken_out_where_they_lie() {
    let mix = |v: i64, c: i64| v * c;
    let filter = |v: Vec<i64>| {
        let top = *v.iter().max().unwrap();
        vec![top; v.len()]
    };
    let take = |v: i64, c: i64, e: i64| v - c * e;
    let signal = vec![1, 2, 3];
    let mut dd = vec![10, 10, 10, 10];
    subtract(&mut dd, &signal, 2, 6, 0, &mix, &filter, &take);
    assert_eq!(dd, vec![10, 10, -10, -30]);
    let mut dd = vec![10, 10, 10, 10];
    subtract(&mut dd, &signal, -1, 6, 0, &mix, &filter, &take);
    assert_eq!(dd, vec![-10, -30, 10, 10]);
    let mut dd = vec![10, 10];
    subtract(&mut dd, &signal, 2, 6, 0, &mix, &filter, &take);
    assert_eq!(dd, vec![10, 10]);
}

#[test]
fn sync_power_adds_the_symbols_in_the_band() {
    let m = mode_a();
    let seen = RefCell::new(Vec::new());
    let correlate = |p: usize, j: usize, at: usize| {
        seen.borrow_mut().push((p, j, at));
        1i64
    };
    assert_eq!(sync_power(0, &m, 0, &correlate, &plus), 21);
    assert_eq!(seen.borrow()[0], (0, 0, 0));
    assert_eq!(seen.borrow()[20], (2, 6, 78 * 32));
    assert_eq!(sync_power(-64, &m, 0, &correlate, &plus), 19);
    assert_eq!(sync_power(1, &m, 0, &correlate, &plus), 20);
}
