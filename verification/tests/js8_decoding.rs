//! The decisions of a decode attempt and of the decoder around it.
use hl2::fold::{best_above, fold};
use hl2::js8::candidate::{
    bit_metrics, decode_passes, is_in_sync, strongest_tones, Arithmetic, Corrected, Demodulated,
};
use hl2::js8::data::JscMap;
use hl2::js8::decode::{
    count_sync, covered_span, encode_tones_from_msg, envelope_rank, erased_bits, in_sync,
    judge_pass, node_window, percentile_rank, score_step, select_candidates, strip_sync,
    symbol_span, tones_by_bit, uses_log_metric,
};
use hl2::js8::decoder::{
    find_hit, fit_window, merge_hit, next_pass, subtracts, window_start_ms, Hit, Js8Decoder,
    Js8Message, EMIT_DEDUP_MS, REARM_SAMPLES,
};
use hl2::js8::frame::{encode_parity, encode_tones};
use hl2::js8::grid::pack_grid;
use hl2::js8::msg::{pack_compound_frame, unpack_frame, DecodedFrame, FRAME_HEARTBEAT};
use hl2::js8::params::{mode_a, mode_c, modes, Mode};
use hl2::js8::search::{
    bin_of, block_sums, search_edges, search_from, turn_band,
};
use std::cell::RefCell;

fn tones() -> Vec<u8> {
    let words = pack_compound_frame("N1MM", FRAME_HEARTBEAT, pack_grid("FN42"), 0).unwrap();
    encode_tones(words, 0, &mode_a())
}

/// Magnitudes with the sent tone the strongest in each symbol.
fn magnitudes(tones: &[u8]) -> [[i64; 79]; 8] {
    let mut s = [[1i64; 79]; 8];
    for (k, t) in tones.iter().enumerate() {
        s[*t as usize][k] = 10;
    }
    s
}

fn gt(a: i64, b: i64) -> bool {
    a > b
}

fn max(a: i64, b: i64) -> i64 {
    a.max(b)
}

fn less(a: i64, b: i64) -> i64 {
    a - b
}

/// An error correction for clean signals: the sign of each metric is its bit.
fn clean(metrics: Vec<i64>) -> Corrected {
    let mut codeword = [0i8; 174];
    for (i, m) in metrics.iter().enumerate() {
        codeword[i] = (*m > 0) as i8;
    }
    let mut message = [0i8; 87];
    message.copy_from_slice(&codeword[87..]);
    Corrected { message, codeword, errors: 0 }
}

fn failed() -> Corrected {
    Corrected { message: [0; 87], codeword: [0; 174], errors: -1 }
}

#[test]
fn clean_signal_is_decoded() {
    let sent = tones();
    let s = magnitudes(&sent);
    let mode = mode_a();
    assert!(is_in_sync(&s, &mode, &gt));
    let found = strongest_tones(&s, &gt);
    assert_eq!(found.iter().map(|t| *t as u8).collect::<Vec<_>>(), sent);
    let metrics = bit_metrics(&s, i64::MIN / 4, &max, &less);
    assert_eq!(metrics.len(), 174);
    assert!(metrics.iter().all(|m| m.abs() == 9));
    let map = JscMap::empty();
    let (frame, again) =
        decode_passes(&metrics, &metrics, 0, false, &mode, &map, &clean).unwrap();
    assert_eq!(frame.callsign, "N1MM");
    assert_eq!(again, sent);
}

#[test]
fn candidate_is_found_at_its_start_and_shift() {
    let sent = tones();
    let arithmetic = Arithmetic {
        zero: 0i64,
        lowest: i64::MIN / 4,
        greater: gt,
        max,
        less,
        log: |v: i64| v * 2,
        level: |v: Vec<i64>| v.into_iter().map(|m| m * 3).collect::<Vec<i64>>(),
    };
    let mode = mode_a();
    let map = JscMap::empty();
    let power = |start: i64, shift: i64| 1_000 - (start - 107).abs() * 10 - (shift + 3).abs();
    let band = |start: i64, shift: i64| Demodulated {
        magnitudes: if (start, shift) == (107, -3) {
            magnitudes(&sent)
        } else {
            [[0; 79]; 8]
        },
        weak_sync: false,
    };
    let d = arithmetic.decode_candidate(100, &mode, &map, &power, &band, &clean).unwrap();
    assert_eq!((d.start, d.shift), (107, -3));
    assert_eq!(d.frame.callsign, "N1MM");
    assert_eq!(d.tones, sent);
    let mut m = [0u8; 87];
    for i in 0..87 {
        m[i] = d.tones[43 + i / 3] >> (2 - i % 3) & 1;
    }
    assert_eq!(unpack_frame(&m, &map).unwrap(), d.frame);
    let parity: Vec<u8> = (0..87).map(|i| d.tones[7 + i / 3] >> (2 - i % 3) & 1).collect();
    assert_eq!(parity, encode_parity(&m));
    assert!(arithmetic.decode_candidate(20, &mode, &map, &power, &band, &clean).is_none());
    let silent = |_: i64, _: i64| 0i64;
    assert!(arithmetic.decode_candidate(100, &mode, &map, &silent, &band, &clean).is_none());
}

#[test]
fn passes_use_the_metrics_in_turn() {
    let seen: RefCell<Vec<Vec<i64>>> = RefCell::new(Vec::new());
    let watch = |m: Vec<i64>| {
        seen.borrow_mut().push(m);
        failed()
    };
    let plain: Vec<i64> = (1..=174).collect();
    let log: Vec<i64> = (1..=174).map(|v| -v).collect();
    let map = JscMap::empty();
    assert!(decode_passes(&plain, &log, 0, false, &mode_a(), &map, &watch).is_none());
    let seen = seen.into_inner();
    assert_eq!(seen.len(), 4);
    assert_eq!(seen[0], plain);
    assert_eq!(seen[1], log);
    assert!(seen[2][..24].iter().all(|v| *v == 0));
    assert_eq!(seen[2][24..], plain[24..]);
    assert!(seen[3][..48].iter().all(|v| *v == 0));
    assert_eq!(seen[3][48..], plain[48..]);
}

#[test]
fn a_pass_is_judged_by_its_errors() {
    let s = magnitudes(&tones());
    let c = clean(bit_metrics(&s, i64::MIN / 4, &max, &less));
    let (mode, map) = (mode_a(), JscMap::empty());
    let ok = |errors: i32, weak: bool, pass: u8| {
        judge_pass(&c.message, &c.codeword, errors, weak, pass, &mode, &map).is_some()
    };
    assert!(ok(0, false, 1) && ok(59, false, 1) && !ok(60, false, 1) && !ok(-1, false, 1));
    assert!(ok(35, true, 1) && !ok(36, true, 1));
    assert!(ok(39, false, 3) && !ok(40, false, 3));
    assert!(ok(30, false, 4) && !ok(31, false, 4));
    assert!(judge_pass(&c.message, &[0; 174], 0, false, 1, &mode, &map).is_none());
    let mut bad = c.message;
    bad[40] ^= 1;
    assert!(judge_pass(&bad, &c.codeword, 0, false, 1, &mode, &map).is_none());
}

#[test]
fn out_of_sync_signals_are_given_up() {
    let mode = mode_a();
    let mut found = [7usize; 79];
    for i in 0..6 {
        found[i] = mode.costas[0][i];
    }
    assert_eq!(count_sync(&found, &mode.costas), 6);
    assert!(!in_sync(6));
    found[36] = mode.costas[1][0];
    assert_eq!(count_sync(&found, &mode.costas), 7);
    assert!(in_sync(7));
    assert!(!is_in_sync(&[[1i64; 79]; 8], &mode, &gt));
}

#[test]
fn received_message_encodes_to_its_tones() {
    let sent = tones();
    let s = magnitudes(&sent);
    let c = clean(bit_metrics(&s, i64::MIN / 4, &max, &less));
    let mut m = [0u8; 87];
    for i in 0..87 {
        m[i] = c.message[i] as u8;
    }
    assert_eq!(encode_tones_from_msg(&mode_a(), &m), sent);
    let parity: Vec<u8> = c.codeword[..87].iter().map(|b| *b as u8).collect();
    assert_eq!(encode_parity(&m), parity);
}

#[test]
fn bits_split_the_tones_in_halves() {
    assert_eq!(tones_by_bit(0), ([4, 5, 6, 7], [0, 1, 2, 3]));
    assert_eq!(tones_by_bit(1), ([2, 3, 6, 7], [0, 1, 4, 5]));
    assert_eq!(tones_by_bit(2), ([1, 3, 5, 7], [0, 2, 4, 6]));
    let mut row = [0usize; 79];
    for (i, v) in row.iter_mut().enumerate() {
        *v = i;
    }
    let data = strip_sync(&row);
    assert_eq!(data, (7..36).chain(43..72).collect::<Vec<usize>>());
    assert_eq!((1..=4).map(erased_bits).collect::<Vec<_>>(), vec![0, 0, 24, 48]);
    assert!(uses_log_metric(2) && !uses_log_metric(1));
}

#[test]
fn near_candidates_count_as_one() {
    let m = mode_a();
    let list = [(100u32, true), (101, true), (102, true), (90, true), (50, false), (10, true)];
    assert_eq!(select_candidates(&list, 300, &m), vec![0, 2, 3]);
    assert_eq!(select_candidates(&list, 1, &m), vec![0]);
    assert_eq!(select_candidates(&[], 300, &m), Vec::<usize>::new());
}

#[test]
fn ranks_and_windows() {
    assert_eq!((percentile_rank(1), percentile_rank(2), percentile_rank(10)), (0, 1, 4));
    assert_eq!((envelope_rank(1), envelope_rank(9), envelope_rank(53)), (0, 0, 5));
    assert_eq!(node_window(5, 10, 100), (0, 15));
    assert_eq!(node_window(95, 10, 100), (85, 99));
}

#[test]
fn symbols_and_steps_in_range() {
    let m = mode_a();
    assert_eq!(symbol_span(0, 0, &m), Some(0));
    assert_eq!(symbol_span(0, -1, &m), None);
    assert_eq!(symbol_span(78, 0, &m), Some(78 * 32));
    assert_eq!(symbol_span(78, 1, &m), None);
    assert_eq!(score_step(0, 0, 0, &m), Some(12));
    assert_eq!(score_step(0, 0, -13, &m), None);
    assert_eq!(score_step(2, 6, 62, &m), None);
    assert_eq!(score_step(2, 6, 0, &m), Some(12 + 24 + 288));
    assert_eq!(covered_span(10, 100, 50), (0, 10, 40));
    assert_eq!(covered_span(-10, 100, 500), (10, 0, 90));
    assert_eq!(covered_span(60, 100, 50), (0, 60, 0));
    assert_eq!(covered_span(i64::MIN, 100, 50), (1 << 63, 0, 0));
}

#[test]
fn search_stays_in_bounds_and_on_bins() {
    assert_eq!(search_edges(0, 9_000), (100, 4_910));
    assert_eq!(search_edges(300, 50), (300, 300));
    assert_eq!(search_edges(5_000, 50), (5_000, 4_910));
    let (a, c) = (mode_a(), mode_c());
    assert_eq!((bin_of(100, &a), bin_of(4_910, &a)), (32, 1_571));
    assert_eq!((bin_of(95, &c), bin_of(94, &c)), (10, 9));
}

#[test]
fn block_sums_read_the_sync_tones() {
    let m: Mode = mode_c();
    let mut s = vec![0i64; 40 * m.nhsym];
    for n in 0..7 {
        let step = m.jstrt + 4 * n + 144;
        s[(5 + 2 * m.costas[1][n]) * m.nhsym + step] = 10;
        s[(5 + 2 * ((m.costas[1][n] + 1) % 7)) * m.nhsym + step] += 1;
    }
    let plus = |a: i64, b: i64| a + b;
    assert_eq!(block_sums(&s, 5, 1, 0, &m, 0, &plus), (70, 77));
    assert_eq!(block_sums(&s, 5, 0, 0, &m, 0, &plus), (0, 0));
    assert_eq!(block_sums(&s, 5, 1, -200, &m, 0, &plus), (0, 0));
}

#[test]
fn searches_find_the_first_of_the_greatest() {
    assert_eq!(best_above(&[1i64, 5, 3, 5], 0, &gt), Some(1));
    assert_eq!(best_above(&[1i64, 5, 3, 5], 5, &gt), None);
    assert_eq!(best_above(&[], 0, &gt), None);
    assert_eq!(search_from(&[1i64, 9, 2], 0, -1, 77, &gt), 0);
    assert_eq!(search_from(&[0i64, 0], 0, -1, 77, &gt), 77);
    assert_eq!(fold(&[1i64, 2, 3], 10, &|a: i64, b: i64| a * 2 + b), 91);
    assert_eq!(turn_band(&[1i64, 2, 3], 5, 1, 0), vec![2, 3, 0, 0, 1]);
}

fn frame(call: &str) -> DecodedFrame {
    DecodedFrame {
        kind: FRAME_HEARTBEAT,
        callsign: call.to_string(),
        to: None,
        grid: Some("FN42".to_string()),
        cmd: None,
        num: None,
        bits3: 0,
        is_alt: false,
        text: String::new(),
        message: format!("{call}: HEARTBEAT FN42 "),
    }
}

fn hit(call: &str, freq: i64, snr: i64) -> Hit<i64> {
    Hit { frame: frame(call), freq, dt: 0, snr }
}

#[test]
fn repeats_are_held_back_for_a_while() {
    let mut d: Js8Decoder<i64, i64> = Js8Decoder::new();
    let near = |a: i64, b: i64| (a - b).abs() < 3;
    let m = mode_a();
    let mut report = |hits: Vec<Hit<i64>>, now: u64| -> Vec<Js8Message<i64>> {
        d.report_hits(&m, hits, 180_000, now, &near)
    };
    let first = report(vec![hit("N1MM", 1_500, 5), hit("K1ABC", 900, 1)], 100_000);
    assert_eq!(first.len(), 2);
    assert_eq!((first[0].submode, first[0].mode_id, first[0].slot_ms), ("JS8A", 0, 85_000));
    assert_eq!((first[0].freq_hz, first[0].snr_db), (1_500, 5));
    assert_eq!(first[0].display(), "N1MM: HEARTBEAT FN42 ");
    assert!(report(vec![hit("N1MM", 1_502, 5)], 100_001).is_empty());
    assert_eq!(report(vec![hit("N1MM", 1_510, 5)], 100_002).len(), 1);
    assert!(report(vec![hit("N1MM", 1_510, 5)], 100_001 + EMIT_DEDUP_MS).is_empty());
    assert_eq!(report(vec![hit("N1MM", 1_510, 5)], 100_002 + EMIT_DEDUP_MS).len(), 1);
    let twice = report(vec![hit("W1AW", 700, 1), hit("W1AW", 700, 2)], 900_000);
    assert_eq!(twice.len(), 1);
}

#[test]
fn a_station_is_told_apart_by_speed_call_and_square() {
    let mut d: Js8Decoder<i64, i64> = Js8Decoder::new();
    assert!(d.should_emit(0, &frame("N1MM"), 1_500, false, 10));
    assert_eq!(d.last_emitted(0, &frame("N1MM")), Some((10, 1_500)));
    assert_eq!(d.last_emitted(2, &frame("N1MM")), None);
    assert!(!d.should_emit(0, &frame("N1MM"), 1_500, true, 20));
    assert!(d.should_emit(2, &frame("N1MM"), 1_500, true, 20));
    let mut moved = frame("N1MM");
    moved.grid = None;
    assert!(d.should_emit(0, &moved, 1_500, true, 20));
}

#[test]
fn stronger_repeats_replace_weaker_hits() {
    let mut hits: Vec<Hit<i64>> = Vec::new();
    for (call, freq, snr) in [("N1MM", 1, 5), ("K1ABC", 2, 1), ("N1MM", 3, 9), ("N1MM", 4, 2)] {
        let h = hit(call, freq, snr);
        let at = find_hit(&hits, &h.frame);
        let stronger = at < hits.len() && h.snr > hits[at].snr;
        merge_hit(&mut hits, at, stronger, h);
    }
    let got: Vec<(String, i64, i64)> =
        hits.iter().map(|h| (h.frame.callsign.clone(), h.freq, h.snr)).collect();
    assert_eq!(got, vec![("N1MM".to_string(), 3, 9), ("K1ABC".to_string(), 2, 1)]);
}

#[test]
fn passes_go_on_while_they_find_something() {
    assert_eq!(next_pass(1, 5, true), Some(2));
    assert_eq!(next_pass(2, 5, true), Some(3));
    assert_eq!(next_pass(3, 5, true), None);
    assert_eq!(next_pass(1, 5, false), None);
    assert_eq!(next_pass(1, 0, false), None);
    assert!(subtracts(1) && subtracts(2) && !subtracts(3));
    assert_eq!(fit_window(&[1, 2, 3], 2, 0), vec![1, 2]);
    assert_eq!(fit_window(&[1, 2, 3], 5, 0), vec![1, 2, 3, 0, 0]);
    assert_eq!(fit_window(&[1, 2, 3, 0, 0], 5, 0), vec![1, 2, 3, 0, 0]);
    assert_eq!(window_start_ms(100_000, 180_000), 85_000);
    assert_eq!(window_start_ms(1_000, 180_000), 0);
}

#[test]
fn speeds_are_decoded_when_a_transmission_is_whole() {
    let mut d: Js8Decoder<u32, i64> = Js8Decoder::new();
    assert!(d.snapshot_ready().is_empty());
    let chunk = 6_000usize;
    let mut next = 0u32;
    let mut last = [0u64; 4];
    let mut whole = [false; 4];
    for _ in 0..60 {
        let block: Vec<u32> = (next..next + chunk as u32).collect();
        next += chunk as u32;
        d.add_samples(&block);
        let total = d.total_samples();
        for (mi, window) in d.snapshot_ready() {
            let m = modes()[mi];
            let needed = 79 * m.nsps + 6_000 + m.astart;
            let held = (total as usize - 1) % m.nmax + 1;
            assert!(held < 18_000 || held + 18_000 >= needed);
            assert!(last[mi] == 0 || total - last[mi] >= REARM_SAMPLES);
            assert_eq!(window.len(), held);
            assert_eq!(*window.last().unwrap() as u64, total - 1);
            whole[mi] |= held >= needed;
            last[mi] = total;
        }
    }
    assert_eq!(whole, [true; 4]);
}
