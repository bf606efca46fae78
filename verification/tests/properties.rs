//! Buffers, slots, spots and datagrams on chosen values.
use hl2::js8::decoder::KNOWN_FREQS as JS8_FREQS;
use hl2::psk::clock::{to_seconds, Clock};
use hl2::psk::queue::{band_of, PskCfg, PskReporter};
use hl2::psk::wire::{
    build_packets, message, pad4, receiver_set, spot_record, Spot, Station,
    MAX_TCP_IPFIX_PAYLOAD_BYTES, MAX_UDP_IPFIX_PAYLOAD_BYTES,
};
use hl2::receiver::auto::{AutoMode, AUTO_MODES};
use hl2::receiver::baseband_ring::BasebandRing;
use hl2::receiver::fanout::BasebandFanout;
use hl2::receiver::ft4::{closed_slot_for, Ft4Decoder, Ft4Message, SlotMisaligned, KNOWN_FREQS};
use hl2::receiver::sink::{AudioFifo, AudioSink, BufSink, DropSink, VecSink};
use hl2::receiver::source::{BasebandSource, VecSource};
use hl2::receiver::spot::{
    base_callsign, grid_is_square, wsjt_spot_fields, SpotStation,
};

fn spot(call: &str, freq: u32) -> Spot {
    Spot {
        caller: call.to_string(),
        locator: String::new(),
        freq_hz: freq,
        snr: -10,
        time_epoch: 1_700_000_000,
        mode: "FT8".to_string(),
    }
}

fn rules(ttl: u32, prune: u32, max: usize) -> PskCfg {
    PskCfg {
        dedup_ttl_secs: ttl,
        cache_prune_secs: prune,
        max_pending: max,
        clock: Clock::Fixed(1_000),
    }
}

#[test]
fn spots_are_taken_in_order_and_once() {
    let mut r = PskReporter::new(rules(300, 600, 8));
    assert!(r.add_at(spot("W1AW", 14_075_000), 1_000));
    assert!(r.add_at(spot("K9ABC", 14_075_000), 1_100));
    assert!(!r.add_at(spot("W1AW", 14_074_000), 1_299));
    assert!(r.add_at(spot("W1AW", 14_074_000), 1_300));
    assert!(r.add_at(spot("W1AW", 21_074_000), 1_300));
    let calls: Vec<String> = r.drain().into_iter().map(|s| s.caller).collect();
    assert_eq!(calls, vec!["W1AW", "K9ABC", "W1AW", "W1AW"]);
    assert!(r.is_empty());
    assert!(!r.add_at(spot("W1AW", 14_075_000), 1_301));
}

#[test]
fn a_clock_that_runs_back_keeps_the_suppression() {
    let mut r = PskReporter::new(rules(300, 600, 8));
    assert!(r.add_at(spot("W1AW", 14_075_000), 5_000));
    assert!(!r.add_at(spot("W1AW", 14_075_000), 10));
}

#[test]
fn old_entries_are_forgotten_before_they_expire() {
    let mut r = PskReporter::new(rules(3_600, 10, 8));
    assert!(r.add_at(spot("W1AW", 14_075_000), 1_000));
    assert!(!r.add_at(spot("W1AW", 14_075_000), 1_020));
    assert!(r.add_at(spot("K9ABC", 14_075_000), 1_021));
    assert!(r.add_at(spot("W1AW", 14_075_000), 1_022));
}

#[test]
fn case_does_not_tell_callsigns_apart() {
    let mut r = PskReporter::new(rules(300, 600, 8));
    assert!(r.add_at(spot("straße", 14_075_000), 0));
    assert!(!r.add_at(spot("STRASSE", 14_075_000), 0));
    assert!(r.add_at(spot("Straszer", 14_075_000), 0));
    assert!(r.add_at(spot("ÄbC1ß", 14_075_000), 0));
    assert!(!r.add_at(spot("ÄBc1ß", 14_075_000), 299));
    assert!(!r.add_at(spot("äBc1SS", 14_075_000), 299));
    assert!(r.add_at(spot("ÄBc1ß", 14_075_000), 300));
}

#[test]
fn bands_have_their_edges() {
    assert_eq!((band_of(3_499_999), band_of(3_500_000)), (0, 1));
    assert_eq!((band_of(13_999_999), band_of(14_000_000)), (4, 5));
    assert_eq!((band_of(173_999_999), band_of(174_000_000)), (13, 14));
}

#[test]
fn clocks_give_seconds() {
    assert_eq!(Clock::Fixed(77).now(), 77);
    assert_eq!(to_seconds(None), 0);
    assert_eq!(to_seconds(Some(0x1_0000_0005)), 5);
    let now = std::time::SystemTime::now()
        .duration_since(std::time::UNIX_EPOCH)
        .unwrap()
        .as_secs() as u32;
    assert!(Clock::Real.now().wrapping_sub(now) < 60);
    let mut r = PskReporter::new(PskCfg::default());
    assert!(r.add(spot("W1AW", 14_075_000)));
    assert!(!r.add(spot("w1aw", 14_075_000)));
    r.set_clock(Clock::Fixed(u32::MAX));
    assert!(r.add(spot("W1AW", 14_075_000)));
}

fn station() -> Station {
    Station {
        callsign: "W1AW".to_string(),
        grid: "FN31".to_string(),
        program_info: "x".repeat(100),
        antenna: "wire".to_string(),
        rig_info: "radio".to_string(),
    }
}

#[test]
fn long_fields_are_cut() {
    let b = receiver_set(&station());
    assert_eq!(b.len() % 4, 0);
    let info = 4 + 5 + 5;
    assert_eq!(b[info], 80);
    let mut s = spot(&"A".repeat(40), 14_075_000);
    s.locator = "B".repeat(20);
    s.mode = "C".repeat(20);
    let r = spot_record(&s);
    assert_eq!(r[0], 32);
    assert_eq!(r.len(), 1 + 32 + 5 + 1 + 1 + 16 + 1 + 16 + 1 + 4);
}

#[test]
fn packets_carry_every_spot_once() {
    let spots: Vec<Spot> = (0..57).map(|i| spot(&format!("CALL{i}"), 14_075_000)).collect();
    let p = build_packets(&station(), &spots, false, u32::MAX, 7, 9, 400);
    let total: usize = p.iter().map(|k| k.spot_count).sum();
    assert_eq!(total, spots.len());
    assert!(p.len() > 1);
    for k in &p {
        assert!(k.payload.len() <= 400);
        assert_eq!(u16::from_be_bytes([k.payload[2], k.payload[3]]) as usize, k.payload.len());
    }
    let whole =
        build_packets(&station(), &spots, true, 1, 7, 9, MAX_TCP_IPFIX_PAYLOAD_BYTES);
    assert_eq!(whole.len(), 1);
    assert_eq!(MAX_UDP_IPFIX_PAYLOAD_BYTES, 952);
    assert_eq!((pad4(0), pad4(1), pad4(2), pad4(3)), (0, 3, 2, 1));
    assert_eq!(message(&[1, 2, 3], 0, 0, 0).len(), 20);
}

#[test]
fn fifo_hands_out_what_came_in() {
    let mut f = AudioFifo::new(5);
    f.push(&[1, 2, 3]);
    f.push(&[4, 5, 6]);
    assert_eq!((f.len(), f.is_empty()), (5, false));
    let mut out = [9i16; 2];
    assert_eq!(f.drain_into(&mut out), 2);
    assert_eq!(out, [2, 3]);
    assert_eq!(f.drain(1), vec![4]);
    let mut out = [9i16; 4];
    assert_eq!(f.pop_into_i16(&mut out), 2);
    assert_eq!(out, [5, 6, 0, 0]);
    assert!(f.is_empty());
}

#[test]
fn sinks_answer_how_much_they_took() {
    let mut d = DropSink::new();
    assert_eq!(d.write(&[1, 2, 3]).unwrap(), 3);
    assert!(d.flush().is_ok());
    let (mut b, h) = BufSink::pair(0);
    assert_eq!(b.write(&[1, 2]).unwrap(), 2);
    assert_eq!((h.len(), h.is_empty()), (0, true));
    let mut v = VecSink::new().with_max(0);
    assert_eq!(v.write(&[1]).unwrap(), 1);
    assert!(v.samples().is_empty());
    let mut s: VecSource<i64> = VecSource::new(96_000);
    assert_eq!(s.rate_hz(), 96_000);
    assert_eq!(s.next_block(&mut [0; 4]), 0);
    assert_eq!(s.push(vec![1, 2, 3]), 3);
}

#[test]
fn ring_readers_resume_where_they_were() {
    let mut r: BasebandRing<i64> = BasebandRing::new(4);
    let mut out = Vec::new();
    r.push(&[1, 2, 3]);
    assert_eq!(r.peek(0, &mut out, 2), 2);
    assert_eq!(out, vec![1, 2]);
    r.push(&[4, 5]);
    assert_eq!((r.base_seq(), r.head_seq(), r.len()), (1, 5, 4));
    assert_eq!(r.peek(2, &mut out, 10), 3);
    assert_eq!(out, vec![3, 4, 5]);
    assert_eq!(r.peek(0, &mut out, 10), 0);
}

#[test]
fn the_last_slot_stays_active() {
    let mut f: BasebandFanout<BasebandRing<i64>> = BasebandFanout::new();
    f.unregister_slot(1);
    assert_eq!((f.rx_count(), f.slots()), (1, vec![1]));
    f.register_slot(5);
    f.unregister_slot(1);
    f.unregister_slot(1);
    assert_eq!((f.rx_count(), f.slots()), (1, vec![5]));
    f.unregister_slot(5);
    assert_eq!(f.snapshot().0, 1);
    assert_eq!(f.push_frame(&[&[1, 2], &[3]]), 1);
}

#[test]
fn frequencies_are_big_endian() {
    let mut s = spot("K9ABC", 21_074_000);
    s.locator = "FN31".to_string();
    let r = spot_record(&s);
    assert_eq!(r.len(), 26);
    assert_eq!(r[6..11], [0x00, 0x01, 0x41, 0x90, 0x50]);
}

#[test]
fn a_slot_is_handed_out_once() {
    let mut d: Ft4Decoder<u32> = Ft4Decoder::new();
    d.add_samples(&(0..89_999).collect::<Vec<u32>>());
    assert_eq!(d.take_closed_slot(15_000), Ok(None));
    d.add_samples(&[89_999, 90_000]);
    let window = d.take_closed_slot(15_000).unwrap().unwrap();
    assert_eq!((window.len(), window[0], window[89_999]), (90_000, 1, 90_000));
    assert_eq!(d.take_closed_slot(15_000), Ok(None));
    assert!(d.take_closed_slot(22_500).unwrap().is_some());
    assert_eq!(d.snapshot_for_slot(22_500), None);
    assert_eq!(d.buf_trailing(2), vec![89_999, 90_000]);
    let e = SlotMisaligned { slot_ms: 17_500 };
    assert_eq!(d.take_closed_slot(17_500), Err(e));
    assert_eq!(e.message(), "slot_ms=17500 is not a multiple of 7500");
    assert_eq!(closed_slot_for(22_499), 15_000);
    assert_eq!(closed_slot_for(22_500), 22_500);
}

#[test]
fn modes_name_themselves() {
    assert_eq!(AUTO_MODES.iter().map(|m| m.wire()).collect::<Vec<_>>(), vec!["js8", "ft4"]);
    assert_eq!(AutoMode::Ft4.known_freqs(), &KNOWN_FREQS[..]);
    assert_eq!(AutoMode::Js8.known_freqs(), &JS8_FREQS[..]);
    let m = Ft4Message {
        text: "CQ R7IW LN35".to_string(),
        freq_hz: 1_500.0f32,
        dt_sec: 0.5,
        snr_db: -3.0,
        slot_ms: 15_000,
    };
    assert_eq!((m.mode(), m.display()), ("FT4", "CQ R7IW LN35"));
    let s = m.spot_fields(&SpotStation::new("K9ABC", "FN31")).unwrap();
    assert_eq!((s.caller.as_str(), s.locator.as_str()), ("R7IW", "LN35"));
}

#[test]
fn squares_and_callsigns_in_messages() {
    for g in ["FN42", "AA00", "RR99", "JO62QM"] {
        assert!(grid_is_square(g), "{g}");
    }
    for g in ["RR73", "SA00", "FN4", "FN4A", "FN42yy", "fn42", ""] {
        assert!(!grid_is_square(g), "{g}");
    }
    assert_eq!(base_callsign("W1AW/K9ABC"), "K9ABC");
    assert_eq!(base_callsign("K9ABC/P"), "K9ABC");
    assert_eq!(base_callsign("AB1/CD2"), "CD2");
    assert_eq!(base_callsign("N1MM"), "N1MM");
    let own = SpotStation::new("K9ABC", "FN31");
    assert!(wsjt_spot_fields("", &own).is_none());
    assert!(wsjt_spot_fields("CQ", &own).is_none());
    assert!(wsjt_spot_fields("K1ABC W1AW RR73", &own).is_none());
    let s = wsjt_spot_fields("K1ABC W1AW R FN42", &own).unwrap();
    assert_eq!((s.caller.as_str(), s.locator.as_str()), ("W1AW", "FN42"));
    let s = wsjt_spot_fields("CQ W1AW", &own).unwrap();
    assert_eq!((s.caller.as_str(), s.locator.as_str()), ("W1AW", ""));
}
