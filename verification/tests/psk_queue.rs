//! Tests of the queue of spots.
use hl2::psk::clock::Clock;
use hl2::psk::queue::{PskCfg, PskReporter};
use hl2::psk::wire::Spot;

fn cfg(ttl: u32, max_pending: usize) -> PskCfg {
    PskCfg {
        dedup_ttl_secs: ttl,
        cache_prune_secs: 600,
        max_pending,
        clock: Clock::Real,
    }
}

fn spot(call: &str, freq: u32) -> Spot {
    Spot {
        caller: call.to_string(),
        locator: String::new(),
        freq_hz: freq,
        snr: -10,
        time_epoch: 1_700_000_000,
        mode: "FT8".into(),
    }
}

#[test]
fn dedup_suppresses_within_ttl() {
    let mut r = PskReporter::new(cfg(300, 16));
    r.set_clock(Clock::Fixed(1_700_000_000));
    assert!(r.add(spot("W1AW", 14_075_000)));
    r.set_clock(Clock::Fixed(1_700_000_000 + 299));
    assert!(!r.add(spot("W1AW", 14_075_000)));
    r.set_clock(Clock::Fixed(1_700_000_000 + 301));
    assert!(r.add(spot("W1AW", 14_075_000)));
    assert_eq!(r.len(), 2);
}

#[test]
fn vhf_up_is_exempt_from_dedup() {
    let mut r = PskReporter::new(cfg(300, 16));
    r.set_clock(Clock::Fixed(1_700_000_000));
    assert!(r.add(spot("W1AW", 145_500_000)));
    assert!(r.add(spot("W1AW", 145_500_000)));
    assert_eq!(r.len(), 2);
    assert!(r.add(spot("K9ABC", 14_075_000)));
    assert!(!r.add(spot("K9ABC", 14_075_000)));
}

#[test]
fn caller_is_case_insensitive() {
    let mut r = PskReporter::new(cfg(300, 16));
    r.set_clock(Clock::Fixed(1_700_000_000));
    assert!(r.add(spot("w1aW", 14_075_000)));
    assert!(!r.add(spot("W1AW", 14_075_000)));
}

#[test]
fn same_call_different_band_is_not_suppressed() {
    let mut r = PskReporter::new(cfg(300, 16));
    r.set_clock(Clock::Fixed(1_700_000_000));
    assert!(r.add(spot("W1AW", 14_075_000)));
    assert!(r.add(spot("W1AW", 7_074_000)));
    assert_eq!(r.len(), 2);
    assert!(!r.add(spot("W1AW", 14_076_000)));
    assert_eq!(r.len(), 2);
}

#[test]
fn max_pending_caps_and_drops_oldest() {
    let mut r = PskReporter::new(cfg(3600, 3));
    r.set_clock(Clock::Fixed(1_700_000_000));
    assert!(r.add(spot("A1", 14_075_000)));
    assert!(r.add(spot("B2", 14_075_000)));
    assert!(r.add(spot("C3", 14_075_000)));
    assert!(!r.add(spot("D4", 14_075_000)));
    let got: Vec<String> = r.pending().iter().map(|s| s.caller.clone()).collect();
    let want: Vec<String> = vec!["B2".into(), "C3".into(), "D4".into()];
    assert_eq!(got, want);
}

#[test]
fn drain_clears_and_cache_survives() {
    let mut r = PskReporter::new(cfg(300, 8));
    r.set_clock(Clock::Fixed(1_700_000_000));
    assert!(r.add(spot("W1AW", 14_075_000)));
    r.set_clock(Clock::Fixed(1_700_000_001));
    let _ = r.drain();
    assert!(r.is_empty());
    assert!(!r.add(spot("W1AW", 14_075_000)));
}
