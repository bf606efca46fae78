//! Tests of the decoders' buffers and of what they report.
use hl2::js8::decoder::{Js8Decoder, Js8Message};
use hl2::js8::msg::{DecodedFrame, FRAME_COMPOUND, FRAME_DIRECTED, FRAME_HEARTBEAT};
use hl2::receiver::ft4::{Ft4Decoder, FT4_SLOT_WINDOW_SAMPLES};
use hl2::receiver::spot::SpotStation;
use std::sync::{Arc, Mutex};

fn silence(n: usize) -> Vec<f32> {
    vec![0.0; n]
}

#[test]
fn window_caps_at_60s() {
    let mut d: Js8Decoder<f32, f32> = Js8Decoder::new();
    d.add_samples(&silence(70 * 12_000));
    assert_eq!(d.samples().len(), 60 * 12_000);
    assert_eq!(d.total_samples(), 70 * 12_000);
}

#[test]
fn decoder_append_is_the_tap() {
    let d: Arc<Mutex<Js8Decoder<f32, f32>>> = Arc::new(Mutex::new(Js8Decoder::new()));
    let tap = d.clone();
    tap.lock().unwrap().add_samples(&[0.1, -0.2, 0.3]);
    let got = d.lock().unwrap().samples().to_vec();
    assert_eq!(got, vec![0.1, -0.2, 0.3]);
}

#[test]
fn window_caps_at_10s() {
    let mut d = Ft4Decoder::new();
    d.add_samples(&silence(12 * 12_000));
    assert_eq!(d.buffered_samples(), 10 * 12_000);
}

#[test]
fn ft4_append_is_the_tap() {
    let d: Arc<Mutex<Ft4Decoder<f32>>> = Arc::new(Mutex::new(Ft4Decoder::new()));
    let tap = d.clone();
    tap.lock().unwrap().add_samples(&[0.1, -0.2, 0.3, -0.4, 0.5, -0.6]);
    tap.lock().unwrap().add_samples(&[1.0]);
    let n = d.lock().unwrap().buffered_samples();
    let got = d.lock().unwrap().buf_trailing(n);
    assert_eq!(got, vec![0.1, -0.2, 0.3, -0.4, 0.5, -0.6, 1.0]);
}

#[test]
fn non_multiple_of_slot_errors() {
    let mut d = Ft4Decoder::new();
    d.add_samples(&silence(FT4_SLOT_WINDOW_SAMPLES));
    assert!(d.take_closed_slot(17_500).is_err());
}

fn js8_base() -> Js8Message<f32> {
    Js8Message {
        frame: DecodedFrame {
            kind: FRAME_HEARTBEAT,
            callsign: String::new(),
            to: None,
            grid: None,
            cmd: None,
            num: None,
            bits3: 0,
            is_alt: false,
            text: String::new(),
            message: String::new(),
        },
        submode: "JS8A",
        mode_id: 0,
        freq_hz: 1_500.0,
        dt_sec: 0.48,
        snr_db: 11.0,
        slot_ms: 1_700_000_015_000,
    }
}

fn js8msg(callsign: &str, grid: Option<&str>) -> Js8Message<f32> {
    let mut m = js8_base();
    m.frame.kind = FRAME_HEARTBEAT;
    m.frame.callsign = callsign.into();
    m.frame.grid = grid.map(str::to_string);
    m
}

fn js8_dir(from: &str, to: &str, cmd: &str) -> Js8Message<f32> {
    let mut m = js8_base();
    m.frame.kind = FRAME_DIRECTED;
    m.frame.callsign = from.into();
    m.frame.to = Some(to.into());
    m.frame.cmd = Some(cmd.into());
    m.frame.grid = None;
    m
}

fn js8_compound(callsign: &str, grid: &str) -> Js8Message<f32> {
    let mut m = js8_base();
    m.frame.kind = FRAME_COMPOUND;
    m.frame.callsign = callsign.into();
    m.frame.grid = Some(grid.into());
    m
}

fn js8_data(text: &str) -> Js8Message<f32> {
    let mut m = js8_base();
    m.frame.kind = DecodedFrame::KIND_DATA_JSC;
    m.frame.callsign = String::new();
    m.frame.grid = None;
    m.frame.text = text.into();
    m.frame.message = text.into();
    m
}

fn st() -> SpotStation {
    SpotStation::new("K9ABC", "FN31")
}

#[test]
fn js8_heartbeat_spots_call_and_grid() {
    let s = js8msg("R7IW", Some("LN35"))
        .spot_fields(&st())
        .expect("spots");
    assert_eq!(s.caller, "R7IW");
    assert_eq!(s.locator, "LN35");
}

#[test]
fn js8_heartbeat_without_grid_still_spots() {
    let s = js8msg("R7IW", None).spot_fields(&st()).expect("spots");
    assert_eq!(s.caller, "R7IW");
    assert_eq!(s.locator, "");
}

#[test]
fn js8_directed_frame_spots_from_call_without_grid() {
    let s = js8_dir("R7IW", "K9ABC", "SNR")
        .spot_fields(&st())
        .expect("directed");
    assert_eq!(s.caller, "R7IW");
    assert_eq!(s.locator, "");
}

#[test]
fn js8_compound_spots_call_and_grid() {
    let s = js8_compound("R7IW", "LN35")
        .spot_fields(&st())
        .expect("compound");
    assert_eq!(s.caller, "R7IW");
    assert_eq!(s.locator, "LN35");
}

#[test]
fn js8_data_frame_leading_call_spots() {
    let s = js8_data("K1ABC: Hello there")
        .spot_fields(&st())
        .expect("data CALL: lead");
    assert_eq!(s.caller, "K1ABC");
    assert_eq!(s.locator, "");
}

#[test]
fn js8_data_frame_without_call_does_not_spot() {
    assert!(js8_data("HELLO WORLD").spot_fields(&st()).is_none());
}

#[test]
fn js8_bad_grid_becomes_empty_locator() {
    let s = js8msg("K1ABC", Some("FN4"))
        .spot_fields(&st())
        .expect("spots");
    assert_eq!(s.caller, "K1ABC");
    assert_eq!(s.locator, "");
}

#[test]
fn js8_no_call_does_not_spot() {
    let mut m = js8_base();
    m.frame.kind = FRAME_HEARTBEAT;
    m.frame.callsign = String::new();
    assert!(m.spot_fields(&st()).is_none());
}

#[test]
fn js8_self_spot_is_suppressed() {
    assert!(js8msg("K9ABC", Some("FN31")).spot_fields(&st()).is_none());
    assert!(js8msg("K9ABC", Some("PM95")).spot_fields(&st()).is_some());
}

#[test]
fn js8_self_directed_is_suppressed() {
    assert!(js8_dir("K9ABC", "R7IW", "SNR").spot_fields(&st()).is_none());
}
