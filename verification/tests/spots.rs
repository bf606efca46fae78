//! Tests of what is reported of a message.
use hl2::receiver::spot::{wsjt_spot_fields, SpotStation};

fn st() -> SpotStation {
    SpotStation::new("K9ABC", "FN31")
}

#[test]
fn cq_message_spots_call_and_grid() {
    let s = wsjt_spot_fields("CQ R7IW LN35", &st()).expect("CQ + grid spots");
    assert_eq!(s.caller, "R7IW");
    assert_eq!(s.locator, "LN35");
}

#[test]
fn cq_dx_tag_is_eaten_by_word1() {
    let s = wsjt_spot_fields("CQ DX R6WA LN32", &st()).expect("CQ DX spots");
    assert_eq!(s.caller, "R6WA");
    assert_eq!(s.locator, "LN32");
}

#[test]
fn cq_number_tag_is_eaten_by_word1() {
    let s = wsjt_spot_fields("CQ 001 3Y0Z JD34", &st()).expect("spots");
    assert_eq!(s.caller, "3Y0Z");
    assert_eq!(s.locator, "JD34");
}

#[test]
fn bare_call_grid_spots() {
    let s = wsjt_spot_fields("K1ABC K9ABD PN32", &st()).expect("spots");
    assert_eq!(s.caller, "K9ABD");
    assert_eq!(s.locator, "PN32");
}

#[test]
fn reply_without_grid_does_not_spot() {
    assert!(wsjt_spot_fields("JA1ABC 3Y0Z -12", &st()).is_none());
}

#[test]
fn self_spot_is_suppressed() {
    assert!(wsjt_spot_fields("CQ K9ABC FN31", &st()).is_none());
    let st2 = SpotStation::new("K9ABC", "PM95");
    assert!(wsjt_spot_fields("CQ K9ABC FN31", &st2).is_some());
    let st3 = SpotStation::new("W1AW/K9ABC", "FN31");
    assert!(wsjt_spot_fields("CQ K9ABC FN31", &st3).is_none());
}

#[test]
fn qrz_message_spots() {
    let s = wsjt_spot_fields("QRZ K1ABC PM95", &st()).expect("QRZ spots");
    assert_eq!(s.caller, "K1ABC");
    assert_eq!(s.locator, "PM95");
}

#[test]
fn free_text_with_cq_spots() {
    let s = wsjt_spot_fields("CQ 73 W1AW FN42", &st()).expect("CQ-phrase spots");
    assert_eq!(s.caller, "73");
    assert_eq!(s.locator, "W1AW");
}

#[test]
fn self_spot_suppressed_with_empty_station() {
    let st = SpotStation::new("", "");
    assert!(wsjt_spot_fields("CQ K1ABC FN42", &st).is_some());
}
