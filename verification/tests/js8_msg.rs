//! Tests of the fields of messages and of whole frames.
use hl2::js8::callsign::{
    basecall_name, pack_alphanumeric50, pack_callsign, unpack_alphanumeric50, unpack_callsign,
    NBASECALL,
};
use hl2::js8::command::{cmd_index, format_snr, pack_cmd, pack_num, unpack_cmd};
use hl2::js8::data::{huff_decode, JscMap};
use hl2::js8::frame::{check_crc, crc12};
use hl2::js8::grid::{pack_grid, unpack_grid, NBASEGRID, NMAXGRID, NUSERGRID};
use hl2::js8::msg::{
    pack_compound_frame, pack_directed, unpack_compound, unpack_directed, unpack_frame,
    unpack_heartbeat, FRAME_COMPOUND, FRAME_DIRECTED, FRAME_HEARTBEAT,
};

fn msg_from_words(words: &[u8; 12], i3bit: u8) -> [u8; 87] {
    let mut msg = [0u8; 87];
    for b in 0..72usize {
        msg[b] = (words[b / 6] >> (5 - b % 6)) & 1;
    }
    msg[72] = (i3bit >> 2) & 1;
    msg[73] = (i3bit >> 1) & 1;
    msg[74] = i3bit & 1;
    let mut bytes = [0u8; 11];
    for b in 0..72usize {
        if msg[b] == 1 {
            bytes[b / 8] |= 1 << (7 - b % 8);
        }
    }
    bytes[9] = i3bit << 5;
    let crc = crc12(&bytes) as u16;
    for i in 0..12 {
        msg[75 + i] = ((crc >> (11 - i)) & 1) as u8;
    }
    msg
}

#[test]
fn test_alphanumeric50_roundtrip() {
    for cs in ["VE7/KN4CRD", "SP1ATOM", "N1MM", "A1"] {
        let packed = pack_alphanumeric50(cs);
        assert_eq!(unpack_alphanumeric50(packed), cs, "roundtrip {cs}");
    }
}

#[test]
fn test_alphanumeric50_basecall() {
    let packed = pack_alphanumeric50("@ALLCALL");
    assert_ne!(packed, 0);
    assert_eq!(unpack_alphanumeric50(packed), "@ALLCALL");
}

#[test]
fn test_pack_num() {
    assert_eq!(pack_num(""), None);
    assert_eq!(pack_num("0"), Some(31));
    assert_eq!(pack_num("-30"), Some(1));
    assert_eq!(pack_num("31"), Some(62));
    assert_eq!(pack_num("73"), Some(62));
    assert_eq!(pack_num("-5"), Some(26));
    assert_eq!(pack_num("+20"), Some(51));
}

#[test]
fn test_cmd_index() {
    assert_eq!(cmd_index("GRID?"), Some(4));
    assert_eq!(cmd_index("SNR"), Some(25));
    assert_eq!(cmd_index("?"), Some(0));
    assert_eq!(cmd_index("SK"), Some(20));
    assert_eq!(cmd_index("UNKNOWN"), None);
}

#[test]
fn test_grid_roundtrip() {
    for grid in ["FN42", "EM55", "JN57"] {
        let packed = pack_grid(grid);
        assert!(packed <= NBASEGRID, "{grid} -> {packed}");
        assert_eq!(unpack_grid(packed), grid, "roundtrip {grid}");
    }
}

#[test]
fn test_grid_out_of_range() {
    assert_eq!(unpack_grid(NBASEGRID + 1), "");
    assert_eq!(pack_grid("A"), NMAXGRID);
}

#[test]
fn test_basecall() {
    let v = pack_callsign("@ALLCALL").unwrap();
    assert_eq!(v, NBASECALL + 2);
    assert_eq!(basecall_name(v), Some("@ALLCALL"));
    assert_eq!(unpack_callsign(v, false), "@ALLCALL");
}

#[test]
fn test_callsign_roundtrip() {
    for cs in ["N1MM", "VE3NE", "DL1ABC"] {
        let packed = pack_callsign(cs);
        assert!(packed.is_some(), "pack {cs}");
        assert_eq!(
            unpack_callsign(packed.unwrap(), false),
            cs,
            "roundtrip {cs}"
        );
    }
}

#[test]
fn test_portable_callsign() {
    let packed = pack_callsign("N1MM/P").unwrap();
    assert!(packed < NBASECALL);
    assert_eq!(unpack_callsign(packed, true), "N1MM/P");
}

#[test]
fn test_unpack_cmd_snr() {
    let mut num = None;
    let v = pack_cmd(25, 51);
    assert_eq!(v, (2u8 << 6) | 51);
    let idx = unpack_cmd(v, &mut num).unwrap();
    assert_eq!(idx, 25);
    assert_eq!(Some(20), num);
}

#[test]
fn test_heartbeat_roundtrip() {
    let grid = pack_grid("FN42");
    let words = pack_compound_frame("N1MM", FRAME_HEARTBEAT, grid, 0).unwrap();
    let (cs, g, is_alt, bits3) = unpack_heartbeat(&words).unwrap();
    assert_eq!(cs, "N1MM");
    assert_eq!(g, Some("FN42".to_string()));
    assert!(!is_alt);
    assert_eq!(bits3, 0);
}

#[test]
fn test_heartbeat_cq() {
    let num = (pack_grid("EM55") as u16) | (1 << 15);
    let words = pack_compound_frame("K1ABC", FRAME_HEARTBEAT, num, 3).unwrap();
    let (cs, _g, is_alt, bits3) = unpack_heartbeat(&words).unwrap();
    assert_eq!(cs, "K1ABC");
    assert!(is_alt);
    assert_eq!(bits3, 3);
}

#[test]
fn test_compound_grid_roundtrip() {
    let grid = pack_grid("JN57");
    let words = pack_compound_frame("DK7ZL", FRAME_COMPOUND, grid, 0).unwrap();
    let (flag, cs, extra) = unpack_compound(&words).unwrap();
    assert_eq!(flag, FRAME_COMPOUND);
    assert_eq!(cs, "DK7ZL");
    assert_eq!(extra, Some("JN57".to_string()));
}

#[test]
fn test_compound_command() {
    let cmd = NUSERGRID + 4;
    let words = pack_compound_frame("W1AW", FRAME_COMPOUND, cmd as u16, 0).unwrap();
    let (flag, cs, extra) = unpack_compound(&words).unwrap();
    assert_eq!(flag, FRAME_COMPOUND);
    assert_eq!(cs, "W1AW");
    assert_eq!(extra.as_deref(), Some("GRID?"));
}

#[test]
fn test_directed_roundtrip() {
    let words = pack_directed("N1MM", "VE3NE", "SNR", Some(20)).unwrap();
    let (from, to, cmd, num) = unpack_directed(&words).unwrap();
    assert_eq!(from, "N1MM");
    assert_eq!(to, "VE3NE");
    assert_eq!(cmd, "SNR");
    assert_eq!(num, Some(20));
}

#[test]
fn test_directed_no_num() {
    let words = pack_directed("N1MM", "VE3NE", "GRID?", None).unwrap();
    let (from, to, cmd, num) = unpack_directed(&words).unwrap();
    assert_eq!(from, "N1MM");
    assert_eq!(to, "VE3NE");
    assert_eq!(cmd, "GRID?");
    assert_eq!(num, None);
}

#[test]
fn test_unpack_frame_heartbeat() {
    let grid = pack_grid("FN42");
    let words = pack_compound_frame("N1MM", FRAME_HEARTBEAT, grid, 0).unwrap();
    let msg = msg_from_words(&words, 0);
    let frame = unpack_frame(&msg, &JscMap::empty()).unwrap();
    assert_eq!(frame.kind, FRAME_HEARTBEAT);
    assert_eq!(frame.callsign, "N1MM");
    assert_eq!(frame.grid, Some("FN42".to_string()));
    assert_eq!(frame.message, "N1MM: HEARTBEAT FN42 ");
}

#[test]
fn test_unpack_frame_compound_grid() {
    let grid = pack_grid("JN57");
    let words = pack_compound_frame("DK7ZL", FRAME_COMPOUND, grid, 0).unwrap();
    let msg = msg_from_words(&words, 0);
    let frame = unpack_frame(&msg, &JscMap::empty()).unwrap();
    assert_eq!(frame.kind, FRAME_COMPOUND);
    assert_eq!(frame.callsign, "DK7ZL");
    assert_eq!(frame.grid, Some("JN57".to_string()));
    assert_eq!(frame.message, "DK7ZL: JN57 ");
}

#[test]
fn test_unpack_frame_directed() {
    let words = pack_directed("N1MM", "VE3NE", "SNR", Some(20)).unwrap();
    let msg = msg_from_words(&words, 0);
    let frame = unpack_frame(&msg, &JscMap::empty()).unwrap();
    assert_eq!(frame.kind, FRAME_DIRECTED);
    assert_eq!(frame.callsign, "N1MM");
    assert_eq!(frame.to, Some("VE3NE".to_string()));
    assert_eq!(frame.cmd.as_deref(), Some("SNR"));
    assert_eq!(frame.num, Some(20));
    assert_eq!(frame.message, "N1MM VE3NE SNR +20 ");
}

#[test]
fn test_check_crc_bad() {
    let grid = pack_grid("FN42");
    let words = pack_compound_frame("N1MM", FRAME_HEARTBEAT, grid, 0).unwrap();
    let mut msg = msg_from_words(&words, 0);
    msg[0] ^= 1;
    assert!(!check_crc(&msg));
}

#[test]
fn test_huff_decode_known() {
    let bits: Vec<u8> = [0, 0, 0, 1, 1, 1, 1, 1, 0, 0].to_vec();
    assert_eq!(huff_decode(&bits), "HI");
}

#[test]
fn test_format_snr() {
    assert_eq!(format_snr(20), Some("+20".into()));
    assert_eq!(format_snr(-5), Some("-5".into()));
    assert_eq!(format_snr(70), None);
}
