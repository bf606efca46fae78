//! What goes into a JS8 frame comes out of it, and what is outside its range is refused.
use hl2::js8::bits::{bit_last_zero, bits72, shift16, shift8};
use hl2::js8::callsign::{
    an_index, basecall_name, pack_alphanumeric50, pack_callsign, unpack_alphanumeric50,
    unpack_callsign, NBASECALL,
};
use hl2::js8::command::{
    cmd_index, format_snr, is_snr, pack_cmd, pack_num, split_cmd_num, unpack_cmd, DIRECTED_CMDS,
};
use hl2::js8::data::{
    huff_decode, jsc_decompress, unpack_fast_data, unpack_legacy_data, JscMap, HUFF_TABLE,
    JSC_UNMAPPED,
};
use hl2::js8::frame::{
    alphabet_word, check_codeword, check_crc, encode_parity, encode_tones, extract_message,
    message_tones, word_alphabet, words_to_string, CheckNode,
};
use hl2::js8::grid::{pack_grid, unpack_grid, NBASEGRID, NMAXGRID, NUSERGRID};
use hl2::js8::msg::{
    pack_compound_frame, pack_directed, unpack_compound, unpack_compound_frame, unpack_directed,
    unpack_frame, unpack_heartbeat, DecodedFrame, FRAME_COMPOUND, FRAME_COMPOUND_DIRECTED,
    FRAME_DIRECTED, FRAME_HEARTBEAT,
};
use hl2::js8::params::{mode_a, mode_b, modes, Mode, COSTAS_MODIFIED, COSTAS_ORIGINAL};
use hl2::js8::words::{pack_72bits, unpack_72bits};

/// The message bits of a transmission, read back from its tones.
fn message_of(tones: &[u8]) -> [u8; 87] {
    let mut bits = Vec::new();
    for t in tones[7..36].iter().chain(&tones[43..72]) {
        bits.extend([t >> 2 & 1, t >> 1 & 1, t & 1]);
    }
    let mut msg = [0u8; 87];
    msg.copy_from_slice(&bits[87..]);
    msg
}

fn empty() -> JscMap {
    JscMap::empty()
}

#[test]
fn heartbeat_travels_through_the_tones() {
    for (id, mode) in modes().iter().enumerate() {
        let words = pack_compound_frame("N1MM", FRAME_HEARTBEAT, pack_grid("FN42"), 0).unwrap();
        let tones = encode_tones(words, 0, mode);
        assert_eq!(tones.len(), 79);
        let costas = if id == 0 { COSTAS_ORIGINAL } else { COSTAS_MODIFIED };
        for (p, at) in [0usize, 36, 72].iter().enumerate() {
            let block: Vec<usize> = tones[*at..at + 7].iter().map(|t| *t as usize).collect();
            assert_eq!(block, costas[p]);
        }
        let msg = message_of(&tones);
        assert!(check_crc(&msg));
        let frame = unpack_frame(&msg, &empty()).unwrap();
        assert_eq!(frame.callsign, "N1MM");
        assert_eq!(frame.grid.as_deref(), Some("FN42"));
        assert_eq!(message_tones(&msg, &mode.costas), tones);
    }
}

#[test]
fn general_call_is_displayed_by_its_variant() {
    let num = pack_grid("EM55") | 1 << 15;
    let words = pack_compound_frame("K1ABC", FRAME_HEARTBEAT, num, 3).unwrap();
    let msg = message_of(&encode_tones(words, 3, &mode_a()));
    let frame = unpack_frame(&msg, &empty()).unwrap();
    assert!(frame.is_alt);
    assert_eq!(frame.bits3, 3);
    assert_eq!(frame.message, "K1ABC: CQ CONTEST EM55 ");
    assert!(unpack_compound(&words).is_none());
    assert!(unpack_directed(&words).is_none());
}

#[test]
fn compound_command_with_report() {
    let num = NUSERGRID as u16 + pack_cmd(25, 51) as u16;
    let words = pack_compound_frame("W1AW", FRAME_COMPOUND_DIRECTED, num, 5).unwrap();
    let (family, call, n, bits3) = unpack_compound_frame(&words).unwrap();
    assert_eq!((family, call.as_str(), n, bits3), (FRAME_COMPOUND_DIRECTED, "W1AW", num, 5));
    assert!(unpack_heartbeat(&words).is_none());
    let (_, _, extra) = unpack_compound(&words).unwrap();
    assert_eq!(extra.as_deref(), Some("SNR +20"));
    assert_eq!(split_cmd_num(extra.as_deref()), (Some("SNR".to_string()), Some(20)));
    let msg = message_of(&encode_tones(words, 1, &mode_a()));
    let frame = unpack_frame(&msg, &empty()).unwrap();
    assert_eq!((frame.kind, frame.grid), (FRAME_COMPOUND_DIRECTED, None));
    assert_eq!((frame.cmd.as_deref(), frame.num), (Some("SNR"), Some(20)));
    assert_eq!(frame.message, "W1AW: SNR +20 ");
}

#[test]
fn a_command_is_no_square() {
    let words = pack_compound_frame("W1AW", FRAME_COMPOUND, NUSERGRID as u16 + 4, 0).unwrap();
    let msg = message_of(&encode_tones(words, 0, &mode_a()));
    let frame = unpack_frame(&msg, &empty()).unwrap();
    assert_eq!((frame.kind, frame.callsign.as_str()), (FRAME_COMPOUND, "W1AW"));
    assert_eq!((frame.cmd.as_deref(), frame.num, frame.grid), (Some("GRID?"), None, None));
    assert_eq!(frame.message, "W1AW: GRID? ");
}

#[test]
fn long_prefixes_are_shortened_and_put_back() {
    assert_eq!(pack_callsign("3XY1T"), Some(190_959_362));
    for call in ["3XY1T", "3XY1ABC", "3DA0XYZ", "3X1ABC"] {
        assert_eq!(unpack_callsign(pack_callsign(call).unwrap(), false), call);
    }
}

#[test]
fn directed_call_keeps_both_stations() {
    let words = pack_directed("VE3NE/P", "@ALLCALL", "SNR?", None).unwrap();
    let (from, to, cmd, num) = unpack_directed(&words).unwrap();
    assert_eq!((from.as_str(), to.as_str()), ("VE3NE/P", "@ALLCALL"));
    assert_eq!(cmd, DIRECTED_CMDS[cmd_index("SNR?").unwrap()]);
    assert_eq!(num, None);
    assert!(pack_directed("not a call", "N1MM", "SNR", Some(1)).is_none());
    assert!(pack_directed("N1MM", "VE3NE", "NO SUCH COMMAND", None).is_none());
}

#[test]
fn a_flipped_bit_breaks_the_checksum() {
    let words = pack_compound_frame("DK7ZL", FRAME_COMPOUND, pack_grid("JN57"), 0).unwrap();
    let good = message_of(&encode_tones(words, 2, &mode_b()));
    assert!(check_crc(&good));
    for i in 0..87 {
        let mut bad = good;
        bad[i] ^= 1;
        assert!(!check_crc(&bad), "bit {i}");
        assert!(unpack_frame(&bad, &empty()).is_none());
    }
    let soft: Vec<i8> = good.iter().map(|b| *b as i8).collect();
    let soft: [i8; 87] = soft.try_into().unwrap();
    assert_eq!(extract_message(&soft).unwrap(), words);
    let mut odd = soft;
    odd[0] = 2;
    assert!(extract_message(&odd).is_err());
}

#[test]
fn parity_of_a_sum_is_the_sum_of_parities() {
    let mut a = [0u8; 87];
    let mut b = [0u8; 87];
    for i in 0..87 {
        a[i] = (i % 3 == 0) as u8;
        b[i] = (i % 5 == 1) as u8;
    }
    let mut c = [0u8; 87];
    for i in 0..87 {
        c[i] = a[i] ^ b[i];
    }
    let (pa, pb, pc) = (encode_parity(&a), encode_parity(&b), encode_parity(&c));
    assert_eq!(pa.len(), 87);
    for i in 0..87 {
        assert_eq!(pc[i], pa[i] ^ pb[i]);
    }
    assert_eq!(encode_parity(&[0; 87]), vec![0; 87]);
}

#[test]
fn codeword_checks_are_even_sums() {
    let mut cw = [0u8; 174];
    cw[3] = 1;
    cw[9] = 1;
    let even = CheckNode { valid: 2, bits: [3, 9, 0, 0, 0, 0, 0] };
    let odd = CheckNode { valid: 3, bits: [3, 5, 6, 9, 9, 9, 9] };
    assert!(check_codeword(&cw, &[]));
    assert!(check_codeword(&cw, &[even]));
    let even = CheckNode { valid: 2, bits: [3, 9, 0, 0, 0, 0, 0] };
    assert!(!check_codeword(&cw, &[even, odd]));
}

#[test]
fn checks_on_single_bits_carry_over() {
    let codeword = |m: &[u8; 87]| {
        let mut cw = [0u8; 174];
        cw[..87].copy_from_slice(&encode_parity(m));
        cw[87..].copy_from_slice(m);
        cw
    };
    let check = CheckNode { valid: 2, bits: [90, 90, 0, 0, 0, 0, 0] };
    let checks = [check];
    for i in 0..87 {
        let mut m = [0u8; 87];
        m[i] = 1;
        assert!(check_codeword(&codeword(&m), &checks));
    }
    let mut m = [0u8; 87];
    for i in (0..87).step_by(3) {
        m[i] = 1;
    }
    assert!(check_codeword(&codeword(&m), &checks));
    let one = [CheckNode { valid: 1, bits: [90, 0, 0, 0, 0, 0, 0] }];
    assert!(!check_codeword(&codeword(&m), &one));
}

#[test]
fn decoding_undoes_encoding() {
    let encode = |text: &str| -> Vec<u8> {
        text.chars()
            .flat_map(|c| HUFF_TABLE.iter().find(|e| e.0 == c).unwrap().1.bytes())
            .map(|b| b - b'0')
            .collect()
    };
    let all: String = HUFF_TABLE.iter().map(|e| e.0).collect();
    assert_eq!(huff_decode(&encode(&all)), all);
    for (_, code) in HUFF_TABLE {
        for n in 0..code.len() {
            let mut bits = encode("CQ DE W1AW/7");
            bits.extend(code.bytes().take(n).map(|b| b - b'0'));
            assert_eq!(huff_decode(&bits), "CQ DE W1AW/7");
        }
    }
}

#[test]
fn alphabet_is_one_to_one() {
    for w in 0..64u8 {
        assert_eq!(alphabet_word(word_alphabet(w)), Some(w));
    }
    assert_eq!(alphabet_word(b' '), None);
    assert_eq!(alphabet_word(b'Z'), Some(35));
    assert_eq!(alphabet_word(b'a'), Some(36));
    assert_eq!(words_to_string(&[0, 9, 10, 35, 36, 61, 62, 63, 0, 0, 0, 1]), "09AZaz-+0001");
}

#[test]
fn seventy_two_bits_are_words_and_back() {
    let (value, rem) = (0x0123_4567_89ab_cdefu64, 0x5au8);
    let words = pack_72bits(value, rem).unwrap();
    assert!(words.iter().all(|w| *w < 64));
    assert_eq!(unpack_72bits(&words), (value, rem));
    let bits = bits72(value, rem);
    assert_eq!(bits.len(), 72);
    assert_eq!(shift8(&bits, 64, 72), rem);
    assert_eq!(shift16(&bits, 0, 16), 0x0123);
    assert_eq!(bit_last_zero(&[0, 1, 0, 1, 1]), 2);
    assert_eq!(bit_last_zero(&[1, 1]), 0);
    let again = pack_72bits(value, rem).unwrap();
    assert_eq!(words, again);
}

#[test]
fn long_callsigns_in_fifty_bits() {
    for call in ["KN4CRD", "@GROUP/X", "VE7/KN4CRD", "3DA0XYZ", ""] {
        assert_eq!(unpack_alphanumeric50(pack_alphanumeric50(call)), call);
    }
    assert_eq!(an_index('0'), Some(0));
    assert_eq!(an_index('@'), Some(38));
    assert_eq!(an_index('a'), None);
}

#[test]
fn callsigns_in_twenty_eight_bits() {
    for call in ["N1MM", "K1ABC", "3DA0XYZ", "9A1A", "VE3NE", "@HB", "@ALLCALL"] {
        if let Some(v) = pack_callsign(call) {
            assert_eq!(unpack_callsign(v, false), call);
        } else {
            panic!("{call} does not pack");
        }
    }
    assert_eq!(pack_callsign("TOOLONGCALL"), None);
    assert_eq!(basecall_name(NBASECALL - 1), None);
    assert_eq!(basecall_name(NBASECALL + 2), Some("@ALLCALL"));
}

#[test]
fn squares_north_of_the_equator_come_back() {
    for square in ["AA00", "FN31", "JO62", "RR99", "IO91"] {
        let packed = pack_grid(square);
        if square.as_bytes()[1] >= b'J' {
            assert_eq!(unpack_grid(packed), square);
        }
    }
    assert_eq!(pack_grid(""), NMAXGRID);
    assert_eq!(unpack_grid(NBASEGRID + 1), "");
}

#[test]
fn commands_and_reports() {
    for (i, name) in DIRECTED_CMDS.iter().enumerate() {
        if !name.is_empty() {
            assert!(cmd_index(name).is_some(), "{i} {name}");
        }
    }
    assert!(is_snr(25));
    assert!(!is_snr(4));
    for n in -30i32..=31 {
        let text = format_snr(n).unwrap();
        let code = pack_num(&text).unwrap();
        let mut back = None;
        assert_eq!(unpack_cmd(pack_cmd(25, code), &mut back), Some(25));
        assert_eq!(back, Some(n as i16));
    }
    assert_eq!(format_snr(61), None);
    assert_eq!(format_snr(-61), None);
    assert_eq!(split_cmd_num(None), (None, None));
}

fn words(map: &[(u32, &str)]) -> JscMap {
    let mut code_to_pos = vec![JSC_UNMAPPED; 300];
    let mut words = Vec::new();
    for (code, word) in map {
        code_to_pos[*code as usize] = words.len() as u32;
        words.push(word.to_string());
    }
    JscMap::new(code_to_pos, words).unwrap()
}

#[test]
fn dictionaries_hold_the_words_of_their_codes() {
    let words = || vec!["A".to_string(), "B".to_string()];
    assert!(JscMap::new(vec![0, 1, JSC_UNMAPPED], words()).is_some());
    assert!(JscMap::new(vec![0, 2], words()).is_none());
    assert!(JscMap::new(vec![0], Vec::new()).is_none());
    assert!(JscMap::new(Vec::new(), Vec::new()).is_some());
    let map = JscMap::new(vec![1, 0], words()).unwrap();
    assert_eq!(jsc_decompress(&[0, 0, 0, 0, 0, 0, 0, 1], &map).as_deref(), Some("BA"));
}

#[test]
fn dictionary_words_are_joined() {
    let map = words(&[(3, "A"), (7 + 2, "THE"), (7 + 7 * 2 + 1, "OF")]);
    assert_eq!(jsc_decompress(&[0, 0, 1, 1], &map).as_deref(), Some("A"));
    assert_eq!(jsc_decompress(&[0, 1, 1, 1, 0, 0, 1, 0], &map).as_deref(), Some("THE"));
    let spaced = [0, 0, 1, 1, 1, 0, 0, 1, 0, 0, 0, 1];
    assert_eq!(jsc_decompress(&spaced, &map).as_deref(), Some("A OF"));
    assert_eq!(jsc_decompress(&[0, 0, 0, 0], &map), None);
    assert_eq!(jsc_decompress(&[0, 1, 1, 1], &map), None);
    assert_eq!(jsc_decompress(&[0, 0, 1], &map), None);
}

#[test]
fn data_frames_are_read_by_their_leading_bits() {
    let map = words(&[(3, "A")]);
    let mut bits = vec![0u8, 0, 1, 1, 0];
    bits.resize(72, 1);
    let value = bits[..64].iter().fold(0u64, |v, b| v << 1 | *b as u64);
    let rem = bits[64..].iter().fold(0u8, |v, b| v << 1 | *b);
    let w = pack_72bits(value, rem).unwrap();
    assert_eq!(unpack_fast_data(&w, &map).as_deref(), Some("A"));
    assert_eq!(unpack_legacy_data(&w, &map), None);
    let msg = message_of(&encode_tones(w, 4, &mode_a()));
    let frame = unpack_frame(&msg, &map).unwrap();
    assert_eq!(frame.kind, DecodedFrame::KIND_DATA_JSC);
    assert_eq!(frame.text, "A");

    let mut bits = vec![1u8, 0, 0, 0, 0, 1, 1, 1, 1, 1, 0, 0, 0];
    bits.resize(72, 1);
    let value = bits[..64].iter().fold(0u64, |v, b| v << 1 | *b as u64);
    let rem = bits[64..].iter().fold(0u8, |v, b| v << 1 | *b);
    let w = pack_72bits(value, rem).unwrap();
    let (kind, text) = unpack_legacy_data(&w, &map).unwrap();
    assert_eq!((kind, text.as_str()), (DecodedFrame::KIND_DATA_HUFF, "HI"));
    let msg = message_of(&encode_tones(w, 0, &mode_a()));
    assert_eq!(unpack_frame(&msg, &map).unwrap().message, "HI");
    assert_eq!(huff_decode(&[]), "");
    assert_eq!(FRAME_DIRECTED, 3);
}

#[test]
fn speeds_are_found_by_their_number() {
    let names: Vec<Option<&str>> =
        (0..6).map(|id| Mode::by_id(id).map(|m| m.name)).collect();
    assert_eq!(names, vec![Some("JS8A"), Some("JS8C"), Some("JS8B"), None, Some("JS8E"), None]);
    let a = mode_a();
    assert_eq!((a.nmax, a.nfft1, a.nstep, a.nhsym), (180_000, 3_840, 480, 372));
    assert_eq!((a.ndown, a.nqsymbol, a.ndfft1, a.ndfft2), (60, 8, 192_000, 3_200));
    assert_eq!((a.np2, a.jstrt, a.cycle_ms), (2_528, 12, 15_000));
    let e = Mode::by_id(4).unwrap();
    assert_eq!((e.nmax, e.nhsym, e.jstrt, e.ndfft2), (360_000, 372, 6, 3_008));
}
