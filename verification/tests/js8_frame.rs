//! Tests of the checksum and of the message bits.
use hl2::js8::frame::{crc12, extract_message};

#[test]
fn test_crc12() {
    let bytes = [107u8, 159, 207, 211, 23, 23, 235, 222, 0, 96, 0];
    assert_eq!(crc12(&bytes), 918 ^ 42, "CRC12 mismatch");
}

#[test]
fn test_encode_roundtrip_extract_message() {
    let payload: Vec<u8> = "W1AW        "
        .chars()
        .map(|c| {
            let c_b = c as u8;
            if (b'0'..=b'9').contains(&c_b) {
                c_b - b'0'
            } else if (b'A'..=b'Z').contains(&c_b) {
                10 + (c_b - b'A')
            } else if (b'a'..=b'z').contains(&c_b) {
                36 + (c_b - b'a')
            } else {
                0
            }
        })
        .collect();
    let payload: [u8; 12] = payload.try_into().unwrap();

    let msg_type = 1;

    let mut bytes = [0u8; 11];
    for (i, w) in payload.iter().enumerate() {
        for b in 0..6usize {
            let target = i * 6 + (5 - b);
            let byte_idx = target / 8;
            let col = target % 8;
            if (*w >> b) & 1 == 1 {
                bytes[byte_idx] |= 1 << (7 - col);
            }
        }
    }
    bytes[9] = (msg_type & 0x7) << 5;
    let crc = crc12(&bytes);
    bytes[9] |= ((crc >> 7) & 0x1F) as u8;
    bytes[10] = ((crc & 0x7F) << 1) as u8;

    let mut decoded: [i8; 87] = [0; 87];
    for i in 0..87usize {
        decoded[i] = ((bytes[i / 8] >> (7 - i % 8)) & 1) as i8;
    }

    let words = extract_message(&decoded).unwrap();
    assert_eq!(words, payload, "roundtrip words mismatch");
}

#[test]
fn test_extract_message_and_crc_check() {
    let chars: Vec<u8> = "CQDEW1AW0123".as_bytes().to_vec();
    let mut words = [0u8; 12];
    for (i, c) in chars.iter().enumerate() {
        let c = *c;
        words[i] = if (b'0'..=b'9').contains(&c) {
            c - b'0'
        } else if (b'A'..=b'Z').contains(&c) {
            10 + (c - b'A')
        } else {
            panic!("unexpected char: {}", c as char);
        };
    }

    let msg_type = 1;

    let mut bytes = [0u8; 11];
    for (i, w) in words.iter().enumerate() {
        for b in 0..6usize {
            let target = i * 6 + (5 - b);
            let byte_idx = target / 8;
            let col = target % 8;
            if (*w >> b) & 1 == 1 {
                bytes[byte_idx] |= 1 << (7 - col);
            }
        }
    }
    bytes[9] = (msg_type & 0x7) << 5;
    let crc = crc12(&bytes);
    bytes[9] |= ((crc >> 7) & 0x1F) as u8;
    bytes[10] = ((crc & 0x7F) << 1) as u8;

    let mut decoded: [i8; 87] = [0; 87];
    for i in 0..87usize {
        decoded[i] = ((bytes[i / 8] >> (7 - i % 8)) & 1) as i8;
    }

    let extracted = extracted_crc12_from_decoded(&decoded);
    assert_eq!(extracted, (crc) as u16, "CRC mismatch in decoded");

    let recovered = extract_message(&decoded).unwrap();
    assert_eq!(recovered, words, "payload words mismatch");
}

fn extracted_crc12_from_decoded(decoded: &[i8; 87]) -> u16 {
    let mut v: u16 = 0;
    for i in 0..12usize {
        v = (v << 1) | (decoded[75 + i] as u16 & 1);
    }
    v
}
