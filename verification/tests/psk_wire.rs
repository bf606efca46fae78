//! Tests of the datagrams.
use hl2::psk::wire::{
    build_packets, descriptor_sets, message, pad4, receiver_set, spot_record, Spot, Station,
    FLOW_START_SECONDS, MAX_UDP_IPFIX_PAYLOAD_BYTES, PSK_REPORTER_PEN, RECEIVER_TEMPLATE_ID,
    SENDER_TEMPLATE_ID,
};

fn station() -> Station {
    Station {
        callsign: "W1AW".into(),
        grid: "FN31ur".into(),
        program_info: "hl2-api/0.1.0-Linux x86_64".into(),
        antenna: "Yagi 3 el 20m".into(),
        rig_info: "Hermes-Lite 2".into(),
    }
}

fn spot(call: &str, grid: &str, freq: u32, t: u32) -> Spot {
    Spot {
        caller: call.into(),
        locator: grid.into(),
        freq_hz: freq,
        snr: -10,
        time_epoch: t,
        mode: "FT8".into(),
    }
}

#[test]
fn receiver_set_layout() {
    let s = station();
    let b = receiver_set(&s);
    let body = 4
        + (1 + s.callsign.len())
        + (1 + s.grid.len())
        + (1 + s.program_info.len())
        + (1 + s.antenna.len())
        + (1 + s.rig_info.len());
    let expected = body + pad4(body);
    assert_eq!(b.len(), expected);
    assert_eq!(&b[0..2], &RECEIVER_TEMPLATE_ID.to_be_bytes());
    let len_u16 = u16::from_be_bytes([b[2], b[3]]);
    assert_eq!(len_u16, expected as u16);
    assert_eq!(b[4], 4);
    assert_eq!(&b[5..9], b"W1AW");
}

#[test]
fn spot_record_layout() {
    let s = spot("K9ABC", "FN31", 14_075_000, 1_700_000_000);
    let b = spot_record(&s);
    assert_eq!(b.len(), 26);
    assert_eq!(&b[0..6], b"\x05K9ABC");
    let freq: u32 = 14_075_000;
    assert_eq!(b[6], (freq >> 24) as u8);
    assert_eq!(&b[7..11], &(freq & 0x00ff_ff_ff_u32).to_be_bytes());
    assert_eq!(b[11], (-10i8) as u8);
    assert_eq!(&b[12..16], b"\x03FT8");
    assert_eq!(&b[16..21], b"\x04FN31");
    assert_eq!(b[21], 1);
    assert_eq!(&b[22..26], &1_700_000_000u32.to_be_bytes());
}

#[test]
fn descriptor_sets_match_wsjtx_layout() {
    let d = descriptor_sets();
    let mut expected = Vec::new();
    fn push_descriptor(
        out: &mut Vec<u8>,
        record_type: u16,
        template: u16,
        scope: Option<u16>,
        fields: &[(u16, u16)],
    ) {
        let mut v = Vec::new();
        v.extend_from_slice(&record_type.to_be_bytes());
        v.extend_from_slice(&0u16.to_be_bytes());
        v.extend_from_slice(&template.to_be_bytes());
        v.extend_from_slice(&(fields.len() as u16).to_be_bytes());
        if let Some(s) = scope {
            v.extend_from_slice(&s.to_be_bytes());
        }
        for (id, len) in fields {
            if *id == FLOW_START_SECONDS {
                v.extend_from_slice(&id.to_be_bytes());
                v.extend_from_slice(&len.to_be_bytes());
            } else {
                v.extend_from_slice(&(0x8000u16 | id).to_be_bytes());
                v.extend_from_slice(&len.to_be_bytes());
                v.extend_from_slice(&PSK_REPORTER_PEN.to_be_bytes());
            }
        }
        let pad = (4 - v.len() % 4) % 4;
        v.extend(std::iter::repeat(0).take(pad));
        v[2] = (v.len() >> 8) as u8;
        v[3] = v.len() as u8;
        out.extend_from_slice(&v);
    }
    push_descriptor(
        &mut expected,
        2,
        SENDER_TEMPLATE_ID,
        None,
        &[
            (1, 0xffff),
            (5, 5),
            (6, 1),
            (10, 0xffff),
            (3, 0xffff),
            (11, 1),
            (150, 4),
        ],
    );
    push_descriptor(
        &mut expected,
        3,
        RECEIVER_TEMPLATE_ID,
        Some(1),
        &[
            (2, 0xffff),
            (4, 0xffff),
            (8, 0xffff),
            (9, 0xffff),
            (13, 0xffff),
        ],
    );
    assert_eq!(d, expected);
}

#[test]
fn message_header_only_layout() {
    let station = station();
    let mut base = Vec::new();
    base.extend_from_slice(&descriptor_sets());
    base.extend_from_slice(&receiver_set(&station));
    let msg = message(&base, 7, 0x1234_5678, 1_700_000_000);
    assert_eq!(&msg[0..2], &[0x00, 0x0a]);
    let len = u16::from_be_bytes([msg[2], msg[3]]) as usize;
    assert_eq!(len, msg.len(), "length backpatched to actual");
    assert_eq!(
        u32::from_be_bytes([msg[4], msg[5], msg[6], msg[7]]),
        1_700_000_000
    );
    assert_eq!(u32::from_be_bytes([msg[8], msg[9], msg[10], msg[11]]), 7);
    assert_eq!(
        u32::from_be_bytes([msg[12], msg[13], msg[14], msg[15]]),
        0x1234_5678
    );
    assert_eq!(msg.len(), 16 + base.len() + pad4(16 + base.len()));
}

#[test]
fn build_packets_no_spots_is_descriptor_only() {
    let st = station();
    let p = build_packets(
        &st,
        &[],
        true,
        7,
        0x1234_5678,
        1_700_000_000,
        MAX_UDP_IPFIX_PAYLOAD_BYTES,
    );
    assert_eq!(p.len(), 1);
    assert_eq!(p[0].spot_count, 0);
    assert!(!p[0].payload.is_empty());
    assert!(p[0].payload.len() <= MAX_UDP_IPFIX_PAYLOAD_BYTES);
    assert_eq!(&p[0].payload[0..2], &[0x00, 0x0a]);
}

#[test]
fn build_packets_with_spots_is_single_packet() {
    let st = station();
    let spots = vec![
        spot("K9ABC", "FN31", 14_075_000, 1_700_000_000),
        spot("W2XYZ", "", 7_074_000, 1_700_000_000),
        spot("N0EBT/K7", "FN31", 3_573_500, 1_700_000_000),
    ];
    let p = build_packets(
        &st,
        &spots,
        true,
        0,
        0x1234_5678,
        1_700_000_000,
        MAX_UDP_IPFIX_PAYLOAD_BYTES,
    );
    assert_eq!(p.len(), 1);
    assert_eq!(p[0].spot_count, 3);
    assert!(p[0].payload.len() <= MAX_UDP_IPFIX_PAYLOAD_BYTES);
}

#[test]
fn golden_matches_wsjtx_reference() {
    let st = station();
    let spots = vec![spot("K9ABC", "FN31ur", 14_075_000, 1_700_000_000)];
    let p = build_packets(
        &st,
        &spots,
        true,
        7,
        0x1234_5678,
        1_700_000_000,
        MAX_UDP_IPFIX_PAYLOAD_BYTES,
    );
    assert_eq!(p.len(), 1);
    let expected = hex(
        "000a00e86553f10000000007123456780002003c50e300078001ffff0000768f800500050000768f800600010000768f800affff0000768f8003ffff0000768f800b00010000768f009600040003003450e2000500018002ffff0000768f8004ffff0000768f8008ffff0000768f8009ffff0000768f800dffff0000768f000050e20048045731415706464e333175721a686c322d6170692f302e312e302d4c696e7578207838365f36340d59616769203320656c2032306d0d4865726d65732d4c69746520320050e30020054b394142430000d6c478f60346543806464e33317572016553f100",
    );
    assert_eq!(
        p[0].payload, expected,
        "golden datagram must be byte-identical to the wsjtx reference",
    );
}

fn hex(h: &str) -> Vec<u8> {
    (0..h.len())
        .step_by(2)
        .map(|i| u8::from_str_radix(&h[i..i + 2], 16).unwrap())
        .collect()
}

#[test]
fn split_at_max_payload_bytes() {
    let st = station();
    let spots: Vec<Spot> = (0..20)
        .map(|i| spot(&format!("CALL{i:02}"), "", 14_075_000, 1_700_000_000))
        .collect();
    let one_record = spot_record(&spots[0]).len();
    let mut base = Vec::new();
    base.extend_from_slice(&descriptor_sets());
    base.extend_from_slice(&receiver_set(&st));
    let ss1_len = 4 + one_record + pad4(4 + one_record);
    let body1 = 16usize + base.len() + ss1_len;
    let min_for_one = body1 + pad4(body1);
    let p = build_packets(
        &st,
        &spots,
        true,
        0,
        0x1234_5678,
        1_700_000_000,
        min_for_one,
    );
    assert!(p.len() >= 2, "expected splits, got {}", p.len());
    assert!(p.iter().all(|pk| pk.payload.len() <= min_for_one));
    let total: usize = p.iter().map(|pk| pk.spot_count).sum();
    assert_eq!(total, spots.len());
}
