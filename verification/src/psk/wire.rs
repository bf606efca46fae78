//! The datagrams that carry spots.
//!
//! PSK Reporter speaks a dialect of IPFIX with two templates of its own: receiver information and
//! spot records. Numbers are big-endian. Sets and messages are filled up with zeros to a multiple
//! of four bytes, and each carries its length.
use vstd::prelude::*;
use vstd::utf8;

verus! {

/// The longest callsign, in bytes.
pub const CALLER_LIMIT: usize = 32;

/// The longest locator, in bytes.
pub const LOCATOR_LIMIT: usize = 16;

/// The longest mode name, in bytes.
pub const MODE_LIMIT: usize = 16;

/// The longest program description, in bytes.
pub const PROGRAM_INFO_LIMIT: usize = 80;

/// The longest antenna description, in bytes.
pub const ANTENNA_LIMIT: usize = 128;

/// The longest rig description, in bytes.
pub const RIG_INFO_LIMIT: usize = 128;

/// The enterprise number of PSK Reporter. It follows each field that is not a standard one.
pub const PSK_REPORTER_PEN: u32 = 30351;

/// The standard field `flowStartSeconds`, which no enterprise number follows.
pub const FLOW_START_SECONDS: u16 = 150;

/// The template of receiver information.
pub const RECEIVER_TEMPLATE_ID: u16 = 0x50e2;

/// The template of spot records.
pub const SENDER_TEMPLATE_ID: u16 = 0x50e3;

/// The longest datagram over UDP.
pub const MAX_UDP_IPFIX_PAYLOAD_BYTES: usize = 1000 - 40 - 8;

/// The longest datagram over TCP.
pub const MAX_TCP_IPFIX_PAYLOAD_BYTES: usize = 0xffff;

/// A decoded station.
#[derive(Debug, Clone, PartialEq)]
pub struct Spot {
    /// The decoded callsign.
    pub caller: String,
    /// The decoded square, or empty when the message carried none.
    pub locator: String,
    /// Frequency in Hz.
    pub freq_hz: u32,
    /// Signal to noise ratio in dB.
    pub snr: i8,
    /// Start of the signal, in seconds since 1970.
    pub time_epoch: u32,
    /// Name of the mode.
    pub mode: String,
}

/// The receiving station.
#[derive(Debug, Clone, PartialEq)]
pub struct Station {
    pub callsign: String,
    pub grid: String,
    pub program_info: String,
    pub antenna: String,
    pub rig_info: String,
}

/// One datagram.
#[derive(Debug, Clone, PartialEq, Eq)]
pub struct Packet {
    /// The bytes to send.
    pub payload: Vec<u8>,
    /// How many spot records it carries. The sequence counter advances by as many.
    pub spot_count: usize,
}

/// How many zeros fill a length up to a multiple of four.
pub open spec fn fill(n: int) -> int {
    (4 - n % 4) % 4
}

/// A run of zeros.
pub open spec fn zeros(n: int) -> Seq<u8> {
    Seq::new(n as nat, |i: int| 0u8)
}

/// The low 16 bits of a number, the upper byte first.
pub open spec fn be16(n: int) -> Seq<u8> {
    seq![(n / 256 % 256) as u8, (n % 256) as u8]
}

/// The low 32 bits of a number, the upper bytes first.
pub open spec fn be32(n: int) -> Seq<u8> {
    seq![
        (n / 0x100_0000 % 256) as u8,
        (n / 0x1_0000 % 256) as u8,
        (n / 256 % 256) as u8,
        (n % 256) as u8,
    ]
}

/// A text with its length in front: its UTF-8 bytes, cut after `max` bytes.
pub open spec fn counted(s: Seq<char>, max: int) -> Seq<u8> {
    let b = utf8::encode_utf8(s);
    let n = if b.len() < max {
        b.len() as int
    } else {
        max
    };
    seq![n as u8] + b.take(n)
}

/// A set that is filled up to a multiple of four, with its length in bytes 2 and 3.
pub open spec fn finished(d: Seq<u8>) -> Seq<u8> {
    d.take(2) + be16(d.len() + fill(d.len() as int)) + d.skip(4) + zeros(fill(d.len() as int))
}

/// The description of one field: number and length, and the enterprise number behind a field of
/// PSK Reporter's own, which has the top bit of its number set.
pub open spec fn field_bytes(id: u16, len: u16) -> Seq<u8> {
    if id == FLOW_START_SECONDS {
        be16(id as int) + be16(len as int)
    } else {
        be16((0x8000u16 | id) as int) + be16(len as int) + be32(PSK_REPORTER_PEN as int)
    }
}

/// The descriptions of the first `n` fields.
pub open spec fn fields_bytes(fields: Seq<(u16, u16)>, n: nat) -> Seq<u8>
    decreases n,
{
    if n == 0 {
        Seq::empty()
    } else {
        fields_bytes(fields, (n - 1) as nat) + field_bytes(fields[n - 1].0, fields[n - 1].1)
    }
}

/// The description of a template.
pub open spec fn descriptor_bytes(
    record_type: u16,
    template: u16,
    scope: Option<u16>,
    fields: Seq<(u16, u16)>,
) -> Seq<u8> {
    let s = match scope {
        Some(n) => be16(n as int),
        None => Seq::empty(),
    };
    finished(
        be16(record_type as int) + be16(0) + be16(template as int) + be16(fields.len() as int) + s
            + fields_bytes(fields, fields.len()),
    )
}

/// The fields of a spot record.
pub open spec fn sender_fields() -> Seq<(u16, u16)> {
    seq![
        (1u16, 0xffffu16),
        (5u16, 5u16),
        (6u16, 1u16),
        (10u16, 0xffffu16),
        (3u16, 0xffffu16),
        (11u16, 1u16),
        (150u16, 4u16),
    ]
}

/// The fields of receiver information.
pub open spec fn receiver_fields() -> Seq<(u16, u16)> {
    seq![
        (2u16, 0xffffu16),
        (4u16, 0xffffu16),
        (8u16, 0xffffu16),
        (9u16, 0xffffu16),
        (13u16, 0xffffu16),
    ]
}

/// The descriptions of both templates.
pub open spec fn templates() -> Seq<u8> {
    descriptor_bytes(2, SENDER_TEMPLATE_ID, None, sender_fields()) + descriptor_bytes(
        3,
        RECEIVER_TEMPLATE_ID,
        Some(1u16),
        receiver_fields(),
    )
}

/// The set with the receiver information of a station.
pub open spec fn station_set(s: Station) -> Seq<u8> {
    finished(
        be16(RECEIVER_TEMPLATE_ID as int) + be16(0) + counted(s.callsign@, CALLER_LIMIT as int)
            + counted(s.grid@, LOCATOR_LIMIT as int) + counted(
            s.program_info@,
            PROGRAM_INFO_LIMIT as int,
        ) + counted(s.antenna@, ANTENNA_LIMIT as int) + counted(s.rig_info@, RIG_INFO_LIMIT as int),
    )
}

/// The record of a spot: callsign, five bytes of frequency, signal to noise ratio, mode, locator, a
/// 1 for an automatic report, and the time.
pub open spec fn record_bytes(s: Spot) -> Seq<u8> {
    counted(s.caller@, CALLER_LIMIT as int) + seq![0u8] + be32(s.freq_hz as int) + seq![
        (s.snr as int % 256) as u8,
    ] + counted(s.mode@, MODE_LIMIT as int) + counted(s.locator@, LOCATOR_LIMIT as int) + seq![1u8]
        + be32(s.time_epoch as int)
}

/// Records one behind the other.
pub open spec fn joined(records: Seq<Seq<u8>>) -> Seq<u8>
    decreases records.len(),
{
    if records.len() == 0 {
        Seq::empty()
    } else {
        joined(records.drop_last()) + records.last()
    }
}

/// The set with spot records.
#[verifier::opaque]
pub open spec fn records_set(records: Seq<Seq<u8>>) -> Seq<u8> {
    finished(be16(SENDER_TEMPLATE_ID as int) + be16(0) + joined(records))
}

/// A message: version 10, its length, the time, the sequence number, the observation domain and
/// the sets, filled up to a multiple of four.
#[verifier::opaque]
pub open spec fn message_bytes(sets: Seq<u8>, seq: int, obs: int, now: int) -> Seq<u8> {
    let body = 16 + sets.len();
    be16(10) + be16(body + fill(body as int)) + be32(now) + be32(seq) + be32(obs) + sets + zeros(
        fill(body as int),
    )
}

/// Returns how many zeros fill a length up to a multiple of four.
pub fn pad4(n: usize) -> (r: usize)
    ensures
        r == fill(n as int),
{
    (4 - n % 4) % 4
}

fn push_bytes(out: &mut Vec<u8>, more: &[u8])
    ensures
        final(out)@ == old(out)@ + more@,
{
    for i in 0..more.len()
        invariant
            out@ == old(out)@ + more@.take(i as int),
    {
        out.push(more[i]);
    }
    assert(more@.take(more@.len() as int) == more@);
}

fn push_be16(out: &mut Vec<u8>, n: u16)
    ensures
        final(out)@ == old(out)@ + be16(n as int),
{
    out.push((n / 256) as u8);
    out.push((n % 256) as u8);
    assert(out@ =~= old(out)@ + be16(n as int));
}

fn push_be32(out: &mut Vec<u8>, n: u32)
    ensures
        final(out)@ == old(out)@ + be32(n as int),
{
    out.push((n / 0x100_0000) as u8);
    out.push((n / 0x1_0000 % 256) as u8);
    out.push((n / 256 % 256) as u8);
    out.push((n % 256) as u8);
    assert(out@ =~= old(out)@ + be32(n as int));
}

fn push_zeros(out: &mut Vec<u8>, n: usize)
    ensures
        final(out)@ == old(out)@ + zeros(n as int),
{
    for i in 0..n
        invariant
            out@ == old(out)@ + zeros(i as int),
    {
        out.push(0);
        assert(zeros(i as int).push(0u8) =~= zeros(i + 1));
    }
}

/// Appends a text with its length in front, cut after `max_bytes` bytes.
fn write_utf(out: &mut Vec<u8>, s: &str, max_bytes: usize)
    requires
        max_bytes <= 255,
    ensures
        final(out)@ == old(out)@ + counted(s@, max_bytes as int),
{
    let b: &[u8] = s.as_bytes();
    let n: usize = if b.len() < max_bytes {
        b.len()
    } else {
        max_bytes
    };
    out.push(n as u8);
    for i in 0..n
        invariant
            n <= b@.len(),
            out@ == old(out)@ + (seq![n as u8] + b@.take(i as int)),
    {
        out.push(b[i]);
    }
}

/// Fills a set up to a multiple of four and writes its length into bytes 2 and 3.
fn finalize_set(data: &mut Vec<u8>)
    requires
        4 <= old(data)@.len() <= usize::MAX - 3,
    ensures
        final(data)@ == finished(old(data)@),
{
    let pad: usize = pad4(data.len());
    push_zeros(data, pad);
    let n: usize = data.len();
    data.set(2, (n / 256 % 256) as u8);
    data.set(3, (n % 256) as u8);
    assert(data@ =~= finished(old(data)@));
}

fn descriptor(
    record_type: u16,
    template: u16,
    scope: Option<u16>,
    fields: &[(u16, u16)],
) -> (r: Vec<u8>)
    requires
        fields@.len() < 0x1_0000,
    ensures
        r@ == descriptor_bytes(record_type, template, scope, fields@),
{
    let mut d: Vec<u8> = Vec::new();
    push_be16(&mut d, record_type);
    push_be16(&mut d, 0);
    push_be16(&mut d, template);
    push_be16(&mut d, fields.len() as u16);
    if let Some(s) = scope {
        push_be16(&mut d, s);
    }
    let ghost head = d@;
    for i in 0..fields.len()
        invariant
            fields@.len() < 0x1_0000,
            d@ == head + fields_bytes(fields@, i as nat),
            d@.len() <= head.len() + 8 * i,
    {
        let (id, len) = fields[i];
        if id == FLOW_START_SECONDS {
            push_be16(&mut d, id);
            push_be16(&mut d, len);
        } else {
            push_be16(&mut d, 0x8000u16 | id);
            push_be16(&mut d, len);
            push_be32(&mut d, PSK_REPORTER_PEN);
        }
        assert(d@ =~= head + fields_bytes(fields@, (i + 1) as nat));
    }
    let ghost before = d@;
    finalize_set(&mut d);
    proof {
        let s = match scope {
            Some(n) => be16(n as int),
            None => Seq::empty(),
        };
        assert(before =~= be16(record_type as int) + be16(0) + be16(template as int) + be16(
            fields@.len() as int,
        ) + s + fields_bytes(fields@, fields@.len()));
    }
    d
}

/// The descriptions of both templates, that of the spot records first.
pub fn descriptor_sets() -> (r: Vec<u8>)
    ensures
        r@ == templates(),
{
    let sender: [(u16, u16); 7] = [
        (1, 0xffff),
        (5, 5),
        (6, 1),
        (10, 0xffff),
        (3, 0xffff),
        (11, 1),
        (150, 4),
    ];
    let receiver: [(u16, u16); 5] = [
        (2, 0xffff),
        (4, 0xffff),
        (8, 0xffff),
        (9, 0xffff),
        (13, 0xffff),
    ];
    assert(sender@ =~= sender_fields());
    assert(receiver@ =~= receiver_fields());
    let mut out: Vec<u8> = descriptor(2, SENDER_TEMPLATE_ID, None, sender.as_slice());
    let more: Vec<u8> = descriptor(3, RECEIVER_TEMPLATE_ID, Some(1), receiver.as_slice());
    push_bytes(&mut out, more.as_slice());
    out
}

proof fn lemma_counted_len(s: Seq<char>, max: int)
    requires
        0 <= max <= 255,
    ensures
        1 <= counted(s, max).len() <= max + 1,
{
}

/// The set with the receiver information of a station.
pub fn receiver_set(station: &Station) -> (r: Vec<u8>)
    ensures
        r@ == station_set(*station),
        r@.len() <= 396,
{
    let mut data: Vec<u8> = Vec::new();
    push_be16(&mut data, RECEIVER_TEMPLATE_ID);
    push_be16(&mut data, 0);
    write_utf(&mut data, station.callsign.as_str(), CALLER_LIMIT);
    write_utf(&mut data, station.grid.as_str(), LOCATOR_LIMIT);
    write_utf(&mut data, station.program_info.as_str(), PROGRAM_INFO_LIMIT);
    write_utf(&mut data, station.antenna.as_str(), ANTENNA_LIMIT);
    write_utf(&mut data, station.rig_info.as_str(), RIG_INFO_LIMIT);
    let ghost before = data@;
    proof {
        lemma_counted_len(station.callsign@, 32);
        lemma_counted_len(station.grid@, 16);
        lemma_counted_len(station.program_info@, 80);
        lemma_counted_len(station.antenna@, 128);
        lemma_counted_len(station.rig_info@, 128);
    }
    finalize_set(&mut data);
    assert(before =~= be16(RECEIVER_TEMPLATE_ID as int) + be16(0) + counted(station.callsign@, 32)
        + counted(station.grid@, 16) + counted(station.program_info@, 80) + counted(
        station.antenna@,
        128,
    ) + counted(station.rig_info@, 128));
    data
}

/// A record has at most 78 bytes.
pub proof fn lemma_record_len(s: Spot)
    ensures
        14 <= record_bytes(s).len() <= 78,
{
    lemma_counted_len(s.caller@, 32);
    lemma_counted_len(s.mode@, 16);
    lemma_counted_len(s.locator@, 16);
}

/// The record of a spot.
pub fn spot_record(spot: &Spot) -> (r: Vec<u8>)
    ensures
        r@ == record_bytes(*spot),
{
    let mut data: Vec<u8> = Vec::new();
    write_utf(&mut data, spot.caller.as_str(), CALLER_LIMIT);
    data.push(0);
    push_be32(&mut data, spot.freq_hz);
    let snr: u8 = if spot.snr < 0 {
        (spot.snr as i16 + 256) as u8
    } else {
        spot.snr as u8
    };
    data.push(snr);
    write_utf(&mut data, spot.mode.as_str(), MODE_LIMIT);
    write_utf(&mut data, spot.locator.as_str(), LOCATOR_LIMIT);
    data.push(1);
    push_be32(&mut data, spot.time_epoch);
    assert(data@ =~= record_bytes(*spot));
    data
}

/// The contents of byte vectors.
pub open spec fn contents(v: Seq<Vec<u8>>) -> Seq<Seq<u8>> {
    Seq::new(v.len(), |i: int| v[i]@)
}

proof fn lemma_joined_len(records: Seq<Seq<u8>>)
    requires
        forall|i: int| 0 <= i < records.len() ==> #[trigger] records[i].len() <= 78,
    ensures
        joined(records).len() <= 78 * records.len(),
    decreases records.len(),
{
    if records.len() > 0 {
        lemma_joined_len(records.drop_last());
        assert(records.last() == records[records.len() - 1]);
    }
}

/// The set with spot records.
fn sender_set(records: &[Vec<u8>]) -> (r: Vec<u8>)
    requires
        joined(contents(records@)).len() + 8 <= usize::MAX,
    ensures
        r@ == records_set(contents(records@)),
{
    let mut data: Vec<u8> = Vec::new();
    push_be16(&mut data, SENDER_TEMPLATE_ID);
    push_be16(&mut data, 0);
    let ghost head = data@;
    let ghost all = contents(records@);
    for i in 0..records.len()
        invariant
            all == contents(records@),
            data@ == head + joined(all.take(i as int)),
    {
        push_bytes(&mut data, records[i].as_slice());
        assert(all.take(i + 1).drop_last() =~= all.take(i as int));
        assert(all.take(i + 1).last() == records@[i as int]@);
        assert(data@ =~= head + joined(all.take(i + 1)));
    }
    assert(all.take(all.len() as int) =~= all);
    let ghost before = data@;
    finalize_set(&mut data);
    proof {
        reveal(records_set);
    }
    assert(before =~= be16(SENDER_TEMPLATE_ID as int) + be16(0) + joined(all));
    data
}

proof fn lemma_be16_value(n: int)
    requires
        n >= 0,
    ensures
        be16(n).len() == 2,
        be16(n)[0] * 256 + be16(n)[1] == n % 0x1_0000,
{
    vstd::arithmetic::div_mod::lemma_breakdown(n, 256, 256);
}

proof fn lemma_be16_wraps(n: int)
    requires
        n >= 0,
    ensures
        be16(n % 0x1_0000) == be16(n),
{
    let high = n / 256 % 256;
    let low = n % 256;
    vstd::arithmetic::div_mod::lemma_breakdown(n, 256, 256);
    vstd::arithmetic::div_mod::lemma_fundamental_div_mod_converse(
        n % 0x1_0000,
        256,
        high,
        low,
    );
    vstd::arithmetic::div_mod::lemma_small_mod(high as nat, 256);
}

/// A message around sets.
pub fn message(sets: &[u8], seq: u32, obs: u32, now: u32) -> (r: Vec<u8>)
    requires
        sets@.len() + 19 <= usize::MAX,
    ensures
        r@ == message_bytes(sets@, seq as int, obs as int, now as int),
{
    let body: usize = 16 + sets.len();
    let total: usize = body + pad4(body);
    let mut msg: Vec<u8> = Vec::new();
    push_be16(&mut msg, 10);
    push_be16(&mut msg, (total % 0x1_0000) as u16);
    proof {
        lemma_be16_wraps(total as int);
    }
    push_be32(&mut msg, now);
    push_be32(&mut msg, seq);
    push_be32(&mut msg, obs);
    assert(msg@ == be16(10) + be16(total as int) + be32(now as int) + be32(seq as int) + be32(
        obs as int,
    )) by {
        assert(Seq::<u8>::empty() + be16(10) =~= be16(10));
    }
    push_bytes(&mut msg, sets);
    push_zeros(&mut msg, pad4(body));
    proof {
        reveal(message_bytes);
    }
    msg
}

// ---- packets ----

/// The records of spots.
pub open spec fn records_of(spots: Seq<Spot>) -> Seq<Seq<u8>> {
    Seq::new(spots.len(), |i: int| record_bytes(spots[i]))
}

/// The length of a message with `base` bytes of other sets and a set of `bytes` bytes of records.
pub open spec fn packet_len(base: int, bytes: int) -> int {
    let body = 16 + base + 4 + bytes + fill(4 + bytes);
    body + fill(body)
}

/// How many records go into a packet that already holds `n` of them: as many of the next as leave
/// the packet within `max` bytes.
#[verifier::opaque]
pub open spec fn filled(records: Seq<Seq<u8>>, base: int, max: int, n: nat) -> nat
    decreases records.len() - n,
{
    if n < records.len() && packet_len(base, joined(records.take((n + 1) as int)).len() as int) <= max {
        filled(records, base, max, n + 1)
    } else {
        n
    }
}

/// The packets that carry records: each takes one record, and more as long as they fit. The first
/// one starts with the sets `base`, the others with the sets `later`. Each packet's sequence number
/// counts the records before it.
#[verifier::opaque]
pub open spec fn packets(
    base: Seq<u8>,
    later: Seq<u8>,
    records: Seq<Seq<u8>>,
    seq: int,
    obs: int,
    now: int,
    max: int,
) -> Seq<(Seq<u8>, nat)>
    decreases records.len(),
{
    let n = filled(records, base.len() as int, max, 1);
    if records.len() == 0 || n < 1 || n > records.len() {
        Seq::empty()
    } else {
        let payload = message_bytes(
            base + records_set(records.take(n as int)),
            seq % 0x1_0000_0000,
            obs,
            now,
        );
        seq![(payload, n)] + packets(later, later, records.skip(n as int), seq + n, obs, now, max)
    }
}

/// The datagrams of a send cycle: without spots one message with the first sets alone.
pub open spec fn datagrams(
    station: Station,
    spots: Seq<Spot>,
    with_templates: bool,
    seq: int,
    obs: int,
    now: int,
    max: int,
) -> Seq<(Seq<u8>, nat)> {
    let later = station_set(station);
    let base = if with_templates {
        templates() + later
    } else {
        later
    };
    if spots.len() == 0 {
        seq![(message_bytes(base, seq, obs, now), 0nat)]
    } else {
        packets(base, later, records_of(spots), seq, obs, now, max)
    }
}

/// The contents of packets.
pub open spec fn packet_views(v: Seq<Packet>) -> Seq<(Seq<u8>, nat)> {
    Seq::new(v.len(), |i: int| (v[i].payload@, v[i].spot_count as nat))
}

proof fn lemma_filled(records: Seq<Seq<u8>>, base: int, max: int, n: nat)
    requires
        n <= records.len(),
    ensures
        n <= filled(records, base, max, n) <= records.len(),
    decreases records.len() - n,
{
    reveal(filled);
    if n < records.len() {
        lemma_filled(records, base, max, n + 1);
    }
}

proof fn lemma_finished_len(d: Seq<u8>)
    requires
        d.len() >= 4,
    ensures
        finished(d).len() == d.len() + fill(d.len() as int),
{
}

/// The set with records has four bytes in front of them and is filled up.
pub proof fn lemma_records_set_len(records: Seq<Seq<u8>>)
    ensures
        records_set(records).len() == 4 + joined(records).len() + fill(
            (4 + joined(records).len()) as int,
        ),
{
    reveal(records_set);
    lemma_finished_len(be16(SENDER_TEMPLATE_ID as int) + be16(0) + joined(records));
}

/// The length that decides whether a record still fits is the length of the message.
pub proof fn law_packet_len(base: Seq<u8>, records: Seq<Seq<u8>>, seq: int, obs: int, now: int)
    ensures
        message_bytes(base + records_set(records), seq, obs, now).len() == packet_len(
            base.len() as int,
            joined(records).len() as int,
        ),
{
    reveal(message_bytes);
    lemma_records_set_len(records);
}

/// One datagram around sets and records.
fn build_packet(base: &[u8], records: &[Vec<u8>], seq: u32, obs: u32, now: u32) -> (r: Packet)
    requires
        base@.len() + joined(contents(records@)).len() + 64 <= usize::MAX,
    ensures
        r.payload@ == message_bytes(
            base@ + records_set(contents(records@)),
            seq as int,
            obs as int,
            now as int,
        ),
        r.spot_count == records@.len(),
{
    let mut sets: Vec<u8> = Vec::new();
    push_bytes(&mut sets, base);
    let ss: Vec<u8> = sender_set(records);
    proof {
        lemma_records_set_len(contents(records@));
    }
    push_bytes(&mut sets, ss.as_slice());
    assert(sets@ =~= base@ + records_set(contents(records@)));
    Packet { payload: message(sets.as_slice(), seq, obs, now), spot_count: records.len() }
}

/// The records of the spots `from..` as they are laid out.
spec fn rest_of(spots: Seq<Spot>, from: int) -> Seq<Seq<u8>> {
    records_of(spots).skip(from)
}

proof fn lemma_packets_first(
    base: Seq<u8>,
    later: Seq<u8>,
    records: Seq<Seq<u8>>,
    seq: int,
    obs: int,
    now: int,
    max: int,
    n: nat,
)
    requires
        1 <= n <= records.len(),
        filled(records, base.len() as int, max, 1) == n,
    ensures
        packets(base, later, records, seq, obs, now, max) == seq![
            (
                message_bytes(
                    base + records_set(records.take(n as int)),
                    seq % 0x1_0000_0000,
                    obs,
                    now,
                ),
                n,
            ),
        ] + packets(later, later, records.skip(n as int), seq + n, obs, now, max),
{
    reveal(packets);
}

proof fn lemma_filled_step(records: Seq<Seq<u8>>, base: int, max: int, n: nat)
    ensures
        n >= records.len() ==> filled(records, base, max, n) == n,
        n < records.len() ==> filled(records, base, max, n) == (if packet_len(
            base,
            joined(records.take((n + 1) as int)).len() as int,
        ) <= max {
            filled(records, base, max, n + 1)
        } else {
            n
        }),
{
    reveal(filled);
}

proof fn lemma_templates_len()
    ensures
        templates().len() <= 1000,
{
    reveal_with_fuel(fields_bytes, 8);
    assert(sender_fields().len() == 7);
    assert(receiver_fields().len() == 5);
    let a = be16(2) + be16(0) + be16(SENDER_TEMPLATE_ID as int) + be16(7) + Seq::<u8>::empty()
        + fields_bytes(sender_fields(), 7);
    let b = be16(3) + be16(0) + be16(RECEIVER_TEMPLATE_ID as int) + be16(5) + be16(1)
        + fields_bytes(receiver_fields(), 5);
    lemma_fields_len(sender_fields(), 7);
    lemma_fields_len(receiver_fields(), 5);
    lemma_finished_len(a);
    lemma_finished_len(b);
}

proof fn lemma_fields_len(fields: Seq<(u16, u16)>, n: nat)
    ensures
        fields_bytes(fields, n).len() <= 8 * n,
    decreases n,
{
    if n > 0 {
        lemma_fields_len(fields, (n - 1) as nat);
    }
}

/// Takes the records of the next packet: one, and more as long as they fit.
fn fill_packet(spots: &[Spot], from: usize, base: usize, max: usize) -> (r: Vec<Vec<u8>>)
    requires
        from < spots@.len(),
        base <= 1396,
        78 * spots@.len() + 2000 <= usize::MAX,
    ensures
        r@.len() == filled(rest_of(spots@, from as int), base as int, max as int, 1),
        1 <= r@.len() <= spots@.len() - from,
        contents(r@) == rest_of(spots@, from as int).take(r@.len() as int),
        joined(contents(r@)).len() <= 78 * r@.len(),
{
    let ghost rest = rest_of(spots@, from as int);
    let mut records: Vec<Vec<u8>> = Vec::new();
    let first: Vec<u8> = spot_record(&spots[from]);
    proof {
        lemma_record_len(spots@[from as int]);
    }
    let mut bytes: usize = first.len();
    records.push(first);
    assert(contents(records@) =~= rest.take(1));
    assert(contents(records@).drop_last() =~= Seq::empty());
    proof {
        reveal_with_fuel(joined, 2);
        assert(joined(Seq::<Seq<u8>>::empty()) =~= Seq::<u8>::empty());
    }
    let mut i: usize = from + 1;
    while i < spots.len()
        invariant
            rest == rest_of(spots@, from as int),
            base <= 1396,
            78 * spots@.len() + 2000 <= usize::MAX,
            from < i <= spots@.len(),
            records@.len() == i - from,
            contents(records@) == rest.take(i - from),
            bytes == joined(contents(records@)).len(),
            bytes <= 78 * (i - from),
            filled(rest, base as int, max as int, 1) == filled(
                rest,
                base as int,
                max as int,
                (i - from) as nat,
            ),
        decreases spots@.len() - i,
    {
        let record: Vec<u8> = spot_record(&spots[i]);
        proof {
            lemma_record_len(spots@[i as int]);
            let n = (i - from) as nat;
            assert(rest.take((n + 1) as int).drop_last() =~= rest.take(n as int));
            assert(rest.take((n + 1) as int).last() == record@);
            lemma_filled_step(rest, base as int, max as int, n);
        }
        let would_be: usize = bytes + record.len();
        let set_len: usize = 4 + would_be + pad4(4 + would_be);
        let body: usize = 16 + base + set_len;
        if body + pad4(body) > max {
            return records;
        }
        let ghost held = contents(records@);
        records.push(record);
        assert(contents(records@) =~= held.push(record@));
        assert(contents(records@) =~= rest.take(i + 1 - from));
        bytes = would_be;
        i = i + 1;
    }
    proof {
        lemma_filled_step(rest, base as int, max as int, (i - from) as nat);
    }
    records
}

proof fn lemma_views_push(v: Seq<Packet>, p: Packet)
    ensures
        packet_views(v.push(p)) == packet_views(v).push((p.payload@, p.spot_count as nat)),
{
    assert(packet_views(v.push(p)) =~= packet_views(v).push((p.payload@, p.spot_count as nat)));
}

proof fn lemma_next_seq(seq: int, from: int, cur: u32, count: int)
    requires
        cur as int == (seq + from) % 0x1_0000_0000,
        0 <= count,
    ensures
        cur.wrapping_add((count % 0x1_0000_0000) as u32) as int == (seq + from + count)
            % 0x1_0000_0000,
{
}

proof fn lemma_packets_step(
    done: Seq<Packet>,
    packet: Packet,
    base: Seq<u8>,
    later: Seq<u8>,
    spots: Seq<Spot>,
    from: int,
    seq: int,
    obs: int,
    now: int,
    max: int,
)
    requires
        0 <= from,
        1 <= packet.spot_count <= spots.len() - from,
        packet.spot_count == filled(rest_of(spots, from), base.len() as int, max, 1),
        packet.payload@ == message_bytes(
            base + records_set(rest_of(spots, from).take(packet.spot_count as int)),
            (seq + from) % 0x1_0000_0000,
            obs,
            now,
        ),
    ensures
        packet_views(done.push(packet)) + packets(
            later,
            later,
            rest_of(spots, from + packet.spot_count),
            seq + (from + packet.spot_count),
            obs,
            now,
            max,
        ) == packet_views(done) + packets(
            base,
            later,
            rest_of(spots, from),
            seq + from,
            obs,
            now,
            max,
        ),
{
    let rest = rest_of(spots, from);
    let n = packet.spot_count as nat;
    let view = (packet.payload@, n);
    lemma_packets_first(base, later, rest, seq + from, obs, now, max, n);
    lemma_views_push(done, packet);
    assert(rest.skip(n as int) =~= rest_of(spots, from + n));
    let tail = packets(later, later, rest_of(spots, from + n), seq + (from + n), obs, now, max);
    assert(packet_views(done) + (seq![view] + tail) =~= packet_views(done).push(view) + tail);
}

/// Builds the datagrams of one send cycle.
///
/// With `include_descriptors` the first datagram carries the template descriptions. Spots that do
/// not fit into `max_payload_bytes` go into further datagrams, which carry the receiver information
/// again but not the templates. `seq` is the running sequence counter, which each datagram's
/// `spot_count` advances.
pub fn build_packets(
    receiver: &Station,
    spots: &[Spot],
    include_descriptors: bool,
    seq: u32,
    obs: u32,
    now: u32,
    max_payload_bytes: usize,
) -> (r: Vec<Packet>)
    requires
        78 * spots@.len() + 2000 <= usize::MAX,
    ensures
        packet_views(r@) == datagrams(
            *receiver,
            spots@,
            include_descriptors,
            seq as int,
            obs as int,
            now as int,
            max_payload_bytes as int,
        ),
{
    let receptor: Vec<u8> = receiver_set(receiver);
    let mut base: Vec<u8> = Vec::new();
    if include_descriptors {
        let d: Vec<u8> = descriptor_sets();
        push_bytes(&mut base, d.as_slice());
        proof {
            lemma_templates_len();
        }
    }
    push_bytes(&mut base, receptor.as_slice());
    let ghost later = receptor@;
    let ghost first = base@;
    assert(first =~= (if include_descriptors {
        templates() + later
    } else {
        later
    }));
    let mut out: Vec<Packet> = Vec::new();
    if spots.len() == 0 {
        out.push(Packet { payload: message(base.as_slice(), seq, obs, now), spot_count: 0 });
        assert(packet_views(out@) =~= seq![
            (message_bytes(first, seq as int, obs as int, now as int), 0nat),
        ]);
        return out;
    }
    let ghost max = max_payload_bytes as int;
    let ghost all = packets(first, later, records_of(spots@), seq as int, obs as int, now as int, max);
    let mut from: usize = 0;
    assert(rest_of(spots@, 0) =~= records_of(spots@));
    assert(packet_views(out@) =~= Seq::empty());
    assert(packet_views(out@) + all =~= all);
    let mut cur_seq: u32 = seq;
    while from < spots.len()
        invariant
            78 * spots@.len() + 2000 <= usize::MAX,
            receptor@ == later,
            later.len() <= 396,
            base@.len() <= 1396,
            max == max_payload_bytes,
            from <= spots@.len(),
            cur_seq as int == (seq + from) % 0x1_0000_0000,
            packet_views(out@) + packets(
                base@,
                later,
                rest_of(spots@, from as int),
                seq + from,
                obs as int,
                now as int,
                max,
            ) == all,
        decreases spots@.len() - from,
    {
        let ghost rest = rest_of(spots@, from as int);
        let records: Vec<Vec<u8>> = fill_packet(spots, from, base.len(), max_payload_bytes);
        let count: usize = records.len();
        let packet: Packet = build_packet(base.as_slice(), records.as_slice(), cur_seq, obs, now);
        proof {
            lemma_packets_step(
                out@,
                packet,
                base@,
                later,
                spots@,
                from as int,
                seq as int,
                obs as int,
                now as int,
                max,
            );
            lemma_next_seq(seq as int, from as int, cur_seq, count as int);
        }
        out.push(packet);
        cur_seq = cur_seq.wrapping_add((count as u64 % 0x1_0000_0000) as u32);
        base = Vec::new();
        push_bytes(&mut base, receptor.as_slice());
        assert(base@ =~= later);
        from = from + count;
    }
    proof {
        reveal(packets);
        assert(packet_views(out@) + Seq::<(Seq<u8>, nat)>::empty() =~= packet_views(out@));
    }
    out
}

// ---- laws ----

/// How many records the first `n` packets carry.
pub open spec fn carried(ps: Seq<(Seq<u8>, nat)>, n: nat) -> nat
    decreases n,
{
    if n == 0 {
        0
    } else {
        carried(ps, (n - 1) as nat) + ps[n - 1].1
    }
}

proof fn lemma_carried_shift(p: (Seq<u8>, nat), tail: Seq<(Seq<u8>, nat)>, n: nat)
    requires
        n <= tail.len(),
    ensures
        carried(seq![p] + tail, n + 1) == p.1 + carried(tail, n),
    decreases n,
{
    let all = seq![p] + tail;
    if n > 0 {
        lemma_carried_shift(p, tail, (n - 1) as nat);
        assert(all[n as int] == tail[n - 1]);
    } else {
        reveal_with_fuel(carried, 2);
        assert(all[0] == p);
    }
}

proof fn lemma_filled_fits(records: Seq<Seq<u8>>, base: int, max: int, n: nat)
    requires
        n <= records.len(),
    ensures
        ({
            let k = filled(records, base, max, n);
            k > n ==> packet_len(base, joined(records.take(k as int)).len() as int) <= max
        }),
    decreases records.len() - n,
{
    reveal(filled);
    if n < records.len() {
        lemma_filled_fits(records, base, max, n + 1);
        lemma_filled(records, base, max, n + 1);
    }
}

/// What packet `i` of a series is: records `start..start + n` in their order behind its sets, with
/// a sequence number that counts the records before it; within `max` bytes unless it carries one
/// record alone.
pub open spec fn packet_is(
    ps: Seq<(Seq<u8>, nat)>,
    i: int,
    sets: Seq<u8>,
    records: Seq<Seq<u8>>,
    seq: int,
    obs: int,
    now: int,
    max: int,
) -> bool {
    let start = carried(ps, i as nat) as int;
    let n = ps[i].1;
    &&& 1 <= n
    &&& start + n <= records.len()
    &&& ps[i].0 == message_bytes(
        sets + records_set(records.subrange(start, start + n)),
        (seq + start) % 0x1_0000_0000,
        obs,
        now,
    )
    &&& n == 1 || ps[i].0.len() <= max
}

/// The sets in front of the records of packet `i`.
pub open spec fn sets_of(base: Seq<u8>, later: Seq<u8>, i: int) -> Seq<u8> {
    if i == 0 {
        base
    } else {
        later
    }
}

/// A series of packets carries every record once and in order. The first packet has its own sets,
/// the others the later ones.
pub proof fn law_packets_carry_all(
    base: Seq<u8>,
    later: Seq<u8>,
    records: Seq<Seq<u8>>,
    seq: int,
    obs: int,
    now: int,
    max: int,
)
    ensures
        ({
            let ps = packets(base, later, records, seq, obs, now, max);
            &&& carried(ps, ps.len()) == records.len()
            &&& forall|i: int|
                0 <= i < ps.len() ==> #[trigger] packet_is(
                    ps,
                    i,
                    sets_of(base, later, i),
                    records,
                    seq,
                    obs,
                    now,
                    max,
                )
        }),
    decreases records.len(),
{
    let ps = packets(base, later, records, seq, obs, now, max);
    if records.len() == 0 {
        reveal(packets);
    } else {
        lemma_filled(records, base.len() as int, max, 1);
        lemma_filled_fits(records, base.len() as int, max, 1);
        let n = filled(records, base.len() as int, max, 1);
        lemma_packets_first(base, later, records, seq, obs, now, max, n);
        let rest = records.skip(n as int);
        let tail = packets(later, later, rest, seq + n, obs, now, max);
        law_packets_carry_all(later, later, rest, seq + n, obs, now, max);
        let head = ps[0];
        assert(ps =~= seq![head] + tail);
        lemma_carried_shift(head, tail, tail.len());
        assert forall|i: int| 0 <= i < ps.len() implies #[trigger] packet_is(
            ps,
            i,
            sets_of(base, later, i),
            records,
            seq,
            obs,
            now,
            max,
        ) by {
            if i == 0 {
                assert(records.subrange(0, n as int) =~= records.take(n as int));
                law_packet_len(base, records.take(n as int), seq % 0x1_0000_0000, obs, now);
            } else {
                assert(packet_is(tail, i - 1, sets_of(later, later, i - 1), rest, seq + n, obs, now, max));
                assert(ps[i] == tail[i - 1]);
                lemma_carried_shift(head, tail, (i - 1) as nat);
                let start = carried(tail, (i - 1) as nat) as int;
                let k = ps[i].1;
                assert(rest.subrange(start, start + k) =~= records.subrange(
                    n + start,
                    n + start + k,
                ));
            }
        }
    }
}

/// A message is a multiple of four bytes long and carries its length, modulo 2^16, in bytes 2 and 3.
pub proof fn law_message_framed(sets: Seq<u8>, seq: int, obs: int, now: int)
    ensures
        ({
            let m = message_bytes(sets, seq, obs, now);
            &&& m.len() % 4 == 0
            &&& 16 + sets.len() <= m.len() < 20 + sets.len()
            &&& m[2] * 256 + m[3] == m.len() % 0x1_0000
            &&& m.subrange(16, 16 + sets.len() as int) == sets
        }),
{
    reveal(message_bytes);
    let m = message_bytes(sets, seq, obs, now);
    let body = 16 + sets.len() as int;
    assert(m.len() == body + fill(body));
    assert(m.subrange(2, 4) =~= be16(body + fill(body)));
    assert(m[2] == m.subrange(2, 4)[0] && m[3] == m.subrange(2, 4)[1]);
    lemma_be16_value(body + fill(body));
    assert(m.subrange(16, 16 + sets.len() as int) =~= sets);
}

/// A set is a multiple of four bytes long, carries its length, modulo 2^16, in bytes 2 and 3, and
/// keeps its contents.
pub proof fn law_set_framed(d: Seq<u8>)
    requires
        d.len() >= 4,
    ensures
        finished(d).len() % 4 == 0,
        d.len() <= finished(d).len() < d.len() + 4,
        finished(d)[2] * 256 + finished(d)[3] == finished(d).len() % 0x1_0000,
        finished(d).subrange(4, d.len() as int) == d.skip(4),
{
    let f = finished(d);
    let n = d.len() + fill(d.len() as int);
    assert(f.len() == n);
    assert(f.subrange(2, 4) =~= be16(n));
    assert(f[2] == f.subrange(2, 4)[0] && f[3] == f.subrange(2, 4)[1]);
    lemma_be16_value(n);
    assert(f.subrange(4, d.len() as int) =~= d.skip(4));
}

proof fn lemma_filled_stops(records: Seq<Seq<u8>>, base: int, max: int, n: nat)
    requires
        n <= records.len(),
    ensures
        ({
            let k = filled(records, base, max, n);
            k < records.len() ==> packet_len(
                base,
                joined(records.take((k + 1) as int)).len() as int,
            ) > max
        }),
    decreases records.len() - n,
{
    reveal(filled);
    if n < records.len() {
        lemma_filled_stops(records, base, max, n + 1);
    }
}

/// Whether packet `i` of a series is full: with the next record, if there is one, it would be over
/// `max` bytes.
pub open spec fn is_full(
    ps: Seq<(Seq<u8>, nat)>,
    i: int,
    sets: Seq<u8>,
    records: Seq<Seq<u8>>,
    obs: int,
    now: int,
    max: int,
) -> bool {
    let start = carried(ps, i as nat) as int;
    let end = start + ps[i].1;
    end < records.len() ==> message_bytes(
        sets + records_set(records.subrange(start, end + 1)),
        0,
        obs,
        now,
    ).len() > max
}

/// No packet is begun before the one in front of it is full.
pub proof fn law_packets_are_full(
    base: Seq<u8>,
    later: Seq<u8>,
    records: Seq<Seq<u8>>,
    seq: int,
    obs: int,
    now: int,
    max: int,
)
    ensures
        ({
            let ps = packets(base, later, records, seq, obs, now, max);
            forall|i: int|
                0 <= i < ps.len() ==> #[trigger] is_full(
                    ps,
                    i,
                    sets_of(base, later, i),
                    records,
                    obs,
                    now,
                    max,
                )
        }),
    decreases records.len(),
{
    let ps = packets(base, later, records, seq, obs, now, max);
    if records.len() == 0 {
        reveal(packets);
    } else {
        lemma_filled(records, base.len() as int, max, 1);
        lemma_filled_stops(records, base.len() as int, max, 1);
        let n = filled(records, base.len() as int, max, 1);
        lemma_packets_first(base, later, records, seq, obs, now, max, n);
        let rest = records.skip(n as int);
        let tail = packets(later, later, rest, seq + n, obs, now, max);
        law_packets_are_full(later, later, rest, seq + n, obs, now, max);
        law_packets_carry_all(later, later, rest, seq + n, obs, now, max);
        let head = ps[0];
        assert(ps =~= seq![head] + tail);
        assert forall|i: int| 0 <= i < ps.len() implies #[trigger] is_full(
            ps,
            i,
            sets_of(base, later, i),
            records,
            obs,
            now,
            max,
        ) by {
            if i == 0 {
                if n < records.len() {
                    assert(records.subrange(0, (n + 1) as int) =~= records.take((n + 1) as int));
                    law_packet_len(base, records.take((n + 1) as int), 0, obs, now);
                }
            } else {
                assert(is_full(tail, i - 1, sets_of(later, later, i - 1), rest, obs, now, max));
                assert(packet_is(tail, i - 1, sets_of(later, later, i - 1), rest, seq + n, obs, now, max));
                assert(ps[i] == tail[i - 1]);
                lemma_carried_shift(head, tail, (i - 1) as nat);
                let start = carried(tail, (i - 1) as nat) as int;
                let k = ps[i].1;
                if start + k < rest.len() {
                    assert(rest.subrange(start, start + k + 1) =~= records.subrange(
                        n + start,
                        n + start + k + 1,
                    ));
                }
            }
        }
    }
}

} // verus!
