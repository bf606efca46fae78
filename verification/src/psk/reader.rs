//! What a collector reads from the datagrams: the templates say how the fields of a record lie, and
//! each field is read back as it was put in.
use crate::psk::wire::{
    be16, be32, counted, datagrams, descriptor_bytes, field_bytes, finished, law_message_framed,
    message_bytes, receiver_fields, record_bytes, sender_fields, station_set, templates, Spot,
    Station,
};
use vstd::prelude::*;
use vstd::utf8;

verus! {

/// The number that bytes write, the upper bytes first.
pub open spec fn number(b: Seq<u8>) -> int
    decreases b.len(),
{
    if b.len() == 0 {
        0
    } else {
        number(b.drop_last()) * 256 + b.last()
    }
}

/// The bytes that a field takes: as many as its template says, or for a length of 65535 a byte of
/// length and as many as that byte says.
pub open spec fn field_size(len: u16, b: Seq<u8>) -> int {
    if len == 0xffff {
        1 + b[0]
    } else {
        len as int
    }
}

/// The value of the field that bytes begin with.
pub open spec fn field_value(len: u16, b: Seq<u8>) -> Seq<u8> {
    b.subrange(
        if len == 0xffff {
            1
        } else {
            0
        },
        field_size(len, b),
    )
}

/// The bytes of a record from field `i` on.
#[verifier::opaque]
pub open spec fn from_field(fields: Seq<(u16, u16)>, b: Seq<u8>, i: nat) -> Seq<u8>
    decreases i,
{
    if i == 0 {
        b
    } else {
        let before = from_field(fields, b, (i - 1) as nat);
        before.skip(field_size(fields[i - 1].1, before))
    }
}

/// The value of field `i` of a record.
#[verifier::opaque]
pub open spec fn value_at(fields: Seq<(u16, u16)>, b: Seq<u8>, i: nat) -> Seq<u8> {
    field_value(fields[i as int].1, from_field(fields, b, i))
}

/// The UTF-8 bytes of a text, cut after `max` bytes.
pub open spec fn cut(s: Seq<char>, max: int) -> Seq<u8> {
    let b = utf8::encode_utf8(s);
    b.take(
        if b.len() < max {
            b.len() as int
        } else {
            max
        },
    )
}

proof fn lemma_counted(s: Seq<char>, max: int, rest: Seq<u8>)
    requires
        0 <= max < 256,
    ensures
        field_value(0xffff, counted(s, max) + rest) == cut(s, max),
        (counted(s, max) + rest).skip(field_size(0xffff, counted(s, max) + rest)) == rest,
{
    let c = counted(s, max);
    let b = c + rest;
    assert(c.len() == 1 + cut(s, max).len());
    assert(b[0] == cut(s, max).len());
    assert(field_value(0xffff, b) =~= cut(s, max));
    assert(b.skip(field_size(0xffff, b)) =~= rest);
}

proof fn lemma_fixed(f: Seq<u8>, rest: Seq<u8>)
    requires
        f.len() < 0xffff,
    ensures
        field_value(f.len() as u16, f + rest) == f,
        (f + rest).skip(field_size(f.len() as u16, f + rest)) == rest,
{
    assert(field_value(f.len() as u16, f + rest) =~= f);
    assert((f + rest).skip(f.len() as int) =~= rest);
}

proof fn lemma_number16(n: int)
    requires
        n >= 0,
    ensures
        be16(n).len() == 2,
        number(be16(n)) == n % 0x1_0000,
{
    let b = be16(n);
    reveal_with_fuel(number, 3);
    assert(b.drop_last().drop_last().len() == 0);
    assert(b.drop_last().last() == b[0]);
    vstd::arithmetic::div_mod::lemma_breakdown(n, 256, 256);
}

proof fn lemma_number32(n: int)
    requires
        n >= 0,
    ensures
        be32(n).len() == 4,
        number(be32(n)) == n % 0x1_0000_0000,
        number(seq![0u8] + be32(n)) == n % 0x1_0000_0000,
{
    let b = be32(n);
    let z = seq![0u8] + b;
    reveal_with_fuel(number, 6);
    let b3 = b.drop_last();
    let b2 = b3.drop_last();
    let b1 = b2.drop_last();
    assert(b1.drop_last().len() == 0);
    assert(b3.last() == b[2] && b2.last() == b[1] && b1.last() == b[0]);
    let z4 = z.drop_last();
    let z3 = z4.drop_last();
    let z2 = z3.drop_last();
    let z1 = z2.drop_last();
    assert(z1.drop_last().len() == 0);
    assert(z.last() == b[3] && z4.last() == b[2] && z3.last() == b[1] && z2.last() == b[0]
        && z1.last() == 0);
    vstd::arithmetic::div_mod::lemma_breakdown(n, 0x100_0000, 256);
    vstd::arithmetic::div_mod::lemma_breakdown(n, 0x1_0000, 256);
    vstd::arithmetic::div_mod::lemma_breakdown(n, 256, 256);
}

proof fn lemma_next_counted(
    fields: Seq<(u16, u16)>,
    b: Seq<u8>,
    i: nat,
    s: Seq<char>,
    max: int,
    rest: Seq<u8>,
)
    requires
        0 <= max < 256,
        i < fields.len(),
        fields[i as int].1 == 0xffff,
        from_field(fields, b, i) == counted(s, max) + rest,
    ensures
        value_at(fields, b, i) == cut(s, max),
        from_field(fields, b, i + 1) == rest,
{
    reveal(from_field);
    reveal(value_at);
    lemma_counted(s, max, rest);
}

proof fn lemma_next_fixed(
    fields: Seq<(u16, u16)>,
    b: Seq<u8>,
    i: nat,
    f: Seq<u8>,
    rest: Seq<u8>,
)
    requires
        i < fields.len(),
        fields[i as int].1 == f.len() < 0xffff,
        from_field(fields, b, i) == f + rest,
    ensures
        value_at(fields, b, i) == f,
        from_field(fields, b, i + 1) == rest,
{
    reveal(from_field);
    reveal(value_at);
    lemma_fixed(f, rest);
}

proof fn lemma_first_field(fields: Seq<(u16, u16)>, b: Seq<u8>)
    ensures
        from_field(fields, b, 0) == b,
{
    reveal(from_field);
}

proof fn lemma_regroup8(
    a: Seq<u8>,
    b: Seq<u8>,
    c: Seq<u8>,
    d: Seq<u8>,
    e: Seq<u8>,
    f: Seq<u8>,
    g: Seq<u8>,
    h: Seq<u8>,
    rest: Seq<u8>,
)
    ensures
        (a + b + c + d + e + f + g + h) + rest == a + ((b + c) + (d + (e + (f + (g + (h + rest)))))),
{
    assert((a + b + c + d + e + f + g + h) + rest =~= a + ((b + c) + (d + (e + (f + (g + (h
        + rest)))))));
}

proof fn lemma_regroup5(
    head: Seq<u8>,
    a: Seq<u8>,
    b: Seq<u8>,
    c: Seq<u8>,
    d: Seq<u8>,
    e: Seq<u8>,
)
    requires
        head.len() == 4,
    ensures
        ({
            let whole = head + a + b + c + d + e;
            let f = finished(whole);
            &&& f.len() >= whole.len() >= 4
            &&& f.take(2) == head.take(2)
            &&& f.skip(4) == a + (b + (c + (d + (e + f.skip(whole.len() as int)))))
        }),
{
    let whole = head + a + b + c + d + e;
    let f = finished(whole);
    assert(f.take(2) =~= head.take(2));
    assert(f.skip(4) =~= a + (b + (c + (d + (e + f.skip(whole.len() as int))))));
}

/// Whether the value of a field of a spot record is what that field is to say: 1 the sender's
/// callsign, 5 the frequency, 6 the signal to noise ratio, 10 the mode, 3 the sender's locator, 11
/// that the report is automatic, 150 the time.
pub open spec fn says_of_spot(s: Spot, id: u16, v: Seq<u8>) -> bool {
    if id == 1 {
        v == cut(s.caller@, 32)
    } else if id == 5 {
        v.len() == 5 && number(v) == s.freq_hz
    } else if id == 6 {
        v.len() == 1 && v[0] == (if s.snr >= 0 {
            s.snr as int
        } else {
            s.snr + 256
        })
    } else if id == 10 {
        v == cut(s.mode@, 16)
    } else if id == 3 {
        v == cut(s.locator@, 16)
    } else if id == 11 {
        v == seq![1u8]
    } else if id == 150 {
        v.len() == 4 && number(v) == s.time_epoch
    } else {
        false
    }
}

/// The template of spot records has seven fields, and each field of a record, read as the template
/// says, is what it is to say of the spot. The record ends behind its last field.
pub proof fn law_record_reads_back(s: Spot, rest: Seq<u8>)
    ensures
        sender_fields().len() == 7,
        forall|i: nat|
            i < 7 ==> says_of_spot(
                s,
                sender_fields()[i as int].0,
                #[trigger] value_at(sender_fields(), record_bytes(s) + rest, i),
            ),
        from_field(sender_fields(), record_bytes(s) + rest, 7) == rest,
        forall|i: int, j: int|
            0 <= i < j < 7 ==> (#[trigger] sender_fields()[i]).0 != (
            #[trigger] sender_fields()[j]).0,
{
    let t = sender_fields();
    let b = record_bytes(s) + rest;
    let call = counted(s.caller@, 32);
    let mode = counted(s.mode@, 16);
    let square = counted(s.locator@, 16);
    let snr = seq![(s.snr as int % 256) as u8];
    let hz = be32(s.freq_hz as int);
    let time = be32(s.time_epoch as int);
    lemma_regroup8(call, seq![0u8], hz, snr, mode, square, seq![1u8], time, rest);
    let r6 = time + rest;
    let r5 = seq![1u8] + r6;
    let r4 = square + r5;
    let r3 = mode + r4;
    let r2 = snr + r3;
    let r1 = (seq![0u8] + hz) + r2;
    lemma_first_field(t, b);
    lemma_next_counted(t, b, 0, s.caller@, 32, r1);
    lemma_next_fixed(t, b, 1, seq![0u8] + hz, r2);
    lemma_next_fixed(t, b, 2, snr, r3);
    lemma_next_counted(t, b, 3, s.mode@, 16, r4);
    lemma_next_counted(t, b, 4, s.locator@, 16, r5);
    lemma_next_fixed(t, b, 5, seq![1u8], r6);
    lemma_next_fixed(t, b, 6, time, rest);
    lemma_number32(s.freq_hz as int);
    lemma_number32(s.time_epoch as int);
    assert forall|i: nat| i < 7 implies says_of_spot(
        s,
        t[i as int].0,
        #[trigger] value_at(t, b, i),
    ) by {
        assert(i == 0 || i == 1 || i == 2 || i == 3 || i == 4 || i == 5 || i == 6);
    }
}

/// Whether the value of a field of receiver information is what that field is to say: 2 the
/// receiver's callsign, 4 its locator, 8 the program, 9 the antenna, 13 the rig.
pub open spec fn says_of_station(s: Station, id: u16, v: Seq<u8>) -> bool {
    if id == 2 {
        v == cut(s.callsign@, 32)
    } else if id == 4 {
        v == cut(s.grid@, 16)
    } else if id == 8 {
        v == cut(s.program_info@, 80)
    } else if id == 9 {
        v == cut(s.antenna@, 128)
    } else if id == 13 {
        v == cut(s.rig_info@, 128)
    } else {
        false
    }
}

/// The template of receiver information has five fields, and each of them, read as the template
/// says from the set with a station's information, is what it is to say of the station.
pub proof fn law_station_reads_back(s: Station)
    ensures
        receiver_fields().len() == 5,
        station_set(s).len() >= 4,
        number(station_set(s).take(2)) == 0x50e2,
        forall|i: nat|
            i < 5 ==> says_of_station(
                s,
                receiver_fields()[i as int].0,
                #[trigger] value_at(receiver_fields(), station_set(s).skip(4), i),
            ),
        forall|i: int, j: int|
            0 <= i < j < 5 ==> (#[trigger] receiver_fields()[i]).0 != (
            #[trigger] receiver_fields()[j]).0,
{
    let t = receiver_fields();
    let f = station_set(s);
    let head = be16(0x50e2) + be16(0);
    let call = counted(s.callsign@, 32);
    let square = counted(s.grid@, 16);
    let program = counted(s.program_info@, 80);
    let antenna = counted(s.antenna@, 128);
    let rig = counted(s.rig_info@, 128);
    lemma_regroup5(head, call, square, program, antenna, rig);
    let whole = head + call + square + program + antenna + rig;
    let z = f.skip(whole.len() as int);
    let b = f.skip(4);
    let r4 = rig + z;
    let r3 = antenna + r4;
    let r2 = program + r3;
    let r1 = square + r2;
    assert(head.take(2) =~= be16(0x50e2));
    lemma_number16(0x50e2);
    lemma_first_field(t, b);
    lemma_next_counted(t, b, 0, s.callsign@, 32, r1);
    lemma_next_counted(t, b, 1, s.grid@, 16, r2);
    lemma_next_counted(t, b, 2, s.program_info@, 80, r3);
    lemma_next_counted(t, b, 3, s.antenna@, 128, r4);
    lemma_next_counted(t, b, 4, s.rig_info@, 128, z);
    assert forall|i: nat| i < 5 implies says_of_station(
        s,
        t[i as int].0,
        #[trigger] value_at(t, f.skip(4), i),
    ) by {
        assert(i == 0 || i == 1 || i == 2 || i == 3 || i == 4);
    }
}

/// The head of a message: version 10, then behind the length the time, the sequence number and the
/// observation domain, each in 32 bits.
pub proof fn law_message_head(sets: Seq<u8>, seq: int, obs: int, now: int)
    requires
        0 <= seq,
        0 <= obs,
        0 <= now,
    ensures
        ({
            let m = message_bytes(sets, seq, obs, now);
            &&& number(m.subrange(0, 2)) == 10
            &&& number(m.subrange(4, 8)) == now % 0x1_0000_0000
            &&& number(m.subrange(8, 12)) == seq % 0x1_0000_0000
            &&& number(m.subrange(12, 16)) == obs % 0x1_0000_0000
        }),
{
    reveal(message_bytes);
    let m = message_bytes(sets, seq, obs, now);
    lemma_number16(10);
    lemma_number32(now);
    lemma_number32(seq);
    lemma_number32(obs);
    assert(m.subrange(0, 2) =~= be16(10));
    assert(m.subrange(4, 8) =~= be32(now));
    assert(m.subrange(8, 12) =~= be32(seq));
    assert(m.subrange(12, 16) =~= be32(obs));
}

/// A field is described by its number and its length. The standard field 150 has no more; any other
/// has the top bit of its number set, and PSK Reporter's enterprise number 30351 behind it.
pub proof fn law_field_described(id: u16, len: u16)
    requires
        id < 0x8000,
    ensures
        ({
            let f = field_bytes(id, len);
            &&& id == 150 ==> f.len() == 4 && number(f.subrange(0, 2)) == 150
            &&& id != 150 ==> f.len() == 8 && number(f.subrange(0, 2)) == 0x8000 + id && number(
                f.subrange(4, 8),
            ) == 30_351
            &&& number(f.subrange(2, 4)) == len
        }),
{
    let f = field_bytes(id, len);
    assert(id < 0x8000 ==> (0x8000u16 | id) == 0x8000 + id) by (bit_vector);
    lemma_number16(id as int);
    lemma_number16(0x8000 + id);
    lemma_number16(len as int);
    lemma_number32(30_351);
    assert(f.subrange(2, 4) =~= be16(len as int));
    if id == 150 {
        assert(f.subrange(0, 2) =~= be16(150));
    } else {
        assert(f.subrange(0, 2) =~= be16(0x8000 + id));
        assert(f.subrange(4, 8) =~= be32(30_351));
    }
}

/// A template is described by the kind of its record, the length of its description, its own number
/// and the number of its fields.
pub proof fn law_template_described(
    record_type: u16,
    template: u16,
    scope: Option<u16>,
    fields: Seq<(u16, u16)>,
)
    requires
        fields.len() < 0x1_0000,
    ensures
        ({
            let d = descriptor_bytes(record_type, template, scope, fields);
            &&& d.len() >= 8
            &&& number(d.subrange(0, 2)) == record_type
            &&& number(d.subrange(4, 6)) == template
            &&& number(d.subrange(6, 8)) == fields.len()
            &&& scope matches Some(n) ==> d.len() >= 10 && number(d.subrange(8, 10)) == n
        }),
{
    let d = descriptor_bytes(record_type, template, scope, fields);
    lemma_number16(record_type as int);
    lemma_number16(template as int);
    lemma_number16(fields.len() as int);
    assert(d.subrange(0, 2) =~= be16(record_type as int));
    assert(d.subrange(4, 6) =~= be16(template as int));
    assert(d.subrange(6, 8) =~= be16(fields.len() as int));
    if let Some(n) = scope {
        lemma_number16(n as int);
        assert(d.subrange(8, 10) =~= be16(n as int));
    }
}

/// What a send cycle begins with: the description of the template of spot records when templates are
/// sent, the station's information when they are not.
pub proof fn law_first_datagram(
    station: Station,
    with_templates: bool,
    seq: int,
    obs: int,
    now: int,
    max: int,
)
    ensures
        ({
            let all = datagrams(station, Seq::empty(), with_templates, seq, obs, now, max);
            let sets = all[0].0.skip(16);
            &&& all.len() == 1
            &&& all[0].1 == 0
            &&& all[0].0.len() >= 24
            &&& with_templates ==> number(sets.subrange(0, 2)) == 2 && number(sets.subrange(4, 6))
                == 0x50e3
            &&& !with_templates ==> number(sets.subrange(0, 2)) == 0x50e2
        }),
{
    let set = station_set(station);
    let one = descriptor_bytes(2, 0x50e3, None, sender_fields());
    let two = descriptor_bytes(3, 0x50e2, Some(1u16), receiver_fields());
    law_template_described(2, 0x50e3, None, sender_fields());
    law_station_reads_back(station);
    lemma_station_len(station);
    let base = if with_templates {
        templates() + set
    } else {
        set
    };
    let m = message_bytes(base, seq, obs, now);
    law_message_framed(base, seq, obs, now);
    assert(m.subrange(16, 16 + base.len() as int) == base);
    assert forall|i: int| 0 <= i < base.len() implies m.skip(16)[i] == #[trigger] base[i] by {
        assert(m.subrange(16, 16 + base.len() as int)[i] == m[16 + i]);
    }
    if with_templates {
        assert(templates() == one + two);
        assert forall|i: int| 0 <= i < one.len() implies base[i] == #[trigger] one[i] by {}
        assert(m.skip(16).subrange(0, 2) =~= one.subrange(0, 2));
        assert(m.skip(16).subrange(4, 6) =~= one.subrange(4, 6));
    } else {
        assert(m.skip(16).subrange(0, 2) =~= set.take(2));
    }
}

proof fn lemma_station_len(s: Station)
    ensures
        station_set(s).len() >= 8,
{
    let head = be16(0x50e2) + be16(0);
    let call = counted(s.callsign@, 32);
    let square = counted(s.grid@, 16);
    let program = counted(s.program_info@, 80);
    let antenna = counted(s.antenna@, 128);
    let rig = counted(s.rig_info@, 128);
    lemma_regroup5(head, call, square, program, antenna, rig);
    assert(call.len() >= 1 && square.len() >= 1 && program.len() >= 1 && antenna.len() >= 1);
}

} // verus!
