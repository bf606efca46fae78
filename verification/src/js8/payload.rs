//! Text frames from end to end: the text that goes into the payload comes out of the received
//! message.
use crate::js8::bits;
use crate::js8::data;
use crate::js8::data::{huff_text, jsc_text, JscMap};
use crate::js8::dictionary::{all_digits, digits_bits, law_words_read_back, spoken, Written};
use crate::js8::frame;
use crate::js8::msg;
use crate::js8::prefix::{
    encoded, entry_text, is_cut_code, law_decoding_undoes_encoding, lemma_encoded_is_bits,
};
use crate::js8::words;
use vstd::prelude::*;

verus! {

/// The fields of a compound frame, from the first payload bit on: three bits of family, 50 of
/// callsign, 16 of number and three of variant.
pub proof fn law_compound_fields(call: int, family: int, num: int, bits3: int)
    requires
        0 <= num,
    ensures
        msg::compound_number(call, family, num, bits3) == family * 0x20_0000_0000_0000_0000 + call
            * 0x8_0000 + num * 8 + bits3 % 8,
{
    assert(num == num / 32 * 32 + num % 32);
}

/// The fields of a directed frame, from the first payload bit on: three bits of family, which is 3,
/// 28 of the sender, 28 of the station that is called, five of command, a bit for each of them that
/// is portable, and six of number.
pub proof fn law_directed_fields(f: int, t: int, c: int, fp: bool, tp: bool, n: int)
    ensures
        msg::directed_number(f, t, c, fp, tp, n) == 3 * 0x20_0000_0000_0000_0000 + f
            * 0x200_0000_0000 + t * 0x2000 + c * 0x100 + (if fp {
            128int
        } else {
            0
        }) + (if tp {
            64int
        } else {
            0
        }) + n,
{
}

/// The 72 bits of a payload are read from the words that they were written as.
pub proof fn law_payload_bits(b: Seq<u8>)
    requires
        b.len() == 72,
        bits::are_bits(b),
    ensures
        data::payload_bits(bits::words_of_bits(b)) == b,
{
    let w = bits::words_of_bits(b);
    bits::law_words_hold_bits(b);
    assert forall|i: int| 0 <= i < 72 implies #[trigger] data::payload_bits(w)[i] == b[i] by {
        words::lemma_joined_bits(w, i / 6, (i % 6) as u8);
        assert(6 * (i / 6) + i % 6 == i);
        assert(bits::word_bit(w, i) == b[i]);
    }
    assert(data::payload_bits(w) =~= b);
}

/// Bits that are ended: a zero behind them, and ones up to 72.
pub open spec fn ended(p: Seq<u8>) -> Seq<u8> {
    p.push(0) + Seq::new((71 - p.len()) as nat, |i: int| 1u8)
}

proof fn lemma_last_zero_is(b: Seq<u8>, z: int)
    requires
        0 <= z < b.len(),
        b[z] == 0,
        forall|i: int| z < i < b.len() ==> #[trigger] b[i] != 0,
    ensures
        bits::last_zero(b) == z,
{
    bits::lemma_last_zero(b);
}

proof fn lemma_ended(p: Seq<u8>)
    requires
        p.len() <= 71,
        bits::are_bits(p),
    ensures
        ended(p).len() == 72,
        bits::are_bits(ended(p)),
        bits::last_zero(ended(p)) == p.len(),
        ended(p).take(p.len() as int) == p,
{
    let b = ended(p);
    assert forall|i: int| 0 <= i < b.len() implies #[trigger] b[i] <= 1 by {
        if i < p.len() {
            assert(b[i] == p[i]);
        }
    }
    lemma_last_zero_is(b, p.len() as int);
    assert(b.take(p.len() as int) =~= p);
}

/// A newer data frame holds the dictionary text of the bits that were ended.
pub proof fn law_fast_text(p: Seq<u8>, map: JscMap)
    requires
        p.len() <= 71,
        bits::are_bits(p),
        jsc_text(p, map, 0).len() > 0,
    ensures
        data::fast_text(bits::words_of_bits(ended(p)), map) == Some(jsc_text(p, map, 0)),
{
    lemma_ended(p);
    law_payload_bits(ended(p));
}

/// An older data frame holds the text of the bits that were ended, behind a set bit and a bit that
/// tells the dictionary code from the prefix code.
pub proof fn law_legacy_text(p: Seq<u8>, map: JscMap)
    requires
        p.len() <= 69,
        bits::are_bits(p),
    ensures
        data::legacy_text(bits::words_of_bits(ended(seq![1u8, 0u8] + p)), map) == Some(
            (0x10u8, huff_text(p)),
        ),
        jsc_text(p, map, 0).len() > 0 ==> data::legacy_text(
            bits::words_of_bits(ended(seq![1u8, 1u8] + p)),
            map,
        ) == Some((0x11u8, jsc_text(p, map, 0))),
{
    let h = seq![1u8, 0u8] + p;
    let j = seq![1u8, 1u8] + p;
    assert(bits::are_bits(h));
    assert(bits::are_bits(j));
    lemma_ended(h);
    lemma_ended(j);
    law_payload_bits(ended(h));
    law_payload_bits(ended(j));
    assert(ended(h)[0] == 1 && ended(h)[1] == 0);
    assert(ended(j)[0] == 1 && ended(j)[1] == 1);
    assert(ended(h).subrange(2, h.len() as int) =~= p);
    assert(ended(j).subrange(2, j.len() as int) =~= p);
}

/// Words of the dictionary that are written into a newer data frame, sent and received come out
/// again.
pub proof fn law_dictionary_text_arrives(ws: Seq<Written>, kind: u8, map: JscMap)
    requires
        forall|i: int|
            0 <= i < ws.len() ==> (#[trigger] ws[i]).is_writable() && ws[i].word(map) is Some,
        digits_bits(all_digits(ws)).len() <= 71,
        spoken(ws, map, false).len() > 0,
        4 <= kind < 8,
    ensures
        ({
            let w = bits::words_of_bits(ended(digits_bits(all_digits(ws))));
            msg::frame_of(frame::message_bits(w, kind), map) == Some(
                msg::data_frame(0x12, spoken(ws, map, false)),
            )
        }),
{
    let p = digits_bits(all_digits(ws));
    assert(bits::are_bits(p)) by {
        assert forall|i: int| 0 <= i < p.len() implies #[trigger] p[i] <= 1 by {}
    }
    let w = bits::words_of_bits(ended(p));
    let none = Seq::<u8>::empty();
    law_words_read_back(ws, none, map);
    assert(p + none =~= p);
    law_fast_text(p, map);
    lemma_ended(p);
    bits::law_words_hold_bits(ended(p));
    msg::law_message_received(w, kind, map);
    msg::lemma_no_data_bit(kind);
}

/// Characters that are written into an older data frame in the prefix code, sent and received come
/// out again.
pub proof fn law_prefix_text_arrives(entries: Seq<int>, kind: u8, map: JscMap)
    requires
        entries.len() > 0,
        forall|i: int| 0 <= i < entries.len() ==> 0 <= #[trigger] entries[i] < 44,
        encoded(entries).len() <= 69,
        kind < 4,
    ensures
        ({
            let w = bits::words_of_bits(ended(seq![1u8, 0u8] + encoded(entries)));
            msg::frame_of(frame::message_bits(w, kind), map) == Some(
                msg::data_frame(0x10, entry_text(entries)),
            )
        }),
{
    let p = encoded(entries);
    let none = Seq::<u8>::empty();
    lemma_encoded_is_bits(entries);
    let h = seq![1u8, 0u8] + p;
    assert(bits::are_bits(h));
    let w = bits::words_of_bits(ended(h));
    crate::js8::prefix::lemma_code_not_empty(0);
    assert(is_cut_code(none, 0)) by {
        assert(none =~= crate::js8::prefix::code_bits(data::HUFF_TABLE[0].1@).take(0));
    }
    law_decoding_undoes_encoding(entries, none, 0);
    assert(p + none =~= p);
    law_legacy_text(p, map);
    lemma_ended(h);
    bits::law_words_hold_bits(ended(h));
    msg::law_message_received(w, kind, map);
    msg::lemma_no_data_bit(kind);
    frame::lemma_message_lead(w, kind);
    assert(bits::word_bit(w, 0) == ended(h)[0]);
    assert(frame::message_bits(w, kind)[0] == 1);
}

} // verus!
