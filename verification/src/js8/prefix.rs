//! The prefix code of the older data frames: no code stands in front of another one, so what was
//! encoded is decoded again.
use crate::js8::bits;
use crate::js8::data::{code_leads, huff_text, leading_entry, HUFF_TABLE};
use vstd::prelude::*;

verus! {

/// The bit that a character of a code stands for; 0 behind the end of the code.
pub open spec fn code_bit(c: Seq<char>, i: int) -> int {
    if i < c.len() && c[i] != '0' {
        1
    } else {
        0
    }
}

/// The bits of a code.
pub open spec fn code_bits(c: Seq<char>) -> Seq<u8> {
    Seq::new(c.len(), |i: int| code_bit(c, i) as u8)
}

/// The number that a code writes in front of eight bits.
pub open spec fn code_start(c: Seq<char>) -> int {
    128 * code_bit(c, 0) + 64 * code_bit(c, 1) + 32 * code_bit(c, 2) + 16 * code_bit(c, 3) + 8
        * code_bit(c, 4) + 4 * code_bit(c, 5) + 2 * code_bit(c, 6) + code_bit(c, 7)
}

/// How many numbers of eight bits begin with a code of a given length.
pub open spec fn code_width(len: int) -> int {
    if len == 2 {
        64
    } else if len == 3 {
        32
    } else if len == 4 {
        16
    } else if len == 5 {
        8
    } else if len == 6 {
        4
    } else if len == 7 {
        2
    } else {
        1
    }
}

/// A bit of a run; 0 behind its end.
spec fn bit_or_zero(b: Seq<u8>, i: int) -> int {
    if i < b.len() {
        b[i] as int
    } else {
        0
    }
}

/// The number that the first eight bits of a run write.
spec fn first_eight(b: Seq<u8>) -> int {
    128 * bit_or_zero(b, 0) + 64 * bit_or_zero(b, 1) + 32 * bit_or_zero(b, 2) + 16 * bit_or_zero(
        b,
        3,
    ) + 8 * bit_or_zero(b, 4) + 4 * bit_or_zero(b, 5) + 2 * bit_or_zero(b, 6) + bit_or_zero(b, 7)
}

/// The entry whose code stands in front of a number of eight bits.
pub open spec fn entry_at(v: int) -> int {
    if v < 8 {
        9
    } else if v < 10 {
        37
    } else if v < 12 {
        36
    } else if v < 16 {
        18
    } else if v < 18 {
        35
    } else if v < 20 {
        34
    } else if v < 24 {
        17
    } else if v < 32 {
        8
    } else if v < 34 {
        33
    } else if v < 36 {
        32
    } else if v < 40 {
        16
    } else if v < 42 {
        31
    } else if v < 44 {
        30
    } else if v < 48 {
        15
    } else if v < 64 {
        3
    } else if v < 128 {
        0
    } else if v < 160 {
        1
    } else if v < 168 {
        7
    } else if v < 170 {
        29
    } else if v < 172 {
        28
    } else if v < 176 {
        14
    } else if v < 178 {
        27
    } else if v < 180 {
        26
    } else if v < 184 {
        13
    } else if v < 192 {
        6
    } else if v < 194 {
        25
    } else if v < 196 {
        24
    } else if v < 200 {
        12
    } else if v < 202 {
        23
    } else if v < 204 {
        22
    } else if v < 208 {
        11
    } else if v < 224 {
        2
    } else if v < 232 {
        5
    } else if v < 234 {
        21
    } else if v < 235 {
        43
    } else if v < 236 {
        42
    } else if v < 240 {
        10
    } else if v < 241 {
        41
    } else if v < 242 {
        40
    } else if v < 244 {
        20
    } else if v < 245 {
        39
    } else if v < 246 {
        38
    } else if v < 248 {
        19
    } else {
        4
    }
}

proof fn lemma_code_span(k: int, v: int)
    requires
        0 <= k < 44,
    ensures
        ({
            let c = HUFF_TABLE[k].1@;
            &&& 2 <= c.len() <= 8
            &&& code_start(c) <= v < code_start(c) + code_width(c.len() as int) ==> entry_at(v) == k
        }),
{
    let c = HUFF_TABLE[k].1@;
    if k == 0 {
        reveal_strlit("01");
        assert(code_start(c) == 64 && c.len() == 2);
    } else if k == 1 {
        reveal_strlit("100");
        assert(code_start(c) == 128 && c.len() == 3);
    } else if k == 2 {
        reveal_strlit("1101");
        assert(code_start(c) == 208 && c.len() == 4);
    } else if k == 3 {
        reveal_strlit("0011");
        assert(code_start(c) == 48 && c.len() == 4);
    } else if k == 4 {
        reveal_strlit("11111");
        assert(code_start(c) == 248 && c.len() == 5);
    } else if k == 5 {
        reveal_strlit("11100");
        assert(code_start(c) == 224 && c.len() == 5);
    } else if k == 6 {
        reveal_strlit("10111");
        assert(code_start(c) == 184 && c.len() == 5);
    } else if k == 7 {
        reveal_strlit("10100");
        assert(code_start(c) == 160 && c.len() == 5);
    } else if k == 8 {
        reveal_strlit("00011");
        assert(code_start(c) == 24 && c.len() == 5);
    } else if k == 9 {
        reveal_strlit("00000");
        assert(code_start(c) == 0 && c.len() == 5);
    } else if k == 10 {
        reveal_strlit("111011");
        assert(code_start(c) == 236 && c.len() == 6);
    } else if k == 11 {
        reveal_strlit("110011");
        assert(code_start(c) == 204 && c.len() == 6);
    } else if k == 12 {
        reveal_strlit("110001");
        assert(code_start(c) == 196 && c.len() == 6);
    } else if k == 13 {
        reveal_strlit("101101");
        assert(code_start(c) == 180 && c.len() == 6);
    } else if k == 14 {
        reveal_strlit("101011");
        assert(code_start(c) == 172 && c.len() == 6);
    } else if k == 15 {
        reveal_strlit("001011");
        assert(code_start(c) == 44 && c.len() == 6);
    } else if k == 16 {
        reveal_strlit("001001");
        assert(code_start(c) == 36 && c.len() == 6);
    } else if k == 17 {
        reveal_strlit("000101");
        assert(code_start(c) == 20 && c.len() == 6);
    } else if k == 18 {
        reveal_strlit("000011");
        assert(code_start(c) == 12 && c.len() == 6);
    } else if k == 19 {
        reveal_strlit("1111011");
        assert(code_start(c) == 246 && c.len() == 7);
    } else if k == 20 {
        reveal_strlit("1111001");
        assert(code_start(c) == 242 && c.len() == 7);
    } else if k == 21 {
        reveal_strlit("1110100");
        assert(code_start(c) == 232 && c.len() == 7);
    } else if k == 22 {
        reveal_strlit("1100101");
        assert(code_start(c) == 202 && c.len() == 7);
    } else if k == 23 {
        reveal_strlit("1100100");
        assert(code_start(c) == 200 && c.len() == 7);
    } else if k == 24 {
        reveal_strlit("1100001");
        assert(code_start(c) == 194 && c.len() == 7);
    } else if k == 25 {
        reveal_strlit("1100000");
        assert(code_start(c) == 192 && c.len() == 7);
    } else if k == 26 {
        reveal_strlit("1011001");
        assert(code_start(c) == 178 && c.len() == 7);
    } else if k == 27 {
        reveal_strlit("1011000");
        assert(code_start(c) == 176 && c.len() == 7);
    } else if k == 28 {
        reveal_strlit("1010101");
        assert(code_start(c) == 170 && c.len() == 7);
    } else if k == 29 {
        reveal_strlit("1010100");
        assert(code_start(c) == 168 && c.len() == 7);
    } else if k == 30 {
        reveal_strlit("0010101");
        assert(code_start(c) == 42 && c.len() == 7);
    } else if k == 31 {
        reveal_strlit("0010100");
        assert(code_start(c) == 40 && c.len() == 7);
    } else if k == 32 {
        reveal_strlit("0010001");
        assert(code_start(c) == 34 && c.len() == 7);
    } else if k == 33 {
        reveal_strlit("0010000");
        assert(code_start(c) == 32 && c.len() == 7);
    } else if k == 34 {
        reveal_strlit("0001001");
        assert(code_start(c) == 18 && c.len() == 7);
    } else if k == 35 {
        reveal_strlit("0001000");
        assert(code_start(c) == 16 && c.len() == 7);
    } else if k == 36 {
        reveal_strlit("0000101");
        assert(code_start(c) == 10 && c.len() == 7);
    } else if k == 37 {
        reveal_strlit("0000100");
        assert(code_start(c) == 8 && c.len() == 7);
    } else if k == 38 {
        reveal_strlit("11110101");
        assert(code_start(c) == 245 && c.len() == 8);
    } else if k == 39 {
        reveal_strlit("11110100");
        assert(code_start(c) == 244 && c.len() == 8);
    } else if k == 40 {
        reveal_strlit("11110001");
        assert(code_start(c) == 241 && c.len() == 8);
    } else if k == 41 {
        reveal_strlit("11110000");
        assert(code_start(c) == 240 && c.len() == 8);
    } else if k == 42 {
        reveal_strlit("11101011");
        assert(code_start(c) == 235 && c.len() == 8);
    } else if k == 43 {
        reveal_strlit("11101010");
        assert(code_start(c) == 234 && c.len() == 8);
    }
}

proof fn lemma_leads_span(c: Seq<char>, b: Seq<u8>)
    requires
        2 <= c.len() <= 8,
        bits::are_bits(b),
        code_leads(c, b),
    ensures
        code_start(c) <= first_eight(b) < code_start(c) + code_width(c.len() as int),
{
    assert forall|i: int| 0 <= i < c.len() implies bit_or_zero(b, i) == #[trigger] code_bit(
        c,
        i,
    ) by {
        assert(c[i] == '0' || c[i] != '0');
    }
    assert forall|i: int| 0 <= i < 8 implies 0 <= #[trigger] bit_or_zero(b, i) <= 1 by {
        if i < b.len() {
            assert(b[i] <= 1);
        }
    }
    assert(bit_or_zero(b, 0) == code_bit(c, 0) && bit_or_zero(b, 1) == code_bit(c, 1));
    assert(c.len() > 2 ==> bit_or_zero(b, 2) == code_bit(c, 2));
    assert(c.len() > 3 ==> bit_or_zero(b, 3) == code_bit(c, 3));
    assert(c.len() > 4 ==> bit_or_zero(b, 4) == code_bit(c, 4));
    assert(c.len() > 5 ==> bit_or_zero(b, 5) == code_bit(c, 5));
    assert(c.len() > 6 ==> bit_or_zero(b, 6) == code_bit(c, 6));
    assert(c.len() > 7 ==> bit_or_zero(b, 7) == code_bit(c, 7));
    assert(0 <= bit_or_zero(b, 2) <= 1 && 0 <= bit_or_zero(b, 3) <= 1);
    assert(0 <= bit_or_zero(b, 4) <= 1 && 0 <= bit_or_zero(b, 5) <= 1);
    assert(0 <= bit_or_zero(b, 6) <= 1 && 0 <= bit_or_zero(b, 7) <= 1);
}

/// At most one code of the table stands in front of a run of bits.
pub proof fn law_codes_exclude(j: int, k: int, b: Seq<u8>)
    requires
        0 <= j < 44,
        0 <= k < 44,
        bits::are_bits(b),
        code_leads(HUFF_TABLE[j].1@, b),
        code_leads(HUFF_TABLE[k].1@, b),
    ensures
        j == k,
{
    let v = first_eight(b);
    lemma_code_span(j, v);
    lemma_code_span(k, v);
    lemma_leads_span(HUFF_TABLE[j].1@, b);
    lemma_leads_span(HUFF_TABLE[k].1@, b);
}

/// The codes of entries, one behind another.
pub open spec fn encoded(entries: Seq<int>) -> Seq<u8>
    decreases entries.len(),
{
    if entries.len() == 0 {
        Seq::empty()
    } else {
        code_bits(HUFF_TABLE[entries[0]].1@) + encoded(entries.skip(1))
    }
}

/// The characters of entries.
pub open spec fn entry_text(entries: Seq<int>) -> Seq<char> {
    Seq::new(entries.len(), |i: int| HUFF_TABLE[entries[i]].0)
}

/// Whether bits are the beginning of the code of entry `k`, but not all of it.
pub open spec fn is_cut_code(tail: Seq<u8>, k: int) -> bool {
    let c = code_bits(HUFF_TABLE[k].1@);
    tail.len() < c.len() && tail == c.take(tail.len() as int)
}

proof fn lemma_code_is_bits(c: Seq<char>)
    ensures
        bits::are_bits(code_bits(c)),
        code_leads(c, code_bits(c)),
{
    assert forall|i: int| 0 <= i < c.len() implies code_bits(c)[i] == (if #[trigger] c[i] != '0' {
        1u8
    } else {
        0u8
    }) by {}
}

/// The codes of entries are bits.
pub proof fn lemma_encoded_is_bits(entries: Seq<int>)
    ensures
        bits::are_bits(encoded(entries)),
    decreases entries.len(),
{
    if entries.len() > 0 {
        lemma_encoded_is_bits(entries.skip(1));
        lemma_code_is_bits(HUFF_TABLE[entries[0]].1@);
    }
}

/// No code is empty.
pub proof fn lemma_code_not_empty(k: int)
    requires
        0 <= k < 44,
    ensures
        HUFF_TABLE[k].1@.len() > 0,
{
    lemma_code_span(k, 0);
}

/// The entry that is found is one whose code leads; none is found only where no code leads.
proof fn lemma_leading(b: Seq<u8>, from: int)
    requires
        0 <= from <= 44,
    ensures
        leading_entry(b, from) matches Some(k) ==> from <= k < 44 && code_leads(
            HUFF_TABLE[k].1@,
            b,
        ),
        leading_entry(b, from) is None ==> forall|k: int|
            from <= k < 44 ==> !code_leads(#[trigger] HUFF_TABLE[k].1@, b),
    decreases 44 - from,
{
    if from < 44 && !code_leads(HUFF_TABLE[from].1@, b) {
        lemma_leading(b, from + 1);
    }
}

/// Decoding undoes encoding: from the codes of any characters of the table, one behind another, the
/// characters come back. A code that is cut off behind them adds nothing.
pub proof fn law_decoding_undoes_encoding(entries: Seq<int>, tail: Seq<u8>, cut: int)
    requires
        forall|i: int| 0 <= i < entries.len() ==> 0 <= #[trigger] entries[i] < 44,
        0 <= cut < 44,
        is_cut_code(tail, cut),
    ensures
        huff_text(encoded(entries) + tail) == entry_text(entries),
    decreases entries.len(),
{
    let b = encoded(entries) + tail;
    let whole = code_bits(HUFF_TABLE[cut].1@);
    lemma_encoded_is_bits(entries);
    lemma_code_is_bits(HUFF_TABLE[cut].1@);
    lemma_leading(b, 0);
    assert(bits::are_bits(b)) by {
        assert forall|i: int| 0 <= i < b.len() implies #[trigger] b[i] <= 1 by {
            if i < encoded(entries).len() {
                assert(b[i] == encoded(entries)[i]);
            } else {
                assert(b[i] == whole[i - encoded(entries).len()]);
            }
        }
    }
    if entries.len() == 0 {
        assert(b =~= tail);
        if let Some(j) = leading_entry(b, 0) {
            let c = HUFF_TABLE[j].1@;
            assert(code_leads(c, whole)) by {
                assert forall|i: int| 0 <= i < c.len() implies whole[i] == (if #[trigger] c[i]
                    != '0' {
                    1u8
                } else {
                    0u8
                }) by {
                    assert(b[i] == whole[i]);
                }
            }
            law_codes_exclude(j, cut, whole);
        }
        assert(huff_text(b) =~= entry_text(entries));
    } else {
        let k = entries[0];
        let c = HUFF_TABLE[k].1@;
        let rest = entries.skip(1);
        lemma_code_is_bits(c);
        lemma_code_span(k, 0);
        assert forall|i: int| 0 <= i < rest.len() implies 0 <= #[trigger] rest[i] < 44 by {
            assert(rest[i] == entries[i + 1]);
        }
        assert(b =~= code_bits(c) + (encoded(rest) + tail));
        assert(code_leads(c, b)) by {
            assert forall|i: int| 0 <= i < c.len() implies b[i] == (if #[trigger] c[i] != '0' {
                1u8
            } else {
                0u8
            }) by {
                assert(b[i] == code_bits(c)[i]);
            }
        }
        assert(leading_entry(b, 0) is Some) by {
            if leading_entry(b, 0) is None {
                assert(!code_leads(HUFF_TABLE[k].1@, b));
            }
        }
        law_codes_exclude(leading_entry(b, 0)->0, k, b);
        assert(b.skip(c.len() as int) =~= encoded(rest) + tail);
        law_decoding_undoes_encoding(rest, tail, cut);
        assert(huff_text(b) =~= entry_text(entries));
    }
}

} // verus!
