//! Bits as bytes: runs of bits, most significant first, and the numbers that they write.
use crate::js8::words;
use vstd::prelude::*;

verus! {

/// The byte that arises when bits are shifted in at the low end one after the other.
pub open spec fn shifted8(bits: Seq<u8>) -> u8
    decreases bits.len(),
{
    if bits.len() == 0 {
        0
    } else {
        (shifted8(bits.drop_last()) << 1) | bits.last()
    }
}

/// The 16-bit number that arises when bits are shifted in at the low end one after the other.
pub open spec fn shifted16(bits: Seq<u8>) -> u16
    decreases bits.len(),
{
    if bits.len() == 0 {
        0
    } else {
        (shifted16(bits.drop_last()) << 1) | bits.last() as u16
    }
}

/// Whether every element is a bit.
pub open spec fn are_bits(b: Seq<u8>) -> bool {
    forall|i: int| 0 <= i < b.len() ==> #[trigger] b[i] <= 1
}

/// Shifts the bits `from..to` into a byte.
pub fn shift8(bits: &[u8], from: usize, to: usize) -> (r: u8)
    requires
        from <= to <= bits@.len(),
    ensures
        r == shifted8(bits@.subrange(from as int, to as int)),
{
    let mut v: u8 = 0;
    for i in from..to
        invariant
            from <= to <= bits@.len(),
            v == shifted8(bits@.subrange(from as int, i as int)),
    {
        assert(bits@.subrange(from as int, i + 1).drop_last() == bits@.subrange(
            from as int,
            i as int,
        ));
        v = (v << 1) | bits[i];
    }
    v
}

/// Shifts the bits `from..to` into a 16-bit number.
pub fn shift16(bits: &[u8], from: usize, to: usize) -> (r: u16)
    requires
        from <= to <= bits@.len(),
    ensures
        r == shifted16(bits@.subrange(from as int, to as int)),
{
    let mut v: u16 = 0;
    for i in from..to
        invariant
            from <= to <= bits@.len(),
            v == shifted16(bits@.subrange(from as int, i as int)),
    {
        assert(bits@.subrange(from as int, i + 1).drop_last() == bits@.subrange(
            from as int,
            i as int,
        ));
        v = (v << 1) | bits[i] as u16;
    }
    v
}

/// Bit `i` of a 72-bit field, most significant first.
pub open spec fn bit72(value: u64, rem: u8, i: int) -> u8 {
    if i < 64 {
        ((value >> ((63 - i) as u64)) & 1) as u8
    } else {
        (rem >> ((71 - i) as u8)) & 1
    }
}

/// The 72 bits of a field of 64 and 8 bits.
pub fn bits72(value: u64, rem: u8) -> (r: Vec<u8>)
    ensures
        r@ == Seq::new(72, |i: int| bit72(value, rem, i)),
{
    let mut out: Vec<u8> = Vec::new();
    let ghost all = Seq::new(72, |i: int| bit72(value, rem, i));
    for i in 0..72usize
        invariant
            all == Seq::new(72, |i: int| bit72(value, rem, i)),
            out@ == all.take(i as int),
    {
        assert(all.take(i + 1) == all.take(i as int).push(all[i as int]));
        if i < 64 {
            let b: u64 = (value >> ((63 - i) as u64)) & 1;
            assert((value >> ((63 - i) as u64)) & 1 <= 1) by (bit_vector)
                requires
                    i < 64,
            ;
            out.push(b as u8);
        } else {
            out.push((rem >> ((71 - i) as u8)) & 1);
        }
    }
    assert(all.take(72) == all);
    out
}

/// The place of the last zero; 0 where there is none.
pub open spec fn last_zero(bits: Seq<u8>) -> int
    decreases bits.len(),
{
    if bits.len() == 0 {
        0
    } else if bits.last() == 0 {
        bits.len() - 1
    } else {
        last_zero(bits.drop_last())
    }
}

/// What the place of the last zero means.
pub proof fn lemma_last_zero(bits: Seq<u8>)
    ensures
        0 <= last_zero(bits),
        bits.len() > 0 ==> last_zero(bits) < bits.len(),
        forall|i: int| last_zero(bits) < i < bits.len() ==> #[trigger] bits[i] != 0,
        last_zero(bits) > 0 ==> bits[last_zero(bits)] == 0,
    decreases bits.len(),
{
    if bits.len() > 0 && bits.last() != 0 {
        let head = bits.drop_last();
        lemma_last_zero(head);
        assert forall|i: int| last_zero(bits) < i < bits.len() implies #[trigger] bits[i] != 0 by {
            if i < head.len() {
                assert(bits[i] == head[i]);
            }
        }
    }
}

/// Finds the last zero; 0 where there is none.
pub fn bit_last_zero(bits: &[u8]) -> (r: usize)
    ensures
        r == last_zero(bits@),
{
    let mut n: usize = bits.len();
    assert(bits@.take(n as int) == bits@);
    while n > 0
        invariant
            n <= bits@.len(),
            last_zero(bits@) == last_zero(bits@.take(n as int)),
        decreases n,
    {
        assert(bits@.take(n as int).drop_last() == bits@.take(n - 1));
        if bits[n - 1] == 0 {
            return n - 1;
        }
        n = n - 1;
    }
    0
}

proof fn lemma_shifted6(b: Seq<u8>)
    requires
        b.len() == 6,
        are_bits(b),
    ensures
        shifted8(b) < 64,
        forall|j: int| 0 <= j < 6 ==> (shifted8(b) >> ((5 - j) as u8)) & 1 == #[trigger] b[j],
{
    let (b0, b1, b2, b3, b4, b5) = (b[0], b[1], b[2], b[3], b[4], b[5]);
    let v = shifted8(b);
    assert(v == ((((((((((0u8 << 1) | b0) << 1) | b1) << 1) | b2) << 1) | b3) << 1) | b4) << 1 | b5)
        by {
        reveal_with_fuel(shifted8, 7);
        let s5 = b.drop_last();
        let s4 = s5.drop_last();
        let s3 = s4.drop_last();
        let s2 = s3.drop_last();
        let s1 = s2.drop_last();
        assert(s1.drop_last().len() == 0);
    }
    assert(v < 64 && (v >> 5u8) & 1 == b0 && (v >> 4u8) & 1 == b1 && (v >> 3u8) & 1 == b2 && (v
        >> 2u8) & 1 == b3 && (v >> 1u8) & 1 == b4 && (v >> 0u8) & 1 == b5) by (bit_vector)
        requires
            b0 <= 1,
            b1 <= 1,
            b2 <= 1,
            b3 <= 1,
            b4 <= 1,
            b5 <= 1,
            v == ((((((((((0u8 << 1) | b0) << 1) | b1) << 1) | b2) << 1) | b3) << 1) | b4) << 1
                | b5,
    ;
    assert forall|j: int| 0 <= j < 6 implies (v >> ((5 - j) as u8)) & 1 == #[trigger] b[j] by {
        assert(j == 0 || j == 1 || j == 2 || j == 3 || j == 4 || j == 5);
    }
}

/// The twelve words that 72 bits write.
pub open spec fn words_of_bits(bits: Seq<u8>) -> Seq<u8> {
    Seq::new(12, |i: int| shifted8(bits.subrange(6 * i, 6 * i + 6)))
}

/// Bit `k` of twelve words, most significant first.
pub open spec fn word_bit(w: Seq<u8>, k: int) -> u8 {
    (w[k / 6] >> ((5 - k % 6) as u8)) & 1
}

/// Bits written as words are read back from them.
pub proof fn law_words_hold_bits(bits: Seq<u8>)
    requires
        bits.len() >= 72,
        are_bits(bits),
    ensures
        words::six_bit(words_of_bits(bits)),
        forall|k: int| 0 <= k < 72 ==> word_bit(words_of_bits(bits), k) == #[trigger] bits[k],
{
    let w = words_of_bits(bits);
    assert forall|i: int| 0 <= i < 12 implies #[trigger] w[i] < 64 by {
        lemma_shifted6(bits.subrange(6 * i, 6 * i + 6));
    }
    assert forall|k: int| 0 <= k < 72 implies word_bit(w, k) == #[trigger] bits[k] by {
        let i = k / 6;
        let part = bits.subrange(6 * i, 6 * i + 6);
        lemma_shifted6(part);
        assert(part[k % 6] == bits[k]);
    }
}

} // verus!
