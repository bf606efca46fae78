//! What checksum and parity detect: a message with one bit wrong never passes for a good one, and a
//! parity check need only be tried on messages of a single bit.
use crate::js8::bits;
use crate::js8::frame::{
    covered_bytes, crc_byte, crc_bytes, crc_holds, crc_step, law_parity_linear,
    lemma_checksum_small, lemma_zero_bits, overlap, parity_of, CheckNode, PARITY_ROWS,
};
use vstd::prelude::*;

verus! {

/// Bits with bit `i` turned over.
pub open spec fn flipped(b: Seq<u8>, i: int) -> Seq<u8> {
    b.update(i, (1 - b[i]) as u8)
}

/// Whether a register holds the trace of a single wrong bit: it is the bit itself, or an even
/// number, and not 0.
spec fn is_trace(d: u32) -> bool {
    0 < d <= 0xFFF && (d == 1 || d & 1 == 0)
}

proof fn lemma_step_linear(c: u32, d: u32, x: u8, y: u8)
    ensures
        crc_step(c ^ d, x ^ y) == crc_step(c, x) ^ crc_step(d, y),
{
    assert((if ((c ^ d) >> 11) & 1 == 1 {
        ((((c ^ d) << 1) & 0xFFF) ^ ((x ^ y) as u32)) ^ 0xC06
    } else {
        (((c ^ d) << 1) & 0xFFF) ^ ((x ^ y) as u32)
    }) == (if (c >> 11) & 1 == 1 {
        (((c << 1) & 0xFFF) ^ (x as u32)) ^ 0xC06
    } else {
        ((c << 1) & 0xFFF) ^ (x as u32)
    }) ^ (if (d >> 11) & 1 == 1 {
        (((d << 1) & 0xFFF) ^ (y as u32)) ^ 0xC06
    } else {
        ((d << 1) & 0xFFF) ^ (y as u32)
    })) by (bit_vector);
}

proof fn lemma_byte_linear(c: u32, d: u32, b: u8, e: u8, n: nat)
    requires
        n <= 8,
    ensures
        crc_byte(c ^ d, b ^ e, n) == crc_byte(c, b, n) ^ crc_byte(d, e, n),
    decreases n,
{
    if n > 0 {
        lemma_byte_linear(c, d, b, e, (n - 1) as nat);
        let k = (8 - n) as u8;
        assert(((b ^ e) >> k) & 1 == ((b >> k) & 1) ^ ((e >> k) & 1)) by (bit_vector);
        lemma_step_linear(
            crc_byte(c, b, (n - 1) as nat),
            crc_byte(d, e, (n - 1) as nat),
            (b >> k) & 1,
            (e >> k) & 1,
        );
    }
}

proof fn lemma_bytes_linear(a: Seq<u8>, m: Seq<u8>, z: Seq<u8>)
    requires
        a.len() == m.len() == z.len(),
        forall|i: int| 0 <= i < a.len() ==> #[trigger] z[i] == a[i] ^ m[i],
    ensures
        crc_bytes(z) == crc_bytes(a) ^ crc_bytes(m),
    decreases a.len(),
{
    if a.len() == 0 {
        assert(0u32 ^ 0u32 == 0) by (bit_vector);
    } else {
        lemma_bytes_linear(a.drop_last(), m.drop_last(), z.drop_last());
        assert(z.last() == a.last() ^ m.last());
        lemma_byte_linear(
            crc_bytes(a.drop_last()),
            crc_bytes(m.drop_last()),
            a.last(),
            m.last(),
            8,
        );
    }
}

proof fn lemma_step_trace(d: u32)
    ensures
        is_trace(d) ==> is_trace(crc_step(d, 0)),
        crc_step(0, 0) == 0,
        crc_step(0, 1) == 1,
{
    let next = crc_step(d, 0);
    assert((if (d >> 11) & 1 == 1 {
        (((d << 1) & 0xFFF) ^ (0u8 as u32)) ^ 0xC06
    } else {
        ((d << 1) & 0xFFF) ^ (0u8 as u32)
    }) == next);
    assert(0 < d && d <= 0xFFF && (d == 1 || d & 1 == 0) ==> 0 < next && next <= 0xFFF && next & 1
        == 0) by (bit_vector)
        requires
            (if (d >> 11) & 1 == 1 {
                (((d << 1) & 0xFFF) ^ (0u8 as u32)) ^ 0xC06
            } else {
                ((d << 1) & 0xFFF) ^ (0u8 as u32)
            }) == next,
    ;
    assert((0u32 >> 11) & 1 == 0 && ((0u32 << 1) & 0xFFF) ^ (0u8 as u32) == 0 && ((0u32 << 1)
        & 0xFFF) ^ (1u8 as u32) == 1) by (bit_vector);
}

/// A byte with bit `t` alone set leaves its trace in an empty register, once the bit has come.
proof fn lemma_one_bit(t: u8, n: nat)
    requires
        t < 8,
        n <= 8,
    ensures
        n + t <= 7 ==> crc_byte(0, 1u8 << t, n) == 0,
        n + t > 7 ==> is_trace(crc_byte(0, 1u8 << t, n)),
    decreases n,
{
    if n > 0 {
        lemma_one_bit(t, (n - 1) as nat);
        let k = (8 - n) as u8;
        assert(((1u8 << t) >> k) & 1 == (if t == k {
            1u8
        } else {
            0u8
        })) by (bit_vector)
            requires
                t < 8,
                k < 8,
        ;
        lemma_step_trace(crc_byte(0, 1u8 << t, (n - 1) as nat));
    }
}

proof fn lemma_no_bits(d: u32, n: nat)
    requires
        n <= 8,
    ensures
        is_trace(d) ==> is_trace(crc_byte(d, 0, n)),
        d == 0 ==> crc_byte(d, 0, n) == 0,
    decreases n,
{
    if n > 0 {
        lemma_no_bits(d, (n - 1) as nat);
        let k = (8 - n) as u8;
        lemma_zero_bits(k);
        lemma_step_trace(crc_byte(d, 0, (n - 1) as nat));
    }
}

/// Bytes of which byte `j` alone has a bit, which is bit `t`, leave a trace.
proof fn lemma_mask_trace(m: Seq<u8>, j: int, t: u8)
    requires
        t < 8,
        0 <= j,
        forall|i: int|
            0 <= i < m.len() ==> #[trigger] m[i] == if i == j {
                1u8 << t
            } else {
                0u8
            },
    ensures
        m.len() <= j ==> crc_bytes(m) == 0,
        m.len() > j ==> is_trace(crc_bytes(m)),
    decreases m.len(),
{
    if m.len() > 0 {
        lemma_mask_trace(m.drop_last(), j, t);
        assert(m.last() == m[m.len() - 1]);
        lemma_no_bits(crc_bytes(m.drop_last()), 8);
        lemma_one_bit(t, 8);
    }
}

proof fn lemma_shifted8_flip(s: Seq<u8>, k: int)
    requires
        bits::are_bits(s),
        0 <= k < s.len() <= 8,
    ensures
        bits::shifted8(flipped(s, k)) == bits::shifted8(s) ^ (1u8 << ((s.len() - 1 - k) as u8)),
    decreases s.len(),
{
    let f = flipped(s, k);
    let v = bits::shifted8(s.drop_last());
    let b = s.last();
    assert(b == s[s.len() - 1]);
    if k == s.len() - 1 {
        assert(f.drop_last() =~= s.drop_last());
        assert((v << 1) | ((1 - b) as u8) == ((v << 1) | b) ^ (1u8 << 0u8)) by (bit_vector)
            requires
                b <= 1,
        ;
    } else {
        assert(f.drop_last() =~= flipped(s.drop_last(), k));
        lemma_shifted8_flip(s.drop_last(), k);
        let n = (s.len() - 2 - k) as u8;
        assert(((v ^ (1u8 << n)) << 1) | b == ((v << 1) | b) ^ (1u8 << ((n + 1) as u8))) by (
        bit_vector)
            requires
                b <= 1,
                n < 7,
        ;
    }
}

proof fn lemma_shifted16_flip(s: Seq<u8>, k: int)
    requires
        bits::are_bits(s),
        0 <= k < s.len() <= 12,
    ensures
        bits::shifted16(flipped(s, k)) == bits::shifted16(s) ^ (1u16 << ((s.len() - 1 - k) as u16)),
    decreases s.len(),
{
    let f = flipped(s, k);
    let v = bits::shifted16(s.drop_last());
    let b = s.last() as u16;
    assert(s.last() == s[s.len() - 1]);
    if k == s.len() - 1 {
        assert(f.drop_last() =~= s.drop_last());
        assert((v << 1) | ((1 - b) as u16) == ((v << 1) | b) ^ (1u16 << 0u16)) by (bit_vector)
            requires
                b <= 1,
        ;
    } else {
        assert(f.drop_last() =~= flipped(s.drop_last(), k));
        lemma_shifted16_flip(s.drop_last(), k);
        let n = (s.len() - 2 - k) as u16;
        assert(((v ^ (1u16 << n)) << 1) | b == ((v << 1) | b) ^ (1u16 << ((n + 1) as u16))) by (
        bit_vector)
            requires
                b <= 1,
                n < 15,
        ;
    }
}

/// A message with one wrong bit, in its payload, its type or its checksum, does not check.
pub proof fn law_single_error_detected(msg: Seq<u8>, i: int)
    requires
        msg.len() == 87,
        bits::are_bits(msg),
        crc_holds(msg),
        0 <= i < 87,
    ensures
        !crc_holds(flipped(msg, i)),
{
    let bad = flipped(msg, i);
    let a = covered_bytes(msg);
    let z = covered_bytes(bad);
    let tail = msg.subrange(75, 87);
    let field = bits::shifted16(tail);
    if i >= 75 {
        lemma_covered_same(msg, bad);
        assert(bad.subrange(75, 87) =~= flipped(tail, i - 75));
        lemma_shifted16_flip(tail, i - 75);
        let n = (11 - (i - 75)) as u16;
        assert(field ^ (1u16 << n) != field) by (bit_vector)
            requires
                n < 12,
        ;
    } else {
        let j = i / 8;
        let t: u8 = (7 - i % 8) as u8;
        assert(bad.subrange(75, 87) =~= tail);
        lemma_covered_flip(msg, i);
        let m = Seq::new(
            11,
            |k: int|
                if k == j {
                    1u8 << t
                } else {
                    0u8
                },
        );
        lemma_bytes_linear(a, m, z);
        lemma_mask_trace(m, j, t);
        let x = crc_bytes(a);
        let d = crc_bytes(m);
        lemma_checksum_small(a);
        assert(((x ^ d) ^ 42) as u16 != (x ^ 42) as u16) by (bit_vector)
            requires
                0 < d <= 0xFFF,
        ;
    }
}

proof fn lemma_covered_same(msg: Seq<u8>, bad: Seq<u8>)
    requires
        msg.len() == 87,
        bad.len() == 87,
        forall|k: int| 0 <= k < 75 ==> #[trigger] bad[k] == msg[k],
    ensures
        covered_bytes(bad) == covered_bytes(msg),
{
    assert forall|k: int| 0 <= k < 11 implies #[trigger] covered_bytes(bad)[k] == covered_bytes(
        msg,
    )[k] by {
        if k < 9 {
            assert(bad.subrange(8 * k, 8 * k + 8) =~= msg.subrange(8 * k, 8 * k + 8));
        } else if k == 9 {
            assert(bad.subrange(72, 75) =~= msg.subrange(72, 75));
        }
    }
    assert(covered_bytes(bad) =~= covered_bytes(msg));
}

proof fn lemma_covered_flip(msg: Seq<u8>, i: int)
    requires
        msg.len() == 87,
        bits::are_bits(msg),
        0 <= i < 75,
    ensures
        forall|k: int|
            0 <= k < 11 ==> #[trigger] covered_bytes(flipped(msg, i))[k] == covered_bytes(msg)[k]
                ^ (if k == i / 8 {
                1u8 << ((7 - i % 8) as u8)
            } else {
                0u8
            }),
{
    let bad = flipped(msg, i);
    let t: u8 = (7 - i % 8) as u8;
    assert forall|k: int| 0 <= k < 11 implies #[trigger] covered_bytes(bad)[k] == covered_bytes(
        msg,
    )[k] ^ (if k == i / 8 {
        1u8 << t
    } else {
        0u8
    }) by {
        let byte = covered_bytes(msg)[k];
        assert(byte ^ 0u8 == byte) by (bit_vector);
        if k < 9 {
            let part = msg.subrange(8 * k, 8 * k + 8);
            if k == i / 8 {
                assert(bad.subrange(8 * k, 8 * k + 8) =~= flipped(part, i % 8));
                lemma_shifted8_flip(part, i % 8);
            } else {
                assert(bad.subrange(8 * k, 8 * k + 8) =~= part);
            }
        } else if k == 9 {
            let part = msg.subrange(72, 75);
            if i >= 72 {
                assert(bad.subrange(72, 75) =~= flipped(part, i - 72));
                lemma_shifted8_flip(part, i - 72);
                let v = bits::shifted8(part);
                let n = (2 - (i - 72)) as u8;
                assert(t == n + 5);
                assert((v ^ (1u8 << n)) << 5 == (v << 5) ^ (1u8 << ((n + 5) as u8))) by (
                bit_vector)
                    requires
                        n < 3,
                ;
            } else {
                assert(bad.subrange(72, 75) =~= part);
            }
        }
    }
}

// ---- parity checks ----

/// The codeword of message bits: their parity, then the bits.
pub open spec fn codeword(m: Seq<u8>) -> Seq<u8> {
    parity_of(m) + m
}

/// A message of which bit `i` alone is set.
pub open spec fn single(i: int) -> Seq<u8> {
    Seq::new(
        87,
        |k: int|
            if k == i {
                1u8
            } else {
                0u8
            },
    )
}

/// Whether the codeword of a message meets a check.
pub open spec fn meets(c: CheckNode, m: Seq<u8>) -> bool {
    c.sum(codeword(m), c.valid as nat) % 2 == 0
}

/// The first `n` bits of a message, and zeros.
spec fn first_bits(m: Seq<u8>, n: int) -> Seq<u8> {
    Seq::new(
        87,
        |k: int|
            if k < n {
                m[k]
            } else {
                0u8
            },
    )
}

proof fn lemma_sum_linear(c: CheckNode, x: Seq<u8>, y: Seq<u8>, z: Seq<u8>, n: nat)
    requires
        c.wf(),
        n <= c.valid,
        forall|i: int| 0 <= i < 174 ==> #[trigger] z[i] == (x[i] + y[i]) % 2,
    ensures
        c.sum(z, n) % 2 == (c.sum(x, n) + c.sum(y, n)) % 2,
    decreases n,
{
    if n > 0 {
        lemma_sum_linear(c, x, y, z, (n - 1) as nat);
        let at = c.bits@[n - 1] as int;
        assert(c.bits@[n - 1] < 174);
        assert(z[at] == (x[at] + y[at]) % 2);
    }
}

proof fn lemma_no_overlap(row: u128, m: Seq<u8>, n: nat)
    requires
        forall|i: int| 0 <= i < n ==> #[trigger] m[i] == 0,
    ensures
        overlap(row, m, n) == 0,
    decreases n,
{
    if n > 0 {
        lemma_no_overlap(row, m, (n - 1) as nat);
    }
}

proof fn lemma_zero_sum(c: CheckNode, x: Seq<u8>, n: nat)
    requires
        c.wf(),
        n <= c.valid,
        forall|i: int| 0 <= i < 174 ==> #[trigger] x[i] == 0,
    ensures
        c.sum(x, n) == 0,
    decreases n,
{
    if n > 0 {
        lemma_zero_sum(c, x, (n - 1) as nat);
        assert(c.bits@[n - 1] < 174);
    }
}

proof fn lemma_first_bits_meet(c: CheckNode, m: Seq<u8>, n: int)
    requires
        c.wf(),
        m.len() == 87,
        bits::are_bits(m),
        0 <= n <= 87,
        forall|i: int| 0 <= i < 87 ==> meets(c, #[trigger] single(i)),
    ensures
        meets(c, first_bits(m, n)),
    decreases n,
{
    let z = first_bits(m, n);
    if n == 0 {
        assert forall|i: int| 0 <= i < 174 implies #[trigger] codeword(z)[i] == 0 by {
            if i < 87 {
                lemma_no_overlap(PARITY_ROWS[i], z, 87);
            }
        }
        lemma_zero_sum(c, codeword(z), c.valid as nat);
    } else {
        let x = first_bits(m, n - 1);
        lemma_first_bits_meet(c, m, n - 1);
        if m[n - 1] == 0 {
            assert(z =~= x);
        } else {
            let y = single(n - 1);
            assert(m[n - 1] <= 1);
            assert(bits::are_bits(x));
            assert(bits::are_bits(y));
            assert forall|i: int| 0 <= i < 87 implies #[trigger] z[i] == (x[i] + y[i]) % 2 by {
                assert(m[i] <= 1);
            }
            law_parity_linear(x, y, z);
            assert forall|i: int| 0 <= i < 174 implies #[trigger] codeword(z)[i] == (codeword(x)[i]
                + codeword(y)[i]) % 2 by {
                if i < 87 {
                    assert(parity_of(z)[i] == (parity_of(x)[i] + parity_of(y)[i]) % 2);
                } else {
                    assert(z[i - 87] == (x[i - 87] + y[i - 87]) % 2);
                }
            }
            lemma_sum_linear(c, codeword(x), codeword(y), codeword(z), c.valid as nat);
            assert(meets(c, y));
        }
    }
}

/// A check that the codewords of all messages of a single bit meet is met by every codeword.
pub proof fn law_checks_follow_from_single_bits(c: CheckNode, m: Seq<u8>)
    requires
        c.wf(),
        m.len() == 87,
        bits::are_bits(m),
        forall|i: int| 0 <= i < 87 ==> meets(c, #[trigger] single(i)),
    ensures
        meets(c, m),
{
    lemma_first_bits_meet(c, m, 87);
    assert(first_bits(m, 87) =~= m);
}

} // verus!
