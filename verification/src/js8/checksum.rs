//! The checksum as a division: bits are the coefficients of a polynomial, most significant first,
//! and the checksum is what is left of it over `x^12 + x^11 + x^10 + x^2 + x`, where coefficients
//! are added without carry.
use crate::js8::bits;
use crate::js8::decode::lemma_shifted16_bits;
use crate::js8::frame::{
    covered_bytes, crc_byte, crc_bytes, crc_holds, crc_step, lemma_low_bit,
    lemma_zero_bits,
};
use vstd::prelude::*;

verus! {

/// The sum of two bits without carry.
pub open spec fn sum(a: bool, b: bool) -> bool {
    a != b
}

/// The coefficient of `x^e` in a polynomial.
pub open spec fn coefficient(q: Seq<bool>, e: int) -> bool {
    0 <= e < q.len() && q[q.len() - 1 - e]
}

/// The coefficient of `x^e` in `x^12 + x^11 + x^10 + x^2 + x`.
pub open spec fn in_generator(e: int) -> bool {
    e == 12 || e == 11 || e == 10 || e == 2 || e == 1
}

/// The coefficient of `x^e` in a polynomial times `x^12 + x^11 + x^10 + x^2 + x`.
pub open spec fn multiple(q: Seq<bool>, e: int) -> bool {
    sum(
        coefficient(q, e - 12),
        sum(
            coefficient(q, e - 11),
            sum(coefficient(q, e - 10), sum(coefficient(q, e - 2), coefficient(q, e - 1))),
        ),
    )
}

/// Bit `e` of a register of twelve bits; bit 0 is the least significant.
pub open spec fn register_bit(r: u32, e: int) -> bool {
    0 <= e < 12 && (r >> (e as u32)) & 1 == 1
}

/// Whether a polynomial is a multiple of the generator and what a register holds.
pub open spec fn leaves(s: Seq<bool>, r: u32, q: Seq<bool>) -> bool {
    forall|e: int|
        0 <= e ==> #[trigger] multiple(q, e) == sum(coefficient(s, e), register_bit(r, e))
}

proof fn lemma_push(q: Seq<bool>, t: bool, e: int)
    ensures
        coefficient(q.push(t), e) == (if e == 0 {
            t
        } else {
            coefficient(q, e - 1)
        }),
{
}

/// What a step does to each bit of the register.
proof fn lemma_step_bits(r: u32, b: u8)
    requires
        r <= 0xFFF,
        b <= 1,
    ensures
        crc_step(r, b) <= 0xFFF,
        forall|e: int|
            0 <= e < 12 ==> #[trigger] register_bit(crc_step(r, b), e) == sum(
                if e == 0 {
                    b == 1
                } else {
                    register_bit(r, e - 1)
                },
                register_bit(r, 11) && in_generator(e),
            ),
{
    let c = b as u32;
    let n = crc_step(r, b);
    assert(n == (if (r >> 11) & 1 == 1 {
        (((r << 1) & 0xFFF) ^ c) ^ 0xC06
    } else {
        ((r << 1) & 0xFFF) ^ c
    }));
    assert({
        let t = (r >> 11u32) & 1 == 1;
        &&& n <= 0xFFF
        &&& ((n >> 0u32) & 1 == 1) == (c == 1)
        &&& ((n >> 1u32) & 1 == 1) == (((r >> 0u32) & 1 == 1) != t)
        &&& ((n >> 2u32) & 1 == 1) == (((r >> 1u32) & 1 == 1) != t)
        &&& ((n >> 3u32) & 1 == 1) == ((r >> 2u32) & 1 == 1)
        &&& ((n >> 4u32) & 1 == 1) == ((r >> 3u32) & 1 == 1)
        &&& ((n >> 5u32) & 1 == 1) == ((r >> 4u32) & 1 == 1)
        &&& ((n >> 6u32) & 1 == 1) == ((r >> 5u32) & 1 == 1)
        &&& ((n >> 7u32) & 1 == 1) == ((r >> 6u32) & 1 == 1)
        &&& ((n >> 8u32) & 1 == 1) == ((r >> 7u32) & 1 == 1)
        &&& ((n >> 9u32) & 1 == 1) == ((r >> 8u32) & 1 == 1)
        &&& ((n >> 10u32) & 1 == 1) == (((r >> 9u32) & 1 == 1) != t)
        &&& ((n >> 11u32) & 1 == 1) == (((r >> 10u32) & 1 == 1) != t)
    }) by (bit_vector)
        requires
            r <= 0xFFF,
            c <= 1,
            n == (if (r >> 11) & 1 == 1 {
                (((r << 1) & 0xFFF) ^ c) ^ 0xC06
            } else {
                ((r << 1) & 0xFFF) ^ c
            }),
    ;
    assert forall|e: int| 0 <= e < 12 implies #[trigger] register_bit(n, e) == sum(
        if e == 0 {
            b == 1
        } else {
            register_bit(r, e - 1)
        },
        register_bit(r, 11) && in_generator(e),
    ) by {
        assert(e == 0 || e == 1 || e == 2 || e == 3 || e == 4 || e == 5 || e == 6 || e == 7 || e
            == 8 || e == 9 || e == 10 || e == 11);
    }
}

/// A step divides on: the quotient gets the bit that falls out.
proof fn lemma_step_divides(s: Seq<bool>, r: u32, q: Seq<bool>, b: u8)
    requires
        r <= 0xFFF,
        b <= 1,
        leaves(s, r, q),
    ensures
        crc_step(r, b) <= 0xFFF,
        leaves(s.push(b == 1), crc_step(r, b), q.push(register_bit(r, 11))),
{
    let t = register_bit(r, 11);
    let n = crc_step(r, b);
    let p = q.push(t);
    let u = s.push(b == 1);
    lemma_step_bits(r, b);
    assert forall|e: int| 0 <= e implies #[trigger] multiple(p, e) == sum(
        coefficient(u, e),
        register_bit(n, e),
    ) by {
        lemma_push(q, t, e - 12);
        lemma_push(q, t, e - 11);
        lemma_push(q, t, e - 10);
        lemma_push(q, t, e - 2);
        lemma_push(q, t, e - 1);
        lemma_push(s, b == 1, e);
        if e > 0 {
            assert(multiple(q, e - 1) == sum(coefficient(s, e - 1), register_bit(r, e - 1)));
        }
        assert(e < 12 ==> register_bit(n, e) == sum(
            if e == 0 {
                b == 1
            } else {
                register_bit(r, e - 1)
            },
            t && in_generator(e),
        ));
    }
}

/// The top `n` bits of a byte.
pub open spec fn top_bits(b: u8, n: nat) -> Seq<bool> {
    Seq::new(n, |j: int| (b >> ((7 - j) as u8)) & 1 == 1)
}

/// The bits of bytes.
pub open spec fn all_bits(bytes: Seq<u8>) -> Seq<bool> {
    Seq::new(8 * bytes.len(), |k: int| (bytes[k / 8] >> ((7 - k % 8) as u8)) & 1 == 1)
}

proof fn lemma_byte_divides(s: Seq<bool>, r: u32, q: Seq<bool>, b: u8, n: nat) -> (p: Seq<bool>)
    requires
        r <= 0xFFF,
        n <= 8,
        leaves(s, r, q),
    ensures
        crc_byte(r, b, n) <= 0xFFF,
        p.len() == q.len() + n,
        leaves(s + top_bits(b, n), crc_byte(r, b, n), p),
    decreases n,
{
    if n == 0 {
        assert(s + top_bits(b, n) =~= s);
        q
    } else {
        let before = lemma_byte_divides(s, r, q, b, (n - 1) as nat);
        let m = crc_byte(r, b, (n - 1) as nat);
        let v = b >> ((8 - n) as u8);
        let bit = v & 1;
        lemma_low_bit(v);
        lemma_step_divides(s + top_bits(b, (n - 1) as nat), m, before, bit);
        assert(7 - (n - 1) == 8 - n);
        assert((s + top_bits(b, (n - 1) as nat)).push(bit == 1) =~= s + top_bits(b, n));
        before.push(register_bit(m, 11))
    }
}

/// The register that bytes leave is what is left of their bits over the generator.
pub proof fn law_register_is_remainder(bytes: Seq<u8>) -> (q: Seq<bool>)
    ensures
        q.len() == 8 * bytes.len(),
        crc_bytes(bytes) <= 0xFFF,
        leaves(all_bits(bytes), crc_bytes(bytes), q),
    decreases bytes.len(),
{
    if bytes.len() == 0 {
        let q = Seq::<bool>::empty();
        assert forall|e: int| 0 <= e implies #[trigger] multiple(q, e) == sum(
            coefficient(all_bits(bytes), e),
            register_bit(0, e),
        ) by {
            lemma_zero_bits((e % 12) as u8);
        }
        q
    } else {
        let head = bytes.drop_last();
        let before = law_register_is_remainder(head);
        let q = lemma_byte_divides(all_bits(head), crc_bytes(head), before, bytes.last(), 8);
        assert(all_bits(head) + top_bits(bytes.last(), 8) =~= all_bits(bytes)) by {
            let n = head.len() as int;
            assert forall|k: int| 0 <= k < 8 * bytes.len() implies (all_bits(head) + top_bits(
                bytes.last(),
                8,
            ))[k] == all_bits(bytes)[k] by {
                if k < 8 * n {
                    assert(k / 8 < n);
                    assert(head[k / 8] == bytes[k / 8]);
                } else {
                    assert(k / 8 == n && k % 8 == k - 8 * n);
                }
            }
        }
        q
    }
}

proof fn lemma_shifted8_bits(b: Seq<u8>, j: int)
    requires
        b.len() <= 8,
        bits::are_bits(b),
        0 <= j < b.len(),
    ensures
        (bits::shifted8(b) >> ((b.len() - 1 - j) as u8)) & 1 == b[j],
    decreases b.len(),
{
    let s = bits::shifted8(b.drop_last());
    let l = b.last();
    let k = (b.len() - 1 - j) as u8;
    assert(b[b.len() - 1] <= 1);
    assert(((((s << 1) | l) >> 0u8) & 1 == l) && (0 < k ==> (((s << 1) | l) >> k) & 1 == (s >> (
    (k - 1) as u8)) & 1)) by (bit_vector)
        requires
            l <= 1,
            k < 8,
    ;
    if j < b.len() - 1 {
        lemma_shifted8_bits(b.drop_last(), j);
    }
}

/// The coefficient of `x^e` in the 75 leading bits of a message, moved up by 13 places.
pub open spec fn payload_coefficient(m: Seq<u8>, e: int) -> bool {
    13 <= e < 88 && m[87 - e] == 1
}

/// The coefficient of `x^e` in the checksum field of a message, with 42 added to it.
pub open spec fn check_coefficient(m: Seq<u8>, e: int) -> bool {
    0 <= e < 12 && sum(m[86 - e] == 1, e == 1 || e == 3 || e == 5)
}

proof fn lemma_covered_bits(m: Seq<u8>, e: int)
    requires
        m.len() == 87,
        bits::are_bits(m),
        0 <= e,
    ensures
        coefficient(all_bits(covered_bytes(m)), e) == payload_coefficient(m, e),
{
    let c = covered_bytes(m);
    if e < 88 {
        let k = 87 - e;
        let i = k / 8;
        let j = k % 8;
        assert(all_bits(c)[k] == ((c[i] >> ((7 - j) as u8)) & 1 == 1));
        if i < 9 {
            let part = m.subrange(8 * i, 8 * i + 8);
            assert(bits::are_bits(part));
            lemma_shifted8_bits(part, j);
            assert(part[j] == m[k]);
        } else if i == 9 {
            let part = m.subrange(72, 75);
            let v = bits::shifted8(part);
            let d = j as u8;
            assert(bits::are_bits(part));
            assert((d < 3 ==> ((v << 5) >> ((7 - d) as u8)) & 1 == (v >> ((2 - d) as u8)) & 1) && (3
                <= d ==> ((v << 5) >> ((7 - d) as u8)) & 1 == 0)) by (bit_vector)
                requires
                    d <= 7,
            ;
            if j < 3 {
                lemma_shifted8_bits(part, j);
                assert(part[j] == m[k]);
            }
        } else {
            lemma_zero_bits((7 - j) as u8);
        }
    }
}

/// A message checks when its 75 leading bits, moved up by 13 places, and its checksum field, with
/// 42 added to it, are together a multiple of `x^12 + x^11 + x^10 + x^2 + x`.
pub proof fn law_checked_message_divides(m: Seq<u8>) -> (q: Seq<bool>)
    requires
        m.len() == 87,
        bits::are_bits(m),
        crc_holds(m),
    ensures
        q.len() == 88,
        forall|e: int|
            0 <= e ==> #[trigger] multiple(q, e) == sum(
                payload_coefficient(m, e),
                check_coefficient(m, e),
            ),
{
    let c = covered_bytes(m);
    let r = crc_bytes(c);
    let q = law_register_is_remainder(c);
    let tail = m.subrange(75, 87);
    let f = bits::shifted16(tail);
    assert(bits::are_bits(tail));
    assert forall|e: int| 0 <= e implies #[trigger] multiple(q, e) == sum(
        payload_coefficient(m, e),
        check_coefficient(m, e),
    ) by {
        lemma_covered_bits(m, e);
        if e < 12 {
            let d = e as u32;
            let g = e as u16;
            lemma_shifted16_bits(tail, 11 - e);
            assert(tail[11 - e] == m[86 - e]);
            assert(((r >> d) & 1 == 1) == (((f >> g) & 1 == 1) != (d == 1 || d == 3 || d == 5)) && (
            f >> g) & 1 <= 1) by (bit_vector)
                requires
                    r <= 0xFFF,
                    d < 12,
                    g == d,
                    f == (r ^ 42) as u16,
            ;
        }
    }
    q
}

} // verus!
