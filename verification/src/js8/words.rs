//! The 72-bit payload: twelve words of six bits, seen as a number of 64 bits and a rest of 8.
use vstd::prelude::*;

verus! {

/// Whether all words fit into six bits.
pub open spec fn six_bit(w: Seq<u8>) -> bool {
    w.len() == 12 && forall|i: int| 0 <= i < 12 ==> #[trigger] w[i] < 64
}

/// The first 64 bits of twelve words: word `i` stands at the bits `58 - 6 i` to `63 - 6 i`, and
/// the upper part of word 10 at the bottom. A word above six bits runs into its neighbours.
pub open spec fn joined_value(w: Seq<u8>) -> u64 {
    (w[0] as u64) << 58 | (w[1] as u64) << 52 | (w[2] as u64) << 46 | (w[3] as u64) << 40 | (
    w[4] as u64) << 34 | (w[5] as u64) << 28 | (w[6] as u64) << 22 | (w[7] as u64) << 16 | (
    w[8] as u64) << 10 | (w[9] as u64) << 4 | (w[10] >> 2) as u64
}

/// The last 8 bits of twelve words.
pub open spec fn joined_rest(w: Seq<u8>) -> u8 {
    ((w[10] & 0x03) << 6) | w[11]
}

/// Twelve words as one number in base 64, the first word most significant.
pub open spec fn number72(w: Seq<u8>) -> int {
    let a = ((w[0] * 64 + w[1]) * 64 + w[2]) * 64 + w[3];
    let b = (((a * 64 + w[4]) * 64 + w[5]) * 64 + w[6]) * 64 + w[7];
    (((b * 64 + w[8]) * 64 + w[9]) * 64 + w[10]) * 64 + w[11]
}

/// Twelve six-bit words are told apart by their number.
pub proof fn lemma_number72_injective(a: Seq<u8>, b: Seq<u8>)
    requires
        six_bit(a),
        six_bit(b),
        number72(a) == number72(b),
    ensures
        a == b,
{
    let na = ((a[0] * 64 + a[1]) * 64 + a[2]) * 64 + a[3];
    let nb = ((b[0] * 64 + b[1]) * 64 + b[2]) * 64 + b[3];
    let ma = (((na * 64 + a[4]) * 64 + a[5]) * 64 + a[6]) * 64 + a[7];
    let mb = (((nb * 64 + b[4]) * 64 + b[5]) * 64 + b[6]) * 64 + b[7];
    assert(ma == mb && a[8] == b[8] && a[9] == b[9] && a[10] == b[10] && a[11] == b[11]);
    assert(na == nb && a[4] == b[4] && a[5] == b[5] && a[6] == b[6] && a[7] == b[7]);
    assert(a[0] == b[0] && a[1] == b[1] && a[2] == b[2] && a[3] == b[3]);
    assert(a =~= b);
}

/// What six-bit words join to is their number.
pub proof fn lemma_joined(w: Seq<u8>)
    requires
        six_bit(w),
    ensures
        joined_value(w) * 256 + joined_rest(w) == number72(w),
{
    let (a, b, c, d) = (w[0], w[1], w[2], w[3]);
    let (e, f, g, h) = (w[4], w[5], w[6], w[7]);
    let (i, j, k, l) = (w[8], w[9], w[10], w[11]);
    assert(((a as u64) << 58 | (b as u64) << 52 | (c as u64) << 46 | (d as u64) << 40 | (e as u64)
        << 34 | (f as u64) << 28 | (g as u64) << 22 | (h as u64) << 16 | (i as u64) << 10 | (
    j as u64) << 4 | (k >> 2) as u64) == a * 0x400_0000_0000_0000 + b * 0x10_0000_0000_0000 + c
        * 0x4000_0000_0000 + d * 0x100_0000_0000 + e * 0x4_0000_0000 + f * 0x1000_0000 + g
        * 0x40_0000 + h * 0x1_0000 + i * 0x400 + j * 0x10 + k / 4 && (((k & 0x03) << 6) | l) == (k
        % 4) * 64 + l) by (bit_vector)
        requires
            a < 64,
            b < 64,
            c < 64,
            d < 64,
            e < 64,
            f < 64,
            g < 64,
            h < 64,
            i < 64,
            j < 64,
            k < 64,
            l < 64,
    ;
}

/// Bit `t` of word `n`, most significant first, is bit `6 n + t` of what the words join to.
pub proof fn lemma_joined_bits(w: Seq<u8>, n: int, t: u8)
    requires
        six_bit(w),
        0 <= n < 12,
        t < 6,
    ensures
        ({
            let at = 6 * n + t;
            (if at < 64 {
                ((joined_value(w) >> ((63 - at) as u64)) & 1) as u8
            } else {
                (joined_rest(w) >> ((71 - at) as u8)) & 1
            }) == (w[n] >> ((5 - t) as u8)) & 1
        }),
{
    let (a, b, c, d) = (w[0], w[1], w[2], w[3]);
    let (e, f, g, h) = (w[4], w[5], w[6], w[7]);
    let (i, j, k, l) = (w[8], w[9], w[10], w[11]);
    let v = joined_value(w);
    let r = joined_rest(w);
    assert({
        &&& (v >> ((63 - 0 - t) as u64)) & 1 == ((a >> ((5 - t) as u8)) & 1) as u64
        &&& (v >> ((63 - 6 - t) as u64)) & 1 == ((b >> ((5 - t) as u8)) & 1) as u64
        &&& (v >> ((63 - 12 - t) as u64)) & 1 == ((c >> ((5 - t) as u8)) & 1) as u64
        &&& (v >> ((63 - 18 - t) as u64)) & 1 == ((d >> ((5 - t) as u8)) & 1) as u64
        &&& (v >> ((63 - 24 - t) as u64)) & 1 == ((e >> ((5 - t) as u8)) & 1) as u64
        &&& (v >> ((63 - 30 - t) as u64)) & 1 == ((f >> ((5 - t) as u8)) & 1) as u64
        &&& (v >> ((63 - 36 - t) as u64)) & 1 == ((g >> ((5 - t) as u8)) & 1) as u64
        &&& (v >> ((63 - 42 - t) as u64)) & 1 == ((h >> ((5 - t) as u8)) & 1) as u64
        &&& (v >> ((63 - 48 - t) as u64)) & 1 == ((i >> ((5 - t) as u8)) & 1) as u64
        &&& (v >> ((63 - 54 - t) as u64)) & 1 == ((j >> ((5 - t) as u8)) & 1) as u64
        &&& (t < 4 ==> (v >> ((3 - t) as u64)) & 1 == ((k >> ((5 - t) as u8)) & 1) as u64)
        &&& (4 <= t ==> (r >> ((11 - t) as u8)) & 1 == (k >> ((5 - t) as u8)) & 1)
        &&& (r >> ((5 - t) as u8)) & 1 == (l >> ((5 - t) as u8)) & 1
    }) by (bit_vector)
        requires
            t < 6,
            a < 64,
            b < 64,
            c < 64,
            d < 64,
            e < 64,
            f < 64,
            g < 64,
            h < 64,
            i < 64,
            j < 64,
            k < 64,
            l < 64,
            v == ((a as u64) << 58 | (b as u64) << 52 | (c as u64) << 46 | (d as u64) << 40 | (e as u64) << 34
                | (f as u64) << 28 | (g as u64) << 22 | (h as u64) << 16 | (i as u64) << 10 | (j as u64)
                << 4 | (k >> 2) as u64),
            r == (((k & 0x03) << 6) | l),
    ;
    crate::js8::frame::lemma_low_bit(w[n] >> ((5 - t) as u8));
    assert(n == 0 || n == 1 || n == 2 || n == 3 || n == 4 || n == 5 || n == 6 || n == 7 || n == 8
        || n == 9 || n == 10 || n == 11);
}

/// Unpacks twelve words into the first 64 bits and the remaining 8 bits.
pub fn unpack_72bits(words: &[u8; 12]) -> (r: (u64, u8))
    ensures
        r.0 == joined_value(words@),
        r.1 == joined_rest(words@),
        six_bit(words@) ==> r.0 * 256 + r.1 == number72(words@),
{
    proof {
        if six_bit(words@) {
            lemma_joined(words@);
        }
    }
    let value: u64 = (words[0] as u64) << 58 | (words[1] as u64) << 52 | (words[2] as u64) << 46 | (
    words[3] as u64) << 40 | (words[4] as u64) << 34 | (words[5] as u64) << 28 | (words[6] as u64)
        << 22 | (words[7] as u64) << 16 | (words[8] as u64) << 10 | (words[9] as u64) << 4 | (
    words[10] >> 2) as u64;
    let rest: u8 = ((words[10] & 0x03) << 6) | words[11];
    (value, rest)
}

/// Packs 64 and 8 bits into twelve six-bit words. Every value can be packed.
pub fn pack_72bits(value: u64, rem: u8) -> (r: Option<[u8; 12]>)
    ensures
        r is Some,
        six_bit(r->0@),
        number72(r->0@) == value * 256 + rem,
{
    let v9: u64 = value / 16;
    let v8: u64 = v9 / 64;
    let v7: u64 = v8 / 64;
    let v6: u64 = v7 / 64;
    let v5: u64 = v6 / 64;
    let v4: u64 = v5 / 64;
    let v3: u64 = v4 / 64;
    let v2: u64 = v3 / 64;
    let v1: u64 = v2 / 64;
    let v0: u64 = v1 / 64;
    let out: [u8; 12] = [
        v0 as u8,
        (v1 % 64) as u8,
        (v2 % 64) as u8,
        (v3 % 64) as u8,
        (v4 % 64) as u8,
        (v5 % 64) as u8,
        (v6 % 64) as u8,
        (v7 % 64) as u8,
        (v8 % 64) as u8,
        (v9 % 64) as u8,
        (value % 16) as u8 * 4 + rem / 64,
        rem % 64,
    ];
    let ghost w = out@;
    assert(v0 < 64);
    assert(w[0] == v0 && w[1] == v1 % 64 && w[2] == v2 % 64 && w[3] == v3 % 64);
    assert(w[4] == v4 % 64 && w[5] == v5 % 64 && w[6] == v6 % 64 && w[7] == v7 % 64);
    assert(w[8] == v8 % 64 && w[9] == v9 % 64 && w[10] == (value % 16) * 4 + rem / 64);
    assert(((w[0] * 64 + w[1]) * 64 + w[2]) * 64 + w[3] == v3);
    assert((((v3 * 64 + w[4]) * 64 + w[5]) * 64 + w[6]) * 64 + w[7] == v7);
    assert((v7 * 64 + w[8]) * 64 + w[9] == v9);
    assert((v9 * 64 + w[10]) * 64 + w[11] == value * 256 + rem);
    assert(six_bit(w));
    Some(out)
}

/// Joining the words that a pair packs to gives the pair back.
pub proof fn law_72bits_round_trip(value: u64, rem: u8, w: Seq<u8>)
    requires
        six_bit(w),
        number72(w) == value * 256 + rem,
    ensures
        joined_value(w) == value,
        joined_rest(w) == rem,
{
    lemma_joined(w);
}

/// Packing what six-bit words join to gives those words back.
pub proof fn law_72bits_words_round_trip(w: Seq<u8>, again: Seq<u8>)
    requires
        six_bit(w),
        six_bit(again),
        number72(again) == joined_value(w) * 256 + joined_rest(w),
    ensures
        again == w,
{
    lemma_joined(w);
    lemma_number72_injective(again, w);
}

} // verus!
