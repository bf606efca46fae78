//! Channel coding: checksum, parity, and the 79 tones of a transmission.
//!
//! A transmission is 79 symbols of eight tones: three sync blocks of 7 symbols around two blocks
//! of 29 symbols. The first of these carries the 87 parity bits, the second the 87 message
//! bits, three bits to a symbol. The message is 72 payload bits, 3 type bits and 12 checksum bits.
use crate::js8::bits;
use crate::js8::params::Mode;
use crate::js8::words;
use vstd::prelude::*;

verus! {

/// The alphabet of six-bit words: digits, capitals, small letters, `-` and `+`, as ASCII codes.
pub const ALPHABET: [u8; 64] = [
    48,
    49,
    50,
    51,
    52,
    53,
    54,
    55,
    56,
    57,
    65,
    66,
    67,
    68,
    69,
    70,
    71,
    72,
    73,
    74,
    75,
    76,
    77,
    78,
    79,
    80,
    81,
    82,
    83,
    84,
    85,
    86,
    87,
    88,
    89,
    90,
    97,
    98,
    99,
    100,
    101,
    102,
    103,
    104,
    105,
    106,
    107,
    108,
    109,
    110,
    111,
    112,
    113,
    114,
    115,
    116,
    117,
    118,
    119,
    120,
    121,
    122,
    45,
    43,
];

/// The character of a six-bit word.
pub open spec fn word_char(w: int) -> int {
    if w < 10 {
        '0' as int + w
    } else if w < 36 {
        'A' as int + w - 10
    } else if w < 62 {
        'a' as int + w - 36
    } else if w == 62 {
        '-' as int
    } else {
        '+' as int
    }
}

proof fn lemma_alphabet(w: int)
    requires
        0 <= w < 64,
    ensures
        ALPHABET[w] as int == word_char(w),
{
}

/// Maps a payload character to its six-bit word; `None` if it is not in the alphabet.
pub fn alphabet_word(c: u8) -> (r: Option<u8>)
    ensures
        r is Some <==> exists|w: int| 0 <= w < 64 && #[trigger] word_char(w) == c as int,
        r matches Some(w) ==> w < 64 && word_char(w as int) == c as int,
{
    let w: u8 = if 48 <= c && c <= 57 {
        c - 48
    } else if 65 <= c && c <= 90 {
        c - 55
    } else if 97 <= c && c <= 122 {
        c - 61
    } else if c == 45 {
        62
    } else if c == 43 {
        63
    } else {
        return None;
    };
    assert(word_char(w as int) == c as int);
    Some(w)
}

/// Maps a six-bit word to its payload character.
pub fn word_alphabet(w: u8) -> (r: u8)
    requires
        w < 64,
    ensures
        r as int == word_char(w as int),
{
    proof {
        lemma_alphabet(w as int);
    }
    ALPHABET[w as usize]
}

/// The alphabet has no character twice, so a character's word maps back to it and to nothing else.
pub proof fn law_alphabet_one_to_one(a: int, b: int)
    requires
        0 <= a < 64,
        0 <= b < 64,
        word_char(a) == word_char(b),
    ensures
        a == b,
{
}

/// The alphabet: the ten digits, the 26 capitals and the 26 small letters, each in their order, then
/// `-` and `+`.
pub proof fn law_alphabet_order(d: int, k: int)
    requires
        0 <= d < 10,
        0 <= k < 26,
    ensures
        word_char(d) == '0' as int + d,
        word_char(10 + k) == 'A' as int + k,
        word_char(36 + k) == 'a' as int + k,
        word_char(62) == '-' as int,
        word_char(63) == '+' as int,
{
}

/// The payload text of twelve words.
pub fn words_to_string(w: &[u8; 12]) -> (r: String)
    requires
        words::six_bit(w@),
    ensures
        r@ == Seq::new(12, |i: int| word_char(w@[i] as int) as char),
{
    let mut out: String = String::new();
    let ghost all = Seq::new(12, |i: int| word_char(w@[i] as int) as char);
    for i in 0..12usize
        invariant
            words::six_bit(w@),
            all == Seq::new(12, |i: int| word_char(w@[i] as int) as char),
            out@ == all.take(i as int),
    {
        assert(all.take(i + 1) == all.take(i as int).push(all[i as int]));
        out.push(word_alphabet(w[i]) as char);
    }
    assert(all.take(12) == all);
    out
}

// ---- checksum ----

/// One step of the 12-bit checksum register: a bit is shifted in, and the polynomial `0xC06`
/// added when a bit falls out at the top.
pub open spec fn crc_step(crc: u32, bit: u8) -> u32 {
    let moved = ((crc << 1) & 0xFFF) ^ (bit as u32);
    if (crc >> 11) & 1 == 1 {
        moved ^ 0xC06
    } else {
        moved
    }
}

/// The register after the top `n` bits of a byte, from `crc` on.
pub open spec fn crc_byte(crc: u32, b: u8, n: nat) -> u32
    decreases n,
{
    if n == 0 {
        crc
    } else {
        crc_step(crc_byte(crc, b, (n - 1) as nat), (b >> ((8 - n) as u8)) & 1)
    }
}

/// The register after bytes, from 0 on.
pub open spec fn crc_bytes(bytes: Seq<u8>) -> u32
    decreases bytes.len(),
{
    if bytes.len() == 0 {
        0
    } else {
        crc_byte(crc_bytes(bytes.drop_last()), bytes.last(), 8)
    }
}

/// The checksum of bytes: the register, with 42 added bit by bit.
pub open spec fn checksum(bytes: Seq<u8>) -> u16 {
    (crc_bytes(bytes) ^ 42) as u16
}

/// The last bit of a byte is a bit.
pub(crate) proof fn lemma_low_bit(v: u8)
    ensures
        v & 1 <= 1,
        v >> 0u8 == v,
{
    assert(v & 1 <= 1 && v >> 0u8 == v) by (bit_vector);
}

proof fn lemma_no_shift(v: u8)
    ensures
        v >> 0u8 == v,
{
    lemma_low_bit(v);
}

/// Zero has no bit set.
pub(crate) proof fn lemma_zero_bits(k: u8)
    ensures
        (0u8 >> k) & 1 == 0,
        (0u32 >> (k as u32)) & 1 == 0,
{
    assert((0u8 >> k) & 1 == 0 && (0u32 >> (k as u32)) & 1 == 0) by (bit_vector);
}

/// The last bit of a number is a bit.
proof fn lemma_low_bit16(v: u16)
    ensures
        v & 1 <= 1,
{
    assert(v & 1 <= 1) by (bit_vector);
}

proof fn lemma_crc_step_small(crc: u32, bit: u8)
    requires
        bit <= 1,
    ensures
        crc_step(crc, bit) <= 0xFFF,
{
    let b = bit as u32;
    assert(((crc << 1) & 0xFFF) ^ b <= 0xFFF && (((crc << 1) & 0xFFF) ^ b) ^ 0xC06 <= 0xFFF)
        by (bit_vector)
        requires
            b <= 1,
    ;
}

/// A checksum has twelve bits.
pub proof fn lemma_checksum_small(bytes: Seq<u8>)
    ensures
        checksum(bytes) <= 0xFFF,
{
    if bytes.len() > 0 {
        let b = bytes.last();
        let crc = crc_byte(crc_bytes(bytes.drop_last()), b, 7);
        reveal_with_fuel(crc_byte, 2);
        lemma_low_bit(b >> 0u8);
        lemma_crc_step_small(crc, (b >> 0u8) & 1);
    }
    let c = crc_bytes(bytes);
    assert(c <= 0xFFF ==> (c ^ 42) <= 0xFFF) by (bit_vector);
}

/// Computes the checksum of 11 bytes: 72 payload bits, 3 type bits at the top of byte 9, and
/// zeros.
pub fn crc12(bytes: &[u8; 11]) -> (r: u16)
    ensures
        r == checksum(bytes@),
        r <= 0xFFF,
{
    let mut crc: u32 = 0;
    for i in 0..11usize
        invariant
            crc == crc_bytes(bytes@.take(i as int)),
    {
        let ghost before = crc;
        let b: u8 = bytes[i];
        for n in 0..8u8
            invariant
                crc == crc_byte(before, b, n as nat),
        {
            let bit: u8 = (b >> (7 - n)) & 1;
            let top: u32 = (crc >> 11) & 1;
            crc = ((crc << 1) & 0xFFF) ^ (bit as u32);
            if top == 1 {
                crc = crc ^ 0xC06;
            }
            assert(8 - (n + 1) == 7 - n);
        }
        assert(bytes@.take(i + 1).drop_last() == bytes@.take(i as int));
    }
    assert(bytes@.take(11) == bytes@);
    proof {
        lemma_checksum_small(bytes@);
    }
    (crc ^ 42) as u16
}

/// The bytes that the checksum of a message covers: its 75 leading bits, and zeros.
pub open spec fn covered_bytes(msg: Seq<u8>) -> Seq<u8> {
    Seq::new(
        11,
        |i: int|
            if i < 9 {
                bits::shifted8(msg.subrange(8 * i, 8 * i + 8))
            } else if i == 9 {
                bits::shifted8(msg.subrange(72, 75)) << 5
            } else {
                0u8
            },
    )
}

/// Whether the last 12 of 87 message bits are the checksum of the others.
pub open spec fn crc_holds(msg: Seq<u8>) -> bool {
    bits::shifted16(msg.subrange(75, 87)) == checksum(covered_bytes(msg))
}

fn cover(msg: &[u8]) -> (r: [u8; 11])
    requires
        msg@.len() >= 75,
    ensures
        r@ == covered_bytes(msg@),
{
    let out: [u8; 11] = [
        bits::shift8(msg, 0, 8),
        bits::shift8(msg, 8, 16),
        bits::shift8(msg, 16, 24),
        bits::shift8(msg, 24, 32),
        bits::shift8(msg, 32, 40),
        bits::shift8(msg, 40, 48),
        bits::shift8(msg, 48, 56),
        bits::shift8(msg, 56, 64),
        bits::shift8(msg, 64, 72),
        bits::shift8(msg, 72, 75) << 5,
        0,
    ];
    assert(out@ =~= covered_bytes(msg@));
    out
}

/// Checks the checksum that the message bits 75 to 86 carry.
pub fn check_crc(msg: &[u8; 87]) -> (r: bool)
    ensures
        r == crc_holds(msg@),
{
    let bytes: [u8; 11] = cover(msg.as_slice());
    bits::shift16(msg.as_slice(), 75, 87) == crc12(&bytes)
}

// ---- parity ----

/// The rows of the parity matrix, 88 bits each: bit `87 - col` of a row says whether message bit
/// `col` enters that row's parity bit.
pub const PARITY_ROWS: [u128; 87] = [
    0x23bba830e23b6b6f50982e,
    0x1f8e55da218c5df3309052,
    0xca7b3217cd92bd59a5ae20,
    0x56f78313537d0f4382964e,
    0x6be396b5e2e819e373340c,
    0x293548a138858328af4210,
    0xcb6c6afcdc28bb3f7c6e86,
    0x3f2a86f5c5bd225c961150,
    0x849dd2d63673481860f62c,
    0x56cdaec6e7ae14b43feeee,
    0x04ef5cfa3766ba778f45a4,
    0xc525ae4bd4f627320a3974,
    0x41fd9520b2e4abeb2f989c,
    0x7fb36c24085a34d8c1dbc4,
    0x40fc3e44bb7d2bb2756e44,
    0xd38ab0a1d2e52a8ec3bc76,
    0x3d0f929ef3949bd84d4734,
    0x45d3814f504064f80549ae,
    0xf14dbf263825d0bd04b05e,
    0xdb714f8f64e8ac7af1a76e,
    0x8d0274de71e7c1a8055eb0,
    0x51f81573dd4049b082de14,
    0xd8f937f31822e57c562370,
    0xb6537f417e61d1a7085336,
    0xecbd7c73b9cd34c3720c8a,
    0x3d188ea477f6fa41317a4e,
    0x1ac4672b549cd6dba79bcc,
    0xa377253773ea678367c3f6,
    0x0dbd816fba1543f721dc72,
    0xca4186dd44c3121565cf5c,
    0x29c29dba9c545e267762fe,
    0x1616d78018d0b4745ca0f2,
    0xfe37802941d66dde02b99c,
    0xa9fa8e50bcb032c85e3304,
    0x83f640f1a48a8ebc0443ea,
    0x3776af54ccfbae916afde6,
    0xa8fc906976c35669e79ce0,
    0xf08a91fb2e1f78290619a8,
    0xcc9da55fe046d0cb3a770c,
    0xd36d662a69ae24b74dcbd8,
    0x40907b01280f03c0323946,
    0xd037db825175d851f3af00,
    0x1bf1490607c54032660ede,
    0x0af7723161ec223080be86,
    0xeca9afa0f6b01d92305edc,
    0x7a8dec79a51e8ac5388022,
    0x9059dfa2bb20ef7ef73ad4,
    0x6abb212d9739dfc02580f2,
    0xf6ad4824b87c80ebfce466,
    0xd747bfc5fd65ef70fbd9bc,
    0x612f63acc025b6ab476f7c,
    0x05209a0abb530b9e7e34b0,
    0x45b7ab6242b77474d9f11a,
    0x6c280d2a0523d9c4bc5946,
    0xf1627701a2d692fd9449e6,
    0x8d9071b7e7a6a2eed6965e,
    0xbf4f56e073271f6ab4bf80,
    0xc0fc3ec4fb7d2bb2756644,
    0x57da6d13cb96a7689b2790,
    0xa9fa2eefa6f8796a355772,
    0x164cc861bdd803c547f2ac,
    0xcc6de59755420925f90ed2,
    0xa0c0033a52ab6299802fd2,
    0xb274db8abd3c6f396ea356,
    0x97d4169cb33e7435718d90,
    0x81cfc6f18c35b1e1f17114,
    0x481a2a0df8a23583f82d6c,
    0x081c29a10d468ccdbcecb6,
    0x2c4142bf42b01e71076acc,
    0xa6573f3dc8b16c9d19f746,
    0xc87af9a5d5206abca532a8,
    0x012dee2198eba82b19a1da,
    0xb1ca4ea2e3d173bad4379c,
    0xb33ec97be83ce413f9acc8,
    0x5b0f7742bca86b8012609a,
    0x37d8e0af9258b9e8c5f9b2,
    0x35ad3fb0faeb5f1b0c30dc,
    0x6114e08483043fd3f38a8a,
    0xcd921fdf59e882683763f6,
    0x95e45ecd0135aca9d6e6ae,
    0x2e547dd7a05f6597aac516,
    0x14cd0f642fc0c5fe3a65ca,
    0x3a0a1dfd7eee29c2e827e0,
    0xc8b5dffc335095dcdcaf2a,
    0x3dd01a59d86310743ec752,
    0x8abdb889efbe39a510a118,
    0x3f231f212055371cf3e2a2,
];

/// Whether message bit `col` enters the parity bit of a row.
pub open spec fn enters(row: u128, col: int) -> bool {
    (row >> ((87 - col) as u128)) & 1 == 1
}

/// How many of the first `n` message bits are set and enter a row's parity bit.
pub open spec fn overlap(row: u128, msg: Seq<u8>, n: nat) -> nat
    decreases n,
{
    if n == 0 {
        0
    } else {
        overlap(row, msg, (n - 1) as nat) + (if enters(row, n - 1) && msg[n - 1] != 0 {
            1nat
        } else {
            0nat
        })
    }
}

/// The parity bits of 87 message bits.
pub open spec fn parity_of(msg: Seq<u8>) -> Seq<u8> {
    Seq::new(87, |i: int| (overlap(PARITY_ROWS[i], msg, 87) % 2) as u8)
}

/// Whether message bit `col` enters the parity bit of a row, as a bit.
fn coef(row: u128, col: usize) -> (r: u8)
    requires
        col < 88,
    ensures
        r == (if enters(row, col as int) {
            1u8
        } else {
            0u8
        }),
{
    if (row >> ((87 - col) as u128)) & 1 == 1 {
        1
    } else {
        0
    }
}

/// Computes the 87 parity bits of 87 message bits.
pub fn encode_parity(msg: &[u8; 87]) -> (r: Vec<u8>)
    ensures
        r@ == parity_of(msg@),
{
    let mut parity: Vec<u8> = Vec::new();
    for i in 0..87usize
        invariant
            parity@ == parity_of(msg@).take(i as int),
    {
        let row: u128 = PARITY_ROWS[i];
        let mut p: u8 = 0;
        for j in 0..87usize
            invariant
                p == overlap(row, msg@, j as nat) % 2,
                p <= 1,
        {
            if coef(row, j) != 0 && msg[j] != 0 {
                p = 1 - p;
            }
        }
        parity.push(p);
        assert(parity_of(msg@).take(i + 1) == parity_of(msg@).take(i as int).push(
            parity_of(msg@)[i as int],
        ));
    }
    assert(parity_of(msg@).take(87) == parity_of(msg@));
    parity
}

/// The number of odd sums of two counts of set bits.
proof fn lemma_overlap_linear(row: u128, a: Seq<u8>, b: Seq<u8>, c: Seq<u8>, n: nat)
    requires
        n <= 87,
        a.len() == 87,
        b.len() == 87,
        c.len() == 87,
        bits::are_bits(a),
        bits::are_bits(b),
        forall|i: int| 0 <= i < 87 ==> #[trigger] c[i] == (a[i] + b[i]) % 2,
    ensures
        overlap(row, c, n) % 2 == (overlap(row, a, n) + overlap(row, b, n)) % 2,
    decreases n,
{
    if n > 0 {
        lemma_overlap_linear(row, a, b, c, (n - 1) as nat);
        assert(c[n - 1] == (a[n - 1] + b[n - 1]) % 2);
        assert(a[n - 1] <= 1 && b[n - 1] <= 1);
    }
}

/// The code is linear: the parity of a bitwise sum is the bitwise sum of the parities.
pub proof fn law_parity_linear(a: Seq<u8>, b: Seq<u8>, c: Seq<u8>)
    requires
        a.len() == 87,
        b.len() == 87,
        c.len() == 87,
        bits::are_bits(a),
        bits::are_bits(b),
        forall|i: int| 0 <= i < 87 ==> #[trigger] c[i] == (a[i] + b[i]) % 2,
    ensures
        forall|i: int|
            0 <= i < 87 ==> #[trigger] parity_of(c)[i] == (parity_of(a)[i] + parity_of(b)[i]) % 2,
{
    assert forall|i: int| 0 <= i < 87 implies #[trigger] parity_of(c)[i] == (parity_of(a)[i]
        + parity_of(b)[i]) % 2 by {
        lemma_overlap_linear(PARITY_ROWS[i], a, b, c, 87);
    }
}

/// A parity check: the first `valid` of its places name codeword bits that add up to an even sum.
pub struct CheckNode {
    /// How many places are in use.
    pub valid: usize,
    /// The codeword bits that the check covers.
    pub bits: [u8; 7],
}

impl CheckNode {
    /// The places in use name bits of a codeword.
    pub open spec fn wf(&self) -> bool {
        self.valid <= 7 && forall|j: int| 0 <= j < self.valid ==> #[trigger] self.bits@[j] < 174
    }

    /// The sum of the codeword bits at the first `n` places.
    pub open spec fn sum(&self, cw: Seq<u8>, n: nat) -> nat
        decreases n,
    {
        if n == 0 {
            0
        } else {
            self.sum(cw, (n - 1) as nat) + cw[self.bits@[n - 1] as int] as nat
        }
    }
}

/// Checks that a codeword (87 parity bits, then 87 message bits) meets all parity checks.
pub fn check_codeword(cw: &[u8; 174], checks: &[CheckNode]) -> (r: bool)
    requires
        forall|i: int| 0 <= i < checks@.len() ==> #[trigger] checks@[i].wf(),
    ensures
        r == (forall|i: int|
            0 <= i < checks@.len() ==> #[trigger] checks@[i].sum(cw@, checks@[i].valid as nat) % 2
                == 0),
{
    for i in 0..checks.len()
        invariant
            forall|k: int| 0 <= k < checks@.len() ==> #[trigger] checks@[k].wf(),
            forall|k: int|
                0 <= k < i ==> #[trigger] checks@[k].sum(cw@, checks@[k].valid as nat) % 2 == 0,
    {
        let c: &CheckNode = &checks[i];
        assert(checks@[i as int].wf());
        let mut s: u32 = 0;
        for j in 0..c.valid
            invariant
                c.wf(),
                s == c.sum(cw@, j as nat),
                s <= 255 * j,
        {
            s = s + cw[c.bits[j] as usize] as u32;
        }
        if s % 2 != 0 {
            assert(checks@[i as int].sum(cw@, checks@[i as int].valid as nat) % 2 != 0);
            return false;
        }
    }
    true
}

// ---- tones ----

/// The 87 message bits of a payload and type: the low six bits of each word, the low three bits
/// of the type, and the checksum.
pub open spec fn message_bits(w: Seq<u8>, kind: u8) -> Seq<u8> {
    let head = headed_bits(w, kind);
    head + Seq::new(
        12,
        |i: int| ((checksum(covered_bytes(head)) >> ((11 - i) as u16)) & 1) as u8,
    )
}

/// The payload and type bits of a message.
pub open spec fn headed_bits(w: Seq<u8>, kind: u8) -> Seq<u8> {
    Seq::new(
        75,
        |i: int|
            if i < 72 {
                bits::word_bit(w, i)
            } else {
                (kind >> ((74 - i) as u8)) & 1
            },
    )
}

/// The tone of three bits.
pub open spec fn tone_at(b: Seq<u8>, n: int) -> u8 {
    (4 * b[3 * n] + 2 * b[3 * n + 1] + b[3 * n + 2]) as u8
}

/// The 79 tones of 87 message bits: the sync blocks, and three bits to a tone of parity and
/// message.
pub open spec fn tones_of_message(msg: Seq<u8>, costas: [[usize; 7]; 3]) -> Seq<u8> {
    Seq::new(
        79,
        |i: int|
            if i < 7 {
                (costas@[0]@[i] % 256) as u8
            } else if i < 36 {
                tone_at(parity_of(msg), i - 7)
            } else if i < 43 {
                (costas@[1]@[i - 36] % 256) as u8
            } else if i < 72 {
                tone_at(msg, i - 43)
            } else {
                (costas@[2]@[i - 72] % 256) as u8
            },
    )
}

fn build_head(w: &[u8; 12], kind: u8) -> (r: Vec<u8>)
    ensures
        r@ == headed_bits(w@, kind),
        bits::are_bits(r@),
{
    let mut out: Vec<u8> = Vec::new();
    let ghost all = headed_bits(w@, kind);
    for k in 0..75usize
        invariant
            all == headed_bits(w@, kind),
            out@ == all.take(k as int),
            bits::are_bits(out@),
    {
        assert(all.take(k + 1) == all.take(k as int).push(all[k as int]));
        let b: u8 = if k < 72 {
            w[k / 6] >> ((5 - k % 6) as u8)
        } else {
            kind >> ((74 - k) as u8)
        };
        proof {
            lemma_low_bit(b);
        }
        out.push(b & 1);
    }
    assert(all.take(75) == all);
    out
}

fn build_message(w: &[u8; 12], kind: u8) -> (r: [u8; 87])
    ensures
        r@ == message_bits(w@, kind),
        bits::are_bits(r@),
{
    let head: Vec<u8> = build_head(w, kind);
    let covered: [u8; 11] = cover(head.as_slice());
    let crc: u16 = crc12(&covered);
    let mut msg: [u8; 87] = [0;87];
    let ghost all = message_bits(w@, kind);
    for i in 0..87usize
        invariant
            head@ == headed_bits(w@, kind),
            bits::are_bits(head@),
            crc == checksum(covered_bytes(head@)),
            all == message_bits(w@, kind),
            forall|k: int| 0 <= k < i ==> #[trigger] msg@[k] == all[k] && msg@[k] <= 1,
    {
        if i < 75 {
            assert(head@[i as int] <= 1);
            msg[i] = head[i];
        } else {
            let c: u16 = (crc >> ((86 - i) as u16)) & 1;
            proof {
                lemma_low_bit16(crc >> ((86 - i) as u16));
            }
            assert(11 - (i - 75) == 86 - i);
            msg[i] = c as u8;
        }
    }
    assert(msg@ =~= all);
    msg
}

/// The 79 tones of 87 message bits.
pub fn message_tones(msg: &[u8; 87], costas: &[[usize; 7]; 3]) -> (r: Vec<u8>)
    requires
        bits::are_bits(msg@),
    ensures
        r@ == tones_of_message(msg@, *costas),
{
    let parity: Vec<u8> = encode_parity(msg);
    let mut tones: Vec<u8> = Vec::new();
    let ghost all = tones_of_message(msg@, *costas);
    for i in 0..79usize
        invariant
            bits::are_bits(msg@),
            parity@ == parity_of(msg@),
            all == tones_of_message(msg@, *costas),
            tones@ == all.take(i as int),
    {
        assert(all.take(i + 1) == all.take(i as int).push(all[i as int]));
        let t: u8 = if i < 7 {
            (costas[0][i] % 256) as u8
        } else if i < 36 {
            let k: usize = 3 * (i - 7);
            assert(parity@[k as int] <= 1 && parity@[k + 1] <= 1 && parity@[k + 2] <= 1);
            4 * parity[k] + 2 * parity[k + 1] + parity[k + 2]
        } else if i < 43 {
            (costas[1][i - 36] % 256) as u8
        } else if i < 72 {
            let k: usize = 3 * (i - 43);
            assert(msg@[k as int] <= 1 && msg@[k + 1] <= 1 && msg@[k + 2] <= 1);
            4 * msg[k] + 2 * msg[k + 1] + msg[k + 2]
        } else {
            (costas[2][i - 72] % 256) as u8
        };
        tones.push(t);
    }
    assert(all.take(79) == all);
    tones
}

/// Encodes twelve payload words and a type into the 79 tones of a transmission.
pub fn encode_tones(payload_words: [u8; 12], message_type: u8, mode: &Mode) -> (r: Vec<u8>)
    ensures
        r@ == tones_of_message(message_bits(payload_words@, message_type), mode.costas),
{
    let msg: [u8; 87] = build_message(&payload_words, message_type);
    message_tones(&msg, &mode.costas)
}

/// The word at place `i` of decoded message bits; each bit is put at its place.
pub open spec fn decoded_word(d: Seq<i8>, i: int) -> u8 {
    ((d[6 * i] as u8) << 5) | ((d[6 * i + 1] as u8) << 4) | ((d[6 * i + 2] as u8) << 3) | ((d[6 * i
        + 3] as u8) << 2) | ((d[6 * i + 4] as u8) << 1) | (d[6 * i + 5] as u8)
}

/// Takes the twelve payload words out of 87 decoded message bits. An error when one of them
/// does not fit into six bits.
pub fn extract_message(decoded: &[i8; 87]) -> (r: Result<[u8; 12], ()>)
    ensures
        r is Ok <==> forall|i: int| 0 <= i < 12 ==> #[trigger] decoded_word(decoded@, i) < 64,
        r matches Ok(w) ==> w@ == Seq::new(12, |i: int| decoded_word(decoded@, i)),
{
    let mut w: [u8; 12] = [0;12];
    for i in 0..12usize
        invariant
            forall|k: int| 0 <= k < i ==> #[trigger] w@[k] == decoded_word(decoded@, k),
            forall|k: int| 0 <= k < i ==> #[trigger] decoded_word(decoded@, k) < 64,
    {
        let v: u8 = ((decoded[6 * i] as u8) << 5) | ((decoded[6 * i + 1] as u8) << 4) | ((decoded[6
            * i + 2] as u8) << 3) | ((decoded[6 * i + 3] as u8) << 2) | ((decoded[6 * i + 4] as u8)
            << 1) | (decoded[6 * i + 5] as u8);
        assert(v == decoded_word(decoded@, i as int));
        if v >= 64 {
            return Err(());
        }
        w[i] = v;
    }
    assert(w@ =~= Seq::new(12, |i: int| decoded_word(decoded@, i)));
    Ok(w)
}

// ---- laws ----

proof fn lemma_shift_in8(w: u8, b: Seq<u8>, n: nat)
    requires
        n <= b.len() <= 8,
        forall|j: int| 0 <= j < b.len() ==> #[trigger] b[j] == (w >> ((b.len() - 1 - j) as u8)) & 1,
        b.len() < 8 ==> w >> (b.len() as u8) == 0,
    ensures
        n > 0 ==> bits::shifted8(b.take(n as int)) == w >> ((b.len() - n) as u8),
    decreases n,
{
    if n > 0 {
        lemma_shift_in8(w, b, (n - 1) as nat);
        let s = (b.len() - n) as u8;
        assert(b.take(n as int).drop_last() == b.take(n - 1));
        assert(b[n - 1] == (w >> s) & 1);
        if n > 1 {
            assert((w >> ((s + 1) as u8)) << 1 | ((w >> s) & 1) == w >> s) by (bit_vector)
                requires
                    s < 7,
            ;
        } else {
            reveal_with_fuel(bits::shifted8, 2);
            assert(0u8 << 1 | ((w >> s) & 1) == w >> s) by (bit_vector)
                requires
                    s <= 7,
                    s < 7 ==> w >> ((s + 1) as u8) == 0,
            ;
        }
    }
}

proof fn lemma_shift_in16(c: u16, b: Seq<u8>, n: nat)
    requires
        c <= 0xFFF,
        n <= b.len() == 12,
        forall|j: int| 0 <= j < 12 ==> #[trigger] b[j] == ((c >> ((11 - j) as u16)) & 1) as u8,
    ensures
        bits::shifted16(b.take(n as int)) == c >> ((12 - n) as u16),
    decreases n,
{
    if n > 0 {
        lemma_shift_in16(c, b, (n - 1) as nat);
        let s = (12 - n) as u16;
        assert(b.take(n as int).drop_last() == b.take(n - 1));
        assert(b[n - 1] == ((c >> s) & 1) as u8);
        assert((c >> ((s + 1) as u16)) << 1 | (((c >> s) & 1) as u8) as u16 == c >> s) by (
        bit_vector)
            requires
                s < 12,
        ;
    } else {
        assert(c >> 12u16 == 0) by (bit_vector)
            requires
                c <= 0xFFF,
        ;
    }
}

/// A message carries the checksum of its own payload and type.
pub proof fn law_message_checks(w: Seq<u8>, kind: u8)
    ensures
        crc_holds(message_bits(w, kind)),
{
    let msg = message_bits(w, kind);
    let head = headed_bits(w, kind);
    assert(covered_bytes(msg) =~= covered_bytes(head)) by {
        assert forall|i: int| 0 <= i < 11 implies #[trigger] covered_bytes(msg)[i]
            == covered_bytes(head)[i] by {
            if i < 9 {
                assert(msg.subrange(8 * i, 8 * i + 8) == head.subrange(8 * i, 8 * i + 8));
            } else if i == 9 {
                assert(msg.subrange(72, 75) == head.subrange(72, 75));
            }
        }
    }
    let c = checksum(covered_bytes(head));
    lemma_checksum_small(covered_bytes(head));
    let tail = msg.subrange(75, 87);
    lemma_shift_in16(c, tail, 12);
    assert(tail.take(12) == tail);
    assert(c >> 0u16 == c) by (bit_vector);
}

/// The words of a message are read back from its bits.
pub proof fn law_message_words(w: Seq<u8>, kind: u8)
    requires
        words::six_bit(w),
    ensures
        bits::words_of_bits(message_bits(w, kind)) == w,
{
    let msg = message_bits(w, kind);
    assert forall|i: int| 0 <= i < 12 implies #[trigger] bits::words_of_bits(msg)[i] == w[i] by {
        let v = w[i];
        let b = msg.subrange(6 * i, 6 * i + 6);
        assert forall|j: int| 0 <= j < b.len() implies #[trigger] b[j] == (v >> ((b.len() - 1
            - j) as u8)) & 1 by {
            assert(b[j] == msg[6 * i + j]);
            assert((6 * i + j) / 6 == i && (6 * i + j) % 6 == j);
        }
        assert(v >> 6u8 == 0) by (bit_vector)
            requires
                v < 64,
        ;
        lemma_shift_in8(v, b, 6);
        assert(b.take(6) == b);
        lemma_no_shift(v);
    }
    assert(bits::words_of_bits(msg) =~= w);
}

/// The type of a message is read back from its bits 72 to 74.
pub proof fn law_message_type(w: Seq<u8>, kind: u8)
    requires
        kind < 8,
    ensures
        bits::shifted8(message_bits(w, kind).subrange(72, 75)) == kind,
{
    let msg = message_bits(w, kind);
    let b = msg.subrange(72, 75);
    assert forall|j: int| 0 <= j < b.len() implies #[trigger] b[j] == (kind >> ((b.len() - 1
        - j) as u8)) & 1 by {
        assert(b[j] == msg[72 + j]);
        assert(74 - (72 + j) == 2 - j);
    }
    assert(kind >> 3u8 == 0) by (bit_vector)
        requires
            kind < 8,
    ;
    lemma_shift_in8(kind, b, 3);
    assert(b.take(3) == b);
    lemma_no_shift(kind);
}

/// The three leading bits of a message are the upper half of its first word.
pub proof fn lemma_message_lead(w: Seq<u8>, kind: u8)
    requires
        words::six_bit(w),
    ensures
        bits::shifted8(message_bits(w, kind).subrange(0, 3)) == w[0] / 8,
        message_bits(w, kind)[0] == w[0] / 32,
{
    let msg = message_bits(w, kind);
    let v = w[0];
    let h = v >> 3u8;
    let b = msg.subrange(0, 3);
    assert(v >> 3u8 == v / 8 && (v >> 5u8) & 1 == v / 32 && (v >> 3u8) >> 3u8 == 0 && (v >> 5u8) & 1
        == (h >> 2u8) & 1 && (v >> 4u8) & 1 == (h >> 1u8) & 1 && (v >> 3u8) & 1 == (h >> 0u8) & 1)
        by (bit_vector)
        requires
            v < 64,
            h == v >> 3u8,
    ;
    assert(b[0] == (v >> 5u8) & 1 && b[1] == (v >> 4u8) & 1 && b[2] == (v >> 3u8) & 1);
    assert forall|j: int| 0 <= j < b.len() implies #[trigger] b[j] == (h >> ((b.len() - 1
        - j) as u8)) & 1 by {
        assert(j == 0 || j == 1 || j == 2);
    }
    lemma_shift_in8(h, b, 3);
    assert(b.take(3) == b);
    lemma_no_shift(h);
}

/// The bits of a message are bits.
pub proof fn lemma_message_are_bits(w: Seq<u8>, kind: u8)
    ensures
        bits::are_bits(message_bits(w, kind)),
        message_bits(w, kind).len() == 87,
{
    let msg = message_bits(w, kind);
    let c = checksum(covered_bytes(headed_bits(w, kind)));
    assert forall|k: int| 0 <= k < msg.len() implies #[trigger] msg[k] <= 1 by {
        if k < 72 {
            lemma_low_bit(w[k / 6] >> ((5 - k % 6) as u8));
        } else if k < 75 {
            lemma_low_bit(kind >> ((74 - k) as u8));
        } else {
            lemma_low_bit16(c >> ((11 - (k - 75)) as u16));
        }
    }
}

/// Decoded bits that are those of a message give its words back.
pub proof fn law_extract_recovers(w: Seq<u8>, kind: u8, d: Seq<i8>)
    requires
        words::six_bit(w),
        d.len() == 87,
        forall|k: int| 0 <= k < 87 ==> #[trigger] d[k] == message_bits(w, kind)[k],
    ensures
        forall|i: int| 0 <= i < 12 ==> #[trigger] decoded_word(d, i) == w[i],
{
    let msg = message_bits(w, kind);
    lemma_message_are_bits(w, kind);
    assert forall|i: int| 0 <= i < 12 implies #[trigger] decoded_word(d, i) == w[i] by {
        let v = w[i];
        let (d0, d1, d2) = (d[6 * i], d[6 * i + 1], d[6 * i + 2]);
        let (d3, d4, d5) = (d[6 * i + 3], d[6 * i + 4], d[6 * i + 5]);
        assert(msg[6 * i] == (v >> 5u8) & 1);
        assert(msg[6 * i + 1] == (v >> 4u8) & 1);
        assert(msg[6 * i + 2] == (v >> 3u8) & 1);
        assert(msg[6 * i + 3] == (v >> 2u8) & 1);
        assert(msg[6 * i + 4] == (v >> 1u8) & 1);
        assert(msg[6 * i + 5] == (v >> 0u8) & 1);
        let (m0, m1, m2) = (d0 as u8, d1 as u8, d2 as u8);
        let (m3, m4, m5) = (d3 as u8, d4 as u8, d5 as u8);
        assert((m0 << 5) | (m1 << 4) | (m2 << 3) | (m3 << 2) | (m4 << 1) | m5 == v) by (bit_vector)
            requires
                v < 64,
                m0 == (v >> 5u8) & 1,
                m1 == (v >> 4u8) & 1,
                m2 == (v >> 3u8) & 1,
                m3 == (v >> 2u8) & 1,
                m4 == (v >> 1u8) & 1,
                m5 == (v >> 0u8) & 1,
        ;
    }
}

/// A transmission has 79 tones below 8; its sync blocks stand at 0, 36 and 72, and the message
/// bits are read back from the tones 43 to 71.
pub proof fn law_tones(w: Seq<u8>, kind: u8, costas: [[usize; 7]; 3])
    requires
        forall|b: int, j: int| 0 <= b < 3 && 0 <= j < 7 ==> #[trigger] costas@[b]@[j] < 8,
    ensures
        ({
            let msg = message_bits(w, kind);
            let t = tones_of_message(msg, costas);
            &&& t.len() == 79
            &&& forall|i: int| 0 <= i < 79 ==> #[trigger] t[i] < 8
            &&& forall|b: int, j: int|
                0 <= b < 3 && 0 <= j < 7 ==> t[36 * b + j] == #[trigger] costas@[b]@[j]
            &&& forall|n: int|
                #![trigger t[43 + n]]
                0 <= n < 29 ==> t[43 + n] / 4 == msg[3 * n] && t[43 + n] / 2 % 2 == msg[3 * n + 1]
                    && t[43 + n] % 2 == msg[3 * n + 2]
        }),
{
    let msg = message_bits(w, kind);
    lemma_message_are_bits(w, kind);
    let par = parity_of(msg);
    let t = tones_of_message(msg, costas);
    assert(forall|k: int| 0 <= k < 87 ==> #[trigger] par[k] <= 1);
    assert forall|i: int| 0 <= i < 79 implies #[trigger] t[i] < 8 by {
        if i < 7 {
            assert(costas@[0]@[i] < 8);
        } else if i < 36 {
            let n = i - 7;
            assert(par[3 * n] <= 1 && par[3 * n + 1] <= 1 && par[3 * n + 2] <= 1);
        } else if i < 43 {
            assert(costas@[1]@[i - 36] < 8);
        } else if i < 72 {
            let n = i - 43;
            assert(msg[3 * n] <= 1 && msg[3 * n + 1] <= 1 && msg[3 * n + 2] <= 1);
        } else {
            assert(costas@[2]@[i - 72] < 8);
        }
    }
    assert forall|b: int, j: int| 0 <= b < 3 && 0 <= j < 7 implies t[36 * b + j]
        == #[trigger] costas@[b]@[j] by {
        assert(b == 0 || b == 1 || b == 2);
    }
    assert forall|n: int| #![trigger t[43 + n]] 0 <= n < 29 implies t[43 + n] / 4 == msg[3 * n]
        && t[43 + n] / 2 % 2 == msg[3 * n + 1] && t[43 + n] % 2 == msg[3 * n + 2] by {
        assert(msg[3 * n] <= 1 && msg[3 * n + 1] <= 1 && msg[3 * n + 2] <= 1);
        assert(t[43 + n] == tone_at(msg, n));
    }
}

} // verus!
