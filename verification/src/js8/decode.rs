//! The decisions of a decode attempt: which candidates are tried, where their symbols lie, whether
//! a candidate is in sync, and whether what the error correction gave is a frame.
use crate::js8::bits;
use crate::js8::data::JscMap;
use crate::js8::frame;
use crate::js8::msg;
use crate::js8::msg::{DecodedFrame, FrameText};
use crate::js8::params::Mode;
use vstd::prelude::*;

verus! {

// ---- candidates ----

/// The rank of the score that all scores are divided by: the 40th percentile, but not the lowest.
pub fn percentile_rank(len: usize) -> (r: usize)
    requires
        0 < len,
    ensures
        r < len,
        r == (if len == 1 {
            0
        } else if len * 4 / 10 < 1 {
            1
        } else {
            len * 4 / 10
        }),
{
    let k: usize = (len as u128 * 4 / 10) as usize;
    let up: usize = if k < 1 {
        1
    } else {
        k
    };
    if up < len - 1 {
        up
    } else {
        len - 1
    }
}

/// The rank of the noise level among the levels of a part of the spectrum: the tenth percentile.
pub fn envelope_rank(len: usize) -> (r: usize)
    requires
        0 < len,
    ensures
        r < len,
        r == len * 10 / 100,
{
    len / 10
}

/// The part of `size` levels that lies within `arm` of a node.
pub fn node_window(node: usize, arm: usize, size: usize) -> (r: (usize, usize))
    requires
        0 < size,
        node + arm <= usize::MAX,
    ensures
        r.0 == (if node >= arm {
            node - arm
        } else {
            0
        }),
        r.1 == (if node + arm < size {
            node + arm
        } else {
            size - 1
        }),
{
    let lo: usize = if node >= arm {
        node - arm
    } else {
        0
    };
    let hi: usize = if node + arm < size {
        node + arm
    } else {
        size - 1
    };
    (lo, hi)
}

/// Whether two frequency bins lie so close that they count as one candidate: within the speed's
/// distance in Hz, where a bin is 12000 Hz divided by the length of the spectrum.
pub open spec fn close_bins(a: int, b: int, m: Mode) -> bool {
    (if a >= b {
        a - b
    } else {
        b - a
    }) * 12_000 <= m.az * m.nfft1
}

/// Whether place `k` of the list is close to one of the chosen places.
pub open spec fn taken(list: Seq<(u32, bool)>, chosen: Seq<int>, k: int, m: Mode) -> bool {
    exists|c: int|
        0 <= c < chosen.len() && #[trigger] close_bins(
            list[chosen[c]].0 as int,
            list[k].0 as int,
            m,
        )
}

/// The places that are chosen from a list of bins in order of falling strength, from place `k` on:
/// one after the other, without those close to one that is chosen already, until one is too weak
/// or `max` are chosen.
pub open spec fn choice(list: Seq<(u32, bool)>, chosen: Seq<int>, k: int, max: int, m: Mode) -> Seq<
    int,
>
    decreases list.len() - k,
{
    if k < 0 || k >= list.len() || chosen.len() >= max {
        chosen
    } else if taken(list, chosen, k, m) {
        choice(list, chosen, k + 1, max, m)
    } else if !list[k].1 {
        chosen
    } else {
        choice(list, chosen.push(k), k + 1, max, m)
    }
}

/// Places as integers.
pub open spec fn places(v: Seq<usize>) -> Seq<int> {
    Seq::new(v.len(), |i: int| v[i] as int)
}

fn close(a: u32, b: u32, m: &Mode) -> (r: bool)
    ensures
        r == close_bins(a as int, b as int, *m),
{
    let d: u128 = if a >= b {
        (a - b) as u128
    } else {
        (b - a) as u128
    };
    let az: u128 = m.az as u128;
    let nfft1: u128 = m.nfft1 as u128;
    assert(az * nfft1 <= 0xffff_ffff_ffff_ffff * 0xffff_ffff_ffff_ffff) by (nonlinear_arith)
        requires
            az <= 0xffff_ffff_ffff_ffff,
            nfft1 <= 0xffff_ffff_ffff_ffff,
    ;
    d * 12_000 <= az * nfft1
}

fn is_taken(list: &[(u32, bool)], chosen: &Vec<usize>, k: usize, m: &Mode) -> (r: bool)
    requires
        k < list@.len(),
        forall|c: int| 0 <= c < chosen@.len() ==> #[trigger] chosen@[c] < list@.len(),
    ensures
        r == taken(list@, places(chosen@), k as int, *m),
{
    for c in 0..chosen.len()
        invariant
            k < list@.len(),
            forall|c: int| 0 <= c < chosen@.len() ==> #[trigger] chosen@[c] < list@.len(),
            forall|x: int|
                0 <= x < c ==> !#[trigger] close_bins(
                    list@[places(chosen@)[x]].0 as int,
                    list@[k as int].0 as int,
                    *m,
                ),
    {
        assert(places(chosen@)[c as int] == chosen@[c as int]);
        if close(list[chosen[c]].0, list[k].0, m) {
            return true;
        }
    }
    false
}

/// Chooses the candidates to try. The list holds a bin and whether it is strong enough for each
/// score, the strongest first. At most `max` are chosen.
pub fn select_candidates(list: &[(u32, bool)], max: usize, m: &Mode) -> (r: Vec<usize>)
    ensures
        places(r@) == choice(list@, Seq::empty(), 0, max as int, *m),
{
    let mut chosen: Vec<usize> = Vec::new();
    let ghost want = choice(list@, Seq::empty(), 0, max as int, *m);
    assert(places(chosen@) =~= Seq::empty());
    let mut k: usize = 0;
    while k < list.len()
        invariant
            k <= list@.len(),
            want == choice(list@, Seq::empty(), 0, max as int, *m),
            want == choice(list@, places(chosen@), k as int, max as int, *m),
            forall|c: int| 0 <= c < chosen@.len() ==> #[trigger] chosen@[c] < list@.len(),
        decreases list@.len() - k,
    {
        if chosen.len() >= max {
            return chosen;
        }
        if !is_taken(list, &chosen, k, m) {
            if !list[k].1 {
                return chosen;
            }
            let ghost before = places(chosen@);
            chosen.push(k);
            assert(places(chosen@) =~= before.push(k as int));
        }
        k = k + 1;
    }
    chosen
}

// ---- places of symbols ----

/// Where symbol `k` of a signal that starts at `start` lies in `np2` downsampled samples, if it
/// lies in them whole.
pub fn symbol_span(k: usize, start: i64, m: &Mode) -> (r: Option<usize>)
    requires
        k < 79,
    ensures
        r is Some <==> 0 <= start + k * m.ndownsps && start + k * m.ndownsps + m.ndownsps <= m.np2,
        r matches Some(at) ==> at == start + k * m.ndownsps,
{
    let nd: i128 = m.ndownsps as i128;
    assert(0 <= k * nd <= 79 * nd) by (nonlinear_arith)
        requires
            k < 79,
            nd >= 0,
    ;
    let at: i128 = start as i128 + k as i128 * nd;
    if at >= 0 && at + nd <= m.np2 as i128 {
        Some(at as usize)
    } else {
        None
    }
}

/// The step of the symbol spectra where symbol `n` of sync block `p` is expected for a signal that
/// is `j` quarter symbols late, if there is one.
pub fn score_step(p: usize, n: usize, j: i64, m: &Mode) -> (r: Option<usize>)
    requires
        p < 3,
        n < 7,
    ensures
        r is Some <==> 0 <= j + m.jstrt + 4 * n + 144 * p < m.nhsym,
        r matches Some(at) ==> at == j + m.jstrt + 4 * n + 144 * p,
{
    let at: i128 = j as i128 + m.jstrt as i128 + 4 * n as i128 + 144 * p as i128;
    if at >= 0 && at < m.nhsym as i128 {
        Some(at as usize)
    } else {
        None
    }
}

/// The part of a window that a signal of `len` samples covers when it starts `start` samples into
/// it: where it begins in the signal, where in the window, and how many samples it has.
pub open spec fn overlap(start: int, len: int, window: int) -> (int, int, int) {
    let skip = if start < 0 {
        -start
    } else {
        0
    };
    let at = if start > 0 {
        start
    } else {
        0
    };
    let size = if len - skip < window - at {
        len - skip
    } else {
        window - at
    };
    (
        skip,
        at,
        if size < 0 {
            0
        } else {
            size
        },
    )
}

/// Finds the part of a window that a signal covers.
pub fn covered_span(start: i64, len: usize, window: usize) -> (r: (u64, u64, usize))
    ensures
        (r.0 as int, r.1 as int, r.2 as int) == overlap(start as int, len as int, window as int),
{
    let begin: i128 = start as i128;
    let skip: i128 = if begin < 0 {
        -begin
    } else {
        0
    };
    let at: i128 = if begin > 0 {
        begin
    } else {
        0
    };
    let a: i128 = len as i128 - skip;
    let b: i128 = window as i128 - at;
    let c: i128 = if a < b {
        a
    } else {
        b
    };
    (
        skip as u64,
        at as u64,
        if c < 0 {
            0
        } else {
            c as usize
        },
    )
}

/// The symbol that data symbol `j` is: the sync blocks are left out.
pub open spec fn data_symbol(j: int) -> int {
    if j < 29 {
        j + 7
    } else {
        j + 14
    }
}

/// Whether a symbol belongs to a sync block.
pub open spec fn is_sync_symbol(i: int) -> bool {
    0 <= i < 7 || 36 <= i < 43 || 72 <= i < 79
}

/// The data symbols of a transmission, in order.
pub fn strip_sync<T: Copy>(row: &[T; 79]) -> (r: Vec<T>)
    ensures
        r@ == Seq::new(58, |j: int| row@[data_symbol(j)]),
{
    let mut out: Vec<T> = Vec::new();
    let ghost all = Seq::new(58, |j: int| row@[data_symbol(j)]);
    for j in 0..58usize
        invariant
            all == Seq::new(58, |j: int| row@[data_symbol(j)]),
            out@ == all.take(j as int),
    {
        let i: usize = if j < 29 {
            j + 7
        } else {
            j + 14
        };
        out.push(row[i]);
        assert(all.take(j + 1) =~= all.take(j as int).push(all[j as int]));
    }
    assert(all.take(58) =~= all);
    out
}

/// The tones that have a bit of their symbol set, and those that do not. Bit 0 is the most
/// significant of three.
pub fn tones_by_bit(bit: u8) -> (r: ([usize; 4], [usize; 4]))
    requires
        bit < 3,
    ensures
        forall|i: int| 0 <= i < 4 ==> #[trigger] r.0@[i] == nth_tone(bit as int, true, i),
        forall|i: int| 0 <= i < 4 ==> #[trigger] r.1@[i] == nth_tone(bit as int, false, i),
        forall|t: int| 0 <= t < 8 ==> (r.0@.contains(t as usize) <==> bit_of_tone(t, bit as int)),
        forall|t: int| 0 <= t < 8 ==> (r.1@.contains(t as usize) <==> !bit_of_tone(t, bit as int)),
        forall|i: int| 0 <= i < 4 ==> #[trigger] r.0@[i] < 8,
        forall|i: int| 0 <= i < 4 ==> #[trigger] r.1@[i] < 8,
{
    let r: ([usize; 4], [usize; 4]) = if bit == 0 {
        ([4, 5, 6, 7], [0, 1, 2, 3])
    } else if bit == 1 {
        ([2, 3, 6, 7], [0, 1, 4, 5])
    } else {
        ([1, 3, 5, 7], [0, 2, 4, 6])
    };
    proof {
        let a = r.0@;
        let b = r.1@;
        assert(a[0] < 8 && a[1] < 8 && a[2] < 8 && a[3] < 8);
        assert(b[0] < 8 && b[1] < 8 && b[2] < 8 && b[3] < 8);
        assert forall|t: int| 0 <= t < 8 implies (a.contains(t as usize) <==> bit_of_tone(
            t,
            bit as int,
        )) && (b.contains(t as usize) <==> !bit_of_tone(t, bit as int)) by {
            let u = t as usize;
            if a[0] == u || a[1] == u || a[2] == u || a[3] == u {
                assert(a.contains(u));
            } else {
                assert(b[0] == u || b[1] == u || b[2] == u || b[3] == u);
                assert(b.contains(u));
            }
        }
    }
    r
}

/// The `i`-th of the four tones that have a bit set, or not set.
pub open spec fn nth_tone(bit: int, set: bool, i: int) -> int {
    if bit == 0 {
        i + if set {
            4int
        } else {
            0
        }
    } else if bit == 1 {
        i / 2 * 4 + i % 2 + if set {
            2int
        } else {
            0
        }
    } else {
        2 * i + if set {
            1int
        } else {
            0
        }
    }
}

/// Whether a bit of a tone is set; bit 0 is the most significant of three.
pub open spec fn bit_of_tone(t: int, bit: int) -> bool {
    if bit == 0 {
        t / 4 % 2 == 1
    } else if bit == 1 {
        t / 2 % 2 == 1
    } else {
        t % 2 == 1
    }
}

// ---- sync ----

/// How many of the first `n` sync symbols have the tone of their block as the strongest one.
pub open spec fn sync_count(strongest: Seq<usize>, costas: [[usize; 7]; 3], n: nat) -> nat
    decreases n,
{
    if n == 0 {
        0
    } else {
        let i = n - 1;
        sync_count(strongest, costas, (n - 1) as nat) + (if strongest[36 * (i / 7) + i % 7]
            == costas@[i / 7]@[i % 7] {
            1nat
        } else {
            0nat
        })
    }
}

/// Counts the sync symbols whose strongest tone is that of their block.
pub fn count_sync(strongest: &[usize; 79], costas: &[[usize; 7]; 3]) -> (r: u32)
    ensures
        r == sync_count(strongest@, *costas, 21),
        r <= 21,
{
    let mut n: u32 = 0;
    for i in 0..21usize
        invariant
            n == sync_count(strongest@, *costas, i as nat),
            n <= i,
    {
        if strongest[36 * (i / 7) + i % 7] == costas[i / 7][i % 7] {
            n = n + 1;
        }
    }
    n
}

/// Whether enough sync symbols match: at least 7 of 21.
pub fn in_sync(count: u32) -> (r: bool)
    ensures
        r == (count >= 7),
{
    count > 6
}

// ---- error correction ----

/// How many of the leading bit metrics a pass of error correction leaves out.
pub fn erased_bits(ipass: u8) -> (r: usize)
    requires
        1 <= ipass <= 4,
    ensures
        r == (if ipass == 3 {
            24int
        } else if ipass == 4 {
            48
        } else {
            0
        }),
{
    if ipass == 3 {
        24
    } else if ipass == 4 {
        48
    } else {
        0
    }
}

/// Whether a pass of error correction uses the logarithmic bit metrics.
pub fn uses_log_metric(ipass: u8) -> (r: bool)
    ensures
        r == (ipass == 2),
{
    ipass == 2
}

/// Whether the result of a pass is worth checking, by the number of bits that were corrected. A
/// negative number means failure. Later passes and signals that are barely in sync allow less.
pub open spec fn few_errors(nerr: int, weak_sync: bool, ipass: int) -> bool {
    &&& 0 <= nerr < 60
    &&& weak_sync ==> nerr <= 35
    &&& ipass > 2 ==> nerr <= 39
    &&& ipass == 4 ==> nerr <= 30
}

/// The message bits of decoded ones.
pub open spec fn as_message(d: Seq<i8>) -> Seq<u8> {
    Seq::new(87, |i: int| d[i] as u8)
}

/// The frame that a pass gives: none for a codeword of zeros or with too many errors.
pub open spec fn pass_frame(
    decoded: Seq<i8>,
    cw: Seq<i8>,
    nerr: int,
    weak_sync: bool,
    ipass: int,
    map: JscMap,
) -> Option<FrameText> {
    if (forall|i: int| 0 <= i < 174 ==> #[trigger] cw[i] == 0) || !few_errors(
        nerr,
        weak_sync,
        ipass,
    ) {
        None
    } else {
        msg::frame_of(as_message(decoded), map)
    }
}

/// The tones of a received message: those of its payload and type, encoded again.
pub open spec fn tones_again(m: Seq<u8>, costas: [[usize; 7]; 3]) -> Seq<u8> {
    frame::tones_of_message(
        frame::message_bits(
            bits::words_of_bits(m),
            bits::shifted8(m.subrange(72, 75)),
        ),
        costas,
    )
}

/// Encodes a received message again into its 79 tones.
pub fn encode_tones_from_msg(mode: &Mode, m: &[u8; 87]) -> (r: Vec<u8>)
    ensures
        r@ == tones_again(m@, mode.costas),
{
    let mut payload: [u8; 12] = [0;12];
    for i in 0..12usize
        invariant
            forall|k: int| 0 <= k < i ==> #[trigger] payload@[k] == bits::words_of_bits(m@)[k],
    {
        payload[i] = bits::shift8(m.as_slice(), 6 * i, 6 * i + 6);
    }
    assert(payload@ =~= bits::words_of_bits(m@));
    let kind: u8 = bits::shift8(m.as_slice(), 72, 75);
    frame::encode_tones(payload, kind, mode)
}

/// Judges the result of a pass of error correction: the frame and its tones, if the codeword is not
/// all zeros, few enough bits were corrected, and the checksum holds over a frame.
pub fn judge_pass(
    decoded: &[i8; 87],
    cw: &[i8; 174],
    nerr: i32,
    weak_sync: bool,
    ipass: u8,
    mode: &Mode,
    map: &JscMap,
) -> (r: Option<(DecodedFrame, Vec<u8>)>)
    requires
        map.wf(),
    ensures
        r is Some <==> pass_frame(
            decoded@,
            cw@,
            nerr as int,
            weak_sync,
            ipass as int,
            *map,
        ) is Some,
        r matches Some(f) ==> pass_frame(
            decoded@,
            cw@,
            nerr as int,
            weak_sync,
            ipass as int,
            *map,
        ) == Some(f.0@) && f.1@ == tones_again(as_message(decoded@), mode.costas),
{
    let mut zero: bool = true;
    for i in 0..174usize
        invariant
            zero == (forall|k: int| 0 <= k < i ==> #[trigger] cw@[k] == 0),
    {
        if cw[i] != 0 {
            assert(cw@[i as int] != 0);
            zero = false;
        }
    }
    if zero {
        return None;
    }
    if !(nerr >= 0 && nerr < 60) || (weak_sync && nerr > 35) || (ipass > 2 && nerr > 39) || (ipass
        == 4 && nerr > 30) {
        return None;
    }
    let mut m: [u8; 87] = [0;87];
    for i in 0..87usize
        invariant
            forall|k: int| 0 <= k < i ==> #[trigger] m@[k] == decoded@[k] as u8,
    {
        m[i] = decoded[i] as u8;
    }
    assert(m@ =~= as_message(decoded@));
    match msg::unpack_frame(&m, map) {
        Some(f) => Some((f, encode_tones_from_msg(mode, &m))),
        None => None,
    }
}

// ---- laws ----

/// The data symbols are those outside the sync blocks, each once and in order.
pub proof fn law_data_symbols(i: int)
    requires
        0 <= i < 79,
    ensures
        !is_sync_symbol(i) <==> exists|j: int| 0 <= j < 58 && #[trigger] data_symbol(j) == i,
        forall|j: int, k: int|
            0 <= j < k < 58 ==> #[trigger] data_symbol(j) < #[trigger] data_symbol(k),
{
    if !is_sync_symbol(i) {
        let j = if i < 36 {
            i - 7
        } else {
            i - 14
        };
        assert(data_symbol(j) == i);
    }
}

/// Taking the data symbols of a transmission gives its parity and message tones.
pub proof fn law_stripped_tones(m: Seq<u8>, costas: [[usize; 7]; 3], j: int)
    requires
        0 <= j < 58,
    ensures
        frame::tones_of_message(m, costas)[data_symbol(j)] == (if j < 29 {
            frame::tone_at(frame::parity_of(m), j)
        } else {
            frame::tone_at(m, j - 29)
        }),
{
}

/// The bits that were shifted into a number of 16 bits stand in it.
pub(crate) proof fn lemma_shifted16_bits(b: Seq<u8>, j: int)
    requires
        b.len() <= 12,
        bits::are_bits(b),
        0 <= j < b.len(),
    ensures
        ((bits::shifted16(b) >> ((b.len() - 1 - j) as u16)) & 1) as u8 == b[j],
    decreases b.len(),
{
    let s = bits::shifted16(b.drop_last());
    let l = b.last() as u16;
    let v = bits::shifted16(b);
    assert(b[b.len() - 1] <= 1);
    if j == b.len() - 1 {
        assert((((s << 1) | l) >> 0u16) & 1 == l) by (bit_vector)
            requires
                l <= 1,
        ;
    } else {
        lemma_shifted16_bits(b.drop_last(), j);
        lemma_shifted16_small(b.drop_last());
        let k = (b.len() - 2 - j) as u16;
        assert((((s << 1) | l) >> ((k + 1) as u16)) & 1 == (s >> k) & 1) by (bit_vector)
            requires
                l <= 1,
                s < 0x800,
                k < 12,
        ;
    }
}

proof fn lemma_shifted16_small(b: Seq<u8>)
    requires
        b.len() <= 11,
        bits::are_bits(b),
    ensures
        bits::shifted16(b) < (1u16 << (b.len() as u16)),
        bits::shifted16(b) < 0x800,
    decreases b.len(),
{
    let n = b.len() as u16;
    if n == 0 {
        assert((1u16 << 0u16) == 1) by (bit_vector);
    } else {
        lemma_shifted16_small(b.drop_last());
        assert(b[b.len() - 1] <= 1);
        let s = bits::shifted16(b.drop_last());
        let l = b.last() as u16;
        assert(((s << 1) | l) < (1u16 << n) && ((s << 1) | l) < 0x800) by (bit_vector)
            requires
                l <= 1,
                0 < n <= 11,
                s < (1u16 << ((n - 1) as u16)),
        ;
    }
}

proof fn lemma_shifted8_bits3(b: Seq<u8>)
    requires
        b.len() == 3,
        bits::are_bits(b),
    ensures
        forall|j: int| 0 <= j < 3 ==> (bits::shifted8(b) >> ((2 - j) as u8)) & 1 == #[trigger] b[j],
{
    let (b0, b1, b2) = (b[0], b[1], b[2]);
    let v = bits::shifted8(b);
    assert(v == (((((0u8 << 1) | b0) << 1) | b1) << 1) | b2) by {
        reveal_with_fuel(bits::shifted8, 4);
        let s2 = b.drop_last();
        let s1 = s2.drop_last();
        assert(s1.drop_last().len() == 0);
    }
    assert((v >> 2u8) & 1 == b0 && (v >> 1u8) & 1 == b1 && (v >> 0u8) & 1 == b2) by (bit_vector)
        requires
            b0 <= 1,
            b1 <= 1,
            b2 <= 1,
            v == (((((0u8 << 1) | b0) << 1) | b1) << 1) | b2,
    ;
    assert forall|j: int| 0 <= j < 3 implies (v >> ((2 - j) as u8)) & 1 == #[trigger] b[j] by {
        assert(j == 0 || j == 1 || j == 2);
    }
}

/// A received message whose checksum holds is encoded again to itself, so its tones are those that
/// were sent.
pub proof fn law_received_encodes_to_itself(m: Seq<u8>, costas: [[usize; 7]; 3])
    requires
        m.len() == 87,
        bits::are_bits(m),
        frame::crc_holds(m),
    ensures
        frame::message_bits(bits::words_of_bits(m), bits::shifted8(m.subrange(72, 75))) == m,
        tones_again(m, costas) == frame::tones_of_message(m, costas),
{
    let w = bits::words_of_bits(m);
    let kind = bits::shifted8(m.subrange(72, 75));
    let head = frame::headed_bits(w, kind);
    bits::law_words_hold_bits(m);
    lemma_shifted8_bits3(m.subrange(72, 75));
    assert forall|i: int| 0 <= i < 75 implies #[trigger] head[i] == m[i] by {
        if i >= 72 {
            let t = m.subrange(72, 75);
            assert(t[i - 72] == m[i]);
            assert(2 - (i - 72) == 74 - i);
        }
    }
    assert(head =~= m.take(75));
    assert(frame::covered_bytes(head) =~= frame::covered_bytes(m)) by {
        assert forall|i: int| 0 <= i < 11 implies #[trigger] frame::covered_bytes(head)[i]
            == frame::covered_bytes(m)[i] by {
            if i < 9 {
                assert(head.subrange(8 * i, 8 * i + 8) =~= m.subrange(8 * i, 8 * i + 8));
            } else if i == 9 {
                assert(head.subrange(72, 75) =~= m.subrange(72, 75));
            }
        }
    }
    let tail = m.subrange(75, 87);
    let built = frame::message_bits(w, kind);
    assert forall|i: int| 0 <= i < 87 implies #[trigger] built[i] == m[i] by {
        if i < 75 {
            assert(built[i] == head[i]);
        } else {
            assert(bits::are_bits(tail));
            lemma_shifted16_bits(tail, i - 75);
            assert(tail[i - 75] == m[i]);
        }
    }
    assert(built =~= m);
}

/// No two chosen candidates are close to each other, every one of them is strong enough, and there
/// are at most `max`.
pub proof fn law_choice(list: Seq<(u32, bool)>, chosen: Seq<int>, k: int, max: int, m: Mode)
    requires
        0 <= k <= list.len(),
        chosen.len() <= max,
        well_chosen(list, chosen, k, m),
    ensures
        choice(list, chosen, k, max, m).len() <= max,
        well_chosen(list, choice(list, chosen, k, max, m), list.len() as int, m),
    decreases list.len() - k,
{
    if k < list.len() && chosen.len() < max {
        if taken(list, chosen, k, m) {
            law_choice(list, chosen, k + 1, max, m);
        } else if list[k].1 {
            let more = chosen.push(k);
            assert forall|a: int, b: int| 0 <= a < b < more.len() implies #[trigger] more[a]
                < #[trigger] more[b] && !close_bins(
                list[more[a]].0 as int,
                list[more[b]].0 as int,
                m,
            ) by {
                if b == chosen.len() {
                    assert(more[a] == chosen[a]);
                    assert(!close_bins(list[chosen[a]].0 as int, list[k].0 as int, m));
                } else {
                    assert(more[a] == chosen[a] && more[b] == chosen[b]);
                }
            }
            law_choice(list, more, k + 1, max, m);
        }
    }
}

/// Whether chosen places are in order, below `k`, strong enough, and not close to each other.
pub open spec fn well_chosen(list: Seq<(u32, bool)>, chosen: Seq<int>, k: int, m: Mode) -> bool {
    &&& forall|c: int|
        0 <= c < chosen.len() ==> 0 <= #[trigger] chosen[c] < k && list[chosen[c]].1
    &&& forall|a: int, b: int|
        0 <= a < b < chosen.len() ==> #[trigger] chosen[a] < #[trigger] chosen[b] && !close_bins(
            list[chosen[a]].0 as int,
            list[chosen[b]].0 as int,
            m,
        )
}

/// Every strong entry is close to a chosen one, unless as many as allowed are chosen.
pub proof fn law_choice_complete(list: Seq<(u32, bool)>, max: int, m: Mode, x: int)
    requires
        0 <= x < list.len(),
        list[x].1,
        forall|a: int, b: int| 0 <= a < b < list.len() && (#[trigger] list[b]).1 ==> (
        #[trigger] list[a]).1,
        choice(list, Seq::empty(), 0, max, m).len() < max,
    ensures
        taken(list, choice(list, Seq::empty(), 0, max, m), x, m),
{
    lemma_choice_complete(list, Seq::empty(), 0, max, m, x);
}

proof fn lemma_choice_grows(list: Seq<(u32, bool)>, chosen: Seq<int>, k: int, max: int, m: Mode)
    requires
        0 <= k <= list.len(),
    ensures
        chosen.len() <= choice(list, chosen, k, max, m).len(),
        choice(list, chosen, k, max, m).take(chosen.len() as int) == chosen,
    decreases list.len() - k,
{
    let r = choice(list, chosen, k, max, m);
    if k < list.len() && chosen.len() < max {
        if taken(list, chosen, k, m) {
            lemma_choice_grows(list, chosen, k + 1, max, m);
        } else if list[k].1 {
            lemma_choice_grows(list, chosen.push(k), k + 1, max, m);
            assert(r.take(chosen.len() as int) =~= r.take(chosen.len() + 1int).take(
                chosen.len() as int,
            ));
            assert(chosen.push(k).take(chosen.len() as int) =~= chosen);
        } else {
            assert(r.take(chosen.len() as int) =~= chosen);
        }
    } else {
        assert(r.take(chosen.len() as int) =~= chosen);
    }
}

proof fn lemma_taken_grows(list: Seq<(u32, bool)>, a: Seq<int>, b: Seq<int>, x: int, m: Mode)
    requires
        taken(list, a, x, m),
        a.len() <= b.len(),
        b.take(a.len() as int) == a,
    ensures
        taken(list, b, x, m),
{
    let c = choose|c: int|
        0 <= c < a.len() && #[trigger] close_bins(list[a[c]].0 as int, list[x].0 as int, m);
    assert(b.take(a.len() as int)[c] == b[c]);
    assert(close_bins(list[b[c]].0 as int, list[x].0 as int, m));
}

proof fn lemma_choice_complete(
    list: Seq<(u32, bool)>,
    chosen: Seq<int>,
    k: int,
    max: int,
    m: Mode,
    x: int,
)
    requires
        0 <= k <= x < list.len(),
        list[x].1,
        forall|a: int, b: int| 0 <= a < b < list.len() && (#[trigger] list[b]).1 ==> (
        #[trigger] list[a]).1,
        choice(list, chosen, k, max, m).len() < max,
    ensures
        taken(list, choice(list, chosen, k, max, m), x, m),
    decreases x - k,
{
    lemma_choice_grows(list, chosen, k, max, m);
    let r = choice(list, chosen, k, max, m);
    if k < x {
        assert(list[k].1);
        if taken(list, chosen, k, m) {
            lemma_choice_complete(list, chosen, k + 1, max, m, x);
        } else {
            lemma_choice_complete(list, chosen.push(k), k + 1, max, m, x);
        }
    } else if taken(list, chosen, x, m) {
        lemma_taken_grows(list, chosen, r, x, m);
    } else {
        let more = chosen.push(x);
        lemma_choice_grows(list, more, x + 1, max, m);
        assert(0 * 12_000 <= m.az * m.nfft1) by (nonlinear_arith)
            requires
                m.az >= 0,
                m.nfft1 >= 0,
        ;
        assert(more[chosen.len() as int] == x);
        assert(close_bins(list[more[chosen.len() as int]].0 as int, list[x].0 as int, m));
        assert(taken(list, more, x, m));
        lemma_taken_grows(list, more, r, x, m);
    }
}

} // verus!
