//! One decode attempt, from symbol magnitudes to a frame: sync, bit metrics, and the passes of
//! error correction. Magnitudes are of any type; how they are compared and taken from each other
//! is the caller's, and so is the error correction.
use crate::fold::{best, best_above, fold, folded, law_best_is_greatest, place};
use crate::js8::bits;
use crate::js8::data::JscMap;
use crate::js8::decode::{
    as_message, count_sync, data_symbol, erased_bits, in_sync, judge_pass,
    law_received_encodes_to_itself, nth_tone, pass_frame, strip_sync, sync_count, tones_again,
    tones_by_bit, uses_log_metric,
};
use crate::js8::frame;
use crate::js8::msg;
use crate::js8::msg::{DecodedFrame, FrameText};
use crate::js8::params::{Mode, NFSRCH};
use crate::js8::search::{found, search_from};
use vstd::prelude::*;

verus! {

// ---- sync ----

/// The magnitudes of the eight tones in one symbol.
pub open spec fn column<T>(s: [[T; 79]; 8], k: int) -> Seq<T> {
    Seq::new(8, |r: int| s@[r]@[k])
}

/// Tone `t` is what a search for the strongest tone finds: the first one that none after it beats.
pub open spec fn is_strongest<T, G: Fn(T, T) -> bool>(greater: G, values: Seq<T>, t: int) -> bool {
    exists|at: Option<int>| #[trigger]
        best(greater, values, values[0], at) && t == match at {
            None => 0,
            Some(i) => i,
        }
}

/// Finds the strongest tone of each symbol.
pub fn strongest_tones<T: Copy, G: Fn(T, T) -> bool>(s: &[[T; 79]; 8], greater: &G) -> (r: [usize;
    79])
    requires
        forall|a: T, b: T| #[trigger] call_requires(*greater, (a, b)),
    ensures
        forall|k: int|
            0 <= k < 79 ==> #[trigger] r@[k] < 8 && is_strongest(*greater, column(*s, k), r@[k] as int),
{
    let mut out: [usize; 79] = [0;79];
    for k in 0..79usize
        invariant
            forall|a: T, b: T| #[trigger] call_requires(*greater, (a, b)),
            forall|i: int|
                0 <= i < k ==> #[trigger] out@[i] < 8 && is_strongest(
                    *greater,
                    column(*s, i),
                    out@[i] as int,
                ),
    {
        let mut values: Vec<T> = Vec::new();
        for r in 0..8usize
            invariant
                k < 79,
                values@ == column(*s, k as int).take(r as int),
        {
            values.push(s[r][k]);
            assert(values@ =~= column(*s, k as int).take(r + 1));
        }
        assert(values@ =~= column(*s, k as int));
        let at: Option<usize> = best_above(values.as_slice(), values[0], greater);
        assert(best(*greater, values@, values@[0], place(at)));
        out[k] = match at {
            None => 0,
            Some(i) => i,
        };
    }
    out
}

/// `b` is whether a signal is in sync, by a search for the strongest tones: at least 7 of the 21
/// sync symbols have the tone of their block as the strongest one.
pub open spec fn sync_found<T, G: Fn(T, T) -> bool>(
    greater: G,
    s: [[T; 79]; 8],
    mode: Mode,
    b: bool,
) -> bool {
    exists|found: [usize; 79]|
        (forall|k: int|
            0 <= k < 79 ==> is_strongest(greater, column(s, k), #[trigger] found@[k] as int)) && b
            == (#[trigger] sync_count(found@, mode.costas, 21) >= 7)
}

/// Whether a signal is in sync.
pub fn is_in_sync<T: Copy, G: Fn(T, T) -> bool>(s: &[[T; 79]; 8], mode: &Mode, greater: &G) -> (r:
    bool)
    requires
        forall|a: T, b: T| #[trigger] call_requires(*greater, (a, b)),
    ensures
        sync_found(*greater, *s, *mode, r),
{
    let found: [usize; 79] = strongest_tones(s, greater);
    let r: bool = in_sync(count_sync(&found, &mode.costas));
    assert(r == (sync_count(found@, mode.costas, 21) >= 7));
    r
}

// ---- bit metrics ----

/// The magnitudes in data symbol `j` of the tones that have a bit set, or not set.
pub open spec fn bit_column<T>(s: [[T; 79]; 8], j: int, bit: int, set: bool) -> Seq<T> {
    Seq::new(4, |i: int| s@[nth_tone(bit, set, i)]@[data_symbol(j)])
}

/// The metric of a bit: the greatest magnitude of the tones that have it set, less the greatest of
/// those that do not.
pub open spec fn is_metric<T, M: Fn(T, T) -> T, S: Fn(T, T) -> T>(
    max: M,
    less: S,
    lowest: T,
    s: [[T; 79]; 8],
    n: int,
    out: T,
) -> bool {
    exists|one: T, zero: T|
        #![trigger call_ensures(less, (one, zero), out)]
        folded(max, lowest, bit_column(s, n / 3, n % 3, true), one) && folded(
            max,
            lowest,
            bit_column(s, n / 3, n % 3, false),
            zero,
        ) && call_ensures(less, (one, zero), out)
}

/// `out` holds the metrics of the 174 codeword bits, three for each data symbol.
pub open spec fn are_metrics<T, M: Fn(T, T) -> T, S: Fn(T, T) -> T>(
    max: M,
    less: S,
    lowest: T,
    s: [[T; 79]; 8],
    out: Seq<T>,
) -> bool {
    &&& out.len() == 174
    &&& forall|n: int| 0 <= n < 174 ==> is_metric(max, less, lowest, s, n, #[trigger] out[n])
}

/// The metrics of the codeword bits.
pub fn bit_metrics<T: Copy, M: Fn(T, T) -> T, S: Fn(T, T) -> T>(
    s: &[[T; 79]; 8],
    lowest: T,
    max: &M,
    less: &S,
) -> (r: Vec<T>)
    requires
        forall|a: T, b: T| #[trigger] call_requires(*max, (a, b)),
        forall|a: T, b: T| #[trigger] call_requires(*less, (a, b)),
    ensures
        are_metrics(*max, *less, lowest, *s, r@),
{
    let mut rows: Vec<Vec<T>> = Vec::new();
    for r in 0..8usize
        invariant
            rows@.len() == r,
            forall|i: int|
                0 <= i < r ==> (#[trigger] rows@[i])@ == Seq::new(
                    58,
                    |j: int| s@[i]@[data_symbol(j)],
                ),
    {
        rows.push(strip_sync(&s[r]));
    }
    let mut out: Vec<T> = Vec::new();
    for n in 0..174usize
        invariant
            out@.len() == n,
            rows@.len() == 8,
            forall|i: int|
                0 <= i < 8 ==> (#[trigger] rows@[i])@ == Seq::new(
                    58,
                    |j: int| s@[i]@[data_symbol(j)],
                ),
            forall|a: T, b: T| #[trigger] call_requires(*max, (a, b)),
            forall|a: T, b: T| #[trigger] call_requires(*less, (a, b)),
            forall|i: int| 0 <= i < n ==> is_metric(*max, *less, lowest, *s, i, #[trigger] out@[i]),
    {
        let j: usize = n / 3;
        let bit: u8 = (n % 3) as u8;
        let (ones, zeros) = tones_by_bit(bit);
        let mut with: Vec<T> = Vec::new();
        let mut without: Vec<T> = Vec::new();
        for i in 0..4usize
            invariant
                j < 58,
                bit < 3,
                rows@.len() == 8,
                forall|i: int|
                    0 <= i < 8 ==> (#[trigger] rows@[i])@ == Seq::new(
                        58,
                        |j: int| s@[i]@[data_symbol(j)],
                    ),
                forall|i: int| 0 <= i < 4 ==> #[trigger] ones@[i] == nth_tone(bit as int, true, i),
                forall|i: int|
                    0 <= i < 4 ==> #[trigger] zeros@[i] == nth_tone(bit as int, false, i),
                forall|i: int| 0 <= i < 4 ==> #[trigger] ones@[i] < 8,
                forall|i: int| 0 <= i < 4 ==> #[trigger] zeros@[i] < 8,
                with@ == bit_column(*s, j as int, bit as int, true).take(i as int),
                without@ == bit_column(*s, j as int, bit as int, false).take(i as int),
        {
            assert(ones@[i as int] < 8 && zeros@[i as int] < 8);
            with.push(rows[ones[i]][j]);
            without.push(rows[zeros[i]][j]);
            assert(with@ =~= bit_column(*s, j as int, bit as int, true).take(i + 1));
            assert(without@ =~= bit_column(*s, j as int, bit as int, false).take(i + 1));
        }
        assert(with@ =~= bit_column(*s, j as int, bit as int, true));
        assert(without@ =~= bit_column(*s, j as int, bit as int, false));
        let one: T = fold(with.as_slice(), lowest, max);
        let zero: T = fold(without.as_slice(), lowest, max);
        let metric: T = less(one, zero);
        assert(call_ensures(*less, (one, zero), metric));
        assert(is_metric(*max, *less, lowest, *s, n as int, metric));
        out.push(metric);
    }
    out
}

// ---- the whole attempt ----

/// What a band gives at a start and a shift: the magnitudes of the tones in each symbol, and
/// whether the sync symbols are weak.
pub struct Demodulated<T> {
    pub magnitudes: [[T; 79]; 8],
    pub weak_sync: bool,
}

/// A decode: the frame, its tones, and where it was found. The start is counted in samples, the
/// shift in halves of a hertz.
pub struct Decode {
    pub frame: DecodedFrame,
    pub tones: Vec<u8>,
    pub start: i64,
    pub shift: i64,
}

/// `out` holds the power at `n` points, of which the `k`-th lies at `at(k)`.
pub open spec fn powers_at<T, P: Fn(i64, i64) -> T>(
    power: P,
    at: spec_fn(int) -> (i64, i64),
    n: int,
    out: Seq<T>,
) -> bool {
    out.len() == n && forall|k: int|
        0 <= k < n ==> call_ensures(power, at(k), #[trigger] out[k])
}

/// `out` is the start with the greatest power, within a symbol before and after the one expected;
/// 0 where there is no power.
pub open spec fn start_found<T, P: Fn(i64, i64) -> T, G: Fn(T, T) -> bool>(
    power: P,
    greater: G,
    zero: T,
    expected: int,
    mode: Mode,
    out: int,
) -> bool {
    let w = 4 * mode.nqsymbol;
    exists|powers: Seq<T>|
        powers_at(power, |k: int| ((expected - w + k) as i64, 0i64), 2 * w + 1, powers)
            && #[trigger] found(greater, powers, zero, expected - w, 0, out)
}

/// `out` is the shift with the greatest power at a start, up to 2.5 Hz down and up; 0 where there
/// is no power.
pub open spec fn shift_found<T, P: Fn(i64, i64) -> T, G: Fn(T, T) -> bool>(
    power: P,
    greater: G,
    zero: T,
    start: i64,
    out: int,
) -> bool {
    exists|powers: Seq<T>|
        powers_at(power, |k: int| (start, (k - 5) as i64), 11, powers) && #[trigger] found(
            greater,
            powers,
            zero,
            -5,
            0,
            out,
        )
}

/// `out` holds levelled metrics of magnitudes.
pub open spec fn levelled<
    T,
    M: Fn(T, T) -> T,
    S: Fn(T, T) -> T,
    V: Fn(Vec<T>) -> Vec<T>,
>(max: M, less: S, lowest: T, level: V, s: [[T; 79]; 8], out: Vec<T>) -> bool {
    exists|raw: Vec<T>|
        are_metrics(max, less, lowest, s, raw@) && #[trigger] call_ensures(level, (raw,), out)
}

// ---- error correction ----

/// What an error correction gives: the message bits, the codeword, and how many bits it had to
/// correct, or a negative number where it failed.
pub struct Corrected {
    pub message: [i8; 87],
    pub codeword: [i8; 174],
    pub errors: i32,
}

/// How many of the leading metrics a pass leaves out.
pub open spec fn left_out(ipass: int) -> int {
    if ipass == 3 {
        24
    } else if ipass == 4 {
        48
    } else {
        0
    }
}

/// The metrics that a pass works on: the second pass on the logarithmic ones, the others on the
/// plain ones, of which the later passes leave out the first.
pub open spec fn pass_metrics<T>(plain: Seq<T>, log: Seq<T>, zero: T, ipass: int) -> Seq<T> {
    if ipass == 2 {
        log
    } else {
        Seq::new(
            plain.len(),
            |i: int|
                if i < left_out(ipass) {
                    zero
                } else {
                    plain[i]
                },
        )
    }
}

/// Pass `k + 1` was made on its metrics and gave `outs[k]`.
pub open spec fn pass_made<T, D: Fn(Vec<T>) -> Corrected>(
    correct: D,
    plain: Seq<T>,
    log: Seq<T>,
    zero: T,
    ins: Seq<Vec<T>>,
    outs: Seq<Corrected>,
    k: int,
) -> bool {
    ins[k]@ == pass_metrics(plain, log, zero, k + 1) && call_ensures(correct, (ins[k],), outs[k])
}

/// The frame that the outcome of a pass holds.
pub open spec fn outcome_frame(
    c: Corrected,
    weak_sync: bool,
    ipass: int,
    map: JscMap,
) -> Option<FrameText> {
    pass_frame(c.message@, c.codeword@, c.errors as int, weak_sync, ipass, map)
}

/// `outs` are the outcomes of the passes up to the first that holds a frame, or of all four where
/// none does; `ins` is what they worked on.
pub open spec fn passes_made<T, D: Fn(Vec<T>) -> Corrected>(
    correct: D,
    plain: Seq<T>,
    log: Seq<T>,
    zero: T,
    weak_sync: bool,
    map: JscMap,
    ins: Seq<Vec<T>>,
    outs: Seq<Corrected>,
) -> bool {
    &&& ins.len() == outs.len()
    &&& 1 <= outs.len() <= 4
    &&& forall|k: int|
        0 <= k < outs.len() ==> #[trigger] pass_made(correct, plain, log, zero, ins, outs, k)
    &&& forall|k: int|
        0 <= k < outs.len() - 1 ==> outcome_frame(#[trigger] outs[k], weak_sync, k + 1, map) is None
    &&& outs.len() < 4 ==> outcome_frame(
        outs.last(),
        weak_sync,
        outs.len() as int,
        map,
    ) is Some
}

/// The metrics of a pass.
fn metrics_for<T: Copy>(plain: &Vec<T>, log: &Vec<T>, zero: T, ipass: u8) -> (r: Vec<T>)
    requires
        1 <= ipass <= 4,
    ensures
        r@ == pass_metrics(plain@, log@, zero, ipass as int),
{
    let mut out: Vec<T> = Vec::new();
    let ghost want = pass_metrics(plain@, log@, zero, ipass as int);
    if uses_log_metric(ipass) {
        for i in 0..log.len()
            invariant
                out@ == log@.take(i as int),
        {
            out.push(log[i]);
            assert(out@ =~= log@.take(i + 1));
        }
        assert(out@ =~= log@);
    } else {
        let n: usize = erased_bits(ipass);
        for i in 0..plain.len()
            invariant
                n == left_out(ipass as int),
                ipass != 2,
                want == pass_metrics(plain@, log@, zero, ipass as int),
                out@ == want.take(i as int),
        {
            if i < n {
                out.push(zero);
            } else {
                out.push(plain[i]);
            }
            assert(out@ =~= want.take(i + 1));
        }
        assert(out@ =~= want);
    }
    out
}

/// `out` is what the passes of error correction give: the frame of the last pass made, with its
/// tones, where it holds one.
pub open spec fn passes_give<T, D: Fn(Vec<T>) -> Corrected>(
    correct: D,
    plain: Seq<T>,
    log: Seq<T>,
    zero: T,
    weak_sync: bool,
    mode: Mode,
    map: JscMap,
    out: Option<(FrameText, Seq<u8>)>,
) -> bool {
    exists|ins: Seq<Vec<T>>, outs: Seq<Corrected>|
        #[trigger] passes_made(correct, plain, log, zero, weak_sync, map, ins, outs) && out
            == match outcome_frame(outs.last(), weak_sync, outs.len() as int, map) {
            Some(f) => Some((f, tones_again(as_message(outs.last().message@), mode.costas))),
            None => None,
        }
}

/// The frame and the tones of a decode.
pub open spec fn decode_view(d: Option<(DecodedFrame, Vec<u8>)>) -> Option<(FrameText, Seq<u8>)> {
    match d {
        Some(f) => Some((f.0@, f.1@)),
        None => None,
    }
}

/// Makes the passes of error correction until one gives a frame, and returns the frame with its
/// tones.
pub fn decode_passes<T: Copy, D: Fn(Vec<T>) -> Corrected>(
    plain: &Vec<T>,
    log: &Vec<T>,
    zero: T,
    weak_sync: bool,
    mode: &Mode,
    map: &JscMap,
    correct: &D,
) -> (r: Option<(DecodedFrame, Vec<u8>)>)
    requires
        map.wf(),
        forall|v: Vec<T>| #[trigger] call_requires(*correct, (v,)),
    ensures
        passes_give(*correct, plain@, log@, zero, weak_sync, *mode, *map, decode_view(r)),
{
    let ghost mut ins: Seq<Vec<T>> = Seq::empty();
    let ghost mut outs: Seq<Corrected> = Seq::empty();
    let mut ipass: u8 = 1;
    loop
        invariant
            1 <= ipass <= 4,
            map.wf(),
            ins.len() == ipass - 1,
            outs.len() == ipass - 1,
            forall|v: Vec<T>| #[trigger] call_requires(*correct, (v,)),
            forall|k: int|
                0 <= k < outs.len() ==> #[trigger] pass_made(
                    *correct,
                    plain@,
                    log@,
                    zero,
                    ins,
                    outs,
                    k,
                ),
            forall|k: int|
                0 <= k < outs.len() ==> outcome_frame(
                    #[trigger] outs[k],
                    weak_sync,
                    k + 1,
                    *map,
                ) is None,
        decreases 5 - ipass,
    {
        let metrics: Vec<T> = metrics_for(plain, log, zero, ipass);
        let ghost was_in = ins;
        let ghost was_out = outs;
        proof {
            ins = ins.push(metrics);
        }
        let c: Corrected = correct(metrics);
        proof {
            outs = outs.push(c);
            assert forall|k: int| 0 <= k < outs.len() implies #[trigger] pass_made(
                *correct,
                plain@,
                log@,
                zero,
                ins,
                outs,
                k,
            ) by {
                if k < outs.len() - 1 {
                    assert(pass_made(*correct, plain@, log@, zero, was_in, was_out, k));
                }
            }
        }
        let found: Option<(DecodedFrame, Vec<u8>)> = judge_pass(
            &c.message,
            &c.codeword,
            c.errors,
            weak_sync,
            ipass,
            mode,
            map,
        );
        if found.is_some() || ipass == 4 {
            assert(passes_made(*correct, plain@, log@, zero, weak_sync, *map, ins, outs));
            return found;
        }
        ipass = ipass + 1;
    }
}

/// The powers at `n` starts from `first` on, without a shift.
fn powers_by_start<T: Copy, P: Fn(i64, i64) -> T>(first: i64, n: usize, power: &P) -> (r: Vec<T>)
    requires
        first + n <= i64::MAX,
        forall|a: i64, b: i64| #[trigger] call_requires(*power, (a, b)),
    ensures
        powers_at(*power, |k: int| ((first + k) as i64, 0i64), n as int, r@),
{
    let mut out: Vec<T> = Vec::new();
    for k in 0..n
        invariant
            first + n <= i64::MAX,
            forall|a: i64, b: i64| #[trigger] call_requires(*power, (a, b)),
            out@.len() == k,
            forall|i: int|
                0 <= i < k ==> call_ensures(
                    *power,
                    ((first + i) as i64, 0i64),
                    #[trigger] out@[i],
                ),
    {
        let v: T = power((first as i128 + k as i128) as i64, 0);
        out.push(v);
    }
    out
}

/// The powers at a start, at each shift.
fn powers_by_shift<T: Copy, P: Fn(i64, i64) -> T>(start: i64, power: &P) -> (r: Vec<T>)
    requires
        forall|a: i64, b: i64| #[trigger] call_requires(*power, (a, b)),
    ensures
        powers_at(*power, |k: int| (start, (k - 5) as i64), 11, r@),
{
    let mut out: Vec<T> = Vec::new();
    let n: i64 = NFSRCH as i64;
    for k in 0..11usize
        invariant
            n == 5,
            forall|a: i64, b: i64| #[trigger] call_requires(*power, (a, b)),
            out@.len() == k,
            forall|i: int|
                0 <= i < k ==> call_ensures(*power, (start, (i - 5) as i64), #[trigger] out@[i]),
    {
        let v: T = power(start, k as i64 - n);
        out.push(v);
    }
    out
}

/// Takes the logarithm of each magnitude.
fn logarithms<T: Copy, L: Fn(T) -> T>(s: &[[T; 79]; 8], log: &L) -> (r: [[T; 79]; 8])
    requires
        forall|a: T| #[trigger] call_requires(*log, (a,)),
    ensures
        are_logarithms(*log, *s, r),
{
    let mut out: [[T; 79]; 8] = *s;
    for r in 0..8usize
        invariant
            forall|a: T| #[trigger] call_requires(*log, (a,)),
            forall|i: int, k: int|
                0 <= i < r && 0 <= k < 79 ==> call_ensures(
                    *log,
                    (s@[i]@[k],),
                    #[trigger] out@[i]@[k],
                ),
    {
        let mut row: [T; 79] = s[r];
        for k in 0..79usize
            invariant
                r < 8,
                forall|a: T| #[trigger] call_requires(*log, (a,)),
                forall|i: int|
                    0 <= i < k ==> call_ensures(*log, (s@[r as int]@[i],), #[trigger] row@[i]),
        {
            row[k] = log(s[r][k]);
        }
        out[r] = row;
    }
    out
}

/// `out` holds the logarithms of magnitudes.
pub open spec fn are_logarithms<T, L: Fn(T) -> T>(
    log: L,
    s: [[T; 79]; 8],
    out: [[T; 79]; 8],
) -> bool {
    forall|r: int, k: int|
        0 <= r < 8 && 0 <= k < 79 ==> call_ensures(log, (s@[r]@[k],), #[trigger] out@[r]@[k])
}

/// The arithmetic of a decode attempt.
pub struct Arithmetic<T, G, M, S, L, V> {
    /// Nothing.
    pub zero: T,
    /// Less than any magnitude.
    pub lowest: T,
    /// Whether the first value is the greater one.
    pub greater: G,
    /// The greater of two values.
    pub max: M,
    /// The first value less the second.
    pub less: S,
    /// The logarithm.
    pub log: L,
    /// Brings metrics to their level.
    pub level: V,
}

impl<
    T: Copy,
    G: Fn(T, T) -> bool,
    M: Fn(T, T) -> T,
    S: Fn(T, T) -> T,
    L: Fn(T) -> T,
    V: Fn(Vec<T>) -> Vec<T>,
> Arithmetic<T, G, M, S, L, V> {
    /// The arithmetic works on all values.
    pub open spec fn total(&self) -> bool {
        &&& forall|a: T, b: T| #[trigger] call_requires(self.greater, (a, b))
        &&& forall|a: T, b: T| #[trigger] call_requires(self.max, (a, b))
        &&& forall|a: T, b: T| #[trigger] call_requires(self.less, (a, b))
        &&& forall|a: T| #[trigger] call_requires(self.log, (a,))
        &&& forall|v: Vec<T>| #[trigger] call_requires(self.level, (v,))
    }

    /// `out` is what error correction gives for a band that is in sync.
    pub open spec fn gives<D: Fn(Vec<T>) -> Corrected>(
        &self,
        correct: D,
        d: Demodulated<T>,
        mode: Mode,
        map: JscMap,
        out: Option<(FrameText, Seq<u8>)>,
    ) -> bool {
        exists|logs: [[T; 79]; 8], plain: Vec<T>, log: Vec<T>|
            #![trigger are_logarithms(self.log, d.magnitudes, logs), passes_give(
                correct,
                plain@,
                log@,
                self.zero,
                d.weak_sync,
                mode,
                map,
                out,
            )]
            are_logarithms(self.log, d.magnitudes, logs) && levelled(
                self.max,
                self.less,
                self.lowest,
                self.level,
                d.magnitudes,
                plain,
            ) && levelled(self.max, self.less, self.lowest, self.level, logs, log)
                && passes_give(
                correct,
                plain@,
                log@,
                self.zero,
                d.weak_sync,
                mode,
                map,
                out,
            )
    }

    /// `out` is what a band gives: nothing where it is out of sync.
    pub open spec fn attempt<D: Fn(Vec<T>) -> Corrected>(
        &self,
        correct: D,
        d: Demodulated<T>,
        mode: Mode,
        map: JscMap,
        out: Option<(FrameText, Seq<u8>)>,
    ) -> bool {
        ||| sync_found(self.greater, d.magnitudes, mode, false) && out is None
        ||| sync_found(self.greater, d.magnitudes, mode, true) && self.gives(
            correct,
            d,
            mode,
            map,
            out,
        )
    }

    /// Decodes a band.
    fn decode_band<D: Fn(Vec<T>) -> Corrected>(
        &self,
        d: &Demodulated<T>,
        mode: &Mode,
        map: &JscMap,
        correct: &D,
    ) -> (r: Option<(DecodedFrame, Vec<u8>)>)
        requires
            self.total(),
            map.wf(),
            forall|v: Vec<T>| #[trigger] call_requires(*correct, (v,)),
        ensures
            self.attempt(*correct, *d, *mode, *map, decode_view(r)),
    {
        if !is_in_sync(&d.magnitudes, mode, &self.greater) {
            return None;
        }
        let logs: [[T; 79]; 8] = logarithms(&d.magnitudes, &self.log);
        let raw: Vec<T> = bit_metrics(&d.magnitudes, self.lowest, &self.max, &self.less);
        let raw_log: Vec<T> = bit_metrics(&logs, self.lowest, &self.max, &self.less);
        let ghost first = raw;
        let ghost second = raw_log;
        let plain: Vec<T> = (self.level)(raw);
        assert(call_ensures(self.level, (first,), plain));
        let log: Vec<T> = (self.level)(raw_log);
        assert(call_ensures(self.level, (second,), log));
        let r: Option<(DecodedFrame, Vec<u8>)> = decode_passes(
            &plain,
            &log,
            self.zero,
            d.weak_sync,
            mode,
            map,
            correct,
        );
        assert(self.gives(*correct, *d, *mode, *map, decode_view(r)));
        r
    }

    /// Decodes a candidate: finds its start and its shift by the power of its sync symbols,
    /// demodulates it there, and takes the frame that the error correction gives.
    pub fn decode_candidate<
        P: Fn(i64, i64) -> T,
        B: Fn(i64, i64) -> Demodulated<T>,
        D: Fn(Vec<T>) -> Corrected,
    >(
        &self,
        expected: i64,
        mode: &Mode,
        map: &JscMap,
        power: &P,
        demodulate: &B,
        correct: &D,
    ) -> (r: Option<Decode>)
        requires
            self.total(),
            map.wf(),
            8 * mode.nqsymbol < usize::MAX,
            i64::MIN <= expected - 4 * mode.nqsymbol,
            expected + 4 * mode.nqsymbol < i64::MAX,
            forall|a: i64, b: i64| #[trigger] call_requires(*power, (a, b)),
            forall|a: i64, b: i64| #[trigger] call_requires(*demodulate, (a, b)),
            forall|v: Vec<T>| #[trigger] call_requires(*correct, (v,)),
        ensures
            exists|start: i64, shift: i64, d: Demodulated<T>|
                start_found(
                    *power,
                    self.greater,
                    self.zero,
                    expected as int,
                    *mode,
                    start as int,
                ) && shift_found(*power, self.greater, self.zero, start, shift as int)
                    && #[trigger] call_ensures(*demodulate, (start, shift), d) && self.attempt(
                    *correct,
                    d,
                    *mode,
                    *map,
                    match r {
                        Some(f) => Some((f.frame@, f.tones@)),
                        None => None,
                    },
                ) && (r matches Some(f) ==> f.start == start && f.shift == shift),
    {
        let first: i64 = (expected as i128 - 4 * mode.nqsymbol as i128) as i64;
        let n: usize = 8 * mode.nqsymbol + 1;
        let by_start: Vec<T> = powers_by_start(first, n, power);
        let start: i64 = search_from(by_start.as_slice(), self.zero, first, 0, &self.greater);
        assert(powers_at(
            *power,
            |k: int| ((expected - 4 * mode.nqsymbol + k) as i64, 0i64),
            2 * (4 * mode.nqsymbol) + 1,
            by_start@,
        ));
        let by_shift: Vec<T> = powers_by_shift(start, power);
        let shift: i64 = search_from(by_shift.as_slice(), self.zero, -5, 0, &self.greater);
        let d: Demodulated<T> = demodulate(start, shift);
        assert(call_ensures(*demodulate, (start, shift), d));
        match self.decode_band(&d, mode, map, correct) {
            None => None,
            Some((frame, tones)) => Some(Decode { frame, tones, start, shift }),
        }
    }
}

/// A bit of the tones from `from` on, three bits to a tone.
pub open spec fn tone_bit(t: Seq<u8>, from: int, i: int) -> u8 {
    let tone = t[from + i / 3] as int;
    (if i % 3 == 0 {
        tone / 4 % 2
    } else if i % 3 == 1 {
        tone / 2 % 2
    } else {
        tone % 2
    }) as u8
}

/// The 87 bits that 29 tones carry, from tone `from` on.
pub open spec fn carried_bits(t: Seq<u8>, from: int) -> Seq<u8> {
    Seq::new(87, |i: int| tone_bit(t, from, i))
}

proof fn lemma_tones_carry(m: Seq<u8>, costas: [[usize; 7]; 3])
    requires
        m.len() == 87,
        bits::are_bits(m),
        forall|b: int, j: int| 0 <= b < 3 && 0 <= j < 7 ==> #[trigger] costas@[b]@[j] < 8,
    ensures
        ({
            let t = frame::tones_of_message(m, costas);
            &&& t.len() == 79
            &&& forall|i: int| 0 <= i < 79 ==> #[trigger] t[i] < 8
            &&& forall|b: int, j: int|
                0 <= b < 3 && 0 <= j < 7 ==> t[36 * b + j] == #[trigger] costas@[b]@[j]
            &&& carried_bits(t, 43) == m
            &&& carried_bits(t, 7) == frame::parity_of(m)
        }),
{
    let t = frame::tones_of_message(m, costas);
    let p = frame::parity_of(m);
    assert forall|i: int| 0 <= i < 87 implies #[trigger] carried_bits(t, 43)[i] == m[i] by {
        let n = i / 3;
        assert(m[3 * n] <= 1 && m[3 * n + 1] <= 1 && m[3 * n + 2] <= 1);
        assert(t[43 + n] == frame::tone_at(m, n));
    }
    assert forall|i: int| 0 <= i < 87 implies #[trigger] carried_bits(t, 7)[i] == p[i] by {
        let n = i / 3;
        assert(p[3 * n] <= 1 && p[3 * n + 1] <= 1 && p[3 * n + 2] <= 1);
        assert(t[7 + n] == frame::tone_at(p, n));
    }
    assert(carried_bits(t, 43) =~= m);
    assert(carried_bits(t, 7) =~= p);
    assert forall|i: int| 0 <= i < 79 implies #[trigger] t[i] < 8 by {
        if i < 7 {
            assert(costas@[0]@[i] < 8);
        } else if i < 36 {
            let n = i - 7;
            assert(p[3 * n] <= 1 && p[3 * n + 1] <= 1 && p[3 * n + 2] <= 1);
        } else if i < 43 {
            assert(costas@[1]@[i - 36] < 8);
        } else if i < 72 {
            let n = i - 43;
            assert(m[3 * n] <= 1 && m[3 * n + 1] <= 1 && m[3 * n + 2] <= 1);
        } else {
            assert(costas@[2]@[i - 72] < 8);
        }
    }
    assert forall|b: int, j: int| 0 <= b < 3 && 0 <= j < 7 implies t[36 * b + j]
        == #[trigger] costas@[b]@[j] by {
        assert(b == 0 || b == 1 || b == 2);
    }
}

/// What is decoded is what its tones carry: they hold the sync blocks of the speed, the bits of a
/// message whose checksum holds and which is the decoded frame, and the parity of these bits.
pub proof fn law_decode_is_what_tones_carry<
    T: Copy,
    G: Fn(T, T) -> bool,
    M: Fn(T, T) -> T,
    S: Fn(T, T) -> T,
    L: Fn(T) -> T,
    V: Fn(Vec<T>) -> Vec<T>,
    D: Fn(Vec<T>) -> Corrected,
>(
    a: Arithmetic<T, G, M, S, L, V>,
    correct: D,
    d: Demodulated<T>,
    mode: Mode,
    map: JscMap,
    f: FrameText,
    t: Seq<u8>,
)
    requires
        a.attempt(correct, d, mode, map, Some((f, t))),
        forall|v: Vec<T>, c: Corrected| #[trigger]
            call_ensures(correct, (v,), c) ==> bits::are_bits(as_message(c.message@)),
        forall|b: int, j: int| 0 <= b < 3 && 0 <= j < 7 ==> #[trigger] mode.costas@[b]@[j] < 8,
    ensures
        t.len() == 79,
        forall|i: int| 0 <= i < 79 ==> #[trigger] t[i] < 8,
        forall|b: int, j: int|
            0 <= b < 3 && 0 <= j < 7 ==> t[36 * b + j] == #[trigger] mode.costas@[b]@[j],
        frame::crc_holds(carried_bits(t, 43)),
        msg::frame_of(carried_bits(t, 43), map) == Some(f),
        carried_bits(t, 7) == frame::parity_of(carried_bits(t, 43)),
{
    let out = Some((f, t));
    let (logs, plain, log) = choose|logs: [[T; 79]; 8], plain: Vec<T>, log: Vec<T>|
        #![trigger are_logarithms(a.log, d.magnitudes, logs), passes_give(
            correct,
            plain@,
            log@,
            a.zero,
            d.weak_sync,
            mode,
            map,
            out,
        )]
        are_logarithms(a.log, d.magnitudes, logs) && passes_give(
            correct,
            plain@,
            log@,
            a.zero,
            d.weak_sync,
            mode,
            map,
            out,
        );
    let (ins, outs) = choose|ins: Seq<Vec<T>>, outs: Seq<Corrected>|
        #[trigger] passes_made(correct, plain@, log@, a.zero, d.weak_sync, map, ins, outs) && out
            == match outcome_frame(outs.last(), d.weak_sync, outs.len() as int, map) {
            Some(f) => Some((f, tones_again(as_message(outs.last().message@), mode.costas))),
            None => None,
        };
    let k = outs.len() - 1;
    assert(pass_made(correct, plain@, log@, a.zero, ins, outs, k));
    let m = as_message(outs.last().message@);
    assert(bits::are_bits(m));
    law_received_encodes_to_itself(m, mode.costas);
    lemma_tones_carry(m, mode.costas);
}

/// Where powers are exact, the start that is found is one of the samples within a symbol before and
/// after the one expected, and none of them has more power; it is 0 where none has any.
pub proof fn law_start_is_best<P: Fn(i64, i64) -> i64, G: Fn(i64, i64) -> bool>(
    power: P,
    greater: G,
    exact: spec_fn(int, int) -> int,
    expected: int,
    mode: Mode,
    out: int,
    x: int,
)
    requires
        start_found(power, greater, 0i64, expected, mode, out),
        forall|a: i64, b: i64, r: bool|
            #[trigger] call_ensures(greater, (a, b), r) ==> r == (a > b),
        forall|a: i64, b: i64, v: i64|
            #[trigger] call_ensures(power, (a, b), v) ==> v == exact(a as int, b as int),
        i64::MIN <= expected - 4 * mode.nqsymbol,
        expected + 4 * mode.nqsymbol <= i64::MAX,
        expected - 4 * mode.nqsymbol <= x <= expected + 4 * mode.nqsymbol,
    ensures
        exact(x, 0) > 0 ==> expected - 4 * mode.nqsymbol <= out <= expected + 4 * mode.nqsymbol
            && exact(out, 0) >= exact(x, 0),
        out != 0 ==> exact(out, 0) > 0,
{
    let w = 4 * mode.nqsymbol;
    let powers = choose|powers: Seq<i64>|
        powers_at(power, |k: int| ((expected - w + k) as i64, 0i64), 2 * w + 1, powers)
            && #[trigger] found(greater, powers, 0i64, expected - w, 0, out);
    let pick = choose|pick: Option<int>| #[trigger]
        best(greater, powers, 0i64, pick) && out == match pick {
            None => 0,
            Some(i) => expected - w + i,
        };
    law_best_is_greatest(greater, powers, 0i64, pick);
    assert forall|k: int| 0 <= k < powers.len() implies #[trigger] powers[k] == exact(
        expected - w + k,
        0,
    ) by {
        assert(call_ensures(power, ((expected - w + k) as i64, 0i64), powers[k]));
    }
    assert(powers[x - (expected - w)] == exact(x, 0));
}

/// Where powers are exact, the shift that is found is one of the eleven from 5 steps down to 5 steps
/// up, and none of them has more power; it is 0 where none has any.
pub proof fn law_shift_is_best<P: Fn(i64, i64) -> i64, G: Fn(i64, i64) -> bool>(
    power: P,
    greater: G,
    exact: spec_fn(int, int) -> int,
    start: i64,
    out: int,
    x: int,
)
    requires
        shift_found(power, greater, 0i64, start, out),
        forall|a: i64, b: i64, r: bool|
            #[trigger] call_ensures(greater, (a, b), r) ==> r == (a > b),
        forall|a: i64, b: i64, v: i64|
            #[trigger] call_ensures(power, (a, b), v) ==> v == exact(a as int, b as int),
        -5 <= x <= 5,
    ensures
        -5 <= out <= 5,
        exact(start as int, x) > 0 ==> exact(start as int, out) >= exact(start as int, x),
        out != 0 ==> exact(start as int, out) > 0,
{
    let powers = choose|powers: Seq<i64>|
        powers_at(power, |k: int| (start, (k - 5) as i64), 11, powers) && #[trigger] found(
            greater,
            powers,
            0i64,
            -5,
            0,
            out,
        );
    let pick = choose|pick: Option<int>| #[trigger]
        best(greater, powers, 0i64, pick) && out == match pick {
            None => 0,
            Some(i) => -5 + i,
        };
    law_best_is_greatest(greater, powers, 0i64, pick);
    assert forall|k: int| 0 <= k < powers.len() implies #[trigger] powers[k] == exact(
        start as int,
        k - 5,
    ) by {
        assert(call_ensures(power, (start, (k - 5) as i64), powers[k]));
    }
    assert(powers[x + 5] == exact(start as int, x));
}

} // verus!
