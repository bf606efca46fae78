//! The search for signals: which bins are scored, which cells of the symbol spectra a score reads,
//! and which start or offset wins.
use crate::fold::{best, best_above, fold, folded, place};
use crate::js8::decode::{is_sync_symbol, score_step, symbol_span};
use crate::js8::frame;
use crate::js8::params::Mode;
use vstd::prelude::*;

verus! {

/// The lowest edge of a search in Hz.
pub const SEARCH_MIN_HZ: u32 = 100;

/// The highest edge of a search in Hz.
pub const SEARCH_MAX_HZ: u32 = 4_910;

/// The edges of a search, kept within bounds. A range that ends below the lowest edge ends at its
/// lower edge instead. A range that begins over the highest edge is empty.
pub open spec fn edges(nfa: int, nfb: int) -> (int, int) {
    let lo = if nfa < 100 {
        100
    } else {
        nfa
    };
    let hi = if nfb < 100 {
        lo
    } else {
        nfb
    };
    (
        lo,
        if hi > 4_910 {
            4_910
        } else {
            hi
        },
    )
}

/// Brings the edges of a search into bounds.
pub fn search_edges(nfa: u32, nfb: u32) -> (r: (u32, u32))
    ensures
        (r.0 as int, r.1 as int) == edges(nfa as int, nfb as int),
{
    let lo: u32 = if nfa < SEARCH_MIN_HZ {
        SEARCH_MIN_HZ
    } else {
        nfa
    };
    let hi: u32 = if nfb < SEARCH_MIN_HZ {
        lo
    } else {
        nfb
    };
    (
        lo,
        if hi > SEARCH_MAX_HZ {
            SEARCH_MAX_HZ
        } else {
            hi
        },
    )
}

/// The bin of the symbol spectra nearest to a frequency; half a bin goes up.
pub open spec fn nearest_bin(hz: int, m: Mode) -> int {
    (2 * hz * m.nfft1 + 12_000) / 24_000
}

/// Finds the bin nearest to a frequency.
pub fn bin_of(hz: u32, m: &Mode) -> (r: usize)
    requires
        nearest_bin(hz as int, *m) <= usize::MAX,
    ensures
        r == nearest_bin(hz as int, *m),
{
    let nfft1: u128 = m.nfft1 as u128;
    assert(0 <= 2 * hz * nfft1 <= 2 * 0xffff_ffff * 0xffff_ffff_ffff_ffff) by (nonlinear_arith)
        requires
            hz <= 0xffff_ffff,
            nfft1 <= 0xffff_ffff_ffff_ffff,
    ;
    let twice: u128 = 2 * hz as u128 * nfft1;
    ((twice + 12_000) / 24_000) as usize
}

/// A frequency that is a whole number of bins has that bin, and no frequency is more than half a
/// bin away from its own.
pub proof fn law_bin_is_nearest(hz: int, m: Mode, k: int)
    requires
        hz >= 0,
        k >= 0,
        m.nfft1 > 0,
    ensures
        hz * m.nfft1 == k * 12_000 ==> nearest_bin(hz, m) == k,
        -12_000 < 2 * (nearest_bin(hz, m) * 12_000 - hz * m.nfft1) <= 12_000,
{
    let x = hz * m.nfft1;
    assert(2 * hz * m.nfft1 == 2 * x) by (nonlinear_arith)
        requires
            x == hz * m.nfft1,
    ;
}

/// The place of a cell in the symbol spectra, which hold the steps of one bin after those of
/// another.
pub open spec fn cell(bin: int, step: int, m: Mode) -> int {
    bin * m.nhsym + step
}

/// The step at which symbol `n` of sync block `p` is expected for a signal that is `j` quarter
/// symbols late.
pub open spec fn sync_step(p: int, n: int, j: int, m: Mode) -> int {
    j + m.jstrt + 4 * n + 144 * p
}

/// The cells of the sync tones of block `p`, over its first `n` symbols.
pub open spec fn tone_cells(bin: int, p: int, j: int, m: Mode, n: nat) -> Seq<int>
    decreases n,
{
    if n == 0 {
        Seq::empty()
    } else {
        let before = tone_cells(bin, p, j, m, (n - 1) as nat);
        let step = sync_step(p, n - 1, j, m);
        if 0 <= step < m.nhsym {
            before.push(cell(bin + 2 * m.costas@[p]@[n - 1], step, m))
        } else {
            before
        }
    }
}

/// The cells of the seven lowest tones, at the steps of the first `n` symbols of block `p`.
pub open spec fn band_cells(bin: int, p: int, j: int, m: Mode, n: nat) -> Seq<int>
    decreases n,
{
    if n == 0 {
        Seq::empty()
    } else {
        let before = band_cells(bin, p, j, m, (n - 1) as nat);
        let step = sync_step(p, n - 1, j, m);
        if 0 <= step < m.nhsym {
            before + Seq::new(7, |f: int| cell(bin + 2 * f, step, m))
        } else {
            before
        }
    }
}

/// What the cells hold.
pub open spec fn cell_values<T>(s: Seq<T>, cells: Seq<int>) -> Seq<T> {
    Seq::new(cells.len(), |i: int| s[cells[i]])
}

/// The power in the sync tones of one block, and in all seven tones at its steps.
pub fn block_sums<T: Copy, A: Fn(T, T) -> T>(
    s: &[T],
    bin: usize,
    p: usize,
    j: i64,
    m: &Mode,
    zero: T,
    plus: &A,
) -> (r: (T, T))
    requires
        p < 3,
        forall|n: int| 0 <= n < 7 ==> #[trigger] m.costas@[p as int]@[n] < 7,
        (bin + 13) * m.nhsym <= s@.len(),
        forall|a: T, b: T| #[trigger] call_requires(*plus, (a, b)),
    ensures
        folded(
            *plus,
            zero,
            cell_values(s@, tone_cells(bin as int, p as int, j as int, *m, 7)),
            r.0,
        ),
        folded(
            *plus,
            zero,
            cell_values(s@, band_cells(bin as int, p as int, j as int, *m, 7)),
            r.1,
        ),
{
    let mut tones: Vec<T> = Vec::new();
    let mut band: Vec<T> = Vec::new();
    for n in 0..7usize
        invariant
            p < 3,
            forall|n: int| 0 <= n < 7 ==> #[trigger] m.costas@[p as int]@[n] < 7,
            (bin + 13) * m.nhsym <= s@.len(),
            tones@ == cell_values(s@, tone_cells(bin as int, p as int, j as int, *m, n as nat)),
            band@ == cell_values(s@, band_cells(bin as int, p as int, j as int, *m, n as nat)),
    {
        let ghost before = tone_cells(bin as int, p as int, j as int, *m, n as nat);
        let ghost wide = band_cells(bin as int, p as int, j as int, *m, n as nat);
        match score_step(p, n, j, m) {
            None => {},
            Some(step) => {
                let tone: usize = m.costas[p][n];
                assert(tone < 7);
                let at: usize = cell_at(bin, 2 * tone, step, m, s.len());
                tones.push(s[at]);
                assert(tones@ =~= cell_values(
                    s@,
                    tone_cells(bin as int, p as int, j as int, *m, (n + 1) as nat),
                ));
                let ghost held = band@;
                for f in 0..7usize
                    invariant
                        p < 3,
                        n < 7,
                        step < m.nhsym,
                        (bin + 13) * m.nhsym <= s@.len(),
                        band@ == held + Seq::new(
                            f as nat,
                            |f: int| s@[cell(bin + 2 * f, step as int, *m)],
                        ),
                {
                    let at: usize = cell_at(bin, 2 * f, step, m, s.len());
                    band.push(s[at]);
                    assert(band@ =~= held + Seq::new(
                        (f + 1) as nat,
                        |f: int| s@[cell(bin + 2 * f, step as int, *m)],
                    ));
                }
                assert(band@ =~= cell_values(
                    s@,
                    band_cells(bin as int, p as int, j as int, *m, (n + 1) as nat),
                ));
            },
        }
    }
    (fold(tones.as_slice(), zero, plus), fold(band.as_slice(), zero, plus))
}

fn cell_at(bin: usize, up: usize, step: usize, m: &Mode, len: usize) -> (r: usize)
    requires
        up <= 12,
        step < m.nhsym,
        (bin + 13) * m.nhsym <= len,
    ensures
        r == cell(bin + up, step as int, *m),
        r < len,
{
    assert((bin + up) * m.nhsym + m.nhsym <= (bin + 13) * m.nhsym) by (nonlinear_arith)
        requires
            up <= 12,
    ;
    assert(0 <= (bin + up) * m.nhsym) by (nonlinear_arith);
    assert(bin + up < (bin + 13) * m.nhsym) by (nonlinear_arith)
        requires
            up <= 12,
            m.nhsym >= 1,
    ;
    (bin + up) * m.nhsym + step
}

/// The sync symbols among the first `n` that lie whole in a band, for a signal that starts at
/// `start`: the block, the symbol in it, and the place of its first sample.
pub open spec fn sync_places(start: int, m: Mode, n: nat) -> Seq<(usize, usize, usize)>
    decreases n,
{
    if n == 0 {
        Seq::empty()
    } else {
        let before = sync_places(start, m, (n - 1) as nat);
        let p = (n - 1) / 7;
        let j = (n - 1) % 7;
        let at = start + (36 * p + j) * m.ndownsps;
        if 0 <= at && at + m.ndownsps <= m.np2 {
            before.push((p as usize, j as usize, at as usize))
        } else {
            before
        }
    }
}

/// The place among all symbols of the `q`-th sync symbol.
spec fn nth_sync(q: int) -> int {
    36 * (q / 7) + q % 7
}

/// Whether symbol `i` lies whole in the band.
spec fn in_band(start: int, m: Mode, i: int) -> bool {
    0 <= start + i * m.ndownsps && start + i * m.ndownsps + m.ndownsps <= m.np2
}

spec fn is_span_of(start: int, m: Mode, e: (usize, usize, usize), q: int) -> bool {
    &&& in_band(start, m, nth_sync(q))
    &&& e.0 == q / 7
    &&& e.1 == q % 7
    &&& e.2 == start + nth_sync(q) * m.ndownsps
}

spec fn has_origin(start: int, m: Mode, e: (usize, usize, usize), n: nat) -> bool {
    exists|q: int| 0 <= q < n && #[trigger] is_span_of(start, m, e, q)
}

spec fn holds_span(v: Seq<(usize, usize, usize)>, start: int, m: Mode, q: int) -> bool {
    exists|k: int| 0 <= k < v.len() && is_span_of(start, m, #[trigger] v[k], q)
}

proof fn lemma_sync_symbol(q: int, msg: Seq<u8>, costas: [[usize; 7]; 3])
    requires
        0 <= q < 21,
    ensures
        is_sync_symbol(nth_sync(q)),
        frame::tones_of_message(msg, costas)[nth_sync(q)] == costas@[q / 7]@[q % 7] % 256,
{
    assert(q / 7 == 0 || q / 7 == 1 || q / 7 == 2);
}

proof fn lemma_sync_places(start: int, m: Mode, n: nat)
    requires
        n <= 21,
    ensures
        sync_places(start, m, n).len() <= n,
        forall|k: int|
            0 <= k < sync_places(start, m, n).len() ==> has_origin(
                start,
                m,
                #[trigger] sync_places(start, m, n)[k],
                n,
            ),
        forall|q: int|
            0 <= q < n && in_band(start, m, #[trigger] nth_sync(q)) ==> holds_span(
                sync_places(start, m, n),
                start,
                m,
                q,
            ),
        (forall|q: int| 0 <= q < n ==> in_band(start, m, #[trigger] nth_sync(q))) ==> sync_places(
            start,
            m,
            n,
        ).len() == n,
    decreases n,
{
    if n > 0 {
        let before = sync_places(start, m, (n - 1) as nat);
        let all = sync_places(start, m, n);
        lemma_sync_places(start, m, (n - 1) as nat);
        let last = n - 1;
        assert(in_band(start, m, nth_sync(last)) ==> all.len() == before.len() + 1 && is_span_of(
            start,
            m,
            all[before.len() as int],
            last,
        ));
        assert forall|k: int| 0 <= k < all.len() implies has_origin(
            start,
            m,
            #[trigger] all[k],
            n,
        ) by {
            if k < before.len() {
                assert(has_origin(start, m, before[k], (n - 1) as nat));
                let q = choose|q: int|
                    0 <= q < n - 1 && #[trigger] is_span_of(start, m, before[k], q);
                assert(is_span_of(start, m, all[k], q));
            } else {
                assert(is_span_of(start, m, all[k], last));
            }
        }
        assert forall|q: int| 0 <= q < n && in_band(start, m, #[trigger] nth_sync(q)) implies holds_span(
            all,
            start,
            m,
            q,
        ) by {
            if q < n - 1 {
                assert(holds_span(before, start, m, q));
                let k = choose|k: int|
                    0 <= k < before.len() && is_span_of(start, m, #[trigger] before[k], q);
                assert(is_span_of(start, m, all[k], q));
            } else {
                assert(is_span_of(start, m, all[before.len() as int], q));
            }
        }
        if forall|q: int| 0 <= q < n ==> in_band(start, m, #[trigger] nth_sync(q)) {
            assert(in_band(start, m, nth_sync(last)));
        }
    }
}

/// Where the power of a sync symbol is taken, the symbol lies: symbol `i` of a transmission that
/// starts at `start` begins `i` symbol lengths later, it is a sync symbol, and whatever is sent, it
/// has the tone of the block and symbol that it is taken for.
pub proof fn law_sync_places_are_sent(
    start: int,
    m: Mode,
    k: int,
    msg: Seq<u8>,
    costas: [[usize; 7]; 3],
)
    requires
        0 <= k < sync_places(start, m, 21).len(),
    ensures
        ({
            let (p, j, at) = sync_places(start, m, 21)[k];
            &&& p < 3
            &&& j < 7
            &&& exists|i: int| #[trigger]
                is_sync_symbol(i) && at == start + i * m.ndownsps && frame::tones_of_message(
                    msg,
                    costas,
                )[i] == costas@[p as int]@[j as int] % 256
        }),
{
    lemma_sync_places(start, m, 21);
    let e = sync_places(start, m, 21)[k];
    assert(has_origin(start, m, e, 21));
    let q = choose|q: int| 0 <= q < 21 && #[trigger] is_span_of(start, m, e, q);
    lemma_sync_symbol(q, msg, costas);
    let i = nth_sync(q);
    assert(is_sync_symbol(i));
    assert(e.2 == start + i * m.ndownsps);
}

/// Every sync symbol that lies whole in the band has its power taken, and of a transmission that lies
/// in it whole all 21 do.
pub proof fn law_sync_places_complete(start: int, m: Mode, i: int)
    requires
        is_sync_symbol(i),
        0 <= start + i * m.ndownsps,
        start + i * m.ndownsps + m.ndownsps <= m.np2,
    ensures
        exists|k: int|
            0 <= k < sync_places(start, m, 21).len() && (#[trigger] sync_places(start, m, 21)[k]).2
                == start + i * m.ndownsps,
        0 <= start && start + 79 * m.ndownsps <= m.np2 ==> sync_places(start, m, 21).len() == 21,
{
    lemma_sync_places(start, m, 21);
    let q = if i < 7 {
        i
    } else if i < 43 {
        7 + i - 36
    } else {
        14 + i - 72
    };
    assert(nth_sync(q) == i);
    assert(holds_span(sync_places(start, m, 21), start, m, q));
    let k = choose|k: int|
        0 <= k < sync_places(start, m, 21).len() && is_span_of(
            start,
            m,
            #[trigger] sync_places(start, m, 21)[k],
            q,
        );
    assert(sync_places(start, m, 21)[k].2 == start + i * m.ndownsps);
    if 0 <= start && start + 79 * m.ndownsps <= m.np2 {
        assert forall|q: int| 0 <= q < 21 implies in_band(start, m, #[trigger] nth_sync(q)) by {
            let s = nth_sync(q);
            assert(0 <= s <= 78);
            assert(0 <= s * m.ndownsps && s * m.ndownsps + m.ndownsps <= 79 * m.ndownsps)
                by (nonlinear_arith)
                requires
                    0 <= s <= 78,
            ;
        }
    }
}

/// The step at which a sync symbol is scored is that of the symbol in a transmission: `i` symbols are
/// `4 i` quarter symbols.
pub proof fn law_sync_steps_are_sent(
    p: int,
    n: int,
    j: int,
    m: Mode,
    msg: Seq<u8>,
    costas: [[usize; 7]; 3],
)
    requires
        0 <= p < 3,
        0 <= n < 7,
    ensures
        exists|i: int| #[trigger]
            is_sync_symbol(i) && sync_step(p, n, j, m) == j + m.jstrt + 4 * i
                && frame::tones_of_message(msg, costas)[i] == costas@[p]@[n] % 256,
{
    lemma_sync_symbol(7 * p + n, msg, costas);
    let i = nth_sync(7 * p + n);
    assert((7 * p + n) / 7 == p && (7 * p + n) % 7 == n);
    assert(is_sync_symbol(i));
}

/// `terms` holds the power of each of these sync symbols.
pub open spec fn are_terms<T, Q: Fn(usize, usize, usize) -> T>(
    correlate: Q,
    spans: Seq<(usize, usize, usize)>,
    terms: Seq<T>,
) -> bool {
    &&& terms.len() == spans.len()
    &&& forall|k: int|
        0 <= k < terms.len() ==> call_ensures(correlate, spans[k], #[trigger] terms[k])
}

/// The power of the sync symbols of a signal that starts at `start`.
pub fn sync_power<T: Copy, Q: Fn(usize, usize, usize) -> T, A: Fn(T, T) -> T>(
    start: i64,
    m: &Mode,
    zero: T,
    correlate: &Q,
    plus: &A,
) -> (r: T)
    requires
        forall|a: usize, b: usize, c: usize| #[trigger] call_requires(*correlate, (a, b, c)),
        forall|a: T, b: T| #[trigger] call_requires(*plus, (a, b)),
    ensures
        exists|terms: Seq<T>| #[trigger]
            are_terms(*correlate, sync_places(start as int, *m, 21), terms) && folded(
                *plus,
                zero,
                terms,
                r,
            ),
{
    let mut terms: Vec<T> = Vec::new();
    for n in 0..21usize
        invariant
            forall|a: usize, b: usize, c: usize| #[trigger] call_requires(*correlate, (a, b, c)),
            are_terms(*correlate, sync_places(start as int, *m, n as nat), terms@),
    {
        let p: usize = n / 7;
        let j: usize = n % 7;
        match symbol_span(36 * p + j, start, m) {
            None => {},
            Some(at) => {
                let v: T = correlate(p, j, at);
                assert(call_ensures(*correlate, (p, j, at), v));
                terms.push(v);
            },
        }
    }
    fold(terms.as_slice(), zero, plus)
}

/// The number that a search through `values` finds, where the first value belongs to `first` and
/// each further one to the next number; `fallback` where none is over the floor.
pub open spec fn found<T, G: Fn(T, T) -> bool>(
    greater: G,
    values: Seq<T>,
    floor: T,
    first: int,
    fallback: int,
    out: int,
) -> bool {
    exists|at: Option<int>| #[trigger]
        best(greater, values, floor, at) && out == match at {
            None => fallback,
            Some(i) => first + i,
        }
}

/// Finds the number with the greatest value.
pub fn search_from<T: Copy, G: Fn(T, T) -> bool>(
    values: &[T],
    floor: T,
    first: i64,
    fallback: i64,
    greater: &G,
) -> (r: i64)
    requires
        first + values@.len() <= i64::MAX,
        forall|a: T, b: T| #[trigger] call_requires(*greater, (a, b)),
    ensures
        found(*greater, values@, floor, first as int, fallback as int, r as int),
{
    let at: Option<usize> = best_above(values, floor, greater);
    assert(best(*greater, values@, floor, place(at)));
    match at {
        None => fallback,
        Some(i) => (first as i128 + i as i128) as i64,
    }
}

/// A band laid at the head of `size` places, filled up with `zero` and turned to the left.
pub open spec fn turned<T>(band: Seq<T>, size: int, left: int, zero: T) -> Seq<T> {
    Seq::new(
        size as nat,
        |k: int|
            {
                let at = (k + left) % size;
                if at < band.len() {
                    band[at]
                } else {
                    zero
                }
            },
    )
}

/// Lays a band out for the way back to samples, its reference frequency first.
pub fn turn_band<T: Copy>(band: &[T], size: usize, left: usize, zero: T) -> (r: Vec<T>)
    requires
        0 < size,
    ensures
        r@ == turned(band@, size as int, left as int, zero),
{
    let ghost want = turned(band@, size as int, left as int, zero);
    let mut out: Vec<T> = Vec::new();
    for k in 0..size
        invariant
            0 < size,
            want == turned(band@, size as int, left as int, zero),
            out@ == want.take(k as int),
    {
        let at: usize = ((k as u128 + left as u128) % size as u128) as usize;
        out.push(
            if at < band.len() {
                band[at]
            } else {
                zero
            },
        );
        assert(out@ =~= want.take(k + 1));
    }
    assert(out@ =~= want);
    out
}

/// Whether score `a` comes before score `b` in the order of strength: the greater one, and of equal
/// ones the one of the lower place.
pub open spec fn before(keys: Seq<i64>, a: int, b: int) -> bool {
    keys[a] > keys[b] || keys[a] == keys[b] && a < b
}

/// `order` holds each place of `keys` once, the strongest first.
pub open spec fn by_strength(keys: Seq<i64>, order: Seq<usize>) -> bool {
    &&& order.len() == keys.len()
    &&& forall|i: int| 0 <= i < order.len() ==> #[trigger] order[i] < keys.len()
    &&& forall|i: int, j: int|
        0 <= i < j < order.len() ==> before(
            keys,
            #[trigger] order[i] as int,
            #[trigger] order[j] as int,
        )
}

/// Orders scores by their strength.
pub fn strongest_first(keys: &[i64]) -> (r: Vec<usize>)
    ensures
        by_strength(keys@, r@),
{
    let mut order: Vec<usize> = Vec::new();
    for k in 0..keys.len()
        invariant
            order@.len() == k,
            forall|i: int| 0 <= i < k ==> #[trigger] order@[i] < k,
            forall|i: int, j: int|
                0 <= i < j < k ==> before(
                    keys@,
                    #[trigger] order@[i] as int,
                    #[trigger] order@[j] as int,
                ),
    {
        let mut at: usize = k;
        while at > 0 && keys[order[at - 1]] < keys[k]
            invariant
                at <= k,
                k < keys@.len(),
                order@.len() == k,
                forall|i: int| 0 <= i < k ==> #[trigger] order@[i] < k,
                forall|i: int| at <= i < k ==> keys@[#[trigger] order@[i] as int] < keys@[k as int],
            decreases at,
        {
            at = at - 1;
        }
        let ghost was = order@;
        order.insert(at, k);
        proof {
            assert forall|i: int, j: int| 0 <= i < j < k + 1 implies before(
                keys@,
                #[trigger] order@[i] as int,
                #[trigger] order@[j] as int,
            ) by {
                let a = if i < at {
                    i
                } else {
                    i - 1
                };
                let b = if j < at {
                    j
                } else {
                    j - 1
                };
                if i == at {
                    assert(order@[j] == was[b]);
                } else if j == at {
                    assert(order@[i] == was[i]);
                    if i < at - 1 {
                        assert(before(keys@, was[i] as int, was[at - 1] as int));
                    }
                } else {
                    assert(order@[i] == was[a] && order@[j] == was[b]);
                    assert(before(keys@, was[a] as int, was[b] as int));
                }
            }
            assert forall|i: int| 0 <= i < k + 1 implies #[trigger] order@[i] < k + 1 by {
                if i < at {
                    assert(order@[i] == was[i]);
                } else if i > at {
                    assert(order@[i] == was[i - 1]);
                }
            }
        }
    }
    order
}

/// Each score has exactly one place in the order by strength.
pub proof fn law_order_complete(keys: Seq<i64>, order: Seq<usize>, p: int)
    requires
        by_strength(keys, order),
        0 <= p < keys.len(),
    ensures
        exists|i: int| 0 <= i < order.len() && order[i] == p,
        forall|i: int, j: int|
            0 <= i < order.len() && 0 <= j < order.len() && #[trigger] order[i]
                == #[trigger] order[j] ==> i == j,
{
    let places = order.map_values(|v: usize| v as int);
    assert forall|i: int, j: int|
        0 <= i < order.len() && 0 <= j < order.len() && #[trigger] order[i]
            == #[trigger] order[j] implies i == j by {
        if i < j {
            assert(before(keys, order[i] as int, order[j] as int));
        } else if j < i {
            assert(before(keys, order[j] as int, order[i] as int));
        }
    }
    assert(places.no_duplicates()) by {
        assert forall|i: int, j: int|
            0 <= i < places.len() && 0 <= j < places.len() && i != j implies places[i]
            != places[j] by {
            assert(order[i] != order[j]);
        }
    }
    places.unique_seq_to_set();
    let all = vstd::set_lib::set_int_range(0, keys.len() as int);
    vstd::set_lib::lemma_int_range(0, keys.len() as int);
    assert(places.to_set().subset_of(all)) by {
        assert forall|x: int| places.to_set().contains(x) implies all.contains(x) by {
            let i = choose|i: int| 0 <= i < places.len() && places[i] == x;
            assert(order[i] < keys.len());
        }
    }
    vstd::seq_lib::seq_to_set_is_finite(places);
    vstd::set_lib::lemma_subset_equality(places.to_set(), all);
    assert(all.contains(p));
    let i = choose|i: int| 0 <= i < places.len() && places[i] == p;
    assert(order[i] == p);
}

} // verus!
