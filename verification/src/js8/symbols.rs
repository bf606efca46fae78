//! How what is read from the symbols of a received signal belongs to what was sent.
use crate::fold::{fold_run, fold_step, folded};
use crate::js8::bits;
use crate::js8::candidate::{are_metrics, bit_column, is_metric, pass_metrics};
use crate::js8::decode::{
    bit_of_tone, data_symbol, few_errors, is_sync_symbol, nth_tone, overlap, sync_count,
};
use crate::js8::frame::{parity_of, tone_at, tones_of_message};
use crate::js8::params::Mode;
use crate::js8::search::{band_cells, cell, edges, sync_step, tone_cells, turned};
use crate::js8::spectra::whole_steps;
use vstd::prelude::*;

verus! {

// ---- sync ----

/// Whether the sync tones are tones.
pub open spec fn are_tones(costas: [[usize; 7]; 3]) -> bool {
    forall|b: int, j: int| 0 <= b < 3 && 0 <= j < 7 ==> #[trigger] costas@[b]@[j] < 8
}

/// The place of a sync symbol among the sync symbols.
spec fn sync_rank(i: int) -> int {
    7 * (i / 36) + i % 36
}

spec fn matches(strongest: Seq<usize>, tone: int, i: int) -> int {
    if strongest[i] == tone {
        1
    } else {
        0
    }
}

proof fn lemma_sync_symbol_tone(q: int, m: Seq<u8>, costas: [[usize; 7]; 3])
    requires
        0 <= q < 21,
        are_tones(costas),
    ensures
        is_sync_symbol(36 * (q / 7) + q % 7),
        sync_rank(36 * (q / 7) + q % 7) == q,
        costas@[q / 7]@[q % 7] == tones_of_message(m, costas)[36 * (q / 7) + q % 7],
{
    assert(q / 7 == 0 || q / 7 == 1 || q / 7 == 2);
    assert(costas@[q / 7]@[q % 7] < 8);
}

proof fn lemma_sync_update(
    strongest: Seq<usize>,
    i: int,
    v: usize,
    m: Seq<u8>,
    costas: [[usize; 7]; 3],
    n: nat,
)
    requires
        n <= 21,
        0 <= i < 79,
        strongest.len() == 79,
        are_tones(costas),
    ensures
        ({
            let tone = tones_of_message(m, costas)[i] as int;
            let new = strongest.update(i, v);
            sync_count(new, costas, n) == sync_count(strongest, costas, n) + if is_sync_symbol(i)
                && sync_rank(i) < n {
                matches(new, tone, i) - matches(strongest, tone, i)
            } else {
                0
            }
        }),
    decreases n,
{
    if n > 0 {
        lemma_sync_update(strongest, i, v, m, costas, (n - 1) as nat);
        lemma_sync_symbol_tone(n - 1, m, costas);
        if is_sync_symbol(i) && sync_rank(i) == n - 1 {
            assert(i == 36 * ((n - 1) / 7) + (n - 1) % 7);
        }
    }
}

proof fn lemma_sync_all(strongest: Seq<usize>, m: Seq<u8>, costas: [[usize; 7]; 3], n: nat)
    requires
        n <= 21,
        are_tones(costas),
        forall|i: int|
            0 <= i < 79 ==> #[trigger] strongest[i] == tones_of_message(m, costas)[i] as usize,
    ensures
        sync_count(strongest, costas, n) == n,
    decreases n,
{
    if n > 0 {
        lemma_sync_all(strongest, m, costas, (n - 1) as nat);
        lemma_sync_symbol_tone(n - 1, m, costas);
        let i = 36 * ((n - 1) / 7) + (n - 1) % 7;
        assert(strongest[i] == tones_of_message(m, costas)[i] as usize);
    }
}

/// A signal whose strongest tones are those that were sent has all 21 sync symbols.
pub proof fn law_sent_is_in_sync(strongest: Seq<usize>, m: Seq<u8>, costas: [[usize; 7]; 3])
    requires
        are_tones(costas),
        forall|i: int|
            0 <= i < 79 ==> #[trigger] strongest[i] == tones_of_message(m, costas)[i] as usize,
    ensures
        sync_count(strongest, costas, 21) == 21,
{
    lemma_sync_all(strongest, m, costas, 21);
}

/// Each sync symbol counts by itself: it adds one when its strongest tone is the one that was sent.
/// No other symbol counts.
pub proof fn law_sync_symbols_count(
    strongest: Seq<usize>,
    i: int,
    v: usize,
    m: Seq<u8>,
    costas: [[usize; 7]; 3],
)
    requires
        0 <= i < 79,
        strongest.len() == 79,
        are_tones(costas),
    ensures
        ({
            let tone = tones_of_message(m, costas)[i] as int;
            let was = sync_count(strongest, costas, 21) as int;
            let now = sync_count(strongest.update(i, v), costas, 21) as int;
            &&& !is_sync_symbol(i) ==> now == was
            &&& is_sync_symbol(i) && strongest[i] == tone && v != tone ==> now == was - 1
            &&& is_sync_symbol(i) && strongest[i] != tone && v == tone ==> now == was + 1
            &&& is_sync_symbol(i) && (strongest[i] == tone <==> v == tone) ==> now == was
        }),
{
    lemma_sync_update(strongest, i, v, m, costas, 21);
}

/// The cells that the score of a block reads for its sync tones, where all its steps are within the
/// spectra: for each sync symbol the cell of the tone that is sent in it, a tone being two bins,
/// at the step of the symbol, a symbol being four steps.
pub proof fn law_tone_cells_are_sent(
    bin: int,
    p: int,
    j: int,
    md: Mode,
    n: nat,
    k: int,
    m: Seq<u8>,
)
    requires
        0 <= p < 3,
        0 <= k < n <= 7,
        are_tones(md.costas),
        0 <= j + md.jstrt + 144 * p,
        j + md.jstrt + 144 * p + 24 < md.nhsym,
    ensures
        ({
            let i = 36 * p + k;
            &&& is_sync_symbol(i)
            &&& tone_cells(bin, p, j, md, n).len() == n
            &&& tone_cells(bin, p, j, md, n)[k] == (bin + 2 * tones_of_message(m, md.costas)[i])
                * md.nhsym + (j + md.jstrt + 4 * i)
        }),
    decreases n,
{
    lemma_sync_symbol_tone(7 * p + k, m, md.costas);
    assert((7 * p + k) / 7 == p && (7 * p + k) % 7 == k);
    lemma_tone_cells_len(bin, p, j, md, n);
    if k < n - 1 {
        law_tone_cells_are_sent(bin, p, j, md, (n - 1) as nat, k, m);
        lemma_tone_cells_len(bin, p, j, md, (n - 1) as nat);
    } else {
        lemma_tone_cells_len(bin, p, j, md, (n - 1) as nat);
        assert(sync_step(p, k, j, md) == j + md.jstrt + 4 * (36 * p + k));
    }
}

proof fn lemma_tone_cells_len(bin: int, p: int, j: int, md: Mode, n: nat)
    requires
        n <= 7,
        0 <= j + md.jstrt + 144 * p,
        j + md.jstrt + 144 * p + 24 < md.nhsym,
    ensures
        tone_cells(bin, p, j, md, n).len() == n,
        band_cells(bin, p, j, md, n).len() == 7 * n,
    decreases n,
{
    if n > 0 {
        lemma_tone_cells_len(bin, p, j, md, (n - 1) as nat);
    }
}

/// The cells that are measured against these: at each of the steps the seven lowest tones.
pub proof fn law_band_cells(bin: int, p: int, j: int, md: Mode, n: nat, k: int, f: int)
    requires
        0 <= p < 3,
        0 <= k < n <= 7,
        0 <= f < 7,
        0 <= j + md.jstrt + 144 * p,
        j + md.jstrt + 144 * p + 24 < md.nhsym,
    ensures
        band_cells(bin, p, j, md, n).len() == 7 * n,
        band_cells(bin, p, j, md, n)[7 * k + f] == (bin + 2 * f) * md.nhsym + (j + md.jstrt + 4 * (36
            * p + k)),
    decreases n,
{
    lemma_tone_cells_len(bin, p, j, md, n);
    lemma_tone_cells_len(bin, p, j, md, (n - 1) as nat);
    if k < n - 1 {
        law_band_cells(bin, p, j, md, (n - 1) as nat, k, f);
    }
}

/// No two cells of the spectra lie at the same place.
pub proof fn law_cells_distinct(a: int, s: int, b: int, t: int, md: Mode)
    requires
        0 <= a,
        0 <= b,
        0 <= s < md.nhsym,
        0 <= t < md.nhsym,
        cell(a, s, md) == cell(b, t, md),
    ensures
        a == b,
        s == t,
{
    let n = md.nhsym as int;
    vstd::arithmetic::div_mod::lemma_fundamental_div_mod_converse(a * n + s, n, a, s);
    vstd::arithmetic::div_mod::lemma_fundamental_div_mod_converse(b * n + t, n, b, t);
}

// ---- bits ----

/// The three bits of a tone are those that were put into it.
pub proof fn law_tone_bits(b: Seq<u8>, n: int, k: int)
    requires
        bits::are_bits(b),
        0 <= n,
        3 * n + 2 < b.len(),
        0 <= k < 3,
    ensures
        tone_at(b, n) < 8,
        bit_of_tone(tone_at(b, n) as int, k) == (b[3 * n + k] == 1),
{
    assert(b[3 * n] <= 1 && b[3 * n + 1] <= 1 && b[3 * n + 2] <= 1);
    assert(k == 0 || k == 1 || k == 2);
}

/// The four tones that have a bit set, or not set, are all of them, in order.
pub proof fn law_tones_of_bit(k: int, set: bool, t: int)
    requires
        0 <= k < 3,
        0 <= t < 8,
    ensures
        bit_of_tone(t, k) == set <==> exists|i: int| 0 <= i < 4 && #[trigger] nth_tone(k, set, i)
            == t,
        forall|i: int| 0 <= i < 4 ==> 0 <= #[trigger] nth_tone(k, set, i) < 8,
        forall|i: int, j: int|
            0 <= i < j < 4 ==> #[trigger] nth_tone(k, set, i) < #[trigger] nth_tone(k, set, j),
{
    let i = if k == 0 {
        t % 4
    } else if k == 1 {
        t / 4 * 2 + t % 2
    } else {
        t / 2
    };
    if bit_of_tone(t, k) == set {
        assert(nth_tone(k, set, i) == t);
    }
}

/// The greater of two numbers.
pub open spec fn greater(a: int, b: int) -> int {
    if a >= b {
        a
    } else {
        b
    }
}

proof fn lemma_fold_max<M: Fn(i64, i64) -> i64>(max: M, lowest: i64, items: Seq<i64>, out: i64)
    requires
        items.len() == 4,
        forall|a: i64, b: i64, c: i64| #[trigger]
            call_ensures(max, (a, b), c) ==> c == greater(a as int, b as int),
        folded(max, lowest, items, out),
    ensures
        out == greater(
            greater(greater(greater(lowest as int, items[0] as int), items[1] as int), items[2] as int),
            items[3] as int,
        ),
{
    let acc = choose|acc: Seq<i64>| #[trigger]
        fold_run(max, lowest, items, acc) && acc.last() == out;
    assert(fold_step(max, items, acc, 0) && fold_step(max, items, acc, 1));
    assert(fold_step(max, items, acc, 2) && fold_step(max, items, acc, 3));
}

/// Whether each symbol holds one tone and no other.
pub open spec fn is_clean(s: [[i64; 79]; 8], tones: Seq<u8>) -> bool {
    forall|r: int, k: int|
        0 <= r < 8 && 0 <= k < 79 ==> #[trigger] s@[r]@[k] == (if r == tones[k] {
            1i64
        } else {
            0i64
        })
}

/// From the clean tones of a message each codeword bit is read as it was sent: the metrics are
/// above zero for the bits that are set and below zero for the others, first those of the parity
/// and then those of the message.
pub proof fn law_clean_signal_is_read<M: Fn(i64, i64) -> i64, S: Fn(i64, i64) -> i64>(
    max: M,
    less: S,
    lowest: i64,
    s: [[i64; 79]; 8],
    m: Seq<u8>,
    costas: [[usize; 7]; 3],
    out: Seq<i64>,
    n: int,
)
    requires
        m.len() == 87,
        bits::are_bits(m),
        is_clean(s, tones_of_message(m, costas)),
        lowest <= 0,
        forall|a: i64, b: i64, c: i64| #[trigger]
            call_ensures(max, (a, b), c) ==> c == greater(a as int, b as int),
        forall|a: i64, b: i64, c: i64| #[trigger] call_ensures(less, (a, b), c) ==> c == a - b,
        are_metrics(max, less, lowest, s, out),
        0 <= n < 174,
    ensures
        out.len() == 174,
        out[n] == (if (if n < 87 {
            parity_of(m)[n]
        } else {
            m[n - 87]
        }) == 1 {
            1int
        } else {
            -1
        }),
{
    let j = n / 3;
    let k = n % 3;
    let i = data_symbol(j);
    let from = if n < 87 {
        parity_of(m)
    } else {
        m
    };
    let nth = if n < 87 {
        j
    } else {
        j - 29
    };
    let tone = tones_of_message(m, costas)[i];
    assert(bits::are_bits(parity_of(m)));
    assert(tone == tone_at(from, nth));
    law_tone_bits(from, nth, k);
    assert(3 * nth + k == (if n < 87 {
        n
    } else {
        n - 87
    }));
    assert(is_metric(max, less, lowest, s, n, out[n]));
    let (one, zero) = choose|one: i64, zero: i64|
        #![trigger call_ensures(less, (one, zero), out[n])]
        folded(max, lowest, bit_column(s, n / 3, n % 3, true), one) && folded(
            max,
            lowest,
            bit_column(s, n / 3, n % 3, false),
            zero,
        ) && call_ensures(less, (one, zero), out[n]);
    lemma_column_max(max, lowest, s, tones_of_message(m, costas), j, k, true, one);
    lemma_column_max(max, lowest, s, tones_of_message(m, costas), j, k, false, zero);
}

proof fn lemma_column_max<M: Fn(i64, i64) -> i64>(
    max: M,
    lowest: i64,
    s: [[i64; 79]; 8],
    tones: Seq<u8>,
    j: int,
    k: int,
    set: bool,
    out: i64,
)
    requires
        0 <= j < 58,
        0 <= k < 3,
        is_clean(s, tones),
        tones[data_symbol(j)] < 8,
        lowest <= 0,
        forall|a: i64, b: i64, c: i64| #[trigger]
            call_ensures(max, (a, b), c) ==> c == greater(a as int, b as int),
        folded(max, lowest, bit_column(s, j, k, set), out),
    ensures
        out == (if bit_of_tone(tones[data_symbol(j)] as int, k) == set {
            1int
        } else {
            0
        }),
{
    let col = bit_column(s, j, k, set);
    let i = data_symbol(j);
    let t = tones[i] as int;
    lemma_fold_max(max, lowest, col, out);
    law_tones_of_bit(k, set, t);
    assert forall|x: int| 0 <= x < 4 implies #[trigger] col[x] == (if nth_tone(k, set, x) == t {
        1i64
    } else {
        0i64
    }) by {
        let r = nth_tone(k, set, x);
        assert(0 <= r < 8);
        assert(col[x] == s@[r]@[i]);
    }
    assert(col[0] >= 0 && col[1] >= 0 && col[2] >= 0 && col[3] >= 0);
    if bit_of_tone(t, k) == set {
        let x = choose|x: int| 0 <= x < 4 && #[trigger] nth_tone(k, set, x) == t;
        assert(col[x] == 1);
        assert(x == 0 || x == 1 || x == 2 || x == 3);
    } else {
        assert(nth_tone(k, set, 0) != t && nth_tone(k, set, 1) != t && nth_tone(k, set, 2) != t
            && nth_tone(k, set, 3) != t);
    }
}

/// Which metrics the passes of error correction work on: the first on all plain ones, the second on
/// all logarithmic ones, the third on the plain ones without those of the first 8 data symbols, and
/// the fourth without those of the first 16.
pub proof fn law_passes_leave_out<T>(plain: Seq<T>, log: Seq<T>, zero: T, n: int)
    requires
        plain.len() == 174,
        log.len() == 174,
        0 <= n < 174,
    ensures
        pass_metrics(plain, log, zero, 1) == plain,
        pass_metrics(plain, log, zero, 2) == log,
        pass_metrics(plain, log, zero, 3)[n] == (if n / 3 < 8 {
            zero
        } else {
            plain[n]
        }),
        pass_metrics(plain, log, zero, 4)[n] == (if n / 3 < 16 {
            zero
        } else {
            plain[n]
        }),
{
    assert(pass_metrics(plain, log, zero, 1) =~= plain);
}

/// The most bits that a pass may have corrected: 59 in the first two, 39 in the third, 30 in the
/// fourth, and never more than 35 when the signal is barely in sync.
pub open spec fn most_errors(ipass: int, weak_sync: bool) -> int {
    if ipass == 4 {
        30
    } else if weak_sync {
        35
    } else if ipass == 3 {
        39
    } else {
        59
    }
}

/// The result of a pass is worth checking when it is one, and no more bits were corrected than
/// allowed.
pub proof fn law_most_errors(nerr: int, weak_sync: bool, ipass: int)
    requires
        1 <= ipass <= 4,
    ensures
        few_errors(nerr, weak_sync, ipass) == (0 <= nerr <= most_errors(ipass, weak_sync)),
{
}

// ---- windows ----

/// The part of a window that a signal covers holds exactly those of its samples that fall into the
/// window, each at its place.
pub proof fn law_overlap(start: int, len: int, window: int, k: int)
    requires
        0 <= len,
        0 <= window,
    ensures
        ({
            let (skip, at, size) = overlap(start, len, window);
            &&& 0 <= k < len && 0 <= start + k < window <==> skip <= k < skip + size
            &&& size > 0 ==> at == start + skip && 0 <= skip && skip + size <= len && 0 <= at && at
                + size <= window
            &&& size >= 0
        }),
{
}

/// A spectrum is taken at each step at which a whole one lies in the window, up to the number of
/// steps of the speed.
pub proof fn law_whole_steps(len: int, md: Mode, k: int)
    requires
        0 <= len,
        0 <= k,
        md.nstep > 0,
        md.nfft1 > 0,
    ensures
        k < whole_steps(len, md) <==> k < md.nhsym && k * md.nstep + md.nfft1 <= len && k * md.nstep
            + md.nfft1 <= md.nmax,
{
    let n = if len < md.nmax {
        len
    } else {
        md.nmax as int
    };
    crate::js8::spectra::lemma_step_count(n, md.nfft1 as int, md.nstep as int, k);
}

/// A search stays between 100 Hz and 4910 Hz, and a range within them is searched as it is.
pub proof fn law_edges(nfa: int, nfb: int)
    ensures
        edges(nfa, nfb).0 >= 100,
        edges(nfa, nfb).1 <= 4_910,
        100 <= nfa && 100 <= nfb <= 4_910 ==> edges(nfa, nfb) == (nfa, nfb),
        nfa < 100 && 100 <= nfb <= 4_910 ==> edges(nfa, nfb) == (100int, nfb),
        100 <= nfa && nfb > 4_910 ==> edges(nfa, nfb) == (nfa, 4_910int),
        nfa <= 4_910 && nfb < 100 ==> edges(nfa, nfb).1 == edges(nfa, nfb).0,
{
}

/// A band that is turned to the left keeps each value, `left` places further to the left around the
/// end; the places that it does not reach are zero.
pub proof fn law_turned<T>(band: Seq<T>, size: int, left: int, zero: T, a: int)
    requires
        0 < size,
        0 <= left <= size,
        0 <= a < size,
    ensures
        turned(band, size, left, zero).len() == size,
        turned(band, size, left, zero)[if a >= left {
            a - left
        } else {
            a - left + size
        }] == (if a < band.len() {
            band[a]
        } else {
            zero
        }),
{
    if a >= left {
        vstd::arithmetic::div_mod::lemma_small_mod(a as nat, size as nat);
    } else {
        vstd::arithmetic::div_mod::lemma_fundamental_div_mod_converse(a + size, size, 1, a);
    }
    if left == size {
        vstd::arithmetic::div_mod::lemma_fundamental_div_mod_converse(a + size, size, 1, a);
    }
}

} // verus!
