//! The symbol spectra of a window and the removal of a decoded signal from it. The transforms are
//! the caller's.
use crate::fold::{fold, folded};
use crate::js8::decode::{covered_span, overlap};
use crate::js8::params::Mode;
use crate::js8::search::cell;
use crate::receiver::sink::least;
use vstd::prelude::*;

verus! {

/// How many steps of a window of `len` samples hold a whole spectrum.
pub open spec fn whole_steps(len: int, m: Mode) -> int {
    let n = least(len, m.nmax as int);
    if n < m.nfft1 {
        0
    } else {
        least(m.nhsym as int, (n - m.nfft1) / (m.nstep as int) + 1)
    }
}

/// `spectra` holds the spectrum of each whole step.
pub open spec fn are_spectra<T, P: Fn(Vec<T>) -> Vec<T>>(
    spectrum: P,
    window: Seq<T>,
    m: Mode,
    ins: Seq<Vec<T>>,
    spectra: Seq<Vec<T>>,
) -> bool {
    &&& ins.len() == whole_steps(window.len() as int, m)
    &&& spectra.len() == ins.len()
    &&& forall|j: int|
        0 <= j < ins.len() ==> (#[trigger] ins[j])@ == window.subrange(
            j * m.nstep,
            j * m.nstep + m.nfft1,
        )
    &&& forall|j: int|
        0 <= j < ins.len() ==> call_ensures(spectrum, (ins[j],), #[trigger] spectra[j])
}

/// The power in a bin at a step: nothing behind the last whole step.
pub open spec fn power_at<T>(spectra: Seq<Vec<T>>, zero: T, i: int, j: int) -> T {
    if j < spectra.len() {
        spectra[j]@[i]
    } else {
        zero
    }
}

/// Takes the spectrum of each whole step.
fn take_spectra<T: Copy, P: Fn(Vec<T>) -> Vec<T>>(window: &[T], m: &Mode, spectrum: &P) -> (r: Vec<
    Vec<T>,
>)
    requires
        m.nstep > 0,
        m.nfft1 > 0,
        forall|v: Vec<T>| #[trigger] call_requires(*spectrum, (v,)),
    ensures
        exists|ins: Seq<Vec<T>>| #[trigger] are_spectra(*spectrum, window@, *m, ins, r@),
{
    let n: usize = if window.len() < m.nmax {
        window.len()
    } else {
        m.nmax
    };
    let steps: usize = if n < m.nfft1 {
        0
    } else {
        let whole: usize = (n - m.nfft1) / m.nstep;
        if whole < m.nhsym {
            whole + 1
        } else {
            m.nhsym
        }
    };
    let mut out: Vec<Vec<T>> = Vec::new();
    let ghost mut ins: Seq<Vec<T>> = Seq::empty();
    for k in 0..steps
        invariant
            m.nstep > 0,
            m.nfft1 > 0,
            n == least(window@.len() as int, m.nmax as int),
            steps == whole_steps(window@.len() as int, *m),
            ins.len() == k,
            out@.len() == k,
            forall|v: Vec<T>| #[trigger] call_requires(*spectrum, (v,)),
            forall|j: int|
                0 <= j < k ==> (#[trigger] ins[j])@ == window@.subrange(
                    j * m.nstep,
                    j * m.nstep + m.nfft1,
                ),
            forall|j: int|
                0 <= j < k ==> call_ensures(*spectrum, (ins[j],), #[trigger] out@[j]),
    {
        proof {
            lemma_step_count(n as int, m.nfft1 as int, m.nstep as int, k as int);
            assert(k * m.nstep >= 0) by (nonlinear_arith);
        }
        let at: usize = k * m.nstep;
        let mut chunk: Vec<T> = Vec::new();
        for i in 0..m.nfft1
            invariant
                n <= window@.len(),
                at + m.nfft1 <= n,
                chunk@ == window@.subrange(at as int, at + i),
        {
            chunk.push(window[at + i]);
            assert(chunk@ =~= window@.subrange(at as int, at + i + 1));
        }
        proof {
            ins = ins.push(chunk);
        }
        let ghost c = chunk;
        let p: Vec<T> = spectrum(chunk);
        assert(call_ensures(*spectrum, (c,), p));
        out.push(p);
    }
    assert(are_spectra(*spectrum, window@, *m, ins, out@));
    out
}

/// Step `k` is whole when its spectrum ends within the window.
pub proof fn lemma_step_count(n: int, size: int, step: int, k: int)
    requires
        step > 0,
        size > 0,
        k >= 0,
    ensures
        k * step + size <= n <==> n >= size && k < (n - size) / step + 1,
{
    let q = (n - size) / step;
    let r = (n - size) % step;
    vstd::arithmetic::div_mod::lemma_fundamental_div_mod(n - size, step);
    assert(k * step + size <= n <==> n >= size && k < q + 1) by (nonlinear_arith)
        requires
            n - size == step * q + r,
            0 <= r,
            r < step,
            step > 0,
            k >= 0,
    ;
}

/// The power in each bin at each step, and over all steps together.
pub fn symbol_spectra<T: Copy, P: Fn(Vec<T>) -> Vec<T>, A: Fn(T, T) -> T>(
    window: &[T],
    m: &Mode,
    zero: T,
    spectrum: &P,
    plus: &A,
) -> (r: (Vec<T>, Vec<T>))
    requires
        m.nstep > 0,
        m.nfft1 > 0,
        m.nhsym > 0,
        m.nsps * m.nhsym <= usize::MAX,
        forall|v: Vec<T>| #[trigger] call_requires(*spectrum, (v,)),
        forall|v: Vec<T>, p: Vec<T>| #[trigger]
            call_ensures(*spectrum, (v,), p) ==> p@.len() >= m.nsps,
        forall|a: T, b: T| #[trigger] call_requires(*plus, (a, b)),
    ensures
        exists|ins: Seq<Vec<T>>, spectra: Seq<Vec<T>>| #[trigger]
            are_spectra(*spectrum, window@, *m, ins, spectra) && r.0@.len() == m.nsps * m.nhsym
                && (forall|i: int, j: int|
                0 <= i < m.nsps && 0 <= j < m.nhsym ==> #[trigger] r.0@[cell(i, j, *m)] == power_at(
                    spectra,
                    zero,
                    i,
                    j,
                )) && r.1@.len() == m.nsps && (forall|i: int|
                0 <= i < m.nsps ==> folded(
                    *plus,
                    zero,
                    Seq::new(spectra.len(), |j: int| spectra[j]@[i]),
                    #[trigger] r.1@[i],
                )),
{
    let spectra: Vec<Vec<T>> = take_spectra(window, m, spectrum);
    let ghost ins = choose|ins: Seq<Vec<T>>| #[trigger]
        are_spectra(*spectrum, window@, *m, ins, spectra@);
    assert forall|j: int| 0 <= j < spectra@.len() implies (#[trigger] spectra@[j])@.len()
        >= m.nsps by {
        assert(call_ensures(*spectrum, (ins[j],), spectra@[j]));
    }
    let mut cells: Vec<T> = Vec::new();
    let mut sums: Vec<T> = Vec::new();
    assert(0 * m.nhsym == 0) by (nonlinear_arith);
    for i in 0..m.nsps
        invariant
            m.nhsym > 0,
            forall|j: int| 0 <= j < spectra@.len() ==> (#[trigger] spectra@[j])@.len() >= m.nsps,
            forall|a: T, b: T| #[trigger] call_requires(*plus, (a, b)),
            cells@.len() == i * m.nhsym,
            sums@.len() == i,
            forall|q: int|
                0 <= q < cells@.len() ==> #[trigger] cells@[q] == power_at(
                    spectra@,
                    zero,
                    q / m.nhsym as int,
                    q % m.nhsym as int,
                ),
            forall|k: int|
                0 <= k < i ==> folded(
                    *plus,
                    zero,
                    Seq::new(spectra@.len(), |j: int| spectra@[j]@[k]),
                    #[trigger] sums@[k],
                ),
    {
        let mut row: Vec<T> = Vec::new();
        for j in 0..m.nhsym
            invariant
                i < m.nsps,
                m.nhsym > 0,
                forall|j: int|
                    0 <= j < spectra@.len() ==> (#[trigger] spectra@[j])@.len() >= m.nsps,
                cells@.len() == i * m.nhsym + j,
                forall|q: int|
                    0 <= q < cells@.len() ==> #[trigger] cells@[q] == power_at(
                        spectra@,
                        zero,
                        q / m.nhsym as int,
                        q % m.nhsym as int,
                    ),
        {
            proof {
                vstd::arithmetic::div_mod::lemma_fundamental_div_mod_converse(
                    i * m.nhsym + j,
                    m.nhsym as int,
                    i as int,
                    j as int,
                );
            }
            cells.push(
                if j < spectra.len() {
                    spectra[j][i]
                } else {
                    zero
                },
            );
        }
        let ghost all = Seq::new(spectra@.len(), |j: int| spectra@[j]@[i as int]);
        for j in 0..spectra.len()
            invariant
                i < m.nsps,
                forall|j: int|
                    0 <= j < spectra@.len() ==> (#[trigger] spectra@[j])@.len() >= m.nsps,
                all == Seq::new(spectra@.len(), |j: int| spectra@[j]@[i as int]),
                row@ == all.take(j as int),
        {
            assert(spectra@[j as int]@.len() >= m.nsps);
            row.push(spectra[j][i]);
            assert(row@ =~= all.take(j + 1));
        }
        assert(row@ =~= all);
        sums.push(fold(row.as_slice(), zero, plus));
        assert(i * m.nhsym + m.nhsym == (i + 1) * m.nhsym) by (nonlinear_arith);
    }
    assert forall|i: int, j: int|
        0 <= i < m.nsps && 0 <= j < m.nhsym implies #[trigger] cells@[cell(i, j, *m)] == power_at(
        spectra@,
        zero,
        i,
        j,
    ) by {
        vstd::arithmetic::div_mod::lemma_fundamental_div_mod_converse(
            i * m.nhsym + j,
            m.nhsym as int,
            i,
            j,
        );
        assert(0 <= i * m.nhsym + j < m.nsps * m.nhsym) by (nonlinear_arith)
            requires
                0 <= i < m.nsps,
                0 <= j < m.nhsym,
        ;
    }
    (cells, sums)
}

/// `mixed` is the part of a window that a signal covers, mixed with the signal from its first sample
/// on and filled up.
pub open spec fn is_mixed<T, Z, X: Fn(T, Z) -> Z>(
    mix: X,
    zero: Z,
    dd: Seq<T>,
    signal: Seq<Z>,
    at: int,
    size: int,
    nmax: int,
    mixed: Seq<Z>,
) -> bool {
    &&& mixed.len() == nmax
    &&& forall|i: int|
        0 <= i < size ==> call_ensures(mix, (dd[at + i], signal[i]), #[trigger] mixed[i])
    &&& forall|i: int| size <= i < nmax ==> #[trigger] mixed[i] == zero
}

/// `out` is a window once a signal was taken out of the part it covers; the rest is as before.
pub open spec fn is_taken_out<T, Z, V: Fn(T, Z, Z) -> T>(
    take: V,
    dd: Seq<T>,
    signal: Seq<Z>,
    estimate: Seq<Z>,
    at: int,
    size: int,
    out: Seq<T>,
) -> bool {
    &&& out.len() == dd.len()
    &&& forall|k: int|
        0 <= k < dd.len() && !(at <= k < at + size) ==> #[trigger] out[k] == dd[k]
    &&& forall|k: int|
        at <= k < at + size ==> call_ensures(
            take,
            (dd[k], signal[k - at], estimate[k - at]),
            #[trigger] out[k],
        )
}

/// Takes a signal out of a window: the part that it covers is mixed with the signal, filtered to an
/// estimate of its level, and freed of it. The signal is laid over that part from its first sample
/// on, also where it began before the window.
pub fn subtract<
    T: Copy,
    Z: Copy,
    X: Fn(T, Z) -> Z,
    Y: Fn(Vec<Z>) -> Vec<Z>,
    V: Fn(T, Z, Z) -> T,
>(
    dd: &mut Vec<T>,
    signal: &Vec<Z>,
    start: i64,
    nmax: usize,
    zero: Z,
    mix: &X,
    filter: &Y,
    take: &V,
)
    requires
        old(dd)@.len() <= nmax,
        forall|a: T, b: Z| #[trigger] call_requires(*mix, (a, b)),
        forall|v: Vec<Z>| #[trigger] call_requires(*filter, (v,)),
        forall|v: Vec<Z>, p: Vec<Z>| #[trigger]
            call_ensures(*filter, (v,), p) ==> p@.len() == v@.len(),
        forall|a: T, b: Z, c: Z| #[trigger] call_requires(*take, (a, b, c)),
    ensures
        ({
            let (_skip, at, size) = overlap(
                start as int,
                signal@.len() as int,
                old(dd)@.len() as int,
            );
            if size == 0 {
                final(dd)@ == old(dd)@
            } else {
                exists|mixed: Vec<Z>, estimate: Vec<Z>|
                    is_mixed(
                        *mix,
                        zero,
                        old(dd)@,
                        signal@,
                        at,
                        size,
                        nmax as int,
                        mixed@,
                    ) && #[trigger] call_ensures(*filter, (mixed,), estimate) && is_taken_out(
                        *take,
                        old(dd)@,
                        signal@,
                        estimate@,
                        at,
                        size,
                        final(dd)@,
                    )
            }
        }),
{
    let (_skip, at64, size) = covered_span(start, signal.len(), dd.len());
    if size == 0 {
        return;
    }
    let at: usize = at64 as usize;
    let ghost was = dd@;
    let mut mixed: Vec<Z> = Vec::new();
    for i in 0..nmax
        invariant
            dd@ == was,
            at + size <= was.len() <= usize::MAX,
            size <= signal@.len(),
            size <= nmax,
            forall|a: T, b: Z| #[trigger] call_requires(*mix, (a, b)),
            mixed@.len() == i,
            forall|k: int|
                0 <= k < size && k < i ==> call_ensures(
                    *mix,
                    (was[at + k], signal@[k]),
                    #[trigger] mixed@[k],
                ),
            forall|k: int| size <= k < i ==> #[trigger] mixed@[k] == zero,
    {
        let v: Z = if i < size {
            mix(dd[at + i], signal[i])
        } else {
            zero
        };
        mixed.push(v);
    }
    let ghost m = mixed;
    let estimate: Vec<Z> = filter(mixed);
    assert(call_ensures(*filter, (m,), estimate));
    for i in 0..size
        invariant
            dd@.len() == was.len(),
            at + size <= was.len() <= usize::MAX,
            size <= signal@.len(),
            size <= estimate@.len(),
            forall|a: T, b: Z, c: Z| #[trigger] call_requires(*take, (a, b, c)),
            forall|k: int|
                0 <= k < was.len() && !(at <= k < at + i) ==> #[trigger] dd@[k] == was[k],
            forall|k: int|
                at <= k < at + i ==> call_ensures(
                    *take,
                    (was[k], signal@[k - at], estimate@[k - at]),
                    #[trigger] dd@[k],
                ),
    {
        let v: T = take(dd[at + i], signal[i], estimate[i]);
        dd.set(at + i, v);
    }
}

} // verus!
