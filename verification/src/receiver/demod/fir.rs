//! Finite impulse response filters over samples of any type: which tap meets which sample, and in
//! which order the products are added. The multiply-add itself is the caller's.
use crate::receiver::sink::least;
use vstd::prelude::*;

verus! {

/// The step from the `k`-th accumulator to the next one.
pub open spec fn mac_step<T, F: Fn(T, T, T) -> T>(
    mac: F,
    taps: Seq<T>,
    samples: Seq<T>,
    acc: Seq<T>,
    k: int,
) -> bool {
    call_ensures(mac, (acc[k], taps[k], samples[k]), acc[k + 1])
}

/// `acc` holds the accumulators of a run over taps and samples, from `zero` on: one step for each
/// tap that has a sample.
pub open spec fn mac_run<T, F: Fn(T, T, T) -> T>(
    mac: F,
    zero: T,
    taps: Seq<T>,
    samples: Seq<T>,
    acc: Seq<T>,
) -> bool {
    &&& acc.len() == least(taps.len() as int, samples.len() as int) + 1
    &&& acc[0] == zero
    &&& forall|k: int| 0 <= k < acc.len() - 1 ==> #[trigger] mac_step(mac, taps, samples, acc, k)
}

/// `out` is what `mac` gives when it takes in, one after another, the first tap with the first
/// sample, the second with the second, and so on.
pub open spec fn weighted<T, F: Fn(T, T, T) -> T>(
    mac: F,
    zero: T,
    taps: Seq<T>,
    samples: Seq<T>,
    out: T,
) -> bool {
    exists|acc: Seq<T>| #[trigger] mac_run(mac, zero, taps, samples, acc) && acc.last() == out
}

/// The sum of the products of taps and samples.
pub open spec fn dot(taps: Seq<int>, samples: Seq<int>) -> int
    decreases taps.len(),
{
    if taps.len() == 0 || samples.len() == 0 {
        0
    } else {
        taps[0] * samples[0] + dot(taps.skip(1), samples.skip(1))
    }
}

/// Numbers as integers.
pub open spec fn integers(s: Seq<i64>) -> Seq<int> {
    s.map_values(|v: i64| v as int)
}

pub(crate) proof fn lemma_dot_step(taps: Seq<int>, samples: Seq<int>, n: int)
    requires
        0 <= n < taps.len(),
        n < samples.len(),
    ensures
        dot(taps.take(n + 1), samples.take(n + 1)) == dot(taps.take(n), samples.take(n)) + taps[n]
            * samples[n],
    decreases n,
{
    let a = taps.take(n + 1);
    let b = samples.take(n + 1);
    if n == 0 {
        assert(dot(a.skip(1), b.skip(1)) == 0);
        assert(dot(taps.take(0), samples.take(0)) == 0);
    } else {
        lemma_dot_step(taps.skip(1), samples.skip(1), n - 1);
        assert(a.skip(1) =~= taps.skip(1).take(n));
        assert(b.skip(1) =~= samples.skip(1).take(n));
        assert(taps.take(n).skip(1) =~= taps.skip(1).take(n - 1));
        assert(samples.take(n).skip(1) =~= samples.skip(1).take(n - 1));
        assert(dot(a, b) == a[0] * b[0] + dot(a.skip(1), b.skip(1)));
        assert(dot(taps.take(n), samples.take(n)) == taps[0] * samples[0] + dot(
            taps.take(n).skip(1),
            samples.take(n).skip(1),
        ));
    }
}

/// Where the multiply-add is exact, the weighted result is the sum of the products.
pub proof fn law_weighted_is_dot<F: Fn(i64, i64, i64) -> i64>(
    mac: F,
    taps: Seq<i64>,
    samples: Seq<i64>,
    out: i64,
)
    requires
        weighted(mac, 0i64, taps, samples, out),
        forall|a: i64, h: i64, x: i64, r: i64|
            #[trigger] call_ensures(mac, (a, h, x), r) ==> r == a + h * x,
    ensures
        out == dot(integers(taps), integers(samples)),
{
    let acc = choose|acc: Seq<i64>| #[trigger]
        mac_run(mac, 0i64, taps, samples, acc) && acc.last() == out;
    let n = acc.len() - 1;
    let h = integers(taps);
    let x = integers(samples);
    lemma_run_sums(mac, taps, samples, acc, n);
    assert(dot(h.take(n), x.take(n)) == dot(h, x)) by {
        lemma_dot_common(h, x);
    }
}

proof fn lemma_run_sums<F: Fn(i64, i64, i64) -> i64>(
    mac: F,
    taps: Seq<i64>,
    samples: Seq<i64>,
    acc: Seq<i64>,
    n: int,
)
    requires
        mac_run(mac, 0i64, taps, samples, acc),
        0 <= n < acc.len(),
        forall|a: i64, h: i64, x: i64, r: i64|
            #[trigger] call_ensures(mac, (a, h, x), r) ==> r == a + h * x,
    ensures
        acc[n] == dot(integers(taps).take(n), integers(samples).take(n)),
    decreases n,
{
    if n > 0 {
        lemma_run_sums(mac, taps, samples, acc, n - 1);
        assert(mac_step(mac, taps, samples, acc, n - 1));
        lemma_dot_step(integers(taps), integers(samples), n - 1);
    }
}

pub(crate) proof fn lemma_dot_common(h: Seq<int>, x: Seq<int>)
    ensures
        dot(h, x) == dot(
            h.take(least(h.len() as int, x.len() as int)),
            x.take(least(h.len() as int, x.len() as int)),
        ),
    decreases h.len(),
{
    let n = least(h.len() as int, x.len() as int);
    if n > 0 {
        lemma_dot_common(h.skip(1), x.skip(1));
        assert(h.take(n).skip(1) =~= h.skip(1).take(n - 1));
        assert(x.take(n).skip(1) =~= x.skip(1).take(n - 1));
    }
}

/// How many taps a filter gets that was asked for with `n`: at least 17, and an odd number, so
/// that the middle one is the centre of the response.
pub open spec fn odd_taps(n: int) -> int {
    if n < 17 {
        17
    } else if n % 2 == 0 {
        n + 1
    } else {
        n
    }
}

/// The number of taps of a filter asked for with `n`.
pub fn odd_tap_count(n: usize) -> (r: usize)
    requires
        n < usize::MAX,
    ensures
        r == odd_taps(n as int),
        r % 2 == 1,
{
    let at_least: usize = if n < 17 {
        17
    } else {
        n
    };
    if at_least % 2 == 0 {
        at_least + 1
    } else {
        at_least
    }
}

/// The samples of a history up to index `idx`, the newest first.
pub open spec fn backwards<T>(history: Seq<T>, idx: int) -> Seq<T> {
    Seq::new((idx + 1) as nat, |k: int| history[idx - k])
}

/// The convolution of `taps` with a history at index `idx`: tap `j` meets the sample `j` before
/// it. What lies before the first sample counts as nothing, and so does what lies behind the last
/// one, whose taps are passed over.
pub open spec fn convolved<T, F: Fn(T, T, T) -> T>(
    mac: F,
    zero: T,
    taps: Seq<T>,
    history: Seq<T>,
    idx: int,
    out: T,
) -> bool {
    if history.len() == 0 {
        out == zero
    } else if idx < history.len() {
        weighted(mac, zero, taps, backwards(history, idx), out)
    } else if idx - history.len() + 1 >= taps.len() {
        out == zero
    } else {
        weighted(
            mac,
            zero,
            taps.skip(idx - history.len() + 1),
            backwards(history, history.len() - 1),
            out,
        )
    }
}

/// Convolves `taps` with a history at index `idx`.
pub fn apply<T: Copy, F: Fn(T, T, T) -> T>(
    taps: &[T],
    history: &[T],
    idx: usize,
    zero: T,
    mac: F,
) -> (r: T)
    requires
        forall|a: T, h: T, x: T| #[trigger] call_requires(mac, (a, h, x)),
    ensures
        convolved(mac, zero, taps@, history@, idx as int, r),
{
    if history.len() == 0 {
        return zero;
    }
    let newest: usize = if idx < history.len() {
        idx
    } else {
        history.len() - 1
    };
    let passed: usize = idx - newest;
    if passed >= taps.len() {
        proof {
            let samples = backwards(history@, newest as int);
            if passed == 0 {
                assert(mac_run(mac, zero, taps@, samples, seq![zero]));
            }
        }
        return zero;
    }
    let ghost rest = taps@.skip(passed as int);
    let ghost samples = backwards(history@, newest as int);
    let ghost mut accs: Seq<T> = seq![zero];
    let mut acc: T = zero;
    let mut k: usize = 0;
    while k < taps.len() - passed && k <= newest
        invariant
            passed <= taps.len(),
            newest < history.len(),
            k <= taps.len() - passed,
            k <= newest + 1,
            rest == taps@.skip(passed as int),
            samples == backwards(history@, newest as int),
            accs.len() == k + 1,
            accs[0] == zero,
            accs.last() == acc,
            forall|a: T, h: T, x: T| #[trigger] call_requires(mac, (a, h, x)),
            forall|i: int| 0 <= i < k ==> #[trigger] mac_step(mac, rest, samples, accs, i),
        decreases taps.len() - k,
    {
        let next: T = mac(acc, taps[passed + k], history[newest - k]);
        proof {
            let was = accs;
            accs = accs.push(next);
            assert forall|i: int| 0 <= i < k + 1 implies #[trigger] mac_step(
                mac,
                rest,
                samples,
                accs,
                i,
            ) by {
                if i < k {
                    assert(mac_step(mac, rest, samples, was, i));
                }
            }
        }
        acc = next;
        k += 1;
    }
    assert(mac_run(mac, zero, rest, samples, accs));
    assert(taps@.skip(0) =~= taps@);
    acc
}

/// A filter gets the least odd number of taps that is no less than what was asked for, and than 17.
pub proof fn law_odd_taps(n: int, k: int)
    requires
        k % 2 == 1,
    ensures
        odd_taps(n) % 2 == 1,
        odd_taps(n) >= n,
        odd_taps(n) >= 17,
        k >= n && k >= 17 ==> odd_taps(n) <= k,
{
}

} // verus!
