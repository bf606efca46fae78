//! A decimating low-pass filter in phases: one short filter for each place in a group of samples.
use crate::fold::{fold, folded, law_folded_is_total, total};
use crate::receiver::demod::fir::{
    backwards, convolved, dot, integers, law_weighted_is_dot, lemma_dot_common, lemma_dot_step, weighted,
};
use crate::receiver::demod::fir_state::{law_reach_follows, reach, with_newest, FirState, FirView};
use crate::receiver::sink::least;
use vstd::prelude::*;

verus! {

/// How many of the indices `p`, `p + m`, `p + 2 m` and so on lie below `n`.
pub open spec fn phase_len(n: int, m: int, p: int) -> int {
    if p < n {
        (n - p + m - 1) / m
    } else {
        0
    }
}

/// Every `m`-th element, from element `p` on.
pub open spec fn strided<T>(h: Seq<T>, m: int, p: int) -> Seq<T> {
    Seq::new(phase_len(h.len() as int, m, p) as nat, |j: int| h[p + j * m])
}

/// What a decimator holds: a filter for each phase, and the place in the current group.
#[verifier::ext_equal]
pub ghost struct DecimatorView<T> {
    pub branches: Seq<FirView<T>>,
    pub pos: int,
}

/// A decimator with the response `h` that has heard nothing.
pub open spec fn fresh<T>(h: Seq<T>, m: int, zero: T) -> DecimatorView<T> {
    DecimatorView {
        branches: Seq::new(
            m as nat,
            |p: int| FirView { taps: strided(h, m, p), recent: Seq::empty(), last: zero },
        ),
        pos: 0,
    }
}

/// The results of the branches, in their order.
pub open spec fn results<T>(branches: Seq<FirView<T>>) -> Seq<T> {
    Seq::new(branches.len(), |p: int| branches[p].last)
}

/// The branch that the next sample goes to.
pub open spec fn fed_branch<T>(d: DecimatorView<T>) -> int {
    d.branches.len() - 1 - d.pos
}

/// A decimator over samples of any type; the arithmetic is the caller's.
#[derive(Debug, Clone)]
pub struct PolyphaseDecimator<T> {
    branches: Vec<FirState<T>>,
    pos: usize,
    zero: T,
}

impl<T: Copy> PolyphaseDecimator<T> {
    /// What the decimator holds.
    pub closed spec fn state(&self) -> DecimatorView<T> {
        DecimatorView {
            branches: Seq::new(self.branches@.len(), |p: int| self.branches@[p].state()),
            pos: self.pos as int,
        }
    }

    /// The result of a branch that has heard nothing.
    pub closed spec fn silence(&self) -> T {
        self.zero
    }

    /// There is a branch, the place lies in the group, and the branches are in order.
    pub closed spec fn wf(&self) -> bool {
        &&& self.pos < self.branches@.len()
        &&& forall|p: int| 0 <= p < self.branches@.len() ==> #[trigger] self.branches@[p].wf()
        &&& forall|p: int|
            0 <= p < self.branches@.len() ==> #[trigger] self.branches@[p].silence() == self.zero
    }

    /// A decimator by `m` with the response `h` at the full rate.
    pub fn new(h: &[T], m: usize, zero: T) -> (r: PolyphaseDecimator<T>)
        requires
            h@.len() > 0,
            m >= 1,
        ensures
            r.wf(),
            r.silence() == zero,
            r.state() == fresh(h@, m as int, zero),
    {
        let mut branches: Vec<FirState<T>> = Vec::new();
        for p in 0..m
            invariant
                m >= 1,
                branches@.len() == p,
                forall|q: int| 0 <= q < p ==> #[trigger] branches@[q].wf(),
                forall|q: int| 0 <= q < p ==> #[trigger] branches@[q].silence() == zero,
                forall|q: int|
                    0 <= q < p ==> #[trigger] branches@[q].state() == (FirView {
                        taps: strided(h@, m as int, q),
                        recent: Seq::empty(),
                        last: zero,
                    }),
        {
            let taps: Vec<T> = every_mth(h, m, p);
            let branch: FirState<T> = FirState::new_taps(taps.as_slice(), zero);
            branches.push(branch);
        }
        let r: PolyphaseDecimator<T> = PolyphaseDecimator { branches, pos: 0, zero };
        assert(r.state() =~= fresh(h@, m as int, zero));
        r
    }

    /// Gives the decimator a new response; it starts anew, as one that was just made.
    pub fn retap(&mut self, h: &[T], m: usize)
        requires
            h@.len() > 0,
            m >= 1,
        ensures
            final(self).wf(),
            final(self).silence() == old(self).silence(),
            final(self).state() == fresh(h@, m as int, old(self).silence()),
    {
        let zero: T = self.zero;
        *self = PolyphaseDecimator::new(h, m, zero);
    }

    /// The factor by which the rate falls.
    pub fn decimation(&self) -> (r: usize)
        ensures
            r == self.state().branches.len(),
    {
        self.branches.len()
    }

    /// The taps of branch `p`.
    pub fn branch_taps(&self, p: usize) -> (r: &[T])
        requires
            p < self.state().branches.len(),
        ensures
            r@ == self.state().branches[p as int].taps,
    {
        self.branches[p].taps()
    }

    /// Takes a sample in. The samples of a group go to the branches from the last to the first,
    /// and the sample that completes the group brings the sum over all branches.
    pub fn push<F: Fn(T, T, T) -> T, G: Fn(T, T) -> T>(&mut self, x: T, mac: F, sum: G) -> (r:
        Option<T>)
        requires
            old(self).wf(),
            forall|a: T, h: T, s: T| #[trigger] call_requires(mac, (a, h, s)),
            forall|a: T, b: T| #[trigger] call_requires(sum, (a, b)),
        ensures
            final(self).wf(),
            final(self).silence() == old(self).silence(),
            took(old(self).state(), x, final(self).state()),
            took_by(mac, old(self).silence(), old(self).state(), final(self).state()),
            (r is Some) == (old(self).state().pos + 1 == old(self).state().branches.len()),
            r is Some ==> folded(
                sum,
                old(self).silence(),
                results(final(self).state().branches),
                r->0,
            ),
    {
        let m: usize = self.branches.len();
        let p: usize = m - 1 - self.pos;
        assert(self.branches@[p as int].wf());
        self.branches[p].convolve(x, mac);
        assert forall|q: int| 0 <= q < m implies (#[trigger] self.branches@[q]).wf()
            && self.branches@[q].silence() == self.zero by {
            assert(old(self).branches@[q].wf());
            assert(old(self).branches@[q].silence() == old(self).zero);
        }
        self.pos += 1;
        if self.pos == m {
            self.pos = 0;
            let mut outs: Vec<T> = Vec::new();
            let ghost all = results(self.state().branches);
            for k in 0..m
                invariant
                    m == self.branches@.len(),
                    all == results(self.state().branches),
                    outs@ == all.take(k as int),
            {
                outs.push(self.branches[k].last_out());
                assert(outs@ =~= all.take(k + 1));
            }
            assert(outs@ =~= all);
            let y: T = fold(outs.as_slice(), self.zero, &sum);
            Some(y)
        } else {
            None
        }
    }
}

/// Every `m`-th tap from tap `p` on.
fn every_mth<T: Copy>(h: &[T], m: usize, p: usize) -> (r: Vec<T>)
    requires
        m >= 1,
        p < m,
    ensures
        r@ == strided(h@, m as int, p as int),
{
    let mut taps: Vec<T> = Vec::new();
    let mut j: usize = p;
    let n: usize = h.len();
    let mut done: bool = j >= n;
    while !done
        invariant
            m >= 1,
            p < m,
            n == h@.len(),
            done || j < n,
            done ==> p + taps@.len() * m >= n,
            !done ==> j == p + taps@.len() * m,
            taps@.len() > 0 ==> p + (taps@.len() - 1) * m < n,
            forall|i: int| 0 <= i < taps@.len() ==> #[trigger] taps@[i] == h@[p + i * m],
        decreases (if done { 0 } else { n - j }), (if done { 0int } else { 1 }),
    {
        taps.push(h[j]);
        assert((taps@.len() - 1) * m + m == taps@.len() * m) by (nonlinear_arith);
        if n - j > m {
            j += m;
        } else {
            done = true;
        }
    }
    proof {
        let k = taps@.len() as int;
        let len = phase_len(n as int, m as int, p as int);
        if p < n {
            let q = n - p + m - 1;
            assert(k > 0) by {
                if k == 0 {
                    assert(p + 0 * m >= n) by (nonlinear_arith)
                        requires
                            p + k * m >= n,
                            k == 0,
                    ;
                }
            }
            assert((k - 1) * m == k * m - m) by (nonlinear_arith);
            vstd::arithmetic::div_mod::lemma_fundamental_div_mod_converse(
                q,
                m as int,
                k,
                q - k * m,
            );
        } else if k > 0 {
            assert((k - 1) * m >= 0) by (nonlinear_arith)
                requires
                    k > 0,
                    m >= 1,
            ;
        }
        assert(taps@ =~= strided(h@, m as int, p as int));
    }
    taps
}

/// What a sample does to a decimator: the branch whose turn it is hears it, the others stay as
/// they were, and the place moves on.
pub open spec fn took<T>(before: DecimatorView<T>, x: T, after: DecimatorView<T>) -> bool {
    let p = fed_branch(before);
    let was = before.branches[p];
    let is = after.branches[p];
    &&& after.branches.len() == before.branches.len()
    &&& after.pos == (if before.pos + 1 == before.branches.len() {
        0
    } else {
        before.pos + 1
    })
    &&& forall|q: int|
        0 <= q < before.branches.len() && q != p ==> #[trigger] after.branches[q]
            == before.branches[q]
    &&& is.taps == was.taps
    &&& is.recent == if was.taps.len() == 0 {
        was.recent
    } else {
        with_newest(was.recent, x, was.taps.len() as int)
    }
}

/// The branch whose turn it is filters what it has heard; one without taps keeps its result.
pub open spec fn took_by<T, F: Fn(T, T, T) -> T>(
    mac: F,
    zero: T,
    before: DecimatorView<T>,
    after: DecimatorView<T>,
) -> bool {
    let p = fed_branch(before);
    let was = before.branches[p];
    let is = after.branches[p];
    if was.taps.len() == 0 {
        is.last == was.last
    } else {
        weighted(mac, zero, is.taps, is.recent, is.last)
    }
}

/// A decimator by `m` with the response `h` that has heard the stream `xs` from its start: each
/// branch has heard the samples of one place in the groups.
pub open spec fn has_heard<T>(d: DecimatorView<T>, h: Seq<T>, m: int, xs: Seq<T>) -> bool {
    &&& d.branches.len() == m
    &&& d.pos == xs.len() as int % m
    &&& forall|p: int|
        0 <= p < m ==> (#[trigger] d.branches[p]).taps == strided(h, m, p) && d.branches[p].recent
            == reach(strided(xs, m, m - 1 - p), strided(h, m, p).len() as int)
}

proof fn lemma_strided_push<T>(xs: Seq<T>, x: T, m: int, r: int)
    requires
        0 <= r < m,
    ensures
        strided(xs.push(x), m, r) == if xs.len() as int % m == r {
            strided(xs, m, r).push(x)
        } else {
            strided(xs, m, r)
        },
{
    let n = xs.len() as int;
    let q = n / m;
    let k = n % m;
    vstd::arithmetic::div_mod::lemma_fundamental_div_mod(n, m);
    assert(m * q == q * m) by (nonlinear_arith);
    assert((q + 1) * m == q * m + m) by (nonlinear_arith);
    assert(q >= 0) by (nonlinear_arith)
        requires
            q * m + k == n,
            n >= 0,
            k < m,
            m > 0,
    ;
    assert(q == 0 ==> q * m == 0) by (nonlinear_arith);
    assert(q > 0 ==> q * m >= m) by (nonlinear_arith)
        requires
            m > 0,
    ;
    // The elements of rank r below n and below n + 1.
    let a = phase_len(n, m, r);
    let b = phase_len(n + 1, m, r);
    if k > r {
        vstd::arithmetic::div_mod::lemma_fundamental_div_mod_converse(
            n - r + m - 1,
            m,
            q + 1,
            k - r - 1,
        );
        vstd::arithmetic::div_mod::lemma_fundamental_div_mod_converse(n - r + m, m, q + 1, k - r);
        assert(a == b);
    } else {
        if n > r {
            vstd::arithmetic::div_mod::lemma_fundamental_div_mod_converse(
                n - r + m - 1,
                m,
                q,
                k - r + m - 1,
            );
        }
        assert(a == q);
        if k == r {
            vstd::arithmetic::div_mod::lemma_fundamental_div_mod_converse(n - r + m, m, q + 1, 0);
            assert(b == q + 1);
        } else {
            if n + 1 > r {
                vstd::arithmetic::div_mod::lemma_fundamental_div_mod_converse(
                    n - r + m,
                    m,
                    q,
                    k - r + m,
                );
            }
            assert(b == q);
        }
    }
    assert forall|j: int| 0 <= j < a implies #[trigger] strided(xs.push(x), m, r)[j] == strided(
        xs,
        m,
        r,
    )[j] by {
        lemma_stride_inside(n, m, r, j);
    }
    assert(strided(xs.push(x), m, r) =~= if k == r {
        strided(xs, m, r).push(x)
    } else {
        strided(xs, m, r)
    });
}

proof fn lemma_stride_inside(n: int, m: int, p: int, j: int)
    requires
        0 <= p < m,
        0 <= j < phase_len(n, m, p),
    ensures
        0 <= p + j * m < n,
{
    let q = n - p + m - 1;
    vstd::arithmetic::div_mod::lemma_fundamental_div_mod(q, m);
    assert(m * (q / m) == (q / m) * m) by (nonlinear_arith);
    assert(j * m + m <= (q / m) * m) by (nonlinear_arith)
        requires
            j + 1 <= q / m,
            m > 0,
    ;
    assert(j * m >= 0) by (nonlinear_arith)
        requires
            j >= 0,
            m > 0,
    ;
}

/// A decimator that was just made has heard nothing.
pub proof fn law_fresh_has_heard<T>(h: Seq<T>, m: int, zero: T)
    requires
        m >= 1,
    ensures
        has_heard(fresh(h, m, zero), h, m, Seq::empty()),
{
    let none = Seq::<T>::empty();
    vstd::arithmetic::div_mod::lemma_small_mod(0, m as nat);
    assert forall|p: int| 0 <= p < m implies (#[trigger] fresh(h, m, zero).branches[p]).recent
        == reach(strided(none, m, m - 1 - p), strided(h, m, p).len() as int) by {
        assert(reach(strided(none, m, m - 1 - p), strided(h, m, p).len() as int) =~= Seq::<
            T,
        >::empty());
    }
}

/// A decimator that has heard a stream, and takes one more sample, has heard the stream with it.
pub proof fn law_heard_grows<T>(
    before: DecimatorView<T>,
    after: DecimatorView<T>,
    h: Seq<T>,
    m: int,
    xs: Seq<T>,
    x: T,
)
    requires
        m >= 1,
        has_heard(before, h, m, xs),
        took(before, x, after),
    ensures
        has_heard(after, h, m, xs.push(x)),
{
    let n = xs.len() as int;
    vstd::arithmetic::div_mod::lemma_fundamental_div_mod(n, m);
    assert((n + 1) % m == if n % m + 1 == m {
        0
    } else {
        n % m + 1
    }) by {
        if n % m + 1 == m {
            assert(m * (n / m) + m == m * (n / m + 1)) by (nonlinear_arith);
            assert(m * (n / m + 1) == (n / m + 1) * m) by (nonlinear_arith);
            vstd::arithmetic::div_mod::lemma_fundamental_div_mod_converse(n + 1, m, n / m + 1, 0);
        } else {
            assert(m * (n / m) == (n / m) * m) by (nonlinear_arith);
            vstd::arithmetic::div_mod::lemma_fundamental_div_mod_converse(
                n + 1,
                m,
                n / m,
                n % m + 1,
            );
        }
    }
    let fed = fed_branch(before);
    assert forall|p: int| 0 <= p < m implies (#[trigger] after.branches[p]).taps == strided(
        h,
        m,
        p,
    ) && after.branches[p].recent == reach(
        strided(xs.push(x), m, m - 1 - p),
        strided(h, m, p).len() as int,
    ) by {
        let b = before.branches[p];
        lemma_strided_push(xs, x, m, m - 1 - p);
        let t = b.taps.len() as int;
        if p == fed {
            if t >= 1 {
                law_reach_follows(strided(xs, m, m - 1 - p), x, t);
            } else {
                assert(reach(strided(xs.push(x), m, m - 1 - p), 0) =~= Seq::<T>::empty());
                assert(reach(strided(xs, m, m - 1 - p), 0) =~= Seq::<T>::empty());
            }
        }
    }
}

/// The sum of the first `n` values of a function.
pub open spec fn sum_first(f: spec_fn(int) -> int, n: int) -> int
    decreases n,
{
    if n <= 0 {
        0
    } else {
        sum_first(f, n - 1) + f(n - 1)
    }
}

proof fn lemma_sum_same(f: spec_fn(int) -> int, g: spec_fn(int) -> int, n: int)
    requires
        forall|i: int| 0 <= i < n ==> #[trigger] f(i) == g(i),
    ensures
        sum_first(f, n) == sum_first(g, n),
    decreases n,
{
    if n > 0 {
        lemma_sum_same(f, g, n - 1);
    }
}

proof fn lemma_sum_plus(
    f: spec_fn(int) -> int,
    g: spec_fn(int) -> int,
    both: spec_fn(int) -> int,
    n: int,
)
    requires
        forall|i: int| 0 <= i < n ==> #[trigger] both(i) == f(i) + g(i),
    ensures
        sum_first(both, n) == sum_first(f, n) + sum_first(g, n),
    decreases n,
{
    if n > 0 {
        lemma_sum_plus(f, g, both, n - 1);
        assert(both(n - 1) == f(n - 1) + g(n - 1));
    }
}

proof fn lemma_sum_onward(f: spec_fn(int) -> int, start: int, n: int)
    requires
        start >= 0,
        n >= 0,
    ensures
        sum_first(f, start + n) == sum_first(f, start) + sum_first(|i: int| f(i + start), n),
    decreases n,
{
    if n > 0 {
        lemma_sum_onward(f, start, n - 1);
    }
}

proof fn lemma_sum_by_phase(f: spec_fn(int) -> int, m: int, k: int)
    requires
        m >= 1,
        k >= 0,
    ensures
        sum_first(|p: int| sum_first(|i: int| f(p + i * m), k), m) == sum_first(f, k * m),
    decreases k,
{
    let rows = |p: int| sum_first(|i: int| f(p + i * m), k);
    if k == 0 {
        let none = |p: int| 0int;
        lemma_sum_same(rows, none, m);
        lemma_sum_zero(none, m);
        assert(0 * m == 0);
    } else {
        lemma_sum_by_phase(f, m, k - 1);
        let less = |p: int| sum_first(|i: int| f(p + i * m), k - 1);
        let start = (k - 1) * m;
        let column = |p: int| f(p + start);
        assert forall|p: int| 0 <= p < m implies #[trigger] rows(p) == less(p) + column(p) by {
            let row = |i: int| f(p + i * m);
            assert(sum_first(row, k) == sum_first(row, k - 1) + row(k - 1));
        }
        lemma_sum_plus(less, column, rows, m);
        assert(start + m == k * m) by (nonlinear_arith)
            requires
                start == (k - 1) * m,
        ;
        assert(start >= 0) by (nonlinear_arith)
            requires
                start == (k - 1) * m,
                k >= 1,
                m >= 1,
        ;
        lemma_sum_onward(f, start, m);
        lemma_sum_same(column, |i: int| f(i + start), m);
    }
}

proof fn lemma_sum_zero(f: spec_fn(int) -> int, n: int)
    requires
        forall|i: int| 0 <= i < n ==> #[trigger] f(i) == 0,
    ensures
        sum_first(f, n) == 0,
    decreases n,
{
    if n > 0 {
        lemma_sum_zero(f, n - 1);
    }
}

proof fn lemma_dot_is_sum(a: Seq<int>, b: Seq<int>, f: spec_fn(int) -> int, n: int)
    requires
        n >= least(a.len() as int, b.len() as int),
        forall|i: int|
            0 <= i < n ==> #[trigger] f(i) == if i < a.len() && i < b.len() {
                a[i] * b[i]
            } else {
                0
            },
    ensures
        dot(a, b) == sum_first(f, n),
    decreases n,
{
    let k = least(a.len() as int, b.len() as int);
    if n > k {
        lemma_dot_is_sum(a, b, f, n - 1);
    } else {
        lemma_dot_common(a, b);
        lemma_dot_parts(a, b, f, k);
    }
}

proof fn lemma_dot_parts(a: Seq<int>, b: Seq<int>, f: spec_fn(int) -> int, n: int)
    requires
        0 <= n <= a.len(),
        n <= b.len(),
        forall|i: int| 0 <= i < n ==> #[trigger] f(i) == a[i] * b[i],
    ensures
        dot(a.take(n), b.take(n)) == sum_first(f, n),
    decreases n,
{
    if n > 0 {
        lemma_dot_parts(a, b, f, n - 1);
        lemma_dot_step(a, b, n - 1);
    }
}

/// A sample of a stream; nothing before its first and behind its last one.
pub open spec fn sample_or_nothing(xs: Seq<i64>, i: int) -> int {
    if 0 <= i < xs.len() {
        xs[i] as int
    } else {
        0
    }
}

/// In exact arithmetic a convolution at a place is the sum, over all taps, of the tap times the
/// sample as many places before as the tap stands behind the first.
pub proof fn law_convolution_is_sum<F: Fn(i64, i64, i64) -> i64>(
    mac: F,
    taps: Seq<i64>,
    xs: Seq<i64>,
    idx: int,
    out: i64,
)
    requires
        0 <= idx,
        convolved(mac, 0i64, taps, xs, idx, out),
        forall|a: i64, h: i64, x: i64, r: i64|
            #[trigger] call_ensures(mac, (a, h, x), r) ==> r == a + h * x,
    ensures
        out == sum_first(|j: int| taps[j] * sample_or_nothing(xs, idx - j), taps.len() as int),
{
    let term = |j: int| taps[j] * sample_or_nothing(xs, idx - j);
    let n = taps.len() as int;
    let h = integers(taps);
    if xs.len() == 0 {
        assert forall|j: int| 0 <= j < n implies #[trigger] term(j) == 0 by {}
        lemma_sum_zero(term, n);
    } else if idx < xs.len() {
        let back = backwards(xs, idx);
        law_weighted_is_dot(mac, taps, back, out);
        assert forall|j: int| 0 <= j < n implies #[trigger] term(j) == if j < h.len() && j
            < integers(back).len() {
            h[j] * integers(back)[j]
        } else {
            0
        } by {}
        if n >= least(n, back.len() as int) {
            lemma_dot_is_sum(h, integers(back), term, n);
        }
    } else {
        let passed = idx - xs.len() + 1;
        if passed >= n {
            assert forall|j: int| 0 <= j < n implies #[trigger] term(j) == 0 by {}
            lemma_sum_zero(term, n);
        } else {
            let rest = taps.skip(passed);
            let back = backwards(xs, xs.len() - 1);
            let later = |j: int| term(j + passed);
            law_weighted_is_dot(mac, rest, back, out);
            assert forall|j: int| 0 <= j < n - passed implies #[trigger] later(j) == if j
                < integers(rest).len() && j < integers(back).len() {
                integers(rest)[j] * integers(back)[j]
            } else {
                0
            } by {}
            lemma_dot_is_sum(integers(rest), integers(back), later, n - passed);
            lemma_sum_onward(term, passed, n - passed);
            assert forall|j: int| 0 <= j < passed implies #[trigger] term(j) == 0 by {}
            lemma_sum_zero(term, passed);
            lemma_sum_same(later, |i: int| term(i + passed), n - passed);
        }
    }
}

/// The exact results of the branches, added up.
pub open spec fn exact_output(d: DecimatorView<i64>) -> int {
    sum_first(
        |p: int| dot(integers(d.branches[p].taps), integers(d.branches[p].recent)),
        d.branches.len() as int,
    )
}

/// The decimator brings what the filter at the full rate brings, at the last sample of each group
/// and from the first group on: in exact arithmetic, the sum over the branches is the convolution
/// of the response with all that was heard.
pub proof fn law_decimator_is_full_rate_filter(
    d: DecimatorView<i64>,
    h: Seq<i64>,
    m: int,
    xs: Seq<i64>,
)
    requires
        m >= 1,
        has_heard(d, h, m, xs),
        xs.len() > 0,
        xs.len() as int % m == 0,
    ensures
        exact_output(d) == dot(integers(h), integers(backwards(xs, xs.len() - 1))),
{
    let n = xs.len() - 1;
    let e = xs.len() as int / m;
    vstd::arithmetic::div_mod::lemma_fundamental_div_mod(xs.len() as int, m);
    assert(m * e == e * m) by (nonlinear_arith);
    let term = |j: int|
        if 0 <= j < h.len() && j <= n {
            h[j] * xs[n - j]
        } else {
            0
        };
    let k = h.len() as int;
    let full_h = integers(h);
    let full_x = integers(backwards(xs, n));
    assert(k * m >= k) by (nonlinear_arith)
        requires
            k >= 0,
            m >= 1,
    ;
    lemma_dot_is_sum(full_h, full_x, term, k * m);
    lemma_sum_by_phase(term, m, k);
    let branch = |p: int| dot(integers(d.branches[p].taps), integers(d.branches[p].recent));
    let rows = |p: int| sum_first(|i: int| term(p + i * m), k);
    assert forall|p: int| 0 <= p < m implies #[trigger] branch(p) == rows(p) by {
        lemma_branch_row(d, h, m, xs, p, term);
    }
    lemma_sum_same(branch, rows, m);
}

proof fn lemma_branch_row(
    d: DecimatorView<i64>,
    h: Seq<i64>,
    m: int,
    xs: Seq<i64>,
    p: int,
    term: spec_fn(int) -> int,
)
    requires
        m >= 1,
        has_heard(d, h, m, xs),
        xs.len() > 0,
        xs.len() as int % m == 0,
        0 <= p < m,
        term == (|j: int|
            if 0 <= j < h.len() && j <= xs.len() - 1 {
                h[j] * xs[xs.len() - 1 - j]
            } else {
                0
            }),
    ensures
        dot(integers(d.branches[p].taps), integers(d.branches[p].recent)) == sum_first(
            |i: int| term(p + i * m),
            h.len() as int,
        ),
{
    let n = xs.len() - 1;
    let e = xs.len() as int / m;
    let k = h.len() as int;
    vstd::arithmetic::div_mod::lemma_fundamental_div_mod(xs.len() as int, m);
    assert(m * e == e * m) by (nonlinear_arith);
    let sub = strided(xs, m, m - 1 - p);
    let b = d.branches[p];
    assert(e >= 1) by (nonlinear_arith)
        requires
            e * m == xs.len(),
            xs.len() > 0,
            m >= 1,
    ;
    assert(sub.len() == e) by {
        assert(e * m >= m) by (nonlinear_arith)
            requires
                e >= 1,
                m >= 1,
        ;
        vstd::arithmetic::div_mod::lemma_fundamental_div_mod_converse(
            xs.len() - (m - 1 - p) + m - 1,
            m,
            e,
            p,
        );
    }
    let t = strided(h, m, p).len() as int;
    let f = |i: int| term(p + i * m);
    assert(t <= k) by {
        lemma_stride_count(k, m, p);
    }
    assert forall|i: int| 0 <= i < k implies #[trigger] f(i) == if i < integers(b.taps).len() && i
        < integers(b.recent).len() {
        integers(b.taps)[i] * integers(b.recent)[i]
    } else {
        0
    } by {
        lemma_stride_edge(k, m, p, i);
        assert(p + i * m <= n <==> i < e) by (nonlinear_arith)
            requires
                0 <= p < m,
                e * m == n + 1,
        ;
        assert(i * m >= 0) by (nonlinear_arith)
            requires
                i >= 0,
                m >= 1,
        ;
        if i < t && i < e {
            assert(b.recent[i] == sub[e - 1 - i]);
            assert(m - 1 - p + (e - 1 - i) * m == n - (p + i * m)) by (nonlinear_arith)
                requires
                    e * m == n + 1,
            ;
        }
    }
    lemma_dot_is_sum(integers(b.taps), integers(b.recent), f, k);
}

proof fn lemma_stride_edge(n: int, m: int, p: int, j: int)
    requires
        0 <= p < m,
        n >= 0,
        j >= 0,
    ensures
        j < phase_len(n, m, p) <==> p + j * m < n,
{
    if j < phase_len(n, m, p) {
        lemma_stride_inside(n, m, p, j);
    }
    if p + j * m < n {
        assert(j * m >= 0) by (nonlinear_arith)
            requires
                j >= 0,
                m > 0,
        ;
        let q = n - p + m - 1;
        vstd::arithmetic::div_mod::lemma_fundamental_div_mod(q, m);
        assert(m * (q / m) == (q / m) * m) by (nonlinear_arith);
        assert(j < q / m) by (nonlinear_arith)
            requires
                j * m + m <= q,
                q < (q / m) * m + m,
                m > 0,
        ;
    }
}

proof fn lemma_stride_count(n: int, m: int, p: int)
    requires
        0 <= p < m,
        n >= 0,
    ensures
        phase_len(n, m, p) <= n,
{
    if phase_len(n, m, p) > n {
        lemma_stride_inside(n, m, p, n);
        assert(n * m >= n) by (nonlinear_arith)
            requires
                n >= 0,
                m >= 1,
        ;
    }
}

/// Each branch's result is that of its filter on what it has heard; one that has no taps, or has
/// heard nothing, is silent.
pub open spec fn results_hold<T, F: Fn(T, T, T) -> T>(
    mac: F,
    zero: T,
    d: DecimatorView<T>,
) -> bool {
    forall|p: int|
        0 <= p < d.branches.len() ==> if (#[trigger] d.branches[p]).recent.len() == 0 {
            d.branches[p].last == zero
        } else {
            weighted(mac, zero, d.branches[p].taps, d.branches[p].recent, d.branches[p].last)
        }
}

/// The results hold of a decimator that was just made, and still hold after each sample.
pub proof fn law_results_hold<T, F: Fn(T, T, T) -> T>(
    mac: F,
    zero: T,
    h: Seq<T>,
    m: int,
    xs: Seq<T>,
    before: DecimatorView<T>,
    x: T,
    after: DecimatorView<T>,
)
    requires
        m >= 1,
        has_heard(before, h, m, xs),
        results_hold(mac, zero, before),
        took(before, x, after),
        took_by(mac, zero, before, after),
    ensures
        results_hold(mac, zero, fresh(h, m, zero)),
        results_hold(mac, zero, after),
{
    vstd::arithmetic::div_mod::lemma_fundamental_div_mod(xs.len() as int, m);
    let fed = fed_branch(before);
    assert forall|p: int| 0 <= p < after.branches.len() implies if (#[trigger] after.branches[p]).recent.len()
        == 0 {
        after.branches[p].last == zero
    } else {
        weighted(
            mac,
            zero,
            after.branches[p].taps,
            after.branches[p].recent,
            after.branches[p].last,
        )
    } by {
        let was = before.branches[p];
        if p == fed && was.taps.len() > 0 {
            assert(after.branches[p].recent.len() > 0);
        }
    }
}

/// In exact arithmetic, what a decimator returns at the end of a group is the convolution of the
/// response, at the full rate, with all that was heard.
pub proof fn law_output_is_full_rate<F: Fn(i64, i64, i64) -> i64, G: Fn(i64, i64) -> i64>(
    mac: F,
    sum: G,
    d: DecimatorView<i64>,
    h: Seq<i64>,
    m: int,
    xs: Seq<i64>,
    out: i64,
)
    requires
        m >= 1,
        has_heard(d, h, m, xs),
        results_hold(mac, 0i64, d),
        xs.len() > 0,
        xs.len() as int % m == 0,
        folded(sum, 0i64, results(d.branches), out),
        forall|a: i64, t: i64, x: i64, r: i64|
            #[trigger] call_ensures(mac, (a, t, x), r) ==> r == a + t * x,
        forall|a: i64, b: i64, r: i64| #[trigger] call_ensures(sum, (a, b), r) ==> r == a + b,
    ensures
        out == dot(integers(h), integers(backwards(xs, xs.len() - 1))),
{
    let branch = |p: int| dot(integers(d.branches[p].taps), integers(d.branches[p].recent));
    assert forall|p: int| 0 <= p < m implies (#[trigger] d.branches[p]).last == branch(p) by {
        let b = d.branches[p];
        if b.recent.len() > 0 {
            law_weighted_is_dot(mac, b.taps, b.recent, b.last);
        }
    }
    law_folded_is_total(sum, results(d.branches), out);
    lemma_total_is_sum(results(d.branches), branch);
    law_decimator_is_full_rate_filter(d, h, m, xs);
}

proof fn lemma_total_is_sum(items: Seq<i64>, f: spec_fn(int) -> int)
    requires
        forall|p: int| 0 <= p < items.len() ==> #[trigger] items[p] == f(p),
    ensures
        total(items) == sum_first(f, items.len() as int),
    decreases items.len(),
{
    if items.len() > 0 {
        lemma_total_is_sum(items.drop_last(), f);
        assert(items.last() == f(items.len() - 1));
    }
}

/// The sample that completes a group is every `m`-th one, counted from the first.
pub proof fn law_every_mth_completes<T>(d: DecimatorView<T>, h: Seq<T>, m: int, xs: Seq<T>)
    requires
        m >= 1,
        has_heard(d, h, m, xs),
    ensures
        d.pos + 1 == d.branches.len() <==> (xs.len() as int + 1) % m == 0,
{
    let n = xs.len() as int;
    let q = n / m;
    vstd::arithmetic::div_mod::lemma_fundamental_div_mod(n, m);
    assert(m * q == q * m && (q + 1) * m == q * m + m) by (nonlinear_arith);
    if n % m + 1 == m {
        vstd::arithmetic::div_mod::lemma_fundamental_div_mod_converse(n + 1, m, q + 1, 0);
    } else {
        vstd::arithmetic::div_mod::lemma_fundamental_div_mod_converse(n + 1, m, q, n % m + 1);
    }
}

/// Decimators by the same factor that stand at the same place complete their groups together.
pub proof fn law_lockstep<T>(
    a: DecimatorView<T>,
    x: T,
    after_a: DecimatorView<T>,
    b: DecimatorView<T>,
    y: T,
    after_b: DecimatorView<T>,
)
    requires
        a.branches.len() == b.branches.len(),
        a.pos == b.pos,
        took(a, x, after_a),
        took(b, y, after_b),
    ensures
        (a.pos + 1 == a.branches.len()) == (b.pos + 1 == b.branches.len()),
        after_a.branches.len() == after_b.branches.len(),
        after_a.pos == after_b.pos,
{
}

} // verus!
