//! A filter that takes its samples one at a time.
use crate::receiver::demod::fir::{backwards, convolved, mac_run, mac_step, weighted};
use crate::receiver::sink::least;
use vstd::prelude::*;

verus! {

/// What a streaming filter holds: its taps, the latest samples with the newest first, and the
/// result of the latest step.
#[verifier::ext_equal]
pub ghost struct FirView<T> {
    pub taps: Seq<T>,
    pub recent: Seq<T>,
    pub last: T,
}

/// A streaming filter over a ring of the samples that its taps reach.
#[derive(Debug, Clone)]
pub struct FirState<T> {
    taps: Vec<T>,
    hist: Vec<T>,
    next: usize,
    filled: usize,
    zero: T,
    last: T,
}

/// The latest samples once `x` has come: as many as there are taps, and no more.
pub open spec fn with_newest<T>(recent: Seq<T>, x: T, taps: int) -> Seq<T> {
    (seq![x] + recent).take(least(taps, recent.len() + 1int))
}

impl<T: Copy> FirState<T> {
    /// The place in the ring of the sample `k` steps before the newest.
    spec fn place(&self, k: int) -> int {
        if self.next - 1 - k >= 0 {
            self.next - 1 - k
        } else {
            self.next - 1 - k + self.hist@.len()
        }
    }

    /// What the filter holds.
    pub closed spec fn state(&self) -> FirView<T> {
        FirView {
            taps: self.taps@,
            recent: Seq::new(self.filled as nat, |k: int| self.hist@[self.place(k)]),
            last: self.last,
        }
    }

    /// The result before the first sample.
    pub closed spec fn silence(&self) -> T {
        self.zero
    }

    /// The ring has a place for each tap.
    pub closed spec fn wf(&self) -> bool {
        &&& self.hist@.len() == self.taps@.len()
        &&& self.filled <= self.taps@.len()
        &&& self.taps@.len() > 0 ==> self.next < self.taps@.len()
        &&& self.filled < self.taps@.len() ==> self.next == self.filled
    }

    /// A filter with these taps that has heard nothing; `zero` is its result until then.
    pub fn new_taps(taps: &[T], zero: T) -> (r: FirState<T>)
        ensures
            r.wf(),
            r.silence() == zero,
            r.state() == (FirView { taps: taps@, recent: Seq::empty(), last: zero }),
    {
        let mut own: Vec<T> = Vec::new();
        let mut hist: Vec<T> = Vec::new();
        for i in 0..taps.len()
            invariant
                own@ == taps@.take(i as int),
                hist@.len() == i,
        {
            own.push(taps[i]);
            hist.push(zero);
            assert(own@ =~= taps@.take(i + 1));
        }
        assert(own@ =~= taps@);
        let r: FirState<T> = FirState { taps: own, hist, next: 0, filled: 0, zero, last: zero };
        assert(r.state() =~= (FirView { taps: taps@, recent: Seq::empty(), last: zero }));
        r
    }

    /// Gives the filter new taps; it starts anew, as one that was just made.
    pub fn retap(&mut self, taps: &[T])
        ensures
            final(self).wf(),
            final(self).silence() == old(self).silence(),
            final(self).state() == (FirView {
                taps: taps@,
                recent: Seq::empty(),
                last: old(self).silence(),
            }),
    {
        let zero: T = self.zero;
        *self = FirState::new_taps(taps, zero);
    }

    /// The taps.
    pub fn taps(&self) -> (r: &[T])
        ensures
            r@ == self.state().taps,
    {
        self.taps.as_slice()
    }

    /// The number of taps.
    pub fn len(&self) -> (r: usize)
        ensures
            r == self.state().taps.len(),
    {
        self.taps.len()
    }

    /// Whether there are no taps.
    pub fn is_empty(&self) -> (r: bool)
        ensures
            r == (self.state().taps.len() == 0),
    {
        self.taps.len() == 0
    }

    /// The result of the latest step.
    pub fn last_out(&self) -> (r: T)
        ensures
            r == self.state().last,
    {
        self.last
    }

    /// Takes a sample in and returns the convolution at it: the first tap meets `x`, each further
    /// tap the sample one step earlier, as far back as samples have come. A filter without taps
    /// keeps nothing and returns silence.
    pub fn convolve<F: Fn(T, T, T) -> T>(&mut self, x: T, mac: F) -> (r: T)
        requires
            old(self).wf(),
            forall|a: T, h: T, s: T| #[trigger] call_requires(mac, (a, h, s)),
        ensures
            final(self).wf(),
            final(self).silence() == old(self).silence(),
            old(self).state().taps.len() == 0 ==> r == old(self).silence() && final(self).state()
                == old(self).state(),
            old(self).state().taps.len() > 0 ==> final(self).state() == (FirView {
                taps: old(self).state().taps,
                recent: with_newest(
                    old(self).state().recent,
                    x,
                    old(self).state().taps.len() as int,
                ),
                last: r,
            }) && weighted(
                mac,
                old(self).silence(),
                old(self).state().taps,
                final(self).state().recent,
                r,
            ),
    {
        let t: usize = self.taps.len();
        if t == 0 {
            return self.zero;
        }
        let pos: usize = self.next;
        self.hist[pos] = x;
        self.next = if pos + 1 == t {
            0
        } else {
            pos + 1
        };
        if self.filled < t {
            self.filled += 1;
        }
        let ghost recent = self.state().recent;
        assert(recent =~= with_newest(old(self).state().recent, x, t as int)) by {
            let was = old(self).state().recent;
            assert forall|k: int| 0 <= k < recent.len() implies recent[k] == with_newest(
                was,
                x,
                t as int,
            )[k] by {
                if k > 0 {
                    assert(self.place(k) == old(self).place(k - 1));
                }
            }
        }
        let ghost mut accs: Seq<T> = seq![self.zero];
        let mut acc: T = self.zero;
        for k in 0..self.filled
            invariant
                t == self.taps@.len(),
                self.wf(),
                self.filled >= 1,
                pos < t,
                self.next == pos + 1 || self.next == 0 && pos + 1 == t,
                recent == self.state().recent,
                accs.len() == k + 1,
                accs[0] == self.zero,
                accs.last() == acc,
                forall|a: T, h: T, s: T| #[trigger] call_requires(mac, (a, h, s)),
                forall|i: int| 0 <= i < k ==> #[trigger] mac_step(mac, self.taps@, recent, accs, i),
        {
            let at: usize = if pos >= k {
                pos - k
            } else {
                t - (k - pos)
            };
            assert(recent[k as int] == self.hist@[at as int]) by {
                assert(self.place(k as int) == at);
            }
            let sum: T = mac(acc, self.taps[k], self.hist[at]);
            proof {
                let was = accs;
                accs = accs.push(sum);
                assert forall|i: int| 0 <= i < k + 1 implies #[trigger] mac_step(
                    mac,
                    self.taps@,
                    recent,
                    accs,
                    i,
                ) by {
                    if i < k {
                        assert(mac_step(mac, self.taps@, recent, was, i));
                    }
                }
            }
            acc = sum;
        }
        assert(mac_run(mac, self.zero, self.taps@, recent, accs));
        self.last = acc;
        assert(self.state().recent =~= recent);
        acc
    }
}

/// The samples that a filter with `taps` taps keeps of a stream, the newest first.
pub open spec fn reach<T>(heard: Seq<T>, taps: int) -> Seq<T> {
    backwards(heard, heard.len() - 1).take(least(taps, heard.len() as int))
}

/// A filter keeps of a stream what its taps reach: one more sample moves the reach on by one.
pub proof fn law_reach_follows<T>(heard: Seq<T>, x: T, taps: int)
    requires
        taps >= 1,
    ensures
        reach(Seq::<T>::empty(), taps) == Seq::<T>::empty(),
        with_newest(reach(heard, taps), x, taps) == reach(heard.push(x), taps),
{
    assert(reach(Seq::<T>::empty(), taps) =~= Seq::<T>::empty());
    assert(with_newest(reach(heard, taps), x, taps) =~= reach(heard.push(x), taps));
}

/// The step of a streaming filter is the convolution with all that it has heard.
pub proof fn law_streaming_is_convolution<T, F: Fn(T, T, T) -> T>(
    mac: F,
    zero: T,
    taps: Seq<T>,
    heard: Seq<T>,
    out: T,
)
    requires
        heard.len() > 0,
    ensures
        weighted(mac, zero, taps, reach(heard, taps.len() as int), out) <==> convolved(
            mac,
            zero,
            taps,
            heard,
            heard.len() - 1,
            out,
        ),
{
    let near = reach(heard, taps.len() as int);
    let all = backwards(heard, heard.len() - 1);
    assert forall|acc: Seq<T>| mac_run(mac, zero, taps, near, acc) <==> mac_run(
        mac,
        zero,
        taps,
        all,
        acc,
    ) by {
        if acc.len() == least(taps.len() as int, all.len() as int) + 1 {
            if mac_run(mac, zero, taps, near, acc) {
                assert forall|k: int| 0 <= k < acc.len() - 1 implies #[trigger] mac_step(
                    mac,
                    taps,
                    all,
                    acc,
                    k,
                ) by {
                    assert(mac_step(mac, taps, near, acc, k));
                }
            }
            if mac_run(mac, zero, taps, all, acc) {
                assert forall|k: int| 0 <= k < acc.len() - 1 implies #[trigger] mac_step(
                    mac,
                    taps,
                    near,
                    acc,
                    k,
                ) by {
                    assert(mac_step(mac, taps, all, acc, k));
                }
            }
        }
    }
    if weighted(mac, zero, taps, near, out) {
        let acc = choose|acc: Seq<T>| #[trigger]
            mac_run(mac, zero, taps, near, acc) && acc.last() == out;
        assert(mac_run(mac, zero, taps, all, acc));
    }
    if weighted(mac, zero, taps, all, out) {
        let acc = choose|acc: Seq<T>| #[trigger]
            mac_run(mac, zero, taps, all, acc) && acc.last() == out;
        assert(mac_run(mac, zero, taps, near, acc));
    }
}

/// A line that hands each sample out again a fixed number of steps later.
#[derive(Debug, Clone)]
pub struct DelayLine<T> {
    line: Vec<T>,
    at: usize,
}

impl<T: Copy> View for DelayLine<T> {
    type V = Seq<T>;

    /// The samples still to come out, in their order.
    closed spec fn view(&self) -> Seq<T> {
        self.line@.skip(self.at as int) + self.line@.take(self.at as int)
    }
}

impl<T: Copy> DelayLine<T> {
    /// The reading place lies in the line.
    pub closed spec fn wf(&self) -> bool {
        self.at < self.line@.len()
    }

    /// A line of `steps` steps, or of one, that holds `zero` throughout.
    pub fn new(steps: usize, zero: T) -> (r: DelayLine<T>)
        ensures
            r.wf(),
            r@ == Seq::new((if steps == 0 { 1 } else { steps as nat }), |i: int| zero),
    {
        let n: usize = if steps == 0 {
            1
        } else {
            steps
        };
        let mut line: Vec<T> = Vec::new();
        for i in 0..n
            invariant
                line@ == Seq::new(i as nat, |k: int| zero),
        {
            line.push(zero);
            assert(line@ =~= Seq::new((i + 1) as nat, |k: int| zero));
        }
        let r: DelayLine<T> = DelayLine { line, at: 0 };
        assert(r@ =~= Seq::new(n as nat, |i: int| zero));
        r
    }

    /// Puts a sample in and takes the oldest one out.
    pub fn step(&mut self, x: T) -> (r: T)
        requires
            old(self).wf(),
        ensures
            final(self).wf(),
            r == old(self)@[0],
            final(self)@ == old(self)@.skip(1).push(x),
    {
        let at: usize = self.at;
        let r: T = self.line[at];
        self.line[at] = x;
        let steps: usize = self.line.len();
        self.at = if at + 1 == steps {
            0
        } else {
            at + 1
        };
        assert(self@ =~= old(self)@.skip(1).push(x));
        r
    }
}

} // verus!
