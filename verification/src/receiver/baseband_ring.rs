//! A bounded ring of baseband samples with any number of readers.
//!
//! One writer appends; when the ring is full the oldest samples are dropped. Readers copy samples
//! out without removing them, each from its own cursor. A cursor is the number of the next sample
//! that the reader wants, counted from the first one ever written. A reader that fell behind the
//! oldest buffered sample goes on from [`BasebandRing::base_seq`].
use crate::receiver::sink::{least, newest};
use vstd::prelude::*;

verus! {

/// The usual capacity, about 68 ms at 96 kHz.
pub const BASEBAND_RING_CAP: usize = 8_192;

/// A ring: its capacity, the number of the oldest buffered sample, and the buffered samples.
#[verifier::ext_equal]
pub struct RingState<T> {
    pub cap: int,
    pub base: int,
    pub samples: Seq<T>,
}

impl<T> RingState<T> {
    /// The number behind the newest sample.
    pub open spec fn head(self) -> int {
        self.base + self.samples.len()
    }

    /// The ring after samples were appended: the newest ones, and every dropped one counted.
    pub open spec fn pushed(self, more: Seq<T>) -> RingState<T> {
        let all = self.samples + more;
        RingState {
            cap: self.cap,
            base: self.base + (all.len() - newest(all, self.cap).len()),
            samples: newest(all, self.cap),
        }
    }

    /// What a reader at `cursor` sees: at most `max` samples from there on; nothing behind the
    /// newest or before the oldest one.
    pub open spec fn seen_from(self, cursor: int, max: int) -> Seq<T> {
        if self.base <= cursor < self.head() {
            let off = cursor - self.base;
            self.samples.subrange(off, off + least(self.samples.len() - off, max))
        } else {
            Seq::empty()
        }
    }
}

/// A ring of fixed capacity that drops the oldest samples and lets readers look without removing.
#[derive(Debug)]
pub struct BasebandRing<T> {
    /// The sample with number `i` stands at place `i % cap`.
    buf: Vec<T>,
    base_seq: u64,
    count: usize,
    cap: usize,
}

impl<T> View for BasebandRing<T> {
    type V = RingState<T>;

    closed spec fn view(&self) -> RingState<T> {
        RingState {
            cap: self.cap as int,
            base: self.base_seq as int,
            samples: Seq::new(
                self.count as nat,
                |k: int| self.buf@[(self.base_seq + k) % self.cap as int],
            ),
        }
    }
}

proof fn lemma_places_differ(a: int, i: int, j: int, cap: int)
    requires
        0 <= a,
        0 <= i < j < i + cap,
    ensures
        (a + i) % cap != (a + j) % cap,
{
    if (a + i) % cap == (a + j) % cap {
        vstd::arithmetic::div_mod::lemma_fundamental_div_mod(a + i, cap);
        vstd::arithmetic::div_mod::lemma_fundamental_div_mod(a + j, cap);
        let p = (a + i) / cap;
        let q = (a + j) / cap;
        assert(cap * q - cap * p == j - i);
        assert(cap * (q - p) == j - i) by (nonlinear_arith)
            requires
                cap * q - cap * p == j - i,
        ;
        assert(false) by (nonlinear_arith)
            requires
                cap * (q - p) == j - i,
                0 < j - i < cap,
        ;
    }
}

proof fn lemma_next_place(a: int, cap: int)
    requires
        0 <= a,
        0 < cap,
    ensures
        (a + 1) % cap == (if a % cap + 1 == cap {
            0
        } else {
            a % cap + 1
        }),
{
    vstd::arithmetic::div_mod::lemma_fundamental_div_mod(a, cap);
    let q = a / cap;
    let r = a % cap;
    if r + 1 == cap {
        assert(a + 1 == cap * (q + 1)) by (nonlinear_arith)
            requires
                a == cap * q + r,
                r + 1 == cap,
        ;
        vstd::arithmetic::div_mod::lemma_fundamental_div_mod_converse(a + 1, cap, q + 1, 0);
    } else {
        vstd::arithmetic::div_mod::lemma_mod_bound(a, cap);
        assert(cap * q == q * cap) by (nonlinear_arith);
        vstd::arithmetic::div_mod::lemma_fundamental_div_mod_converse(a + 1, cap, q, r + 1);
    }
}

impl<T: Copy> BasebandRing<T> {
    /// The storage fits the capacity, and the sequence numbers fit their type.
    pub closed spec fn wf(&self) -> bool {
        &&& 0 < self.cap == self.buf@.len()
        &&& self.count <= self.cap
        &&& self.base_seq + self.count <= u64::MAX
    }

    /// The buffered samples never exceed the capacity.
    pub proof fn law_ring_bounded(&self)
        requires
            self.wf(),
        ensures
            0 < self@.cap <= usize::MAX,
            self@.samples.len() <= self@.cap,
            0 <= self@.base,
            self@.head() <= u64::MAX,
    {
    }

    /// The ring's capacity.
    pub fn capacity(&self) -> (r: usize)
        ensures
            r == self@.cap,
    {
        self.cap
    }

    /// How many samples are buffered.
    pub fn len(&self) -> (r: usize)
        ensures
            r == self@.samples.len(),
    {
        self.count
    }

    /// Whether no sample is buffered.
    pub fn is_empty(&self) -> (r: bool)
        ensures
            r == (self@.samples.len() == 0),
    {
        self.count == 0
    }

    /// Whether the next sample drops another one.
    pub fn is_full(&self) -> (r: bool)
        ensures
            r == (self@.samples.len() == self@.cap),
    {
        self.count == self.cap
    }

    /// The number of the oldest buffered sample.
    pub fn base_seq(&self) -> (r: u64)
        ensures
            r == self@.base,
    {
        self.base_seq
    }

    /// The number behind the newest buffered sample: how many were ever appended.
    pub fn head_seq(&self) -> (r: u64)
        requires
            self.wf(),
        ensures
            r == self@.head(),
    {
        self.base_seq + self.count as u64
    }

    /// Appends samples, dropping the oldest ones that do not fit. Returns how many are buffered
    /// now.
    pub fn push(&mut self, samples: &[T]) -> (r: usize)
        requires
            old(self).wf(),
            old(self)@.head() + samples@.len() <= u64::MAX,
        ensures
            final(self).wf(),
            final(self)@ == old(self)@.pushed(samples@),
            r == final(self)@.samples.len(),
    {
        let n: usize = samples.len();
        let cap: usize = self.cap;
        let keep_new: usize = if n < cap {
            n
        } else {
            cap
        };
        let keep_old: usize = if self.count < cap - keep_new {
            self.count
        } else {
            cap - keep_new
        };
        let ghost old_base = self.base_seq as int;
        let ghost old_buf = self.buf@;
        let ghost all = self@.samples + samples@;
        let ghost dropped = (self.count - keep_old) + (n - keep_new);
        self.base_seq = self.base_seq + (self.count - keep_old) as u64 + (n - keep_new) as u64;
        self.count = keep_old;
        let ghost base = self.base_seq as int;
        let first: u64 = self.base_seq + keep_old as u64;
        let mut idx: usize = (first % cap as u64) as usize;
        assert forall|k: int| 0 <= k < keep_old implies #[trigger] self.buf@[(base + k)
            % cap as int] == all[dropped + k] by {
            assert(base + k == old_base + (dropped + k));
            assert(n - keep_new > 0 ==> keep_old == 0);
        }
        for j in 0..keep_new
            invariant
                0 < cap == self.buf@.len(),
                self.cap == cap,
                self.count == keep_old,
                self.base_seq == base,
                n == samples@.len(),
                keep_new <= n,
                keep_old + keep_new <= cap,
                0 <= base,
                idx == (base + keep_old + j) % cap as int,
                dropped + keep_old + j <= all.len(),
                all.len() == dropped + keep_old + keep_new,
                forall|x: int| 0 <= x < keep_new ==> #[trigger] samples@[n - keep_new + x]
                    == all[dropped + keep_old + x],
                forall|k: int|
                    0 <= k < keep_old + j ==> #[trigger] self.buf@[(base + k) % cap as int]
                        == all[dropped + k],
        {
            let ghost before = self.buf@;
            let ghost here = keep_old + j;
            let s: T = samples[n - keep_new + j];
            assert(samples@[n - keep_new + j] == all[dropped + keep_old + j]);
            self.buf.set(idx, s);
            proof {
                assert forall|k: int| 0 <= k < here + 1 implies #[trigger] self.buf@[(base + k)
                    % cap as int] == all[dropped + k] by {
                    if k < here {
                        lemma_places_differ(base, k, here as int, cap as int);
                        assert(before[(base + k) % cap as int] == all[dropped + k]);
                    }
                }
                lemma_next_place(base + here, cap as int);
            }
            idx = if idx + 1 == cap {
                0
            } else {
                idx + 1
            };
        }
        self.count = keep_old + keep_new;
        proof {
            assert(newest(all, cap as int) =~= self@.samples);
        }
        self.count
    }

    /// Copies at most `max` samples from `cursor` on into `out`, without removing them, and returns
    /// how many. `out` is emptied first. Nothing is copied when the cursor has caught up with the
    /// newest sample, or has fallen behind the oldest one; the reader tells the two apart by
    /// [`Self::base_seq`].
    pub fn peek(&mut self, cursor: u64, out: &mut Vec<T>, max: usize) -> (r: usize)
        requires
            old(self).wf(),
        ensures
            final(self).wf(),
            final(self)@ == old(self)@,
            final(out)@ == old(self)@.seen_from(cursor as int, max as int),
            r == final(out)@.len(),
    {
        out.clear();
        if cursor < self.base_seq {
            return 0;
        }
        let off64: u64 = cursor - self.base_seq;
        if off64 >= self.count as u64 {
            return 0;
        }
        let off: usize = off64 as usize;
        let n: usize = if self.count - off < max {
            self.count - off
        } else {
            max
        };
        let ghost want = self@.samples.subrange(off as int, off + n);
        let mut idx: usize = (cursor % self.cap as u64) as usize;
        for i in 0..n
            invariant
                self.wf(),
                *self == *old(self),
                off + n <= self.count,
                cursor == self.base_seq + off,
                want == self@.samples.subrange(off as int, off + n),
                idx == (cursor + i) % self.cap as int,
                out@ == want.take(i as int),
        {
            assert(self.base_seq + (off + i) == cursor + i);
            assert(want[i as int] == self.buf@[idx as int]);
            out.push(self.buf[idx]);
            assert(want.take(i + 1) =~= want.take(i as int).push(want[i as int]));
            proof {
                lemma_next_place(cursor + i, self.cap as int);
            }
            idx = if idx + 1 == self.cap {
                0
            } else {
                idx + 1
            };
        }
        assert(want.take(n as int) =~= want);
        n
    }
}

impl<T: Copy + Default> BasebandRing<T> {
    /// An empty ring of the given capacity.
    pub fn new(cap: usize) -> (r: BasebandRing<T>)
        requires
            cap > 0,
        ensures
            r.wf(),
            r@ == (RingState { cap: cap as int, base: 0, samples: Seq::<T>::empty() }),
    {
        let mut buf: Vec<T> = Vec::new();
        for i in 0..cap
            invariant
                buf@.len() == i,
        {
            buf.push(T::default());
        }
        let r: BasebandRing<T> = BasebandRing { buf, base_seq: 0, count: 0, cap };
        assert(r@.samples =~= Seq::<T>::empty());
        r
    }

    /// An empty ring of the given capacity.
    pub fn with_capacity(cap: usize) -> (r: BasebandRing<T>)
        requires
            cap > 0,
        ensures
            r.wf(),
            r@ == (RingState { cap: cap as int, base: 0, samples: Seq::<T>::empty() }),
    {
        BasebandRing::new(cap)
    }
}

impl<T: Copy + Default> Default for BasebandRing<T> {
    fn default() -> (r: BasebandRing<T>)
        ensures
            r.wf(),
            r@ == (RingState {
                cap: BASEBAND_RING_CAP as int,
                base: 0,
                samples: Seq::<T>::empty(),
            }),
    {
        BasebandRing::with_capacity(BASEBAND_RING_CAP)
    }
}

/// The number behind the newest sample counts every sample that was ever appended, and a ring
/// holds the newest of them.
pub proof fn law_ring_counts<T>(r: RingState<T>, more: Seq<T>)
    requires
        r.samples.len() <= r.cap,
    ensures
        r.pushed(more).head() == r.head() + more.len(),
        r.pushed(more).samples.len() == least((r.samples.len() + more.len()) as int, r.cap),
{
}

/// Appending twice is appending both runs at once.
pub proof fn law_ring_blocks<T>(r: RingState<T>, a: Seq<T>, b: Seq<T>)
    requires
        0 <= r.cap,
        r.samples.len() <= r.cap,
    ensures
        r.pushed(a).pushed(b) == r.pushed(a + b),
{
    crate::receiver::sink::law_newest_twice(r.samples, a, b, r.cap);
    assert(r.samples + (a + b) =~= (r.samples + a) + b);
}

/// A sample keeps its number while it is buffered: a reader that looks at it before and after more
/// samples came in sees the same.
pub proof fn law_ring_stable<T>(r: RingState<T>, more: Seq<T>, cursor: int)
    requires
        r.samples.len() <= r.cap,
        r.pushed(more).base <= cursor < r.head(),
    ensures
        r.pushed(more).seen_from(cursor, 1) == r.seen_from(cursor, 1),
        r.seen_from(cursor, 1).len() == 1,
{
    assert(r.pushed(more).seen_from(cursor, 1) =~= r.seen_from(cursor, 1));
}

/// A reader that advances its cursor by what it got reads every sample once and in order.
pub proof fn law_ring_read_on<T>(r: RingState<T>, cursor: int, a: int, b: int)
    requires
        r.base <= cursor <= r.head(),
        0 <= a,
        0 <= b,
    ensures
        r.seen_from(cursor, a) + r.seen_from(cursor + r.seen_from(cursor, a).len(), b)
            == r.seen_from(cursor, a + b),
{
    assert(r.seen_from(cursor, a) + r.seen_from(cursor + r.seen_from(cursor, a).len(), b)
        =~= r.seen_from(cursor, a + b));
}

} // verus!
