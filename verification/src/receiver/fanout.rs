//! One ring of baseband samples for each active radio slot.
//!
//! The radio interleaves the samples of its active receivers in ascending order of their slots. So
//! the stream at position `p` belongs to the `p`-th active slot, while readers ask by slot number.
use crate::receiver::baseband_ring::{BasebandRing, RingState};
use crate::receiver::sink::least;
use vstd::prelude::*;

verus! {

/// Whether slots stand in strictly ascending order.
pub open spec fn ascending<C>(v: Seq<(u8, C)>) -> bool {
    forall|i: int, j: int| 0 <= i < j < v.len() ==> (#[trigger] v[i]).0 < (#[trigger] v[j]).0
}

/// Whether a slot is among the active ones.
pub open spec fn has_slot<C>(v: Seq<(u8, C)>, slot: u8) -> bool {
    exists|i: int| 0 <= i < v.len() && (#[trigger] v[i]).0 == slot
}

/// The ring of each active slot, in ascending order of the slots; one slot at least is always active.
/// `C` is what holds a ring: the ring itself, or a shared and locked one.
#[derive(Debug)]
pub struct BasebandFanout<C> {
    inner: Vec<(u8, C)>,
}

impl<C> View for BasebandFanout<C> {
    type V = Seq<(u8, C)>;

    closed spec fn view(&self) -> Seq<(u8, C)> {
        self.inner@
    }
}

impl<C> BasebandFanout<C> {
    /// The slots stand in ascending order, and there is one.
    pub open spec fn wf(&self) -> bool {
        ascending(self@) && self@.len() >= 1
    }

    /// The place of the first slot that is not below the given one.
    fn place(&self, slot: u8) -> (r: usize)
        requires
            self.wf(),
        ensures
            r <= self@.len(),
            forall|i: int| 0 <= i < r ==> (#[trigger] self@[i]).0 < slot,
            forall|i: int| r <= i < self@.len() ==> (#[trigger] self@[i]).0 >= slot,
    {
        let mut i: usize = 0;
        while i < self.inner.len() && self.inner[i].0 < slot
            invariant
                i <= self@.len(),
                forall|k: int| 0 <= k < i ==> (#[trigger] self@[k]).0 < slot,
            decreases self@.len() - i,
        {
            i = i + 1;
        }
        i
    }

    /// Makes a slot inactive and forgets its ring. Does nothing when it is not active, or when it
    /// is the only one that is.
    pub fn unregister_slot(&mut self, slot: u8)
        requires
            old(self).wf(),
        ensures
            final(self).wf(),
            !has_slot(old(self)@, slot) || old(self)@.len() == 1 ==> final(self)@ == old(self)@,
            forall|i: int|
                0 <= i < old(self)@.len() && old(self)@.len() > 1 && (#[trigger] old(self)@[i]).0
                    == slot ==> final(self)@ == old(self)@.remove(i),
    {
        let i: usize = self.place(slot);
        if i < self.inner.len() && self.inner[i].0 == slot && self.inner.len() > 1 {
            let _ = self.inner.remove(i);
        }
    }

    /// How many slots are active; never none.
    pub fn rx_count(&self) -> (r: usize)
        requires
            self.wf(),
        ensures
            r == self@.len(),
            r >= 1,
    {
        self.inner.len()
    }

    /// The active slots in ascending order.
    pub fn slots(&self) -> (r: Vec<u8>)
        ensures
            r@ == Seq::new(self@.len(), |i: int| self@[i].0),
    {
        let mut out: Vec<u8> = Vec::new();
        for i in 0..self.inner.len()
            invariant
                out@.len() == i,
                forall|k: int| 0 <= k < i ==> #[trigger] out@[k] == self@[k].0,
        {
            out.push(self.inner[i].0);
        }
        assert(out@ =~= Seq::new(self@.len(), |i: int| self@[i].0));
        out
    }

    /// The ring of a slot, if it is active.
    pub fn ring_for_slot(&self, slot: u8) -> (r: Option<&C>)
        requires
            self.wf(),
        ensures
            r is Some <==> has_slot(self@, slot),
            forall|i: int|
                0 <= i < self@.len() && (#[trigger] self@[i]).0 == slot ==> r == Some(
                    &self@[i].1,
                ),
    {
        let i: usize = self.place(slot);
        if i < self.inner.len() && self.inner[i].0 == slot {
            assert(self@[i as int].0 == slot);
            Some(&self.inner[i].1)
        } else {
            None
        }
    }

    /// All rings in ascending order of their slots.
    pub fn rings_in_order(&self) -> (r: Vec<&C>)
        ensures
            r@ == Seq::new(self@.len(), |i: int| &self@[i].1),
    {
        let mut out: Vec<&C> = Vec::new();
        for i in 0..self.inner.len()
            invariant
                out@.len() == i,
                forall|k: int| 0 <= k < i ==> #[trigger] out@[k] == &self@[k].1,
        {
            out.push(&self.inner[i].1);
        }
        assert(out@ =~= Seq::new(self@.len(), |i: int| &self@[i].1));
        out
    }

    /// How many slots are active, together with their rings in order.
    pub fn snapshot(&self) -> (r: (usize, Vec<&C>))
        requires
            self.wf(),
        ensures
            r.0 == self@.len(),
            r.0 >= 1,
            r.1@ == Seq::new(self@.len(), |i: int| &self@[i].1),
    {
        (self.inner.len(), self.rings_in_order())
    }
}

impl<C: Default> BasebandFanout<C> {
    /// A fan-out with slot 1 active, as the radio has it from power-on.
    pub fn new() -> (r: BasebandFanout<C>)
        ensures
            r.wf(),
            r@.len() == 1,
            r@[0].0 == 1,
            call_ensures(C::default, (), r@[0].1),
    {
        let mut inner: Vec<(u8, C)> = Vec::new();
        inner.push((1, C::default()));
        BasebandFanout { inner }
    }

    /// Makes a slot active, with a fresh ring. A slot that is active keeps its ring.
    pub fn register_slot(&mut self, slot: u8)
        requires
            old(self).wf(),
        ensures
            final(self).wf(),
            has_slot(final(self)@, slot),
            has_slot(old(self)@, slot) ==> final(self)@ == old(self)@,
            !has_slot(old(self)@, slot) ==> exists|i: int, c: C|
                0 <= i <= old(self)@.len() && call_ensures(C::default, (), c) && final(self)@
                    == #[trigger] old(self)@.insert(i, (slot, c)),
    {
        let i: usize = self.place(slot);
        if i < self.inner.len() && self.inner[i].0 == slot {
            assert(self@[i as int].0 == slot);
            return;
        }
        let c: C = C::default();
        self.inner.insert(i, (slot, c));
        proof {
            assert(self@ == old(self)@.insert(i as int, (slot, c)));
            assert(self@[i as int].0 == slot);
            assert(!has_slot(old(self)@, slot)) by {
                if has_slot(old(self)@, slot) {
                    let k = choose|k: int|
                        0 <= k < old(self)@.len() && (#[trigger] old(self)@[k]).0 == slot;
                    assert(k >= i);
                    if k > i {
                        assert(old(self)@[i as int].0 < old(self)@[k].0);
                    }
                }
            }
            assert(ascending(self@)) by {
                let v = self@;
                let w = old(self)@;
                assert forall|a: int, b: int| 0 <= a < b < v.len() implies (#[trigger] v[a]).0
                    < (#[trigger] v[b]).0 by {
                    let a0 = if a < i {
                        a
                    } else {
                        a - 1
                    };
                    let b0 = if b < i {
                        b
                    } else {
                        b - 1
                    };
                    if a != i {
                        assert(v[a] == w[a0]);
                    }
                    if b != i {
                        assert(v[b] == w[b0]);
                    }
                    if a == i {
                        assert(w[b0].0 >= slot);
                        assert(w[b0].0 != slot);
                    }
                }
            }
        }
    }
}

impl<C: Default> Default for BasebandFanout<C> {
    fn default() -> (r: BasebandFanout<C>)
        ensures
            r.wf(),
            r@.len() == 1,
            r@[0].0 == 1,
            call_ensures(C::default, (), r@[0].1),
    {
        BasebandFanout::new()
    }
}

/// Whether a ring can take samples without its sequence numbers running out.
pub open spec fn has_room<T>(r: RingState<T>, n: int) -> bool {
    r.head() + n <= u64::MAX
}

impl<T: Copy> BasebandFanout<BasebandRing<T>> {
    /// The slots stand in ascending order and every ring is well formed.
    pub open spec fn rings_wf(&self) -> bool {
        self.wf() && forall|i: int| 0 <= i < self@.len() ==> (#[trigger] self@[i]).1.wf()
    }

    /// Appends the stream at each position to the ring of the slot at that position. Streams
    /// behind the last active slot are left out, and slots without a stream stay as they are.
    /// Returns how many rings were served.
    pub fn push_frame(&mut self, per_rx: &[&[T]]) -> (r: usize)
        requires
            old(self).rings_wf(),
            forall|p: int|
                0 <= p < old(self)@.len() && p < per_rx@.len() ==> has_room(
                    (#[trigger] old(self)@[p]).1@,
                    per_rx@[p]@.len() as int,
                ),
        ensures
            final(self).rings_wf(),
            r == least(old(self)@.len() as int, per_rx@.len() as int),
            final(self)@.len() == old(self)@.len(),
            forall|p: int|
                0 <= p < old(self)@.len() ==> (#[trigger] final(self)@[p]).0 == old(self)@[p].0
                    && final(self)@[p].1@ == (if p < r {
                    old(self)@[p].1@.pushed(per_rx@[p]@)
                } else {
                    old(self)@[p].1@
                }),
    {
        let n: usize = if self.inner.len() < per_rx.len() {
            self.inner.len()
        } else {
            per_rx.len()
        };
        let ghost was = self@;
        for p in 0..n
            invariant
                n <= was.len(),
                n <= per_rx@.len(),
                was == old(self)@,
                self@.len() == was.len(),
                ascending(was),
                forall|k: int| 0 <= k < was.len() ==> (#[trigger] was[k]).1.wf(),
                forall|k: int|
                    0 <= k < n ==> has_room((#[trigger] was[k]).1@, per_rx@[k]@.len() as int),
                forall|k: int|
                    0 <= k < was.len() ==> (#[trigger] self@[k]).0 == was[k].0 && self@[k].1.wf(),
                forall|k: int|
                    p <= k < was.len() ==> #[trigger] self@[k] == was[k],
                forall|k: int|
                    0 <= k < p ==> (#[trigger] self@[k]).1@ == was[k].1@.pushed(per_rx@[k]@),
        {
            let ghost before = self@;
            assert(before[p as int] == was[p as int]);
            assert(has_room(was[p as int].1@, per_rx@[p as int]@.len() as int));
            let (slot, mut ring) = self.inner.remove(p);
            let _ = ring.push(per_rx[p]);
            self.inner.insert(p, (slot, ring));
            proof {
                assert forall|k: int| 0 <= k < was.len() && k != p implies #[trigger] self@[k]
                    == before[k] by {}
            }
        }
        n
    }

    /// Copies samples of a slot's ring as [`BasebandRing::peek`] does. Returns 0, and leaves `out`
    /// alone, when the slot is not active.
    pub fn peek_slot(&mut self, slot: u8, cursor: u64, out: &mut Vec<T>, max: usize) -> (r: usize)
        requires
            old(self).rings_wf(),
        ensures
            final(self).rings_wf(),
            final(self)@.len() == old(self)@.len(),
            forall|i: int|
                0 <= i < old(self)@.len() ==> (#[trigger] final(self)@[i]).0 == old(self)@[i].0
                    && final(self)@[i].1@ == old(self)@[i].1@,
            !has_slot(old(self)@, slot) ==> r == 0 && final(out)@ == old(out)@,
            forall|i: int|
                0 <= i < old(self)@.len() && (#[trigger] old(self)@[i]).0 == slot ==> final(out)@
                    == old(self)@[i].1@.seen_from(cursor as int, max as int) && r
                    == final(out)@.len(),
    {
        let i: usize = self.place(slot);
        if i < self.inner.len() && self.inner[i].0 == slot {
            assert(self@[i as int].0 == slot);
            let ghost was = self@;
            let (s, mut ring) = self.inner.remove(i);
            let n: usize = ring.peek(cursor, out, max);
            self.inner.insert(i, (s, ring));
            proof {
                assert forall|k: int| 0 <= k < was.len() && k != i implies #[trigger] self@[k]
                    == was[k] by {}
                assert forall|k: int| 0 <= k < was.len() && (#[trigger] was[k]).0 == slot implies k
                    == i by {
                    if k < i {
                        assert(was[k].0 < was[i as int].0);
                    } else if k > i {
                        assert(was[i as int].0 < was[k].0);
                    }
                }
            }
            n
        } else {
            0
        }
    }

    /// The numbers of the oldest buffered sample and behind the newest one in a slot's ring; `None`
    /// when the slot is not active.
    pub fn ring_bounds(&mut self, slot: u8) -> (r: Option<(u64, u64)>)
        requires
            old(self).rings_wf(),
        ensures
            *final(self) == *old(self),
            r is Some <==> has_slot(old(self)@, slot),
            forall|i: int|
                0 <= i < old(self)@.len() && (#[trigger] old(self)@[i]).0 == slot ==> r is Some
                    && (r->0).0 == old(self)@[i].1@.base && (r->0).1 == old(self)@[i].1@.head(),
    {
        let i: usize = self.place(slot);
        if i < self.inner.len() && self.inner[i].0 == slot {
            assert(self@[i as int].0 == slot);
            let ring: &BasebandRing<T> = &self.inner[i].1;
            assert(self@[i as int].1.wf());
            Some((ring.base_seq(), ring.head_seq()))
        } else {
            None
        }
    }
}

/// The slot at position `p` is the `p`-th smallest active one: exactly `p` active slots are below
/// it.
pub proof fn law_position_is_rank<C>(v: Seq<(u8, C)>, p: int)
    requires
        ascending(v),
        0 <= p < v.len(),
    ensures
        forall|i: int| 0 <= i < v.len() ==> ((#[trigger] v[i]).0 < v[p].0 <==> i < p),
{
}

/// An active slot stays active, with its ring, whatever other slot is made active or inactive.
pub proof fn law_other_slots_kept<C>(v: Seq<(u8, C)>, i: int, e: (u8, C), k: int)
    requires
        0 <= k < v.len(),
        0 <= i <= v.len(),
    ensures
        v.insert(i, e).contains(v[k]),
        i < v.len() && i != k ==> v.remove(i).contains(v[k]),
{
    let a = if k < i {
        k
    } else {
        k + 1
    };
    assert(v.insert(i, e)[a] == v[k]);
    if i < v.len() && i != k {
        let b = if k < i {
            k
        } else {
            k - 1
        };
        assert(v.remove(i)[b] == v[k]);
    }
}

} // verus!
