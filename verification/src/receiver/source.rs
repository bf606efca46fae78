//! Where baseband samples come from.
use crate::receiver::sink::least;
use vstd::prelude::*;

verus! {

/// A stream of baseband samples of one radio slot.
pub trait BasebandSource<T> {
    /// The sample rate in Hz.
    fn rate_hz(&self) -> (r: u32);

    /// Writes the next samples to the front of `out` and returns how many; 0 when there are none
    /// yet.
    fn next_block(&mut self, out: &mut [T]) -> (r: usize);
}

/// A source that hands out blocks from memory, in the order in which they were put in.
#[derive(Debug)]
pub struct VecSource<T> {
    rate: u32,
    queue: Vec<Vec<T>>,
}

/// The contents of blocks.
pub open spec fn blocks<T>(v: Seq<Vec<T>>) -> Seq<Seq<T>> {
    Seq::new(v.len(), |i: int| v[i]@)
}

impl<T> View for VecSource<T> {
    type V = Seq<Seq<T>>;

    closed spec fn view(&self) -> Seq<Seq<T>> {
        blocks(self.queue@)
    }
}

impl<T: Copy> VecSource<T> {
    /// The sample rate.
    pub closed spec fn rate(&self) -> u32 {
        self.rate
    }

    /// A source without blocks.
    pub fn new(rate_hz: u32) -> (r: VecSource<T>)
        ensures
            r@ == Seq::<Seq<T>>::empty(),
            r.rate() == rate_hz,
    {
        let r: VecSource<T> = VecSource { rate: rate_hz, queue: Vec::new() };
        assert(r@ =~= Seq::<Seq<T>>::empty());
        r
    }

    /// Puts a block behind the others and returns its length.
    pub fn push(&mut self, samples: Vec<T>) -> (n: usize)
        ensures
            n == samples@.len(),
            final(self)@ == old(self)@.push(samples@),
            final(self).rate() == old(self).rate(),
    {
        let n: usize = samples.len();
        self.queue.push(samples);
        assert(self@ =~= old(self)@.push(samples@));
        n
    }

    /// How many blocks are left.
    pub fn queued_blocks(&self) -> (n: usize)
        ensures
            n == self@.len(),
    {
        self.queue.len()
    }
}

impl<T: Copy> BasebandSource<T> for VecSource<T> {
    fn rate_hz(&self) -> (r: u32)
        ensures
            r == self.rate(),
    {
        self.rate
    }

    /// Takes the next block; what does not fit into `out` is dropped with it.
    fn next_block(&mut self, out: &mut [T]) -> (r: usize)
        ensures
            final(self).rate() == old(self).rate(),
            old(self)@.len() == 0 ==> r == 0 && final(self)@ == old(self)@ && final(out)@ == old(
                out,
            )@,
            old(self)@.len() > 0 ==> r == least(old(self)@[0].len() as int, old(out)@.len() as int)
                && final(self)@ == old(self)@.drop_first() && final(out)@ == old(self)@[0].take(
                r as int,
            ) + old(out)@.skip(r as int),
    {
        if self.queue.len() == 0 {
            return 0;
        }
        let block: Vec<T> = self.queue.remove(0);
        assert(self@ =~= old(self)@.drop_first());
        let n: usize = if block.len() < out.len() {
            block.len()
        } else {
            out.len()
        };
        let ghost was = out@;
        for i in 0..n
            invariant
                n <= block@.len(),
                n <= was.len(),
                out@ == block@.take(i as int) + was.skip(i as int),
        {
            out[i] = block[i];
            assert(out@ =~= block@.take(i + 1) + was.skip(i + 1));
        }
        n
    }
}

} // verus!
