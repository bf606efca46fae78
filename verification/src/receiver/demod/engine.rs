//! The tail that all demodulators share: audio gathers until a block is long enough to be brought
//! to its level and written.
use crate::receiver::sink::{AudioSink, VecSink};
use vstd::prelude::*;

verus! {

/// The fewest samples that make a block: some 50 ms of voice audio, enough for a steady level.
pub const AUDIO_EMIN: usize = 240;

/// The most samples in one block.
pub const AUDIO_EMAX: usize = 1024;

/// The length of the next block of `n` gathered samples, where there are enough for one.
pub open spec fn block_len(n: int) -> Option<int> {
    if n < 240 {
        None
    } else if n < 1024 {
        Some(n)
    } else {
        Some(1024)
    }
}

/// The blocks that gathered samples are cut into.
pub open spec fn full_blocks<T>(s: Seq<T>) -> Seq<Seq<T>>
    decreases s.len(),
{
    match block_len(s.len() as int) {
        None => Seq::empty(),
        Some(n) => if 0 < n <= s.len() {
            seq![s.take(n)] + full_blocks(s.skip(n))
        } else {
            Seq::empty()
        },
    }
}

/// What is left once all blocks are cut.
pub open spec fn residual<T>(s: Seq<T>) -> Seq<T>
    decreases s.len(),
{
    match block_len(s.len() as int) {
        None => s,
        Some(n) => if 0 < n <= s.len() {
            residual(s.skip(n))
        } else {
            s
        },
    }
}

/// Blocks one behind another.
pub open spec fn joined<T>(blocks: Seq<Seq<T>>) -> Seq<T>
    decreases blocks.len(),
{
    if blocks.len() == 0 {
        Seq::empty()
    } else {
        blocks[0] + joined(blocks.skip(1))
    }
}

/// The gathered audio of a demodulator.
#[derive(Debug)]
pub struct AudioEngine<T> {
    buf: Vec<T>,
}

impl<T: Copy> View for AudioEngine<T> {
    type V = Seq<T>;

    closed spec fn view(&self) -> Seq<T> {
        self.buf@
    }
}

impl<T: Copy> AudioEngine<T> {
    /// A tail that has gathered nothing.
    pub fn new() -> (r: AudioEngine<T>)
        ensures
            r@ == Seq::<T>::empty(),
    {
        AudioEngine { buf: Vec::new() }
    }

    /// Gathers a sample.
    pub fn push(&mut self, sample: T)
        ensures
            final(self)@ == old(self)@.push(sample),
    {
        self.buf.push(sample);
    }

    /// The next block, where enough samples have gathered for one; it stays gathered until it is
    /// reported as written.
    pub fn full_block(&self) -> (r: Option<&[T]>)
        ensures
            r is Some <==> block_len(self@.len() as int) is Some,
            r matches Some(b) ==> b@ == self@.take(block_len(self@.len() as int)->0),
    {
        if self.buf.len() < AUDIO_EMIN {
            return None;
        }
        let n: usize = if self.buf.len() < AUDIO_EMAX {
            self.buf.len()
        } else {
            AUDIO_EMAX
        };
        let b: &[T] = vstd::slice::slice_subrange(self.buf.as_slice(), 0, n);
        assert(b@ =~= self@.take(n as int));
        Some(b)
    }

    /// All that is gathered, however little, where there is anything.
    pub fn residue(&self) -> (r: Option<&[T]>)
        ensures
            r is Some <==> self@.len() > 0,
            r matches Some(b) ==> b@ == self@,
    {
        if self.buf.len() == 0 {
            None
        } else {
            Some(self.buf.as_slice())
        }
    }

    /// Lets go of the first `n` samples, once they are written.
    pub fn written(&mut self, n: usize)
        requires
            n <= old(self)@.len(),
        ensures
            final(self)@ == old(self)@.skip(n as int),
    {
        let rest: Vec<T> = self.buf.split_off(n);
        self.buf = rest;
        assert(self.buf@ =~= old(self)@.skip(n as int));
    }
}

/// What levelling does to blocks: `ins` holds their samples, `outs` the levelled ones, and `gains`
/// the gain before each block and after the last.
pub open spec fn are_levelled<T, A, N: Fn(Vec<T>, A) -> (Vec<i16>, A)>(
    level: N,
    blocks: Seq<Seq<T>>,
    ins: Seq<Vec<T>>,
    outs: Seq<Vec<i16>>,
    gains: Seq<A>,
    n: int,
) -> bool {
    &&& ins.len() == n
    &&& outs.len() == n
    &&& gains.len() == n + 1
    &&& forall|k: int| 0 <= k < n ==> (#[trigger] ins[k])@ == blocks[k]
    &&& forall|k: int|
        0 <= k < n ==> call_ensures(level, (ins[k], gains[k]), (#[trigger] outs[k], gains[k + 1]))
}

/// A sink is given block `k` and takes it.
pub open spec fn is_sent<S: AudioSink>(sinks: Seq<S>, outs: Seq<Vec<i16>>, k: int) -> bool {
    exists|m: usize| #[trigger] sinks[k].takes(outs[k]@, &sinks[k + 1], Ok(m))
}

/// A sink is given the first `n` blocks one after another, and takes them; `sinks` holds it before
/// each of them and after the last.
pub open spec fn are_sent<S: AudioSink>(sinks: Seq<S>, outs: Seq<Vec<i16>>, n: int) -> bool {
    &&& sinks.len() == n + 1
    &&& forall|k: int| 0 <= k < n ==> #[trigger] is_sent(sinks, outs, k)
}

/// How many samples the first `n` blocks hold, as far as a count goes.
pub open spec fn written_count(outs: Seq<Vec<i16>>, n: int) -> int
    decreases n,
{
    if n <= 0 {
        0
    } else {
        let sum = written_count(outs, n - 1) + outs[n - 1]@.len();
        if sum > usize::MAX {
            usize::MAX as int
        } else {
            sum
        }
    }
}

/// What is left once the first `n` blocks are cut.
pub open spec fn after_blocks<T>(s: Seq<T>, n: int) -> Seq<T>
    decreases n,
{
    if n <= 0 {
        s
    } else {
        match block_len(s.len() as int) {
            None => s,
            Some(k) => after_blocks(s.skip(k), n - 1),
        }
    }
}

proof fn lemma_after_blocks<T>(s: Seq<T>, n: int)
    requires
        0 <= n < full_blocks(s).len(),
    ensures
        block_len(after_blocks(s, n).len() as int) is Some,
        full_blocks(s)[n] == after_blocks(s, n).take(
            block_len(after_blocks(s, n).len() as int)->0,
        ),
        after_blocks(s, n + 1) == after_blocks(s, n).skip(
            block_len(after_blocks(s, n).len() as int)->0,
        ),
    decreases n,
{
    reveal_with_fuel(after_blocks, 2);
    if n > 0 {
        let k = block_len(s.len() as int)->0;
        assert(full_blocks(s).skip(1) =~= full_blocks(s.skip(k)));
        lemma_after_blocks(s.skip(k), n - 1);
        assert(full_blocks(s)[n] == full_blocks(s.skip(k))[n - 1]);
        assert(after_blocks(s, n + 1) == after_blocks(s.skip(k), n));
    }
}

proof fn lemma_all_blocks<T>(s: Seq<T>, n: int)
    requires
        0 <= n <= full_blocks(s).len(),
        block_len(after_blocks(s, n).len() as int) is None,
    ensures
        n == full_blocks(s).len(),
        after_blocks(s, n) == residual(s),
    decreases s.len(),
{
    if n > 0 {
        let k = block_len(s.len() as int)->0;
        assert(full_blocks(s).skip(1) =~= full_blocks(s.skip(k)));
        lemma_all_blocks(s.skip(k), n - 1);
    }
}

proof fn lemma_no_more<T>(s: Seq<T>)
    ensures
        block_len(after_blocks(s, full_blocks(s).len() as int).len() as int) is None,
    decreases s.len(),
{
    if let Some(k) = block_len(s.len() as int) {
        assert(full_blocks(s).skip(1) =~= full_blocks(s.skip(k)));
        lemma_no_more(s.skip(k));
    }
}

proof fn lemma_count_prefix(a: Seq<Vec<i16>>, b: Seq<Vec<i16>>, n: int)
    requires
        0 <= n <= a.len(),
        n <= b.len(),
        forall|k: int| 0 <= k < n ==> #[trigger] a[k] == b[k],
    ensures
        written_count(a, n) == written_count(b, n),
    decreases n,
{
    if n > 0 {
        lemma_count_prefix(a, b, n - 1);
    }
}

/// A copy of samples.
fn copied<T: Copy>(s: &[T]) -> (r: Vec<T>)
    ensures
        r@ == s@,
{
    let mut out: Vec<T> = Vec::new();
    for i in 0..s.len()
        invariant
            out@ == s@.take(i as int),
    {
        out.push(s[i]);
        assert(out@ =~= s@.take(i + 1));
    }
    assert(out@ =~= s@);
    out
}

impl<T: Copy> AudioEngine<T> {
    /// Levels and writes all full blocks; returns the gain after the last one levelled, and how
    /// many samples were written. A block that the sink does not take stays gathered, with all
    /// behind it.
    pub fn emit_full_blocks<A: Copy, S: AudioSink, N: Fn(Vec<T>, A) -> (Vec<i16>, A)>(
        &mut self,
        gain: A,
        sink: &mut S,
        level: &N,
    ) -> (r: (A, Result<usize, S::Error>))
        requires
            forall|v: Vec<T>, a: A| #[trigger] call_requires(*level, (v, a)),
        ensures
            exists|ins: Seq<Vec<T>>, outs: Seq<Vec<i16>>, gains: Seq<A>, sinks: Seq<S>|
                #![trigger are_levelled(
                    *level,
                    full_blocks(old(self)@),
                    ins,
                    outs,
                    gains,
                    outs.len() as int,
                ), sinks.last()]
                are_levelled(
                    *level,
                    full_blocks(old(self)@),
                    ins,
                    outs,
                    gains,
                    outs.len() as int,
                ) && gains[0] == gain && gains.last() == r.0 && sinks.len() > 0 && sinks[0] == *old(
                    sink,
                ) && match r.1 {
                    Ok(n) => outs.len() == full_blocks(old(self)@).len() && n == written_count(
                        outs,
                        outs.len() as int,
                    ) && final(self)@ == residual(old(self)@) && are_sent(
                        sinks,
                        outs,
                        outs.len() as int,
                    ) && sinks.last() == *final(sink),
                    Err(e) => 0 < outs.len() <= full_blocks(old(self)@).len() && final(self)@
                        == after_blocks(old(self)@, outs.len() - 1) && are_sent(
                        sinks,
                        outs,
                        outs.len() - 1,
                    ) && sinks.last().takes(outs.last()@, &*final(sink), Err(e)),
                },
    {
        let ghost all = self@;
        let ghost blocks = full_blocks(all);
        let ghost mut ins: Seq<Vec<T>> = Seq::empty();
        let ghost mut outs: Seq<Vec<i16>> = Seq::empty();
        let ghost mut gains: Seq<A> = seq![gain];
        let ghost mut sinks: Seq<S> = seq![*sink];
        let mut now: A = gain;
        let mut frames: usize = 0;
        loop
            invariant
                all == old(self)@,
                blocks == full_blocks(all),
                outs.len() <= blocks.len(),
                self@ == after_blocks(all, outs.len() as int),
                are_levelled(*level, blocks, ins, outs, gains, outs.len() as int),
                gains[0] == gain,
                gains.last() == now,
                frames == written_count(outs, outs.len() as int),
                are_sent(sinks, outs, outs.len() as int),
                sinks[0] == *old(sink),
                sinks.last() == *sink,
                forall|v: Vec<T>, a: A| #[trigger] call_requires(*level, (v, a)),
            decreases self@.len(),
        {
            let block: Vec<T> = match self.full_block() {
                None => {
                    proof {
                        lemma_all_blocks(all, outs.len() as int);
                    }
                    return (now, Ok(frames));
                },
                Some(b) => copied(b),
            };
            let n: usize = block.len();
            let ghost k = outs.len() as int;
            proof {
                if k == blocks.len() {
                    lemma_no_more(all);
                }
                lemma_after_blocks(all, k);
                ins = ins.push(block);
            }
            let ghost b = block;
            let ghost was_outs = outs;
            let ghost was_gains = gains;
            let (out, next) = level(block, now);
            proof {
                assert(call_ensures(*level, (b, now), (out, next)));
                outs = outs.push(out);
                gains = gains.push(next);
                lemma_count_prefix(was_outs, outs, k);
                assert forall|i: int| 0 <= i < k + 1 implies call_ensures(
                    *level,
                    (ins[i], gains[i]),
                    (#[trigger] outs[i], gains[i + 1]),
                ) by {
                    if i < k {
                        assert(outs[i] == was_outs[i]);
                        assert(gains[i] == was_gains[i] && gains[i + 1] == was_gains[i + 1]);
                    }
                }
                assert(are_levelled(*level, blocks, ins, outs, gains, k + 1));
            }
            let added: usize = out.len();
            now = next;
            let ghost before = *sink;
            let done: Result<usize, S::Error> = sink.write(out.as_slice());
            proof {
                assert(before.takes(out@, &*sink, done));
                assert forall|i: int| 0 <= i < k implies #[trigger] is_sent(sinks, outs, i) by {
                    assert(is_sent(sinks, was_outs, i));
                    let m = choose|m: usize| #[trigger]
                        sinks[i].takes(was_outs[i]@, &sinks[i + 1], Ok(m));
                    assert(outs[i] == was_outs[i]);
                    assert(sinks[i].takes(outs[i]@, &sinks[i + 1], Ok(m)));
                }
            }
            match done {
                Err(e) => {
                    assert(are_sent(sinks, outs, k));
                    assert(sinks.last().takes(outs.last()@, &*sink, Err(e)));
                    return (now, Err(e));
                },
                Ok(m) => {
                    proof {
                        let was_sinks = sinks;
                        sinks = sinks.push(*sink);
                        assert(sinks[k].takes(outs[k]@, &sinks[k + 1], Ok(m)));
                        assert forall|i: int| 0 <= i < k + 1 implies #[trigger] is_sent(
                            sinks,
                            outs,
                            i,
                        ) by {
                            if i < k {
                                assert(is_sent(was_sinks, outs, i));
                                let m = choose|m: usize| #[trigger]
                                    was_sinks[i].takes(outs[i]@, &was_sinks[i + 1], Ok(m));
                                assert(sinks[i].takes(outs[i]@, &sinks[i + 1], Ok(m)));
                            }
                        }
                    }
                },
            }
            self.written(n);
            frames = frames.saturating_add(added);
        }
    }
}

/// The samples that came out, of those that may have.
pub open spec fn came_out<T>(outs: Seq<Option<T>>) -> Seq<T>
    decreases outs.len(),
{
    if outs.len() == 0 {
        Seq::empty()
    } else {
        match outs.last() {
            Some(v) => came_out(outs.drop_last()).push(v),
            None => came_out(outs.drop_last()),
        }
    }
}

/// What a demodulator does with a block: `cores` holds it before each sample and after the last,
/// `outs` what each sample brought.
pub open spec fn are_processed<X, C, T, P: Fn(C, X) -> (C, Option<T>)>(
    process: P,
    block: Seq<X>,
    cores: Seq<C>,
    outs: Seq<Option<T>>,
    n: int,
) -> bool {
    &&& cores.len() == n + 1
    &&& outs.len() == n
    &&& forall|k: int|
        0 <= k < n ==> call_ensures(process, (cores[k], block[k]), (cores[k + 1], #[trigger] outs[k]))
}

impl<T: Copy> AudioEngine<T> {
    /// Passes a block of baseband samples through a demodulator and gathers the audio that comes
    /// out; returns the demodulator after the block.
    pub fn feed<X: Copy, C, P: Fn(C, X) -> (C, Option<T>)>(
        &mut self,
        core: C,
        block: &[X],
        process: &P,
    ) -> (r: C)
        requires
            forall|c: C, x: X| #[trigger] call_requires(*process, (c, x)),
        ensures
            exists|cores: Seq<C>, outs: Seq<Option<T>>|
                #[trigger] are_processed(*process, block@, cores, outs, block@.len() as int)
                    && cores[0] == core && cores.last() == r && final(self)@ == old(self)@
                    + came_out(outs),
    {
        let ghost mut cores: Seq<C> = seq![core];
        let ghost mut outs: Seq<Option<T>> = Seq::empty();
        let mut now: C = core;
        assert(self@ + came_out(outs) =~= self@);
        for i in 0..block.len()
            invariant
                forall|c: C, x: X| #[trigger] call_requires(*process, (c, x)),
                are_processed(*process, block@, cores, outs, i as int),
                cores[0] == core,
                cores.last() == now,
                self@ == old(self)@ + came_out(outs),
        {
            let ghost was_cores = cores;
            let ghost was_outs = outs;
            let ghost c0 = now;
            let (next, out) = process(now, block[i]);
            proof {
                assert(call_ensures(*process, (c0, block@[i as int]), (next, out)));
                cores = cores.push(next);
                outs = outs.push(out);
                assert(outs.drop_last() =~= was_outs);
                assert forall|k: int| 0 <= k < i + 1 implies call_ensures(
                    *process,
                    (cores[k], block@[k]),
                    (cores[k + 1], #[trigger] outs[k]),
                ) by {
                    if k < i {
                        assert(outs[k] == was_outs[k]);
                        assert(cores[k] == was_cores[k] && cores[k + 1] == was_cores[k + 1]);
                    }
                }
            }
            now = next;
            if let Some(v) = out {
                self.push(v);
                assert(self@ =~= old(self)@ + came_out(outs));
            }
        }
        now
    }

    /// Levels and writes all that is gathered, however little; returns the gain, and how many
    /// samples were written. What the sink does not take stays gathered.
    pub fn flush_residue<A: Copy, S: AudioSink, N: Fn(Vec<T>, A) -> (Vec<i16>, A)>(
        &mut self,
        gain: A,
        sink: &mut S,
        level: &N,
    ) -> (r: (A, Result<usize, S::Error>))
        requires
            forall|v: Vec<T>, a: A| #[trigger] call_requires(*level, (v, a)),
        ensures
            old(self)@.len() == 0 ==> r.0 == gain && r.1 is Ok && r.1->Ok_0 == 0 && final(self)@
                == old(self)@ && *final(sink) == *old(sink),
            old(self)@.len() > 0 ==> exists|block: Vec<T>, out: Vec<i16>|
                block@ == old(self)@ && #[trigger] call_ensures(
                    *level,
                    (block, gain),
                    (out, r.0),
                ) && match r.1 {
                    Ok(n) => n == out@.len() && final(self)@ == Seq::<T>::empty() && exists|m: usize|
                        #[trigger] old(sink).takes(out@, &*final(sink), Ok(m)),
                    Err(e) => final(self)@ == old(self)@ && old(sink).takes(
                        out@,
                        &*final(sink),
                        Err(e),
                    ),
                },
    {
        let block: Vec<T> = match self.residue() {
            None => {
                return (gain, Ok(0));
            },
            Some(b) => copied(b),
        };
        let n: usize = block.len();
        let ghost b = block;
        let (out, next) = level(block, gain);
        assert(call_ensures(*level, (b, gain), (out, next)));
        let count: usize = out.len();
        let done: Result<usize, S::Error> = sink.write(out.as_slice());
        assert(old(sink).takes(out@, &*sink, done));
        let r: (A, Result<usize, S::Error>) = match done {
            Err(e) => (next, Err(e)),
            Ok(m) => {
                assert(old(sink).takes(out@, &*sink, Ok(m)));
                self.written(n);
                assert(self@ =~= Seq::<T>::empty());
                (next, Ok(count))
            },
        };
        assert(b@ == old(self)@ && call_ensures(*level, (b, gain), (out, r.0)));
        r
    }
}

/// The blocks, followed by what is left, are the samples as they came: none is lost, doubled or
/// moved. Each block is of a length that can be levelled and written, and what is left is not.
pub proof fn law_blocks<T>(s: Seq<T>)
    ensures
        joined(full_blocks(s)) + residual(s) == s,
        residual(s).len() < 240,
        forall|i: int|
            0 <= i < full_blocks(s).len() ==> 240 <= (#[trigger] full_blocks(s)[i]).len() <= 1024,
    decreases s.len(),
{
    match block_len(s.len() as int) {
        None => {
            assert(joined(full_blocks(s)) + residual(s) =~= s);
        },
        Some(n) => {
            let rest = s.skip(n);
            law_blocks(rest);
            let blocks = full_blocks(s);
            assert(blocks.skip(1) =~= full_blocks(rest));
            assert(joined(blocks) + residual(s) =~= s.take(n) + (joined(full_blocks(rest))
                + residual(rest)));
            assert(s.take(n) + rest =~= s);
            assert forall|i: int| 0 <= i < blocks.len() implies 240 <= (#[trigger] blocks[i]).len()
                <= 1024 by {
                if i > 0 {
                    assert(blocks[i] == full_blocks(rest)[i - 1]);
                }
            }
        },
    }
}

/// The samples of the first `n` levelled blocks, one behind another.
pub open spec fn all_samples(outs: Seq<Vec<i16>>, n: int) -> Seq<i16>
    decreases n,
{
    if n <= 0 {
        Seq::empty()
    } else {
        all_samples(outs, n - 1) + outs[n - 1]@
    }
}

/// A sink without a bound that keeps what it gets holds, behind what it held, the levelled blocks in
/// their order.
pub proof fn law_blocks_reach_sink(sinks: Seq<VecSink>, outs: Seq<Vec<i16>>, n: int)
    requires
        0 <= n,
        are_sent(sinks, outs, n),
        sinks[0].bound() is None,
    ensures
        sinks[n].bound() is None,
        sinks[n]@ == sinks[0]@ + all_samples(outs, n),
    decreases n,
{
    if n == 0 {
        assert(sinks[0]@ + all_samples(outs, 0) =~= sinks[0]@);
    } else {
        let s = sinks.take(n);
        assert forall|k: int| 0 <= k < n - 1 implies #[trigger] is_sent(s, outs, k) by {
            assert(is_sent(sinks, outs, k));
            let m = choose|m: usize| #[trigger]
                sinks[k].takes(outs[k]@, &sinks[k + 1], Ok(m));
            assert(s[k].takes(outs[k]@, &s[k + 1], Ok(m)));
        }
        law_blocks_reach_sink(s, outs, n - 1);
        assert(is_sent(sinks, outs, n - 1));
        assert(sinks[n]@ =~= sinks[0]@ + all_samples(outs, n));
    }
}

/// How samples are cut: blocks of 1024 as long as there are that many, then what is left in one
/// block if that is 240 and more.
pub proof fn law_block_lengths<T>(s: Seq<T>)
    ensures
        ({
            let whole = s.len() as int / 1024;
            let rest = s.len() as int % 1024;
            &&& full_blocks(s).len() == whole + (if rest >= 240 {
                1int
            } else {
                0
            })
            &&& forall|i: int| 0 <= i < whole ==> (#[trigger] full_blocks(s)[i]).len() == 1024
            &&& rest >= 240 ==> full_blocks(s)[whole].len() == rest
            &&& residual(s).len() == (if rest >= 240 {
                0int
            } else {
                rest
            })
        }),
    decreases s.len(),
{
    let whole = s.len() as int / 1024;
    let rest = s.len() as int % 1024;
    if s.len() >= 1024 {
        let t = s.skip(1024);
        law_block_lengths(t);
        assert(t.len() as int / 1024 == whole - 1 && t.len() as int % 1024 == rest);
        assert forall|i: int| 0 <= i < whole implies (#[trigger] full_blocks(s)[i]).len() == 1024 by {
            if i > 0 {
                assert(full_blocks(s)[i] == full_blocks(t)[i - 1]);
            }
        }
        if rest >= 240 {
            assert(full_blocks(s)[whole] == full_blocks(t)[whole - 1]);
        }
    } else if s.len() >= 240 {
        let t = s.skip(s.len() as int);
        law_block_lengths(t);
        assert(full_blocks(s) =~= seq![s.take(s.len() as int)]);
    }
}

} // verus!
