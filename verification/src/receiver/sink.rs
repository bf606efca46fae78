//! Audio sinks: where demodulated mono samples go.
use std::sync::Arc;
use vstd::prelude::*;
use vstd::rwlock::{RwLock, RwLockPredicate};

verus! {

/// Why a sink of this library did not take samples.
#[derive(Debug)]
pub struct SinkError {
    pub message: String,
}

/// Takes demodulated mono samples and does something with them.
pub trait AudioSink {
    /// Why the sink did not take samples.
    type Error;

    /// What a write may do: the samples that it is given, the sink after it, and its answer. A sink
    /// that does not say may do anything.
    open spec fn takes(
        &self,
        samples: Seq<i16>,
        after: &Self,
        r: Result<usize, Self::Error>,
    ) -> bool {
        true
    }

    /// Writes samples; returns how many were taken.
    fn write(&mut self, samples: &[i16]) -> (r: Result<usize, Self::Error>)
        ensures
            old(self).takes(samples@, &*final(self), r),
    ;

    /// Flushes what is buffered.
    fn flush(&mut self) -> (r: Result<(), Self::Error>)
        default_ensures
            r is Ok,
    {
        Ok(())
    }
}

/// The last `cap` elements, or all where there are no more.
pub open spec fn newest<T>(s: Seq<T>, cap: int) -> Seq<T> {
    if s.len() > cap {
        s.skip(s.len() - cap)
    } else {
        s
    }
}

/// The smaller of two numbers.
pub open spec fn least(a: int, b: int) -> int {
    if a < b {
        a
    } else {
        b
    }
}

fn append(buf: &mut Vec<i16>, samples: &[i16])
    ensures
        final(buf)@ == old(buf)@ + samples@,
{
    for i in 0..samples.len()
        invariant
            buf@ == old(buf)@ + samples@.take(i as int),
    {
        buf.push(samples[i]);
    }
    assert(samples@.take(samples@.len() as int) == samples@);
}

/// Appends samples to a buffer and drops the oldest ones over `cap`.
fn append_newest(buf: &mut Vec<i16>, samples: &[i16], cap: usize)
    ensures
        final(buf)@ == newest(old(buf)@ + samples@, cap as int),
{
    append(buf, samples);
    if buf.len() > cap {
        let over: usize = buf.len() - cap;
        let kept: Vec<i16> = buf.split_off(over);
        *buf = kept;
        assert(buf@ =~= newest(old(buf)@ + samples@, cap as int));
    }
}

/// Takes the oldest samples out of a buffer into the front of `out`; returns how many.
fn take_oldest(buf: &mut Vec<i16>, out: &mut [i16]) -> (n: usize)
    ensures
        n == least(old(buf)@.len() as int, old(out)@.len() as int),
        final(buf)@ == old(buf)@.skip(n as int),
        final(out)@ == old(buf)@.take(n as int) + old(out)@.skip(n as int),
{
    let n: usize = if buf.len() < out.len() {
        buf.len()
    } else {
        out.len()
    };
    let ghost was = out@;
    for i in 0..n
        invariant
            n <= buf@.len(),
            n <= was.len(),
            buf@ == old(buf)@,
            out@ == buf@.take(i as int) + was.skip(i as int),
    {
        out[i] = buf[i];
        assert(out@ =~= buf@.take(i + 1) + was.skip(i + 1));
    }
    let kept: Vec<i16> = buf.split_off(n);
    *buf = kept;
    assert(buf@ =~= old(buf)@.skip(n as int));
    n
}

/// A first-in, first-out buffer of samples with a bound. The oldest samples are dropped when it
/// overflows, so a slow reader never holds up the writer.
pub struct AudioFifo {
    buf: Vec<i16>,
    cap: usize,
}

impl View for AudioFifo {
    type V = Seq<i16>;

    closed spec fn view(&self) -> Seq<i16> {
        self.buf@
    }
}

impl AudioFifo {
    /// The bound.
    pub closed spec fn bound(&self) -> int {
        self.cap as int
    }

    /// The buffer keeps its bound.
    pub open spec fn wf(&self) -> bool {
        self@.len() <= self.bound()
    }

    /// An empty buffer of at most `cap` samples.
    pub fn new(cap: usize) -> (r: AudioFifo)
        ensures
            r.wf(),
            r@ == Seq::<i16>::empty(),
            r.bound() == cap,
    {
        AudioFifo { buf: Vec::new(), cap }
    }

    /// Appends samples, dropping the oldest ones over the bound.
    pub fn push(&mut self, samples: &[i16])
        ensures
            final(self).wf(),
            final(self).bound() == old(self).bound(),
            final(self)@ == newest(old(self)@ + samples@, old(self).bound()),
    {
        append_newest(&mut self.buf, samples, self.cap);
    }

    /// Takes the oldest samples out into the front of `out`; returns how many. The rest of `out`
    /// is left alone.
    pub fn drain_into(&mut self, out: &mut [i16]) -> (n: usize)
        requires
            old(self).wf(),
        ensures
            final(self).wf(),
            final(self).bound() == old(self).bound(),
            n == least(old(self)@.len() as int, old(out)@.len() as int),
            final(self)@ == old(self)@.skip(n as int),
            final(out)@ == old(self)@.take(n as int) + old(out)@.skip(n as int),
    {
        take_oldest(&mut self.buf, out)
    }

    /// Takes at most `max` of the oldest samples out.
    pub fn drain(&mut self, max: usize) -> (r: Vec<i16>)
        requires
            old(self).wf(),
        ensures
            final(self).wf(),
            final(self).bound() == old(self).bound(),
            r@ == old(self)@.take(least(old(self)@.len() as int, max as int)),
            final(self)@ == old(self)@.skip(r@.len() as int),
    {
        let n: usize = if self.buf.len() < max {
            self.buf.len()
        } else {
            max
        };
        let rest: Vec<i16> = self.buf.split_off(n);
        let mut taken: Vec<i16> = rest;
        std::mem::swap(&mut taken, &mut self.buf);
        assert(self.buf@ =~= old(self)@.skip(n as int));
        taken
    }

    /// Takes the oldest samples out and fills the rest of `out` with silence; returns how many
    /// samples were taken.
    pub fn pop_into_i16(&mut self, out: &mut [i16]) -> (n: usize)
        requires
            old(self).wf(),
        ensures
            final(self).wf(),
            final(self).bound() == old(self).bound(),
            n == least(old(self)@.len() as int, old(out)@.len() as int),
            final(self)@ == old(self)@.skip(n as int),
            final(out)@ == old(self)@.take(n as int) + Seq::new(
                (old(out)@.len() - n) as nat,
                |i: int| 0i16,
            ),
    {
        let ghost was = out@;
        let n: usize = self.drain_into(out);
        let ghost taken = out@.take(n as int);
        let total: usize = out.len();
        for i in n..total
            invariant
                n <= i <= total == out@.len(),
                taken.len() == n,
                out@.take(i as int) == taken + Seq::new((i - n) as nat, |i: int| 0i16),
        {
            let ghost before = out@;
            out[i] = 0;
            assert(out@.take(i + 1) =~= before.take(i as int).push(0i16));
            assert((taken + Seq::new((i - n) as nat, |i: int| 0i16)).push(0i16) =~= taken
                + Seq::new((i + 1 - n) as nat, |i: int| 0i16));
        }
        assert(out@.take(total as int) =~= out@);
        assert(taken =~= old(self)@.take(n as int));
        n
    }

    /// How many samples are queued.
    pub fn len(&self) -> (r: usize)
        ensures
            r == self@.len(),
    {
        self.buf.len()
    }

    /// Whether no sample is queued.
    pub fn is_empty(&self) -> (r: bool)
        ensures
            r == (self@.len() == 0),
    {
        self.buf.len() == 0
    }
}

/// What is drained after writing is the newest of what was queued and written, oldest first; what
/// is left follows it.
pub proof fn law_fifo(queued: Seq<i16>, written: Seq<i16>, cap: int, max: int)
    requires
        0 <= cap,
        0 <= max,
    ensures
        ({
            let q = newest(queued + written, cap);
            let n = least(q.len() as int, max);
            &&& q.len() <= cap
            &&& q.take(n) + q.skip(n) == q
            &&& queued.len() + written.len() <= cap ==> q == queued + written
        }),
{
    let q = newest(queued + written, cap);
    let n = least(q.len() as int, max);
    assert(q.take(n) + q.skip(n) =~= q);
}

/// What a bound keeps is the end: the last element of all is the last that is kept, the one before
/// it the one before that, and so on as far as the bound goes.
pub proof fn law_newest_keeps_end<T>(s: Seq<T>, cap: int, back: int)
    requires
        0 <= cap,
        0 <= back < s.len(),
    ensures
        newest(s, cap).len() == (if s.len() < cap {
            s.len() as int
        } else {
            cap
        }),
        back < cap ==> newest(s, cap)[newest(s, cap).len() - 1 - back] == s[s.len() - 1 - back],
{
}

/// Writing twice is writing both runs at once: what the bound drops does not depend on how the
/// samples were cut into blocks.
pub proof fn law_newest_twice<T>(s: Seq<T>, a: Seq<T>, b: Seq<T>, cap: int)
    requires
        0 <= cap,
    ensures
        newest(newest(s + a, cap) + b, cap) == newest(s + (a + b), cap),
{
    assert(newest(newest(s + a, cap) + b, cap) =~= newest(s + (a + b), cap));
}

/// The bound that a shared buffer keeps.
pub struct Bounded {
    pub cap: usize,
}

impl RwLockPredicate<AudioFifo> for Bounded {
    open spec fn inv(self, v: AudioFifo) -> bool {
        v.wf() && v.bound() == self.cap
    }
}

/// A buffer of at most 200 ms of audio.
pub const BUF_SINK_DEFAULT_CAP: usize = 960;

/// A sink that appends to a buffer which it shares with its handles, so that another thread can
/// read at its own pace.
pub struct BufSink {
    inner: Arc<RwLock<AudioFifo, Bounded>>,
}

/// A handle that reads from the shared buffer of a [`BufSink`].
pub struct BufSinkHandle {
    inner: Arc<RwLock<AudioFifo, Bounded>>,
}

impl BufSink {
    /// The bound of the shared buffer.
    pub closed spec fn bound(&self) -> int {
        self.inner.pred().cap as int
    }

    /// Whether both sinks write to one buffer.
    pub closed spec fn same_buffer(&self, other: BufSink) -> bool {
        self.inner == other.inner
    }

    /// A sink and a handle that share a buffer of at most `cap` samples.
    pub fn pair(cap: usize) -> (r: (BufSink, BufSinkHandle))
        ensures
            r.0.bound() == cap,
            r.1.bound() == cap,
            r.1.reads_from(r.0),
    {
        let inner = Arc::new(RwLock::new(AudioFifo::new(cap), Ghost(Bounded { cap })));
        (BufSink { inner: inner.clone() }, BufSinkHandle { inner })
    }
}

impl Default for BufSink {
    fn default() -> (r: BufSink)
        ensures
            r.bound() == BUF_SINK_DEFAULT_CAP,
    {
        let (sink, _handle) = BufSink::pair(BUF_SINK_DEFAULT_CAP);
        sink
    }
}

impl AudioSink for BufSink {
    type Error = SinkError;

    /// Every sample is taken, and the sink keeps its buffer.
    open spec fn takes(
        &self,
        samples: Seq<i16>,
        after: &BufSink,
        r: Result<usize, SinkError>,
    ) -> bool {
        (r matches Ok(n) && n == samples.len()) && after.same_buffer(*self)
    }

    /// Appends to the shared buffer by [`AudioFifo::push`].
    fn write(&mut self, samples: &[i16]) -> (r: Result<usize, SinkError>)
        ensures
            final(self).bound() == old(self).bound(),
    {
        let (mut fifo, handle) = self.inner.acquire_write();
        fifo.push(samples);
        handle.release_write(fifo);
        Ok(samples.len())
    }
}

impl Clone for BufSinkHandle {
    fn clone(&self) -> (r: BufSinkHandle)
        ensures
            r.same_buffer(*self),
            r.bound() == self.bound(),
    {
        BufSinkHandle { inner: self.inner.clone() }
    }
}

impl BufSinkHandle {
    /// The bound of the shared buffer.
    pub closed spec fn bound(&self) -> int {
        self.inner.pred().cap as int
    }

    /// Whether the handle reads what the sink writes.
    pub closed spec fn reads_from(&self, sink: BufSink) -> bool {
        self.inner == sink.inner
    }

    /// Whether both handles read from one buffer.
    pub closed spec fn same_buffer(&self, other: BufSinkHandle) -> bool {
        self.inner == other.inner
    }

    /// How many samples are queued. Other handles and the sink may change that at any time.
    pub fn len(&self) -> (r: usize)
        ensures
            r <= self.bound(),
    {
        let handle = self.inner.acquire_read();
        let n: usize = handle.borrow().len();
        handle.release_read();
        n
    }

    /// Whether no sample is queued. Other handles and the sink may change that at any time.
    pub fn is_empty(&self) -> (r: bool)
        ensures
            self.bound() == 0 ==> r,
    {
        let handle = self.inner.acquire_read();
        let e: bool = handle.borrow().is_empty();
        handle.release_read();
        e
    }

    /// Takes the oldest queued samples out into the front of `out` by [`AudioFifo::drain_into`];
    /// returns how many. Which samples are queued when the lock is taken, if any, is up to the sink
    /// and the other handles.
    pub fn drain_into(&self, out: &mut [i16]) -> (n: usize)
        ensures
            n <= old(out)@.len(),
            n <= self.bound(),
            final(out)@.len() == old(out)@.len(),
            final(out)@.skip(n as int) == old(out)@.skip(n as int),
    {
        let (mut fifo, handle) = self.inner.acquire_write();
        let n: usize = fifo.drain_into(out);
        handle.release_write(fifo);
        assert(out@.skip(n as int) =~= old(out)@.skip(n as int));
        n
    }

    /// Takes at most `max` of the oldest queued samples out by [`AudioFifo::drain`]. Which samples
    /// are queued when the lock is taken, if any, is up to the sink and the other handles.
    pub fn drain(&self, max: usize) -> (r: Vec<i16>)
        ensures
            r@.len() <= max,
            r@.len() <= self.bound(),
    {
        let (mut fifo, handle) = self.inner.acquire_write();
        let r: Vec<i16> = fifo.drain(max);
        handle.release_write(fifo);
        r
    }
}

/// A sink that keeps what it gets, at most a given number of samples if it is bounded.
#[derive(Debug)]
pub struct VecSink {
    buf: Vec<i16>,
    max: Option<usize>,
}

impl View for VecSink {
    type V = Seq<i16>;

    closed spec fn view(&self) -> Seq<i16> {
        self.buf@
    }
}

impl Default for VecSink {
    fn default() -> (r: VecSink)
        ensures
            r@ == Seq::<i16>::empty(),
            r.bound() is None,
    {
        VecSink { buf: Vec::new(), max: None }
    }
}

impl VecSink {
    /// The bound, if there is one.
    pub closed spec fn bound(&self) -> Option<usize> {
        self.max
    }

    /// An empty sink without a bound.
    pub fn new() -> (r: VecSink)
        ensures
            r@ == Seq::<i16>::empty(),
            r.bound() is None,
    {
        VecSink { buf: Vec::new(), max: None }
    }

    /// The sink with a bound of `max` samples, which takes effect at the next write.
    pub fn with_max(self, max: usize) -> (r: VecSink)
        ensures
            r@ == self@,
            r.bound() == Some(max),
    {
        VecSink { buf: self.buf, max: Some(max) }
    }

    /// The samples so far.
    pub fn samples(&self) -> (r: &[i16])
        ensures
            r@ == self@,
    {
        self.buf.as_slice()
    }

    /// Takes the samples out.
    pub fn into_samples(self) -> (r: Vec<i16>)
        ensures
            r@ == self@,
    {
        self.buf
    }

    /// Forgets the samples.
    pub fn clear(&mut self)
        ensures
            final(self)@ == Seq::<i16>::empty(),
            final(self).bound() == old(self).bound(),
    {
        self.buf.clear();
    }
}

impl AudioSink for VecSink {
    type Error = SinkError;

    /// Every sample is taken and kept behind the others; over the bound the oldest are dropped.
    open spec fn takes(
        &self,
        samples: Seq<i16>,
        after: &VecSink,
        r: Result<usize, SinkError>,
    ) -> bool {
        &&& r matches Ok(n) && n == samples.len()
        &&& after.bound() == self.bound()
        &&& after@ == match self.bound() {
            Some(max) => newest(self@ + samples, max as int),
            None => self@ + samples,
        }
    }

    fn write(&mut self, samples: &[i16]) -> (r: Result<usize, SinkError>) {
        match self.max {
            Some(max) => {
                append_newest(&mut self.buf, samples, max);
            },
            None => {
                append(&mut self.buf, samples);
            },
        }
        Ok(samples.len())
    }
}

/// A sink that discards what it gets.
#[derive(Debug)]
pub struct DropSink;

impl Default for DropSink {
    fn default() -> (r: DropSink)
        ensures
            r == DropSink,
    {
        DropSink
    }
}

impl DropSink {
    /// A sink that discards what it gets.
    pub fn new() -> (r: DropSink)
        ensures
            r == DropSink,
    {
        DropSink
    }
}

impl AudioSink for DropSink {
    type Error = SinkError;

    /// Every sample is taken, and nothing is kept.
    open spec fn takes(
        &self,
        samples: Seq<i16>,
        after: &DropSink,
        r: Result<usize, SinkError>,
    ) -> bool {
        r matches Ok(n) && n == samples.len()
    }

    fn write(&mut self, samples: &[i16]) -> (r: Result<usize, SinkError>) {
        Ok(samples.len())
    }
}

} // verus!
