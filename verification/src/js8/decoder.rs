//! When each speed is decoded, on which samples, and which decodes are passed on.
//!
//! Samples at 12 kHz are kept in one rolling buffer for all speeds. A speed is decoded when its
//! cycle holds enough of a transmission, and again after another second and a half. The same
//! station is passed on only once in a while. Samples and frequencies are only stored and compared
//! by the caller, so their types are left open.
use crate::js8::msg::{opt_text, DecodedFrame, FrameText};
use crate::js8::params;
use crate::js8::params::Mode;
use crate::receiver::sink::newest;
use crate::receiver::spot;
use crate::receiver::spot::{SpotFields, SpotStation};
use crate::text;
use vstd::prelude::*;

verus! {

/// The sample rate.
pub const JS8_SAMPLE_RATE_HZ: u32 = 12_000;

/// Samples in a second.
pub const JS8_SAMPLES_PER_SEC: u64 = 12_000;

/// How many samples must come in before a speed is decoded again: a second and a half.
pub const REARM_SAMPLES: u64 = 18_000;

/// How many samples are kept: 60 s.
pub const JS8_BUFFER_CAP: usize = 720_000;

/// How long the same station is not passed on again, in ms.
pub const EMIT_DEDUP_MS: u64 = 45_000;

/// The frequencies in Hz where the mode is to be heard.
pub const KNOWN_FREQS: [u32; 12] = [
    1_810_000,
    3_577_000,
    7_078_000,
    10_130_000,
    14_078_000,
    18_100_000,
    21_078_000,
    24_920_000,
    28_078_000,
    50_313_000,
    145_500_000,
    432_075_000,
];

// ---- decoded messages ----

/// A decoded frame with where and when it was heard.
#[derive(Debug, Clone, PartialEq)]
pub struct Js8Message<F> {
    /// The frame.
    pub frame: DecodedFrame,
    /// The name of the speed.
    pub submode: &'static str,
    /// The number of the speed.
    pub mode_id: u8,
    /// Frequency in the audio passband, in Hz.
    pub freq_hz: F,
    /// Start of the signal in the window, in seconds.
    pub dt_sec: F,
    /// Signal to noise ratio in dB.
    pub snr_db: F,
    /// Start of the window, in ms since 1970.
    pub slot_ms: u64,
}

impl<F> Js8Message<F> {
    /// The mode under which a station is reported: one name for all speeds.
    pub fn mode(&self) -> (r: &'static str)
        ensures
            r@ == "JS8"@,
    {
        "JS8"
    }

    /// The message as it is displayed.
    pub fn display(&self) -> (r: &str)
        ensures
            r@ == self.frame.message@,
    {
        self.frame.message.as_str()
    }

    /// What is reported of the message.
    pub fn spot_fields(&self, st: &SpotStation) -> (r: Option<SpotFields>)
        ensures
            r is Some <==> spot::js8_fields(self.frame@, st.callsign@, st.grid@) is Some,
            r matches Some(s) ==> spot::js8_fields(self.frame@, st.callsign@, st.grid@) == Some(
                (s.caller@, s.locator@),
            ),
    {
        spot::js8_spot_fields(&self.frame, st)
    }
}

/// When a window of `len` samples began, in ms, if it ends now: whole seconds are counted back, but
/// not past the start of time.
pub open spec fn start_ms(now_ms: int, len: int) -> int {
    if now_ms >= len / 12_000 * 1_000 {
        now_ms - len / 12_000 * 1_000
    } else {
        0
    }
}

/// Finds when a window of `len` samples began that ends now.
pub fn window_start_ms(now_ms: u64, len: usize) -> (r: u64)
    ensures
        r == start_ms(now_ms as int, len as int),
{
    let back: u128 = len as u128 / 12_000 * 1_000;
    if now_ms as u128 >= back {
        now_ms - back as u64
    } else {
        0
    }
}

// ---- readiness ----

/// How many samples a whole transmission needs: its symbols, its delay and half a second.
pub open spec fn needed(m: Mode) -> int {
    79 * m.nsps + 6_000 + m.astart
}

/// How many samples of its current cycle a speed has.
pub open spec fn in_cycle(total: int, m: Mode) -> int {
    (total - 1) % m.nmax as int + 1
}

/// Whether a speed has not been decoded for long enough.
pub open spec fn rearmed(total: int, last: int) -> bool {
    last == 0 || total - last >= REARM_SAMPLES
}

/// Whether a speed is decoded now: it is due again, and its cycle has just begun, so that a signal
/// may lie across the boundary, or holds a transmission but for the last second and a half.
pub open spec fn fires(total: int, last: int, m: Mode) -> bool {
    &&& rearmed(total, last)
    &&& in_cycle(total, m) < REARM_SAMPLES || in_cycle(total, m) >= needed(m) - REARM_SAMPLES
}

/// The samples that a speed is decoded on: what there is of its current cycle.
pub open spec fn window_of<S>(samples: Seq<S>, total: int, m: Mode) -> Seq<S> {
    newest(samples, in_cycle(total, m))
}

/// The speeds among the first `n` that are decoded now, each with its samples.
pub open spec fn ready<S>(samples: Seq<S>, total: int, last: Seq<u64>, n: nat) -> Seq<(int, Seq<S>)>
    decreases n,
{
    if n == 0 {
        Seq::empty()
    } else {
        let before = ready(samples, total, last, (n - 1) as nat);
        let i = n - 1;
        if fires(total, last[i] as int, params::speed(i)) {
            before.push((i, window_of(samples, total, params::speed(i))))
        } else {
            before
        }
    }
}

/// When the speeds were last decoded, once those that are ready have been.
pub open spec fn rearm(total: u64, last: Seq<u64>) -> Seq<u64> {
    Seq::new(
        4,
        |i: int|
            if fires(total as int, last[i] as int, params::speed(i)) {
                total
            } else {
                last[i]
            },
    )
}

/// The contents of windows.
pub open spec fn windows<S>(v: Seq<(usize, Vec<S>)>) -> Seq<(int, Seq<S>)> {
    Seq::new(v.len(), |i: int| (v[i].0 as int, v[i].1@))
}

// ---- passing on ----

/// A station at a speed: number of the speed, callsign and square.
pub type StationKey = (u8, Seq<char>, Option<Seq<char>>);

/// The station of a frame.
pub open spec fn station_key(mode_id: u8, f: FrameText) -> StationKey {
    (mode_id, f.callsign, f.grid)
}

/// Whether a decode is held back: its station was passed on a short while ago, on a frequency
/// `near` by.
pub open spec fn held_back<F>(
    emitted: Map<StationKey, (u64, F)>,
    k: StationKey,
    near: bool,
    now: u64,
) -> bool {
    emitted.contains_key(k) && near && now - emitted[k].0 < EMIT_DEDUP_MS
}

/// A decoder: its samples, how many ever came in, when each speed was last decoded, and when and
/// where each station was last passed on.
#[verifier::ext_equal]
pub struct DecoderState<S, F> {
    pub samples: Seq<S>,
    pub total: u64,
    pub last: Seq<u64>,
    pub emitted: Map<StationKey, (u64, F)>,
}

#[derive(Debug)]
struct Emitted<F> {
    mode_id: u8,
    callsign: String,
    grid: Option<String>,
    at: u64,
    freq: F,
}

spec fn emitted_key<F>(e: Emitted<F>) -> StationKey {
    (e.mode_id, e.callsign@, opt_text(e.grid))
}

spec fn at_key<F>(v: Seq<Emitted<F>>, k: StationKey, i: int) -> bool {
    0 <= i < v.len() && emitted_key(v[i]) == k
}

spec fn distinct<F>(v: Seq<Emitted<F>>) -> bool {
    forall|i: int, j: int|
        0 <= i < j < v.len() ==> emitted_key(#[trigger] v[i]) != emitted_key(#[trigger] v[j])
}

spec fn emitted_map<F>(v: Seq<Emitted<F>>) -> Map<StationKey, (u64, F)> {
    Map::new(
        |k: StationKey| exists|i: int| at_key(v, k, i),
        |k: StationKey|
            {
                let i = choose|i: int| at_key(v, k, i);
                (v[i].at, v[i].freq)
            },
    )
}

proof fn lemma_emitted_map<F>(v: Seq<Emitted<F>>, i: int)
    requires
        distinct(v),
        0 <= i < v.len(),
    ensures
        emitted_map(v).contains_key(emitted_key(v[i])),
        emitted_map(v)[emitted_key(v[i])] == (v[i].at, v[i].freq),
{
    let k = emitted_key(v[i]);
    assert(at_key(v, k, i));
    let j = choose|j: int| at_key(v, k, j);
    assert(at_key(v, k, j));
}

proof fn lemma_emitted_insert<F>(v: Seq<Emitted<F>>, w: Seq<Emitted<F>>, i: int)
    requires
        distinct(v),
        0 <= i < w.len(),
        (i < v.len() && w == v.update(i, w[i]) && emitted_key(v[i]) == emitted_key(w[i])) || (i
            == v.len() && w == v.push(w[i]) && forall|j: int|
            0 <= j < v.len() ==> emitted_key(#[trigger] v[j]) != emitted_key(w[i])),
    ensures
        distinct(w),
        emitted_map(w) == emitted_map(v).insert(emitted_key(w[i]), (w[i].at, w[i].freq)),
{
    let k = emitted_key(w[i]);
    assert forall|a: int, b: int| 0 <= a < b < w.len() implies emitted_key(#[trigger] w[a])
        != emitted_key(#[trigger] w[b]) by {
        if a != i {
            assert(w[a] == v[a]);
        }
        if b != i {
            assert(w[b] == v[b]);
        }
        if i < v.len() {
            assert(emitted_key(v[a]) != emitted_key(v[b]));
        }
    }
    let got = emitted_map(w);
    let want = emitted_map(v).insert(k, (w[i].at, w[i].freq));
    assert forall|q: StationKey| #[trigger] got.dom().contains(q) implies want.contains_key(q)
        && want[q] == got[q] by {
        let j = choose|j: int| at_key(w, q, j);
        assert(at_key(w, q, j));
        lemma_emitted_map(w, j);
        if j != i {
            assert(w[j] == v[j]);
            lemma_emitted_map(v, j);
        }
    }
    assert forall|q: StationKey| #[trigger] want.dom().contains(q) implies got.contains_key(q) by {
        if q == k {
            assert(at_key(w, q, i));
        } else {
            let j = choose|j: int| at_key(v, q, j);
            assert(at_key(v, q, j));
            if j == i {
                assert(false);
            }
            assert(w[j] == v[j]);
            assert(at_key(w, q, j));
        }
    }
    assert(got.dom() =~= want.dom());
    assert(got =~= want);
}

fn same_opt(a: &Option<String>, b: &Option<String>) -> (r: bool)
    ensures
        r == (opt_text(*a) == opt_text(*b)),
{
    match (a, b) {
        (Some(x), Some(y)) => *x == *y,
        (None, None) => true,
        _ => false,
    }
}

fn copy_text(o: &Option<String>) -> (r: Option<String>)
    ensures
        opt_text(r) == opt_text(*o),
{
    match o {
        Some(s) => Some(s.clone()),
        None => None,
    }
}

/// The decoder of all speeds.
#[derive(Debug)]
pub struct Js8Decoder<S, F> {
    buf: Vec<S>,
    total: u64,
    last_decode_total: [u64; 4],
    last_emit: Vec<Emitted<F>>,
}

impl<S, F> View for Js8Decoder<S, F> {
    type V = DecoderState<S, F>;

    closed spec fn view(&self) -> DecoderState<S, F> {
        DecoderState {
            samples: self.buf@,
            total: self.total,
            last: self.last_decode_total@,
            emitted: emitted_map(self.last_emit@),
        }
    }
}

impl<S: Copy, F: Copy> Js8Decoder<S, F> {
    /// The buffer keeps its bound, and no station is remembered twice.
    pub closed spec fn wf(&self) -> bool {
        self.buf@.len() <= JS8_BUFFER_CAP && distinct(self.last_emit@)
    }

    /// A decoder without samples.
    pub fn new() -> (r: Js8Decoder<S, F>)
        ensures
            r.wf(),
            r@.samples == Seq::<S>::empty(),
            r@.total == 0,
            r@.last == seq![0u64, 0, 0, 0],
            r@.emitted == Map::<StationKey, (u64, F)>::empty(),
    {
        let r: Js8Decoder<S, F> = Js8Decoder {
            buf: Vec::new(),
            total: 0,
            last_decode_total: [0;4],
            last_emit: Vec::new(),
        };
        assert(r@.last =~= seq![0u64, 0, 0, 0]);
        assert(r@.emitted =~= Map::<StationKey, (u64, F)>::empty());
        r
    }

    /// How many samples are kept.
    pub fn buffered_samples(&self) -> (r: usize)
        ensures
            r == self@.samples.len(),
    {
        self.buf.len()
    }

    /// The samples that are kept, oldest first.
    pub fn samples(&self) -> (r: &[S])
        ensures
            r@ == self@.samples,
    {
        self.buf.as_slice()
    }

    /// How many samples ever came in.
    pub fn total_samples(&self) -> (r: u64)
        ensures
            r == self@.total,
    {
        self.total
    }

    /// Appends samples and drops the oldest ones over 60 s.
    pub fn add_samples(&mut self, samples: &[S])
        requires
            old(self).wf(),
        ensures
            final(self).wf(),
            final(self)@ == (DecoderState {
                samples: newest(old(self)@.samples + samples@, JS8_BUFFER_CAP as int),
                total: old(self)@.total.saturating_add(samples@.len() as u64),
                ..old(self)@
            }),
    {
        for i in 0..samples.len()
            invariant
                self.buf@ == old(self).buf@ + samples@.take(i as int),
                self.total == old(self).total,
                self.last_decode_total == old(self).last_decode_total,
                self.last_emit@ == old(self).last_emit@,
        {
            self.buf.push(samples[i]);
        }
        assert(samples@.take(samples@.len() as int) == samples@);
        self.total = self.total.saturating_add(samples.len() as u64);
        if self.buf.len() > JS8_BUFFER_CAP {
            let over: usize = self.buf.len() - JS8_BUFFER_CAP;
            let kept: Vec<S> = self.buf.split_off(over);
            self.buf = kept;
            assert(self.buf@ =~= newest(old(self)@.samples + samples@, JS8_BUFFER_CAP as int));
        }
    }

    /// The last `want` samples.
    fn tail(&self, want: usize) -> (r: Vec<S>)
        requires
            want <= self@.samples.len(),
        ensures
            r@ == self@.samples.skip(self@.samples.len() - want),
    {
        let from: usize = self.buf.len() - want;
        let mut out: Vec<S> = Vec::new();
        for i in from..self.buf.len()
            invariant
                from == self.buf@.len() - want,
                out@ == self.buf@.subrange(from as int, i as int),
        {
            out.push(self.buf[i]);
        }
        assert(out@ =~= self@.samples.skip(from as int));
        out
    }

    /// Takes the windows of the speeds that are ready, and notes that they are decoded now.
    pub fn snapshot_ready(&mut self) -> (r: Vec<(usize, Vec<S>)>)
        requires
            old(self).wf(),
        ensures
            final(self).wf(),
            old(self)@.total == 0 ==> r@.len() == 0 && final(self)@ == old(self)@,
            old(self)@.total > 0 ==> windows(r@) == ready(
                old(self)@.samples,
                old(self)@.total as int,
                old(self)@.last,
                4,
            ) && final(self)@ == (DecoderState {
                last: rearm(old(self)@.total, old(self)@.last),
                ..old(self)@
            }),
    {
        let mut out: Vec<(usize, Vec<S>)> = Vec::new();
        if self.total == 0 {
            return out;
        }
        let all: [Mode; 4] = params::modes();
        let ghost st = self@;
        assert(windows(out@) =~= Seq::empty());
        for mi in 0..4usize
            invariant
                old(self).wf(),
                self.wf(),
                st == old(self)@,
                st.total > 0,
                self.total == st.total,
                self.buf@ == st.samples,
                self.last_emit@ == old(self).last_emit@,
                forall|k: int| 0 <= k < 4 ==> #[trigger] all@[k] == params::speed(k),
                forall|k: int|
                    mi <= k < 4 ==> #[trigger] self.last_decode_total@[k] == st.last[k],
                forall|k: int|
                    0 <= k < mi ==> #[trigger] self.last_decode_total@[k] == rearm(
                        st.total,
                        st.last,
                    )[k],
                windows(out@) == ready(st.samples, st.total as int, st.last, mi as nat),
        {
            let mode: Mode = all[mi];
            proof {
                assert(all@[mi as int] == params::speed(mi as int));
                lemma_speed_values(mi as int);
            }
            let have: u64 = (self.total - 1) % mode.nmax as u64 + 1;
            let last: u64 = self.last_decode_total[mi];
            let due: bool = last == 0 || (self.total >= last && self.total - last
                >= REARM_SAMPLES);
            let need: u64 = 79 * mode.nsps as u64 + 6_000 + mode.astart as u64;
            assert(need == needed(mode));
            if due && (have < REARM_SAMPLES || have >= need - REARM_SAMPLES) {
                let want: usize = if have < self.buf.len() as u64 {
                    have as usize
                } else {
                    self.buf.len()
                };
                let window: Vec<S> = self.tail(want);
                assert(window@ =~= window_of(st.samples, st.total as int, mode));
                self.last_decode_total[mi] = self.total;
                let ghost before = windows(out@);
                out.push((mi, window));
                assert(windows(out@) =~= before.push((mi as int, window@)));
            }
        }
        assert(self@.last =~= rearm(st.total, st.last));
        out
    }

    /// The place of a station among those that were passed on.
    fn find_emitted(&self, mode_id: u8, frame: &DecodedFrame) -> (r: Option<usize>)
        requires
            self.wf(),
        ensures
            r is Some <==> self@.emitted.contains_key(station_key(mode_id, frame@)),
            r matches Some(i) ==> i < self.last_emit@.len() && emitted_key(
                self.last_emit@[i as int],
            ) == station_key(mode_id, frame@),
            r is None ==> forall|j: int|
                0 <= j < self.last_emit@.len() ==> emitted_key(#[trigger] self.last_emit@[j])
                    != station_key(mode_id, frame@),
    {
        for i in 0..self.last_emit.len()
            invariant
                self.wf(),
                forall|j: int|
                    0 <= j < i ==> emitted_key(#[trigger] self.last_emit@[j]) != station_key(
                        mode_id,
                        frame@,
                    ),
        {
            let e: &Emitted<F> = &self.last_emit[i];
            if e.mode_id == mode_id && e.callsign == frame.callsign && same_opt(
                &e.grid,
                &frame.grid,
            ) {
                proof {
                    lemma_emitted_map(self.last_emit@, i as int);
                }
                return Some(i);
            }
        }
        None
    }

    /// When and on which frequency a station was last passed on.
    pub fn last_emitted(&self, mode_id: u8, frame: &DecodedFrame) -> (r: Option<(u64, F)>)
        requires
            self.wf(),
        ensures
            r is Some <==> self@.emitted.contains_key(station_key(mode_id, frame@)),
            r matches Some(e) ==> self@.emitted[station_key(mode_id, frame@)] == e,
    {
        match self.find_emitted(mode_id, frame) {
            Some(i) => {
                proof {
                    lemma_emitted_map(self.last_emit@, i as int);
                }
                Some((self.last_emit[i].at, self.last_emit[i].freq))
            },
            None => None,
        }
    }

    /// Decides whether a decode is passed on, and notes it if so. `near` says whether its frequency
    /// is within half a tone of the one that [`Self::last_emitted`] gives.
    pub fn should_emit(
        &mut self,
        mode_id: u8,
        frame: &DecodedFrame,
        freq: F,
        near: bool,
        now_ms: u64,
    ) -> (r: bool)
        requires
            old(self).wf(),
        ensures
            final(self).wf(),
            r == !held_back(old(self)@.emitted, station_key(mode_id, frame@), near, now_ms),
            !r ==> final(self)@ == old(self)@,
            r ==> final(self)@ == (DecoderState {
                emitted: old(self)@.emitted.insert(station_key(mode_id, frame@), (now_ms, freq)),
                ..old(self)@
            }),
    {
        let entry: Emitted<F> = Emitted {
            mode_id,
            callsign: frame.callsign.clone(),
            grid: copy_text(&frame.grid),
            at: now_ms,
            freq,
        };
        let ghost before = self.last_emit@;
        match self.find_emitted(mode_id, frame) {
            Some(i) => {
                proof {
                    lemma_emitted_map(self.last_emit@, i as int);
                }
                let at: u64 = self.last_emit[i].at;
                let age: u64 = if now_ms >= at {
                    now_ms - at
                } else {
                    0
                };
                if age < EMIT_DEDUP_MS && near {
                    return false;
                }
                self.last_emit.set(i, entry);
                proof {
                    lemma_emitted_insert(before, self.last_emit@, i as int);
                }
            },
            None => {
                self.last_emit.push(entry);
                proof {
                    lemma_emitted_insert(before, self.last_emit@, before.len() as int);
                }
            },
        }
        true
    }
}

proof fn lemma_speed_values(i: int)
    requires
        0 <= i < 4,
    ensures
        0 < params::speed(i).nmax <= 360_000,
        params::speed(i).nsps <= 3_840,
        params::speed(i).astart <= 6_000,
        18_000 <= needed(params::speed(i)) <= params::speed(i).nmax,
{
}

impl<S: Copy, F: Copy> Default for Js8Decoder<S, F> {
    fn default() -> (r: Js8Decoder<S, F>)
        ensures
            r.wf(),
            r@.samples == Seq::<S>::empty(),
            r@.total == 0,
            r@.last == seq![0u64, 0, 0, 0],
            r@.emitted == Map::<StationKey, (u64, F)>::empty(),
    {
        Js8Decoder::new()
    }
}

// ---- the passes over a window ----

/// A decoded frame of a window.
#[derive(Debug, Clone)]
pub struct Hit<F> {
    pub frame: DecodedFrame,
    pub freq: F,
    pub dt: F,
    pub snr: F,
}

/// What a hit does to what was passed on: the next station map, and whether the hit is passed on.
/// The caller's comparison decides whether its frequency is near the last one of its station.
pub open spec fn report_step<F, N: Fn(F, F) -> bool>(
    near: N,
    mode_id: u8,
    now_ms: u64,
    hits: Seq<Hit<F>>,
    states: Seq<Map<StationKey, (u64, F)>>,
    kept: Seq<bool>,
    k: int,
) -> bool {
    let key = station_key(mode_id, hits[k].frame@);
    let was = states[k];
    exists|b: bool|
        #![trigger held_back(was, key, b, now_ms)]
        (was.contains_key(key) ==> call_ensures(near, (hits[k].freq, was[key].1), b)) && kept[k]
            == !held_back(was, key, b, now_ms) && states[k + 1] == if kept[k] {
            was.insert(key, (now_ms, hits[k].freq))
        } else {
            was
        }
}

/// The hits of a window, taken one after another: `states` holds what was passed on before each of
/// them and after the last, `kept` which of them were passed on.
pub open spec fn report_run<F, N: Fn(F, F) -> bool>(
    near: N,
    mode_id: u8,
    now_ms: u64,
    hits: Seq<Hit<F>>,
    states: Seq<Map<StationKey, (u64, F)>>,
    kept: Seq<bool>,
) -> bool {
    &&& kept.len() == hits.len()
    &&& states.len() == hits.len() + 1
    &&& forall|k: int|
        0 <= k < hits.len() ==> #[trigger] report_step(
            near,
            mode_id,
            now_ms,
            hits,
            states,
            kept,
            k,
        )
}

/// The places of those of the first `n` hits that were passed on.
pub open spec fn kept_places(kept: Seq<bool>, n: int) -> Seq<int>
    decreases n,
{
    if n <= 0 {
        Seq::empty()
    } else if kept[n - 1] {
        kept_places(kept, n - 1).push(n - 1)
    } else {
        kept_places(kept, n - 1)
    }
}

/// The message of a hit.
pub open spec fn message_of<F>(m: Js8Message<F>, h: Hit<F>, mode: Mode, slot_ms: u64) -> bool {
    &&& m.frame@ == h.frame@
    &&& m.submode == mode.name
    &&& m.mode_id == mode.id
    &&& m.freq_hz == h.freq
    &&& m.dt_sec == h.dt
    &&& m.snr_db == h.snr
    &&& m.slot_ms == slot_ms
}

/// The messages of the hits that were passed on, in their order.
pub open spec fn messages_of<F>(
    out: Seq<Js8Message<F>>,
    hits: Seq<Hit<F>>,
    kept: Seq<bool>,
    n: int,
    mode: Mode,
    slot_ms: u64,
) -> bool {
    let at = kept_places(kept, n);
    &&& out.len() == at.len()
    &&& forall|q: int|
        0 <= q < out.len() ==> message_of(#[trigger] out[q], hits[at[q]], mode, slot_ms)
}

proof fn lemma_kept_places(kept: Seq<bool>, more: Seq<bool>, n: int)
    requires
        0 <= n <= kept.len(),
        n <= more.len(),
        forall|k: int| 0 <= k < n ==> kept[k] == more[k],
    ensures
        kept_places(kept, n) == kept_places(more, n),
        forall|q: int|
            0 <= q < kept_places(kept, n).len() ==> 0 <= #[trigger] kept_places(kept, n)[q] < n,
    decreases n,
{
    if n > 0 {
        lemma_kept_places(kept, more, n - 1);
    }
}

impl<S: Copy, F: Copy> Js8Decoder<S, F> {
    /// Turns the hits of a window of `len` samples, which ends now, into messages, and leaves out
    /// those that repeat what was passed on a short time ago on nearly the same frequency.
    pub fn report_hits<N: Fn(F, F) -> bool>(
        &mut self,
        mode: &Mode,
        hits: Vec<Hit<F>>,
        len: usize,
        now_ms: u64,
        near: &N,
    ) -> (r: Vec<Js8Message<F>>)
        requires
            old(self).wf(),
            forall|a: F, b: F| #[trigger] call_requires(*near, (a, b)),
        ensures
            final(self).wf(),
            exists|states: Seq<Map<StationKey, (u64, F)>>, kept: Seq<bool>|
                #![trigger report_run(*near, mode.id, now_ms, hits@, states, kept)]
                report_run(*near, mode.id, now_ms, hits@, states, kept) && states[0] == old(
                    self,
                )@.emitted && final(self)@ == (DecoderState { emitted: states.last(), ..old(self)@ })
                    && messages_of(
                    r@,
                    hits@,
                    kept,
                    hits@.len() as int,
                    *mode,
                    start_ms(now_ms as int, len as int) as u64,
                ),
    {
        let slot_ms: u64 = window_start_ms(now_ms, len);
        let ghost all = hits@;
        let ghost mut states: Seq<Map<StationKey, (u64, F)>> = seq![self@.emitted];
        let ghost mut kept: Seq<bool> = Seq::empty();
        let mut left: Vec<Hit<F>> = hits;
        let mut out: Vec<Js8Message<F>> = Vec::new();
        assert(left@ =~= all.skip(0));
        while left.len() > 0
            invariant
                self.wf(),
                forall|a: F, b: F| #[trigger] call_requires(*near, (a, b)),
                kept.len() <= all.len(),
                left@ == all.skip(kept.len() as int),
                states.len() == kept.len() + 1,
                states[0] == old(self)@.emitted,
                self@ == (DecoderState { emitted: states.last(), ..old(self)@ }),
                slot_ms == start_ms(now_ms as int, len as int),
                forall|k: int|
                    0 <= k < kept.len() ==> #[trigger] report_step(
                        *near,
                        mode.id,
                        now_ms,
                        all,
                        states,
                        kept,
                        k,
                    ),
                messages_of(out@, all, kept, kept.len() as int, *mode, slot_ms),
            decreases left@.len(),
        {
            let ghost n = kept.len() as int;
            let hit: Hit<F> = left.remove(0);
            assert(left@ =~= all.skip(n + 1));
            assert(hit == all[n]);
            let close: bool = match self.last_emitted(mode.id, &hit.frame) {
                Some((_, freq)) => near(hit.freq, freq),
                None => false,
            };
            let emit: bool = self.should_emit(mode.id, &hit.frame, hit.freq, close, now_ms);
            proof {
                let was_states = states;
                let was_kept = kept;
                let key = station_key(mode.id, hit.frame@);
                states = states.push(self@.emitted);
                kept = kept.push(emit);
                assert forall|k: int| 0 <= k < kept.len() implies #[trigger] report_step(
                    *near,
                    mode.id,
                    now_ms,
                    all,
                    states,
                    kept,
                    k,
                ) by {
                    if k < n {
                        assert(report_step(
                            *near,
                            mode.id,
                            now_ms,
                            all,
                            was_states,
                            was_kept,
                            k,
                        ));
                        let old_key = station_key(mode.id, all[k].frame@);
                        let b = choose|b: bool|
                            #![trigger held_back(was_states[k], old_key, b, now_ms)]
                            (was_states[k].contains_key(old_key) ==> call_ensures(
                                *near,
                                (all[k].freq, was_states[k][old_key].1),
                                b,
                            )) && was_kept[k] == !held_back(was_states[k], old_key, b, now_ms)
                                && was_states[k + 1] == if was_kept[k] {
                                was_states[k].insert(old_key, (now_ms, all[k].freq))
                            } else {
                                was_states[k]
                            };
                        assert(held_back(states[k], old_key, b, now_ms) == !kept[k]);
                    } else {
                        assert(kept[n] == !held_back(states[n], key, close, now_ms));
                    }
                }
                lemma_kept_places(was_kept, kept, n);
            }
            if emit {
                out.push(
                    Js8Message {
                        frame: hit.frame,
                        submode: mode.name,
                        mode_id: mode.id,
                        freq_hz: hit.freq,
                        dt_sec: hit.dt,
                        snr_db: hit.snr,
                        slot_ms,
                    },
                );
            }
        }
        assert(kept.len() == all.len());
        assert(report_run(*near, mode.id, now_ms, hits@, states, kept));
        out
    }
}

/// A window cut to `nmax` samples, or filled up with `zero`.
pub open spec fn fitted<S>(window: Seq<S>, nmax: int, zero: S) -> Seq<S> {
    Seq::new(
        nmax as nat,
        |i: int|
            if i < window.len() {
                window[i]
            } else {
                zero
            },
    )
}

/// A window that was fitted stays as it is when it is fitted again.
pub proof fn law_fit_twice<S>(window: Seq<S>, nmax: int, zero: S)
    requires
        nmax >= 0,
    ensures
        fitted(fitted(window, nmax, zero), nmax, zero) == fitted(window, nmax, zero),
        window.len() == nmax ==> fitted(window, nmax, zero) == window,
{
    assert(fitted(fitted(window, nmax, zero), nmax, zero) =~= fitted(window, nmax, zero));
    if window.len() == nmax {
        assert(fitted(window, nmax, zero) =~= window);
    }
}

/// A fitted window begins as the window does: it is the window and zeros behind it, or a part of it
/// with the rest behind.
pub proof fn law_fit_keeps_beginning<S>(window: Seq<S>, more: Seq<S>, zero: S)
    ensures
        fitted(window + more, window.len() as int, zero) == window,
        fitted(window, (window.len() + more.len()) as int, zero) == window + Seq::new(
            more.len(),
            |i: int| zero,
        ),
{
    assert(fitted(window + more, window.len() as int, zero) =~= window);
    assert(fitted(window, (window.len() + more.len()) as int, zero) =~= window + Seq::new(
        more.len(),
        |i: int| zero,
    ));
}

/// Cuts a window to `nmax` samples, or fills it up with `zero`.
pub fn fit_window<S: Copy>(window: &[S], nmax: usize, zero: S) -> (r: Vec<S>)
    ensures
        r@ == fitted(window@, nmax as int, zero),
{
    let mut out: Vec<S> = Vec::new();
    let ghost all = fitted(window@, nmax as int, zero);
    for i in 0..nmax
        invariant
            all == fitted(window@, nmax as int, zero),
            out@ == all.take(i as int),
    {
        if i < window.len() {
            out.push(window[i]);
        } else {
            out.push(zero);
        }
        assert(all.take(i + 1) =~= all.take(i as int).push(all[i as int]));
    }
    assert(all.take(nmax as int) =~= all);
    out
}

/// The pass that follows pass 1, 2 or 3 over a window: none when the pass found no candidates or
/// decoded nothing, and none after the third.
pub fn next_pass(ipass: u8, candidates: usize, improved: bool) -> (r: Option<u8>)
    requires
        1 <= ipass <= 3,
    ensures
        r == (if candidates > 0 && improved && ipass < 3 {
            Some((ipass + 1) as u8)
        } else {
            None
        }),
{
    if candidates > 0 && improved && ipass < 3 {
        Some(ipass + 1)
    } else {
        None
    }
}

/// Whether a pass subtracts what it decodes, so that the next one finds what lies beneath.
pub fn subtracts(ipass: u8) -> (r: bool)
    ensures
        r == (ipass < 3),
{
    ipass < 3
}

fn same_frame(a: &DecodedFrame, b: &DecodedFrame) -> (r: bool)
    ensures
        r == (a@ == b@),
{
    let num: bool = match (a.num, b.num) {
        (Some(x), Some(y)) => x == y,
        (None, None) => true,
        _ => false,
    };
    a.kind == b.kind && a.callsign == b.callsign && same_opt(&a.to, &b.to) && same_opt(
        &a.grid,
        &b.grid,
    ) && same_opt(&a.cmd, &b.cmd) && num && a.bits3 == b.bits3 && a.is_alt == b.is_alt && a.text
        == b.text && a.message == b.message
}

/// The place of a frame among hits, or their number.
pub open spec fn place_of<F>(hits: Seq<Hit<F>>, f: FrameText) -> int
    decreases hits.len(),
{
    if hits.len() == 0 {
        0
    } else if hits[0].frame@ == f {
        0
    } else {
        1 + place_of(hits.drop_first(), f)
    }
}

proof fn lemma_place_of<F>(hits: Seq<Hit<F>>, f: FrameText, n: int)
    requires
        0 <= n <= hits.len(),
        forall|i: int| 0 <= i < n ==> (#[trigger] hits[i]).frame@ != f,
        n == hits.len() || hits[n].frame@ == f,
    ensures
        place_of(hits, f) == n,
    decreases hits.len(),
{
    if n > 0 {
        assert(hits[0].frame@ != f);
        assert forall|i: int| 0 <= i < n - 1 implies (#[trigger] hits.drop_first()[i]).frame@
            != f by {
            assert(hits.drop_first()[i] == hits[i + 1]);
        }
        lemma_place_of(hits.drop_first(), f, n - 1);
    }
}

/// The place of a frame among hits, or their number when it is not among them.
pub fn find_hit<F>(hits: &Vec<Hit<F>>, frame: &DecodedFrame) -> (r: usize)
    ensures
        r == place_of(hits@, frame@),
        r <= hits@.len(),
        r < hits@.len() ==> hits@[r as int].frame@ == frame@,
{
    let mut i: usize = 0;
    while i < hits.len()
        invariant
            i <= hits@.len(),
            forall|k: int| 0 <= k < i ==> (#[trigger] hits@[k]).frame@ != frame@,
        decreases hits@.len() - i,
    {
        if same_frame(&hits[i].frame, frame) {
            proof {
                lemma_place_of(hits@, frame@, i as int);
            }
            return i;
        }
        i = i + 1;
    }
    proof {
        lemma_place_of(hits@, frame@, i as int);
    }
    i
}

/// The hits after another one: a frame that is among them keeps the stronger of both; another frame
/// goes to the end. `stronger` says whether the new one is stronger than the one at `at`.
pub open spec fn merged<F>(hits: Seq<Hit<F>>, at: int, stronger: bool, hit: Hit<F>) -> Seq<Hit<F>> {
    if at >= hits.len() {
        hits.push(hit)
    } else if stronger {
        hits.update(
            at,
            Hit { frame: hits[at].frame, freq: hit.freq, dt: hit.dt, snr: hit.snr },
        )
    } else {
        hits
    }
}

/// Adds a hit to those of earlier candidates; `at` is what [`find_hit`] gives for its frame.
pub fn merge_hit<F: Copy>(hits: &mut Vec<Hit<F>>, at: usize, stronger: bool, hit: Hit<F>)
    requires
        at == place_of(old(hits)@, hit.frame@),
        at <= old(hits)@.len(),
    ensures
        final(hits)@ == merged(old(hits)@, at as int, stronger, hit),
{
    if at >= hits.len() {
        hits.push(hit);
    } else if stronger {
        let was: Hit<F> = hits.remove(at);
        hits.insert(at, Hit { frame: was.frame, freq: hit.freq, dt: hit.dt, snr: hit.snr });
        assert(hits@ =~= merged(old(hits)@, at as int, stronger, hit));
    }
}

// ---- laws ----

/// A window of some whole seconds and less than another one began these seconds ago, or at the start
/// of time.
pub proof fn law_window_start(now_ms: int, seconds: int, more: int)
    requires
        0 <= now_ms,
        0 <= seconds,
        0 <= more < 12_000,
    ensures
        now_ms >= 1_000 * seconds ==> start_ms(now_ms, 12_000 * seconds + more) + 1_000 * seconds
            == now_ms,
        now_ms < 1_000 * seconds ==> start_ms(now_ms, 12_000 * seconds + more) == 0,
{
    assert((12_000 * seconds + more) / 12_000 == seconds);
}

/// A speed that is decoded is not decoded again before another second and a half has come in.
pub proof fn law_rearm(total: u64, later: int, last: Seq<u64>, i: int)
    requires
        0 <= i < 4,
        last.len() == 4,
        0 < total <= later < total + 18_000,
        fires(total as int, last[i] as int, params::speed(i)),
    ensures
        !fires(later, rearm(total, last)[i] as int, params::speed(i)),
{
}

/// A speed whose cycle holds a whole transmission is decoded, unless it just was.
pub proof fn law_whole_transmission_decoded(total: int, last: int, i: int)
    requires
        0 <= i < 4,
        total > 0,
        rearmed(total, last),
        in_cycle(total, params::speed(i)) >= needed(params::speed(i)),
    ensures
        fires(total, last, params::speed(i)),
{
}

/// The cycles of a speed lie one behind another from the first sample on.
pub proof fn law_cycles(total: int, i: int)
    requires
        0 <= i < 4,
        total > 0,
    ensures
        ({
            let len = params::speed(i).ntxdur * 12_000;
            let have = in_cycle(total, params::speed(i));
            &&& 1 <= have <= len
            &&& (total - have) % len == 0
        }),
{
    lemma_speed_values(i);
    let len = params::speed(i).nmax as int;
    let have = in_cycle(total, params::speed(i));
    let q = (total - 1) / len;
    vstd::arithmetic::div_mod::lemma_fundamental_div_mod(total - 1, len);
    vstd::arithmetic::div_mod::lemma_fundamental_div_mod_converse(total - have, len, q, 0);
}

/// How many samples of its cycle a speed is decoded on at the earliest but for the beginning of the
/// cycle, and up to which it is decoded at the beginning: between them it never is.
pub proof fn law_decoding_times(total: int, last: int, i: int)
    requires
        0 <= i < 4,
        total > 0,
    ensures
        ({
            let have = in_cycle(total, params::speed(i));
            let enough = if i == 0 {
                145_680int
            } else if i == 1 {
                85_200
            } else if i == 2 {
                36_600
            } else {
                297_360
            };
            fires(total, last, params::speed(i)) <==> (last == 0 || total - last >= 18_000) && (have
                < 18_000 || have >= enough)
        }),
{
}

/// A window never holds more than its cycle, and ends with the newest sample.
pub proof fn law_window<S>(samples: Seq<S>, total: int, i: int)
    requires
        0 <= i < 4,
        total > 0,
        samples.len() > 0,
    ensures
        ({
            let w = window_of(samples, total, params::speed(i));
            &&& 0 < w.len() <= params::speed(i).nmax
            &&& w.last() == samples.last()
        }),
{
    lemma_speed_values(i);
}

/// A decode is held back exactly while its station was passed on less than 45 s ago near the same
/// frequency.
pub proof fn law_repeat_held_back<F>(
    emitted: Map<StationKey, (u64, F)>,
    k: StationKey,
    freq: F,
    near: bool,
    t1: u64,
    t2: u64,
)
    requires
        t1 <= t2,
    ensures
        held_back(emitted.insert(k, (t1, freq)), k, near, t2) == (near && t2 - t1 < 45_000),
{
}

/// Passing one station on never holds another one back.
pub proof fn law_other_station<F>(
    emitted: Map<StationKey, (u64, F)>,
    k: StationKey,
    other: StationKey,
    freq: F,
    near: bool,
    t1: u64,
    t2: u64,
)
    requires
        k != other,
    ensures
        held_back(emitted.insert(k, (t1, freq)), other, near, t2) == held_back(
            emitted,
            other,
            near,
            t2,
        ),
{
}

/// No frame is among the hits twice.
pub open spec fn frames_differ<F>(hits: Seq<Hit<F>>) -> bool {
    forall|i: int, j: int|
        0 <= i < j < hits.len() ==> (#[trigger] hits[i]).frame@ != (#[trigger] hits[j]).frame@
}

/// No frame is among the hits twice.
pub proof fn law_hits_distinct<F>(hits: Seq<Hit<F>>, stronger: bool, hit: Hit<F>)
    requires
        frames_differ(hits),
    ensures
        frames_differ(merged(hits, place_of(hits, hit.frame@), stronger, hit)),
{
    lemma_place_bounds(hits, hit.frame@);
    let at = place_of(hits, hit.frame@);
    let m = merged(hits, at, stronger, hit);
    assert forall|i: int, j: int| 0 <= i < j < m.len() implies (#[trigger] m[i]).frame@
        != (#[trigger] m[j]).frame@ by {
        if j == hits.len() {
            assert(hits[i].frame@ != hit.frame@);
        } else {
            assert(m[i].frame == hits[i].frame && m[j].frame == hits[j].frame);
        }
    }
}

pub(crate) proof fn lemma_place_bounds<F>(hits: Seq<Hit<F>>, f: FrameText)
    ensures
        0 <= place_of(hits, f) <= hits.len(),
        place_of(hits, f) < hits.len() ==> hits[place_of(hits, f)].frame@ == f,
        forall|i: int| 0 <= i < place_of(hits, f) ==> (#[trigger] hits[i]).frame@ != f,
    decreases hits.len(),
{
    if hits.len() > 0 && hits[0].frame@ != f {
        let rest = hits.drop_first();
        lemma_place_bounds(rest, f);
        assert(place_of(rest, f) < rest.len() ==> hits[place_of(hits, f)] == rest[place_of(
            rest,
            f,
        )]);
        assert forall|i: int| 0 <= i < place_of(hits, f) implies (#[trigger] hits[i]).frame@
            != f by {
            if i > 0 {
                assert(hits[i] == rest[i - 1]);
            }
        }
    }
}

/// The hits that are passed on are all those that are kept, each once and in their order.
pub proof fn law_kept_places(kept: Seq<bool>, n: int, i: int)
    requires
        0 <= i < n <= kept.len(),
    ensures
        kept[i] <==> kept_places(kept, n).contains(i),
        forall|a: int, b: int|
            0 <= a < b < kept_places(kept, n).len() ==> 0 <= #[trigger] kept_places(kept, n)[a]
                < #[trigger] kept_places(kept, n)[b] < n,
    decreases n,
{
    lemma_kept_in_order(kept, n);
    let all = kept_places(kept, n);
    let before = kept_places(kept, n - 1);
    if i < n - 1 {
        law_kept_places(kept, n - 1, i);
        if before.contains(i) {
            let a = choose|a: int| 0 <= a < before.len() && before[a] == i;
            assert(all[a] == i);
        }
        if all.contains(i) {
            let a = choose|a: int| 0 <= a < all.len() && all[a] == i;
            assert(a < before.len());
            assert(before[a] == i);
        }
    } else {
        lemma_kept_in_order(kept, n - 1);
        if kept[i] {
            assert(all[before.len() as int] == i);
        }
    }
}

proof fn lemma_kept_in_order(kept: Seq<bool>, n: int)
    requires
        0 <= n <= kept.len(),
    ensures
        forall|a: int|
            0 <= a < kept_places(kept, n).len() ==> 0 <= #[trigger] kept_places(kept, n)[a] < n,
        forall|a: int, b: int|
            0 <= a < b < kept_places(kept, n).len() ==> 0 <= #[trigger] kept_places(kept, n)[a]
                < #[trigger] kept_places(kept, n)[b] < n,
    decreases n,
{
    if n > 0 {
        lemma_kept_in_order(kept, n - 1);
        let before = kept_places(kept, n - 1);
        let all = kept_places(kept, n);
        assert forall|a: int| 0 <= a < all.len() implies 0 <= #[trigger] all[a] < n && (a
            < before.len() ==> all[a] == before[a]) by {
            if a < before.len() {
                assert(before[a] == all[a]);
            }
        }
        assert forall|a: int, b: int| 0 <= a < b < all.len() implies 0 <= #[trigger] all[a]
            < #[trigger] all[b] < n by {
            assert(all[a] == before[a]);
            if b < before.len() {
                assert(before[a] < before[b]);
            }
        }
    }
}

} // verus!
