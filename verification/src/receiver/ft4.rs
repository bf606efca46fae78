//! FT4: gathering audio and handing out one window for each slot of the wall clock.
use crate::receiver::sink::newest;
use crate::receiver::spot;
use crate::receiver::spot::{SpotFields, SpotStation};
use crate::text;
use vstd::prelude::*;

verus! {

/// The length of a slot in milliseconds.
pub const FT4_SLOT_MS: u64 = 7_500;

/// The samples of one slot.
pub const FT4_SLOT_WINDOW_SAMPLES: usize = 90_000;

/// The rate of the audio in Hz.
pub const FT4_SAMPLE_RATE_HZ: u32 = 12_000;

/// The most samples that are kept: ten seconds.
pub const FT4_BUFFER_CAP: usize = 120_000;

/// The lowest frequency in Hz at which a signal is looked for.
pub const FT4_FREQ_MIN_HZ: u32 = 100;

/// The highest frequency in Hz at which a signal is looked for.
pub const FT4_FREQ_MAX_HZ: u32 = 3_000;

/// The lowest synchronisation score of a candidate.
pub const FT4_SYNC_MIN: u32 = 1;

/// The most candidates that are tried.
pub const FT4_MAX_CANDIDATES: usize = 20;

/// The frequencies in Hz on which FT4 is sent, from the 80 m band to the 2 m band.
pub const KNOWN_FREQS: [u32; 10] = [
    3_575_000,
    7_047_500,
    10_140_000,
    14_080_000,
    18_104_000,
    21_140_000,
    24_919_000,
    28_180_000,
    50_318_000,
    144_170_000,
];

/// A decoded message. `F` is the type of measured values.
#[derive(Debug, Clone, PartialEq)]
pub struct Ft4Message<F> {
    /// The text.
    pub text: String,
    /// The frequency of the lowest tone in Hz.
    pub freq_hz: F,
    /// How late the signal began in its slot, in seconds.
    pub dt_sec: F,
    /// The signal-to-noise ratio in dB.
    pub snr_db: F,
    /// The slot, as the time of its boundary.
    pub slot_ms: u64,
}

impl<F> Ft4Message<F> {
    /// The name of the mode.
    pub fn mode(&self) -> (r: &'static str)
        ensures
            r@ == "FT4"@,
    {
        "FT4"
    }

    /// The text to show.
    pub fn display(&self) -> (r: &str)
        ensures
            r@ == self.text@,
    {
        self.text.as_str()
    }

    /// What the message reports: whom it heard and where.
    pub fn spot_fields(&self, st: &SpotStation) -> (r: Option<SpotFields>)
        ensures
            r is Some <==> spot::wsjt_fields(self.text@, st.callsign@, st.grid@) is Some,
            r matches Some(s) ==> spot::wsjt_fields(self.text@, st.callsign@, st.grid@) == Some(
                (s.caller@, s.locator@),
            ),
    {
        spot::wsjt_spot_fields(self.text.as_str(), st)
    }
}

/// The start of the slot that an instant lies in: the moment at which the slot before it closed.
pub open spec fn slot_start(now_ms: int) -> int {
    (now_ms / 7_500) * 7_500
}

/// The boundary of the slot that closed last.
pub fn closed_slot_for(now_ms: u64) -> (r: u64)
    ensures
        r == slot_start(now_ms as int),
        r as int % 7_500 == 0,
        r <= now_ms < r + 7_500,
{
    (now_ms / FT4_SLOT_MS) * FT4_SLOT_MS
}

/// A time that is no slot boundary.
#[derive(Debug, Clone, Copy, PartialEq, Eq, Structural)]
pub struct SlotMisaligned {
    /// The time in milliseconds.
    pub slot_ms: u64,
}

impl SlotMisaligned {
    /// What the error says.
    pub open spec fn says(&self) -> Seq<char> {
        "slot_ms="@ + text::decimal(self.slot_ms as nat) + " is not a multiple of 7500"@
    }

    /// The error in words.
    pub fn message(&self) -> (r: String)
        ensures
            r@ == self.says(),
    {
        let mut out: Vec<char> = text::chars_of("slot_ms=");
        let n: Vec<char> = text::to_decimal(self.slot_ms);
        text::push_chars(&mut out, n.as_slice());
        text::push_text(&mut out, " is not a multiple of 7500");
        text::text_of(out.as_slice())
    }
}

/// What a decoder holds: the latest audio, and the slot that was handed out last, 0 before any.
#[verifier::ext_equal]
pub ghost struct Ft4State<S> {
    pub audio: Seq<S>,
    pub last_slot: u64,
}

/// Whether a window is handed out for a slot: once, and only when a whole slot has been heard.
pub open spec fn window_due<S>(d: Ft4State<S>, slot_ms: u64) -> bool {
    d.last_slot != slot_ms && d.audio.len() >= 90_000
}

/// The gathered audio of an FT4 receiver.
#[derive(Debug)]
pub struct Ft4Decoder<S> {
    buf: Vec<S>,
    last_decoded_slot: u64,
}

impl<S: Copy> View for Ft4Decoder<S> {
    type V = Ft4State<S>;

    closed spec fn view(&self) -> Ft4State<S> {
        Ft4State { audio: self.buf@, last_slot: self.last_decoded_slot }
    }
}

/// The last elements of a vector.
fn tail_of<S: Copy>(v: &Vec<S>, n: usize) -> (r: Vec<S>)
    ensures
        r@ == newest(v@, n as int),
{
    let from: usize = if v.len() > n {
        v.len() - n
    } else {
        0
    };
    let mut out: Vec<S> = Vec::new();
    for i in from..v.len()
        invariant
            from <= v@.len(),
            out@ == v@.subrange(from as int, i as int),
    {
        out.push(v[i]);
        assert(out@ =~= v@.subrange(from as int, i + 1));
    }
    assert(out@ =~= newest(v@, n as int));
    out
}

impl<S: Copy> Ft4Decoder<S> {
    /// No more is kept than the bound.
    pub open spec fn wf(&self) -> bool {
        self@.audio.len() <= 120_000
    }

    /// A decoder that has heard nothing.
    pub fn new() -> (r: Ft4Decoder<S>)
        ensures
            r.wf(),
            r@ == (Ft4State { audio: Seq::<S>::empty(), last_slot: 0 }),
    {
        Ft4Decoder { buf: Vec::new(), last_decoded_slot: 0 }
    }

    /// How many samples are kept.
    pub fn buffered_samples(&self) -> (r: usize)
        ensures
            r == self@.audio.len(),
    {
        self.buf.len()
    }

    /// The last `n` samples, or all where there are fewer.
    pub fn buf_trailing(&self, n: usize) -> (r: Vec<S>)
        ensures
            r@ == newest(self@.audio, n as int),
    {
        tail_of(&self.buf, n)
    }

    /// Takes audio in; of more than ten seconds the oldest is dropped.
    pub fn add_samples(&mut self, samples: &[S])
        requires
            old(self).wf(),
        ensures
            final(self).wf(),
            final(self)@ == (Ft4State {
                audio: newest(old(self)@.audio + samples@, 120_000),
                last_slot: old(self)@.last_slot,
            }),
    {
        for i in 0..samples.len()
            invariant
                self.buf@ == old(self)@.audio + samples@.take(i as int),
                self.last_decoded_slot == old(self)@.last_slot,
        {
            self.buf.push(samples[i]);
            assert(self.buf@ =~= old(self)@.audio + samples@.take(i + 1));
        }
        assert(samples@.take(samples@.len() as int) =~= samples@);
        if self.buf.len() > FT4_BUFFER_CAP {
            let over: usize = self.buf.len() - FT4_BUFFER_CAP;
            let kept: Vec<S> = self.buf.split_off(over);
            self.buf = kept;
            assert(self.buf@ =~= newest(old(self)@.audio + samples@, 120_000));
        }
    }

    /// The window of a slot, which is the last one heard, if it is due; the slot then counts as
    /// handed out.
    pub fn snapshot_for_slot(&mut self, slot_ms: u64) -> (r: Option<Vec<S>>)
        requires
            old(self).wf(),
        ensures
            final(self).wf(),
            r is Some <==> window_due(old(self)@, slot_ms),
            r is None ==> final(self)@ == old(self)@,
            r matches Some(w) ==> w@ == newest(old(self)@.audio, 90_000) && w@.len() == 90_000
                && final(self)@ == (Ft4State { audio: old(self)@.audio, last_slot: slot_ms }),
    {
        if self.last_decoded_slot == slot_ms {
            return None;
        }
        if self.buf.len() < FT4_SLOT_WINDOW_SAMPLES {
            return None;
        }
        let window: Vec<S> = tail_of(&self.buf, FT4_SLOT_WINDOW_SAMPLES);
        self.last_decoded_slot = slot_ms;
        Some(window)
    }

    /// The window to decode for a closed slot: an error where the time is no slot boundary, no
    /// window where the slot was handed out already or too little has been heard.
    pub fn take_closed_slot(&mut self, slot_ms: u64) -> (r: Result<Option<Vec<S>>, SlotMisaligned>)
        requires
            old(self).wf(),
        ensures
            final(self).wf(),
            r is Err <==> slot_ms as int % 7_500 != 0,
            r is Err ==> r->Err_0 == (SlotMisaligned { slot_ms }) && final(self)@ == old(self)@,
            r is Ok ==> (r->Ok_0 is Some <==> window_due(old(self)@, slot_ms)),
            r is Ok && r->Ok_0 is None ==> final(self)@ == old(self)@,
            r is Ok && r->Ok_0 is Some ==> (r->Ok_0)->0@ == newest(old(self)@.audio, 90_000)
                && (r->Ok_0)->0@.len() == 90_000 && final(self)@ == (Ft4State {
                audio: old(self)@.audio,
                last_slot: slot_ms,
            }),
    {
        if slot_ms % FT4_SLOT_MS != 0 {
            return Err(SlotMisaligned { slot_ms });
        }
        Ok(self.snapshot_for_slot(slot_ms))
    }
}

impl<S: Copy> Default for Ft4Decoder<S> {
    fn default() -> (r: Ft4Decoder<S>)
        ensures
            r.wf(),
            r@ == (Ft4State { audio: Seq::<S>::empty(), last_slot: 0 }),
    {
        Ft4Decoder::new()
    }
}

/// A slot is handed out once: right after, nothing is due for it, however much is heard since.
pub proof fn law_slot_once<S>(d: Ft4State<S>, slot_ms: u64, more: Seq<S>)
    requires
        window_due(d, slot_ms),
    ensures
        !window_due(
            Ft4State { audio: newest(d.audio + more, 120_000), last_slot: slot_ms },
            slot_ms,
        ),
{
}

/// Once a whole slot has been heard, the next slot is always due, and all instants of a slot speak
/// of the same boundary.
pub proof fn law_next_slot_due<S>(d: Ft4State<S>, now_ms: int, later_ms: int)
    requires
        0 <= now_ms < later_ms <= u64::MAX,
        d.audio.len() >= 90_000,
        d.last_slot == slot_start(now_ms),
    ensures
        later_ms < slot_start(now_ms) + 7_500 ==> slot_start(later_ms) == slot_start(now_ms),
        later_ms >= slot_start(now_ms) + 7_500 ==> window_due(d, slot_start(later_ms) as u64),
{
}

} // verus!
