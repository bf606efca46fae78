//! How a demodulator for a mode is put together.
use crate::receiver::config::{Mode, ReceiverConfig, Sideband};
use crate::receiver::demod::fir::{odd_tap_count, odd_taps};
use crate::text;
use vstd::prelude::*;

verus! {

/// A block whose length is not even.
#[derive(Debug, Clone, PartialEq, Eq)]
pub struct InvalidBlockLength(pub usize);

impl InvalidBlockLength {
    /// What the error says.
    pub open spec fn says(&self) -> Seq<char> {
        "demod: block length "@ + text::decimal(self.0 as nat) + " must be even (complex pairs)"@
    }

    /// The error in words.
    pub fn message(&self) -> (r: String)
        ensures
            r@ == self.says(),
    {
        let mut out: Vec<char> = text::chars_of("demod: block length ");
        let n: Vec<char> = text::to_decimal(self.0 as u64);
        text::push_chars(&mut out, n.as_slice());
        text::push_text(&mut out, " must be even (complex pairs)");
        text::text_of(out.as_slice())
    }
}

/// The source rate is too close to the audio rate to decimate cleanly.
#[derive(Debug, Clone, Copy, PartialEq, Eq, Structural)]
pub struct RateTooClose {
    /// The source rate in Hz.
    pub src: u32,
    /// The audio rate in Hz.
    pub audio: u32,
}

impl RateTooClose {
    /// What the error says.
    pub open spec fn says(&self) -> Seq<char> {
        "demod: source rate "@ + text::decimal(self.src as nat)
            + " Hz must be at least 4× the audio rate "@ + text::decimal(self.audio as nat)
            + " Hz"@
    }

    /// The error in words.
    pub fn message(&self) -> (r: String)
        ensures
            r@ == self.says(),
    {
        let mut out: Vec<char> = text::chars_of("demod: source rate ");
        let src: Vec<char> = text::to_decimal(self.src as u64);
        let audio: Vec<char> = text::to_decimal(self.audio as u64);
        text::push_chars(&mut out, src.as_slice());
        text::push_text(&mut out, " Hz must be at least 4× the audio rate ");
        text::push_chars(&mut out, audio.as_slice());
        text::push_text(&mut out, " Hz");
        text::text_of(out.as_slice())
    }
}

/// The smallest factor by which a demodulator lowers the rate.
pub const MIN_DECIMATION: u32 = 4;

/// Refuses a source rate that is less than four times the audio rate.
pub fn ensure_decimable(source_rate_hz: u32, audio_rate_hz: u32) -> (r: Result<(), RateTooClose>)
    requires
        audio_rate_hz > 0,
    ensures
        r is Ok <==> source_rate_hz >= 4 * audio_rate_hz,
        r is Err ==> r->Err_0 == (RateTooClose { src: source_rate_hz, audio: audio_rate_hz }),
{
    let factor: u32 = source_rate_hz / audio_rate_hz;
    proof {
        let a = source_rate_hz as int;
        let b = audio_rate_hz as int;
        vstd::arithmetic::div_mod::lemma_fundamental_div_mod(a, b);
        assert(factor < 4 <==> a < 4 * b) by (nonlinear_arith)
            requires
                a == b * factor + a % b,
                0 <= a % b,
                a % b < b,
        ;
    }
    if factor < MIN_DECIMATION {
        Err(RateTooClose { src: source_rate_hz, audio: audio_rate_hz })
    } else {
        Ok(())
    }
}

/// The kinds of demodulators.
#[derive(Debug, Clone, Copy, PartialEq, Eq, Structural)]
pub enum CoreKind {
    /// The magnitude of the filtered pair.
    Envelope,
    /// The change of the filtered pair's phase.
    PhaseRate,
    /// One sideband, by the phasing method.
    Phasing(Sideband),
    /// The in-phase arm alone, for the digital modes.
    InPhase,
}

/// How a demodulator is built.
#[derive(Debug, Clone, Copy)]
pub struct DemodPlan {
    /// Which kind.
    pub core: CoreKind,
    /// The name under which it appears in a trace.
    pub label: &'static str,
    /// The factor by which it lowers the rate.
    pub decimation: usize,
    /// The channel width in Hz that its filter lets through.
    pub channel_hz: u32,
    /// The number of taps of its filter.
    pub taps: usize,
    /// The number of taps of the phase shifter of the quadrature arm; none but for one sideband.
    pub shifter_taps: usize,
    /// The steps by which the in-phase arm is held back to match the phase shifter.
    pub arm_delay: usize,
}

/// The kind of demodulator of a mode.
pub open spec fn core_of(mode: Mode) -> CoreKind {
    match mode {
        Mode::Am => CoreKind::Envelope,
        Mode::Fm | Mode::FmNarrow => CoreKind::PhaseRate,
        Mode::Ssb(side) => CoreKind::Phasing(side),
        Mode::Ft8 | Mode::Js8 | Mode::Ft4 => CoreKind::InPhase,
    }
}

/// The name of a mode's demodulator.
pub open spec fn label_of(mode: Mode) -> Seq<char> {
    match mode {
        Mode::Am => "am"@,
        Mode::Fm => "fm"@,
        Mode::FmNarrow => "nfm"@,
        Mode::Ssb(Sideband::Usb) => "ssb-usb"@,
        Mode::Ssb(Sideband::Lsb) => "ssb-lsb"@,
        Mode::Ft8 => "ft8"@,
        Mode::Js8 => "js8"@,
        Mode::Ft4 => "ft4"@,
    }
}

/// Whether the mode is decoded from a fixed passband.
pub open spec fn is_digital(mode: Mode) -> bool {
    core_of(mode) is InPhase
}

/// The number of taps for a channel: a narrow one takes a longer filter, a digital mode the
/// longest.
pub open spec fn taps_of(mode: Mode, bandwidth: int) -> int {
    odd_taps(
        if is_digital(mode) {
            511
        } else if bandwidth <= 4_000 {
            257
        } else {
            129
        },
    )
}

/// What the plan for a receiver says. A digital mode keeps its own channel width, whatever width
/// was set.
pub open spec fn planned(p: DemodPlan, c: ReceiverConfig) -> bool {
    &&& p.core == core_of(c.mode)
    &&& p.label@ == label_of(c.mode)
    &&& p.decimation == c.source_rate_hz as int / c.audio_rate_hz as int
    &&& p.channel_hz == if is_digital(c.mode) {
        2_600
    } else {
        c.channel()
    }
    &&& p.taps == taps_of(c.mode, c.channel() as int)
    &&& if c.mode is Ssb {
        p.shifter_taps == 257 && p.arm_delay == 128
    } else {
        p.shifter_taps == 0 && p.arm_delay == 0
    }
}

fn core_and_label(mode: Mode) -> (r: (CoreKind, &'static str))
    ensures
        r.0 == core_of(mode),
        r.1@ == label_of(mode),
{
    match mode {
        Mode::Am => (CoreKind::Envelope, "am"),
        Mode::Fm => (CoreKind::PhaseRate, "fm"),
        Mode::FmNarrow => (CoreKind::PhaseRate, "nfm"),
        Mode::Ssb(side) => {
            let label: &'static str = match side {
                Sideband::Usb => "ssb-usb",
                Sideband::Lsb => "ssb-lsb",
            };
            (CoreKind::Phasing(side), label)
        },
        Mode::Ft8 => (CoreKind::InPhase, "ft8"),
        Mode::Js8 => (CoreKind::InPhase, "js8"),
        Mode::Ft4 => (CoreKind::InPhase, "ft4"),
    }
}

/// Plans the demodulator of a receiver.
pub fn make_plan(c: &ReceiverConfig) -> (r: Result<DemodPlan, RateTooClose>)
    requires
        c.audio_rate_hz > 0,
    ensures
        r is Ok <==> c.source_rate_hz >= 4 * c.audio_rate_hz,
        r is Ok ==> planned(r->Ok_0, *c),
        r is Err ==> r->Err_0 == (RateTooClose { src: c.source_rate_hz, audio: c.audio_rate_hz }),
{
    match ensure_decimable(c.source_rate_hz, c.audio_rate_hz) {
        Err(e) => Err(e),
        Ok(()) => {
            let (core, label) = core_and_label(c.mode);
            let decimation: usize = (c.source_rate_hz / c.audio_rate_hz) as usize;
            let width: u32 = c.bandwidth();
            let voice: usize = if width <= 4_000 {
                257
            } else {
                129
            };
            Ok(
                match core {
                    CoreKind::InPhase => {
                        let taps: usize = odd_tap_count(511);
                        DemodPlan {
                            core,
                            label,
                            decimation,
                            channel_hz: 2_600,
                            taps,
                            shifter_taps: 0,
                            arm_delay: 0,
                        }
                    },
                    CoreKind::Phasing(_) => {
                        let taps: usize = odd_tap_count(voice);
                        let shifter_taps: usize = odd_tap_count(
                            if voice < 257 {
                                257
                            } else {
                                voice
                            },
                        );
                        DemodPlan {
                            core,
                            label,
                            decimation,
                            channel_hz: width,
                            taps,
                            shifter_taps,
                            arm_delay: (shifter_taps - 1) / 2,
                        }
                    },
                    _ => {
                        let taps: usize = odd_tap_count(voice);
                        DemodPlan {
                            core,
                            label,
                            decimation,
                            channel_hz: width,
                            taps,
                            shifter_taps: 0,
                            arm_delay: 0,
                        }
                    },
                },
            )
        },
    }
}

/// A demodulator is planned for each mode, and it lowers the rate at least fourfold.
pub proof fn law_plan_decimates(p: DemodPlan, c: ReceiverConfig)
    requires
        c.audio_rate_hz > 0,
        c.source_rate_hz >= 4 * c.audio_rate_hz,
        planned(p, c),
    ensures
        p.decimation >= 4,
        p.decimation * c.audio_rate_hz <= c.source_rate_hz,
        p.taps % 2 == 1,
{
    let a = c.source_rate_hz as int;
    let b = c.audio_rate_hz as int;
    let q = a / b;
    vstd::arithmetic::div_mod::lemma_fundamental_div_mod(a, b);
    assert(q >= 4 && q * b <= a) by (nonlinear_arith)
        requires
            a == b * q + a % b,
            0 <= a % b,
            a % b < b,
            a >= 4 * b,
            b > 0,
    ;
}

/// The filters that are planned: a digital mode has 511 taps over its own 2600 Hz, whatever width
/// was set; another mode has 257 taps for a channel of up to 4000 Hz, and 129 for a wider one. The
/// phasing of single sideband has 257 taps, and delays the other arm by half of them.
pub proof fn law_planned_filters(p: DemodPlan, c: ReceiverConfig)
    requires
        planned(p, c),
    ensures
        c.mode is Ft8 || c.mode is Js8 || c.mode is Ft4 ==> p.taps == 511 && p.channel_hz == 2_600,
        c.mode is Am || c.mode is Fm || c.mode is FmNarrow || c.mode is Ssb ==> p.taps == (
        if c.channel() <= 4_000 {
            257int
        } else {
            129
        }) && p.channel_hz == c.channel(),
        c.mode is Ssb <==> p.shifter_taps != 0,
        c.mode is Ssb ==> p.shifter_taps == 257 && 2 * p.arm_delay + 1 == p.shifter_taps,
{
}

} // verus!
