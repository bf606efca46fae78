//! What a virtual receiver is set to.
use vstd::prelude::*;

verus! {

/// A sideband of a single-sideband signal.
#[derive(Debug, Clone, Copy, PartialEq, Eq, Structural)]
pub enum Sideband {
    /// The upper one, above the carrier.
    Usb,
    /// The lower one, below the carrier.
    Lsb,
}

impl Sideband {
    /// Whether the phase-shifted quadrature arm is added to the in-phase arm, or taken away from
    /// it. The radio's spectrum is inverted: what lies above the tuned frequency arrives at
    /// negative frequencies, which the sum lets through.
    pub open spec fn is_sum(&self) -> bool {
        self is Usb
    }

    /// Whether the quadrature arm is added.
    pub fn adds_quadrature(&self) -> (r: bool)
        ensures
            r == self.is_sum(),
    {
        matches!(self, Sideband::Usb)
    }
}

/// The mode of a virtual receiver.
#[derive(Debug, Clone, Copy, PartialEq, Eq, Structural)]
pub enum Mode {
    /// Amplitude modulation, both sidebands with carrier.
    Am,
    /// Frequency modulation in a standard channel.
    Fm,
    /// Frequency modulation in a narrow channel.
    FmNarrow,
    /// Single-sideband voice.
    Ssb(Sideband),
    /// FT8, in the upper sideband.
    Ft8,
    /// JS8Call, in the upper sideband.
    Js8,
    /// FT4, in the upper sideband.
    Ft4,
}

impl Mode {
    /// The channel width of the mode in Hz.
    pub open spec fn width(&self) -> u32 {
        match self {
            Mode::Am => 8_000,
            Mode::Fm => 15_000,
            Mode::FmNarrow => 5_000,
            Mode::Ssb(_) | Mode::Ft8 | Mode::Js8 | Mode::Ft4 => 2_600,
        }
    }

    /// The sideband that the mode listens to, where it listens to one.
    pub open spec fn side(&self) -> Option<Sideband> {
        match self {
            Mode::Am | Mode::Fm | Mode::FmNarrow => None,
            Mode::Ssb(s) => Some(*s),
            Mode::Ft8 | Mode::Js8 | Mode::Ft4 => Some(Sideband::Usb),
        }
    }

    /// The channel width in Hz that the mode has unless another is set.
    pub fn default_bandwidth_hz(&self) -> (r: u32)
        ensures
            r == self.width(),
    {
        match self {
            Mode::Am => 8_000,
            Mode::Fm => 15_000,
            Mode::FmNarrow => 5_000,
            Mode::Ssb(_) | Mode::Ft8 | Mode::Js8 | Mode::Ft4 => 2_600,
        }
    }

    /// The sideband of the mode: that of a voice mode, the upper one of a digital mode.
    pub fn sideband(&self) -> (r: Option<Sideband>)
        ensures
            r == self.side(),
    {
        match self {
            Mode::Am | Mode::Fm | Mode::FmNarrow => None,
            Mode::Ssb(s) => Some(*s),
            Mode::Ft8 | Mode::Js8 | Mode::Ft4 => Some(Sideband::Usb),
        }
    }
}

/// The settings of a virtual receiver that decide how it is built.
#[derive(Debug, Clone, Copy, PartialEq, Eq, Structural)]
pub struct ReceiverConfig {
    /// The mode.
    pub mode: Mode,
    /// The rate of the complex baseband in Hz.
    pub source_rate_hz: u32,
    /// The channel width in Hz, where it is not the one of the mode.
    pub bandwidth_hz: Option<u32>,
    /// The rate of the audio in Hz.
    pub audio_rate_hz: u32,
}

impl ReceiverConfig {
    /// The channel width in force.
    pub open spec fn channel(&self) -> u32 {
        match self.bandwidth_hz {
            Some(w) => w,
            None => self.mode.width(),
        }
    }

    /// The channel width in Hz: the one that was set, else the one of the mode.
    pub fn bandwidth(&self) -> (r: u32)
        ensures
            r == self.channel(),
    {
        match self.bandwidth_hz {
            Some(w) => w,
            None => self.mode.default_bandwidth_hz(),
        }
    }
}

impl Default for ReceiverConfig {
    /// Upper-sideband voice from 96 kHz to 4.8 kHz.
    fn default() -> (r: ReceiverConfig)
        ensures
            r == (ReceiverConfig {
                mode: Mode::Ssb(Sideband::Usb),
                source_rate_hz: 96_000,
                bandwidth_hz: None,
                audio_rate_hz: 4_800,
            }),
    {
        ReceiverConfig {
            mode: Mode::Ssb(Sideband::Usb),
            source_rate_hz: 96_000,
            bandwidth_hz: None,
            audio_rate_hz: 4_800,
        }
    }
}

} // verus!
