//! The digital modes that are decoded on their own, and where they are found.
use crate::js8::decoder;
use crate::receiver::ft4;
use vstd::prelude::*;

verus! {

/// A digital mode with known frequencies.
#[derive(Debug, Clone, Copy, PartialEq, Eq, Structural)]
pub enum AutoMode {
    /// JS8Call, at its four speeds.
    Js8,
    /// FT4, in slots of seven and a half seconds.
    Ft4,
}

/// All such modes, in the order in which they are shown and started.
pub const AUTO_MODES: [AutoMode; 2] = [AutoMode::Js8, AutoMode::Ft4];

impl AutoMode {
    /// The mode's name in lower case.
    pub open spec fn name(&self) -> Seq<char> {
        match self {
            AutoMode::Js8 => "js8"@,
            AutoMode::Ft4 => "ft4"@,
        }
    }

    /// The frequencies of the mode.
    pub open spec fn table(&self) -> Seq<u32> {
        match self {
            AutoMode::Js8 => decoder::KNOWN_FREQS@,
            AutoMode::Ft4 => ft4::KNOWN_FREQS@,
        }
    }

    /// The name under which the mode travels.
    pub fn wire(&self) -> (r: &'static str)
        ensures
            r@ == self.name(),
    {
        match self {
            AutoMode::Js8 => "js8",
            AutoMode::Ft4 => "ft4",
        }
    }

    /// The frequencies in Hz on which the mode is listened for.
    pub fn known_freqs(&self) -> (r: &'static [u32])
        ensures
            r@ == self.table(),
    {
        match self {
            AutoMode::Js8 => &decoder::KNOWN_FREQS,
            AutoMode::Ft4 => &ft4::KNOWN_FREQS,
        }
    }
}

} // verus!
