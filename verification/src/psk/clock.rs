//! The wall clock, or a clock that stands still.
use std::time::{Duration, SystemTime, SystemTimeError, UNIX_EPOCH};
use vstd::prelude::*;

verus! {

/// A point in time of the operating system's clock.
#[verifier::external_type_specification]
#[verifier::external_body]
pub struct ExSystemTime(SystemTime);

/// The distance to an earlier point in time, as an error.
#[verifier::external_type_specification]
#[verifier::external_body]
pub struct ExSystemTimeError(SystemTimeError);

/// `SystemTime::now`: the time of the call. Nothing is claimed of it.
pub assume_specification[ SystemTime::now ]() -> SystemTime;

/// `SystemTime::duration_since`: the time between two points, or an error when the other one is
/// later. Nothing is claimed of it.
pub assume_specification[ SystemTime::duration_since ](
    time: &SystemTime,
    earlier: SystemTime,
) -> Result<Duration, SystemTimeError>;

/// `Duration::as_secs`: the whole seconds of a span. A span is opaque here, so that its seconds are
/// left unsaid.
pub assume_specification[ Duration::as_secs ](d: &Duration) -> u64;

/// The constant `UNIX_EPOCH`: the start of 1970. Nothing is claimed of it.
#[verifier::external_body]
fn unix_epoch() -> SystemTime {
    UNIX_EPOCH
}

/// Where the time comes from.
#[derive(Debug, Clone, Copy)]
pub enum Clock {
    /// The operating system's clock.
    Real,
    /// A fixed number of seconds since 1970.
    Fixed(u32),
}

/// The seconds since 1970 in 32 bits, of a clock that stands `elapsed` seconds after it; 0 where it
/// stands before it.
pub open spec fn seconds(elapsed: Option<u64>) -> u32 {
    match elapsed {
        Some(s) => (s as int % 0x1_0000_0000) as u32,
        None => 0,
    }
}

/// Brings a clock's time into 32 bits.
pub fn to_seconds(elapsed: Option<u64>) -> (r: u32)
    ensures
        r == seconds(elapsed),
{
    match elapsed {
        Some(s) => (s % 0x1_0000_0000) as u32,
        None => 0,
    }
}

impl Clock {
    /// The seconds since 1970, modulo 2^32; 0 while the operating system's clock is before 1970.
    pub fn now(&self) -> (r: u32)
        ensures
            self matches Clock::Fixed(t) ==> r == t,
    {
        match self {
            Clock::Real => {
                let elapsed: Option<u64> = match SystemTime::now().duration_since(unix_epoch()) {
                    Ok(d) => Some(d.as_secs()),
                    Err(_) => None,
                };
                to_seconds(elapsed)
            },
            Clock::Fixed(t) => *t,
        }
    }
}

} // verus!
