//! The receiving side of a software radio: baseband buffers, demodulation, the JS8 and FT4 digital
//! modes, and the reporting of what was heard.
pub mod fold;
pub mod js8;
pub mod psk;
pub mod receiver;
pub mod text;
