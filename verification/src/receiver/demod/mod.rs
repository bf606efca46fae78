//! From complex baseband to audio: how a demodulator is put together, which samples meet which taps,
//! and how the audio is cut into blocks. The arithmetic is the caller's.
pub mod engine;
pub mod fir;
pub mod fir_state;
pub mod plan;
pub mod polyphase;
