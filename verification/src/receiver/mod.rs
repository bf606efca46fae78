//! The virtual receiver: sample buffers, audio sinks, demodulation plans and decoding slots.
pub mod auto;
pub mod baseband_ring;
pub mod calls;
pub mod config;
pub mod demod;
pub mod fanout;
pub mod ft4;
pub mod level;
pub mod sink;
pub mod source;
pub mod spot;
