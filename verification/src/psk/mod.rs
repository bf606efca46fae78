//! Reporting of received stations to PSK Reporter: the datagrams, and the queue of spots.
pub mod clock;
pub mod queue;
pub mod reader;
pub mod wire;
