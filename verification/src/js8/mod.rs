//! The JS8 weak-signal mode: message frames, channel coding and decoding decisions.
pub mod bits;
pub mod callsign;
pub mod candidate;
pub mod checks;
pub mod checksum;
pub mod command;
pub mod data;
pub mod decode;
pub mod decoder;
pub mod dictionary;
pub mod display;
pub mod errors;
pub mod frame;
pub mod grid;
pub mod msg;
pub mod names;
pub mod params;
pub mod passes;
pub mod payload;
pub mod prefix;
pub mod scan;
pub mod search;
pub mod spectra;
pub mod stations;
pub mod symbols;
pub mod words;
