# hl2

The receiving side of a Hermes Lite 2 client: baseband buffers, demodulation, the JS8 and FT4
digital modes, and the reporting of heard stations to PSK Reporter. The library in `src/` is
verified with Verus; `app/` holds the floating-point arithmetic, the locks and the sound card
around it.

| Path | What it holds |
| --- | --- |
| `src/text.rs` | characters, numbers and searches in text |
| `src/fold.rs` | running through values with an operation of the caller's |
| `src/js8/` | JS8: callsigns, squares, commands, frames, checksum and parity, the search for signals, decode attempts, passes, and which decodes are passed on |
| `src/psk/` | PSK Reporter: the queue of spots with its suppression, and the datagrams |
| `src/receiver/` | sample rings and their fan-out, sources, audio sinks, demodulation plans, filters, the decimator, the audio tail, FT4 slots, spots |
| `tests/` | tests of the library on chosen values |
| `app/` | oscillators and filter coefficients, gain control, transforms, the FT4 decoder of `mfsk-core`, shared handles, playback |

Samples, levels and frequencies are of any type in the library. Where arithmetic on them is needed,
a function takes it as an argument, and its contract says on which values it is called, in which
order, and what becomes of the results. `law_` functions state what holds of several functions
together: what is packed comes out again, what a decimator gives is what the filter at the full rate
gives, no spot is lost or sent twice.

The error correction of JS8 and its dictionary of words are arguments too: the functions that need
them take a correction and a `JscMap`.
