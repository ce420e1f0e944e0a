//! A small modular synthesizer and tracker-style score engine.
//!
//! The crate has three layers:
//!
//! * [`volts`] — the volt-per-octave pitch scale: conversions between
//!   fixed-point "voltages" and frequencies in millihertz.
//! * [`generator`] — a composable, pull-based generator graph: oscillators,
//!   an envelope, a voltage-controlled filter and amplifier, and the
//!   type-erased [`generator::RawSource`] node that ties them together.
//!   Every stage produces one fixed-point sample per pull until it is
//!   exhausted, and exhaustion is permanent.
//! * [`song`] — a hierarchical score model (phrase, chain, track, song) that
//!   turns symbolic note data into pitched generator graphs, indexed by
//!   sixteenth-note ticks.
//!
//! [`audio`] holds the playback queue that carries finished generator graphs
//! from the score to an output sink.
//!
//! All signal values are fixed-point: a sample or voltage is an `i64` scaled
//! by 65536 (so 65536 represents 1.0), and frequencies are unsigned
//! millihertz.

pub mod audio;
pub mod generator;
pub mod song;
pub mod volts;
