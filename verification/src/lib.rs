//! Generation of jazz-style chordal accompaniment ("comping") from a compact
//! textual rhythm/chord notation.
//!
//! A notation string is scanned into tokens (chord symbols, rests, durations),
//! optionally after wildcard placeholders have been replaced by supplied chord
//! symbols.  A sequencer turns the token stream into timed, pitch-resolved
//! chords, calling chordparser's voicing engine for each chord symbol, and an
//! event emitter renders those chords as an ordered list of tempo, note-on,
//! note-off and end-of-track events ready for serialization into a standard
//! MIDI container.

pub mod comping_generator;
pub mod error;
pub mod events;
pub mod lexer;
pub mod midi_chord;
pub mod sequencer;
pub mod voicing;
pub mod tokens;
pub mod wildcard;
