//! A chord resolved to MIDI pitch codes with its timing.

use vstd::prelude::*;

use crate::error::{CompingError, unsupported_symbol_messages};
use crate::voicing::{chord_symbol_safe, parses, resolve_voicing, symbol_is_safe, voicing_of};

verus! {

/// Struct representing a chord in MIDI format
#[derive(Debug, Clone, PartialEq, Eq)]
pub struct MidiChord {
    /// MIDI codes for the chord notes.
    pub midi_codes: Vec<u8>,
    /// Start time of the chord, relative to the previous MIDI event.
    pub start: u16,
    /// Duration of the chord in MIDI ticks.
    pub duration: u16,
}

/// Mathematical view of a timed chord: the pitch list as a sequence.
pub struct MidiChordV {
    pub midi_codes: Seq<u8>,
    pub start: u16,
    pub duration: u16,
}

impl View for MidiChord {
    type V = MidiChordV;

    open spec fn view(&self) -> MidiChordV {
        MidiChordV { midi_codes: self.midi_codes@, start: self.start, duration: self.duration }
    }
}

/// The views of a sequence of timed chords.
pub open spec fn chords_view(cs: Seq<MidiChord>) -> Seq<MidiChordV> {
    cs.map_values(|c: MidiChord| c@)
}

impl MidiChord {
    /// Resolve a chord symbol into its voicing around the lead note, timed
    /// at `start` for `duration` ticks.  Fails exactly when the voicing
    /// engine cannot read the symbol (a non-ASCII digit, or too many
    /// parenthesis characters) or
    /// rejects it, carrying at least one diagnostic.
    pub fn new(ch: &str, start: u16, duration: u16, lead: u8) -> (r: Result<
        MidiChord,
        CompingError,
    >)
        ensures
            r is Ok <==> chord_symbol_safe(ch@) && parses(ch@),
            r matches Ok(mc) ==> mc@.midi_codes == voicing_of(ch@, lead) && mc@.midi_codes.len()
                >= 1 && mc@.start == start && mc@.duration == duration,
            r matches Err(e) ==> (e matches CompingError::ChordSyntax(msgs) && msgs@.len() >= 1
                && (!chord_symbol_safe(ch@) ==> msgs.deep_view() == unsupported_symbol_messages())),
    {
        if !symbol_is_safe(ch) {
            return Err(CompingError::unsupported_symbol());
        }
        match resolve_voicing(ch, lead) {
            Ok(v) => Ok(MidiChord { midi_codes: v, start, duration }),
            Err(msgs) => Err(CompingError::ChordSyntax(msgs)),
        }
    }
}

} // verus!
