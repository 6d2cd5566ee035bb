//! Timed MIDI note events emitted for a sequence of timed chords.
//!
//! A track is one `Tempo` event, then for every chord a block of `NoteOn`
//! events followed by a block of `NoteOff` events, and finally one
//! `EndOfTrack` marker.  Within a chord the first note-on carries the chord's
//! start offset and the first note-off its duration; every other event in the
//! block carries a delta of zero, so all pitches of a chord sound together.
//! Velocities taper from the base velocity, one unit per voice.

use vstd::prelude::*;

use crate::midi_chord::MidiChordV;

verus! {

/// Velocity of the first (loudest) voice of a chord.
pub const BASE_VELOCITY: u8 = 64;

/// A primitive event of the emitted track.  Times are delta ticks relative
/// to the previous event of the track.
#[derive(Debug, Clone, Copy, PartialEq, Eq, Structural)]
pub enum Event {
    /// Tempo in microseconds per beat.
    Tempo(u32),
    NoteOn { key: u8, vel: u8, delta: u32 },
    NoteOff { key: u8, vel: u8, delta: u32 },
    EndOfTrack,
}

/// Velocity of the voice at position `i` of a chord: one unit below the base
/// velocity per voice, never below zero.
pub open spec fn taper_velocity(i: int) -> u8 {
    if i < BASE_VELOCITY {
        (BASE_VELOCITY - i) as u8
    } else {
        0
    }
}

/// The pitches of a chord that are played: all of them, or all but the first
/// (lowest) one when the bass is omitted.
pub open spec fn playable_codes(codes: Seq<u8>, omit_bass: bool) -> Seq<u8> {
    if omit_bass && codes.len() > 0 {
        codes.skip(1)
    } else {
        codes
    }
}

/// The note-on block of one chord: one event per pitch in list order, the
/// first carrying the chord's start offset.
pub open spec fn note_on_events(codes: Seq<u8>, start: u16) -> Seq<Event> {
    Seq::new(
        codes.len(),
        |i: int|
            Event::NoteOn {
                key: codes[i],
                vel: taper_velocity(i),
                delta: if i == 0 {
                    start as u32
                } else {
                    0u32
                },
            },
    )
}

/// The note-off block of one chord: one event per pitch in list order, the
/// first carrying the chord's duration.
pub open spec fn note_off_events(codes: Seq<u8>, duration: u16) -> Seq<Event> {
    Seq::new(
        codes.len(),
        |i: int|
            Event::NoteOff {
                key: codes[i],
                vel: taper_velocity(i),
                delta: if i == 0 {
                    duration as u32
                } else {
                    0u32
                },
            },
    )
}

/// All events of one timed chord.
pub open spec fn chord_events_spec(c: MidiChordV, omit_bass: bool) -> Seq<Event> {
    let codes = playable_codes(c.midi_codes, omit_bass);
    note_on_events(codes, c.start) + note_off_events(codes, c.duration)
}

/// The note events of a chord sequence, in chord order.
pub open spec fn chords_events_spec(cs: Seq<MidiChordV>, omit_bass: bool) -> Seq<Event>
    decreases cs.len(),
{
    if cs.len() == 0 {
        Seq::empty()
    } else {
        chord_events_spec(cs[0], omit_bass) + chords_events_spec(cs.skip(1), omit_bass)
    }
}

/// The whole emitted track for a chord sequence.
pub open spec fn emit_spec(cs: Seq<MidiChordV>, omit_bass: bool, tempo: u32) -> Seq<Event> {
    seq![Event::Tempo(tempo)] + chords_events_spec(cs, omit_bass) + seq![Event::EndOfTrack]
}

/// Law: the tempo event is the first event of every emitted track, before
/// any note event, and the end-of-track marker is the last.
pub proof fn lemma_emit_shape(cs: Seq<MidiChordV>, omit_bass: bool, tempo: u32)
    ensures
        emit_spec(cs, omit_bass, tempo).len() >= 2,
        emit_spec(cs, omit_bass, tempo)[0] == Event::Tempo(tempo),
        emit_spec(cs, omit_bass, tempo).last() == Event::EndOfTrack,
{
}

/// Law: note-on velocities taper one unit per voice from the base velocity,
/// in list order.
pub proof fn lemma_velocity_taper(codes: Seq<u8>, start: u16)
    ensures
        note_on_events(codes, start).len() == codes.len(),
        forall|i: int|
            0 <= i < codes.len() && i < BASE_VELOCITY ==> ((#[trigger] note_on_events(
                codes,
                start,
            )[i]) matches Event::NoteOn { key, vel, delta } && vel == BASE_VELOCITY - i),
{
}

/// A chord with its first (lowest) pitch removed.
pub open spec fn drop_bass(c: MidiChordV) -> MidiChordV {
    MidiChordV {
        midi_codes: playable_codes(c.midi_codes, true),
        start: c.start,
        duration: c.duration,
    }
}

/// Law: emitting with the bass omitted is emitting the same chords with
/// exactly their first (lowest) pitch removed and nothing else; a
/// single-pitch chord is left with no playable pitch at all.
pub proof fn lemma_omit_bass(cs: Seq<MidiChordV>, tempo: u32)
    ensures
        emit_spec(cs, true, tempo) == emit_spec(
            cs.map_values(|c: MidiChordV| drop_bass(c)),
            false,
            tempo,
        ),
        forall|c: MidiChordV| c.midi_codes.len() == 1 ==> (#[trigger] drop_bass(c)).midi_codes.len()
            == 0,
{
    lemma_omit_bass_chords(cs);
}

proof fn lemma_omit_bass_chords(cs: Seq<MidiChordV>)
    ensures
        chords_events_spec(cs, true) == chords_events_spec(
            cs.map_values(|c: MidiChordV| drop_bass(c)),
            false,
        ),
    decreases cs.len(),
{
    let mapped = cs.map_values(|c: MidiChordV| drop_bass(c));
    if cs.len() == 0 {
        assert(mapped =~= Seq::<MidiChordV>::empty());
    } else {
        lemma_omit_bass_chords(cs.skip(1));
        assert(mapped[0] == drop_bass(cs[0]));
        assert(mapped.skip(1) =~= cs.skip(1).map_values(|c: MidiChordV| drop_bass(c)));
        assert(playable_codes(drop_bass(cs[0]).midi_codes, false) == playable_codes(
            cs[0].midi_codes,
            true,
        ));
    }
}

} // verus!
