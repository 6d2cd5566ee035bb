//! Chord comping generator.
//!
//! Generates a timed MIDI event track from a string with chords and
//! durations: the notation is scanned into tokens, sequenced into timed
//! chords (resolving every chord symbol through the voicing engine), and
//! emitted as tempo, note-on, note-off and end-of-track events.

use vstd::prelude::*;

use crate::error::{CompingError, unsupported_symbol_messages};
use crate::events::{
    BASE_VELOCITY, Event, chord_events_spec, chords_events_spec, emit_spec, note_off_events,
    note_on_events, playable_codes, taper_velocity,
};
use crate::lexer::{Lexer, scan_spec};
use crate::midi_chord::{MidiChord, MidiChordV, chords_view};
use crate::sequencer::{
    SequencerState, chords_of, dur_ticks, initial_state, lemma_run_push_eof, next_lead, rest_ticks,
    sat_add16, seq_run, seq_step, top_pitch,
};
use crate::tokens::{Duration, Rest, TokenType, TokenV, tokens_view};
use crate::voicing::{chord_symbol_safe, parses, resolve_voicing, symbol_is_safe, voicing_of};
use crate::wildcard::{expand, expand_spec};

verus! {

/// Microseconds per beat for a tempo in beats per minute: the floor of
/// `60_000_000 / bpm`.
pub open spec fn tempo_of(bpm: u32) -> u32
    recommends
        bpm >= 1,
{
    (60_000_000int / bpm as int) as u32
}

/// The sequencer state described by the generator's loop variables.
spec fn opt_codes_view(o: Option<Vec<u8>>) -> Option<Seq<u8>> {
    match o {
        Some(v) => Some(v@),
        None => None,
    }
}

/// Chord comping generator.
/// Turns a string with chords and durations into a timed MIDI event track.
pub struct ChordCompingGenerator {
    /// Beats per minute
    pub bpm: u32,
    /// Ticks per beat
    pub tpb: u16,
    /// Highest note as MIDI code to build the voicing around
    pub lead_note: u8,
}

impl ChordCompingGenerator {
    /// A generator with a positive tempo whose tick values cannot overflow.
    pub open spec fn wf(&self) -> bool {
        &&& self.bpm >= 1
        &&& 4 * self.tpb <= u16::MAX
    }

    /// Create a new ChordCompingGenerator.
    /// ## Arguments
    /// * `bpm` - Beats per minute for the MIDI track; must be positive.
    /// * `lead_note` - Highest note as MIDI code to build the voicing
    ///   around; a value between 68 and 74 should be a good choice.
    pub fn new(bpm: u32, lead_note: u8) -> (g: ChordCompingGenerator)
        requires
            bpm >= 1,
        ensures
            g.wf(),
            g.bpm == bpm,
            g.lead_note == lead_note,
            g.tpb == 500,
    {
        ChordCompingGenerator { bpm, lead_note, tpb: 500 }
    }

    /// Whole note duration in MIDI ticks
    fn whole(&self) -> (r: u16)
        requires
            self.wf(),
        ensures
            r == dur_ticks(Duration::Whole, self.tpb),
            r == rest_ticks(Rest::Whole, self.tpb),
    {
        4 * self.tpb
    }

    /// Half note duration in MIDI ticks
    fn half(&self) -> (r: u16)
        requires
            self.wf(),
        ensures
            r == dur_ticks(Duration::Half, self.tpb),
            r == rest_ticks(Rest::Half, self.tpb),
    {
        2 * self.tpb
    }

    /// Quarter note duration in MIDI ticks
    fn quarter(&self) -> (r: u16)
        ensures
            r == dur_ticks(Duration::Quarter, self.tpb),
            r == rest_ticks(Rest::Quarter, self.tpb),
    {
        self.tpb
    }

    /// Eigth note duration in MIDI ticks
    fn eigth(&self) -> (r: u16)
        ensures
            r == dur_ticks(Duration::Eight, self.tpb),
            r == rest_ticks(Rest::Eight, self.tpb),
    {
        self.tpb / 2
    }

    /// Parse chords and durations from the input string: the timed chords
    /// that its tokens sequence into.  Fails at the first rejected chord
    /// symbol, carrying at least one diagnostic — the library's own message
    /// when the symbol holds a character the voicing engine cannot read,
    /// else the engine's diagnostics.
    pub fn chord_events(&self, i: &str) -> (r: Result<Vec<MidiChord>, CompingError>)
        requires
            self.wf(),
        ensures
            r is Ok <==> chords_of(i@, self.lead_note, self.tpb) is Ok,
            r matches Ok(cs) ==> Ok::<Seq<MidiChordV>, Seq<char>>(chords_view(cs@)) == chords_of(
                i@,
                self.lead_note,
                self.tpb,
            ),
            r matches Err(e) ==> (e matches CompingError::ChordSyntax(msgs) && msgs@.len() >= 1
                && (chords_of(i@, self.lead_note, self.tpb) matches Err(sym) && (
                !chord_symbol_safe(sym) ==> msgs.deep_view() == unsupported_symbol_messages()))),
    {
        let ghost iview = i@;
        let mut lexer = Lexer::new();
        let tokens = lexer.scan_tokens(i);
        let ghost tv = tokens_view(tokens@);
        let mut chords: Vec<MidiChord> = Vec::new();
        let mut pending: Option<Vec<u8>> = None;
        let mut last_top: Option<u8> = None;
        let mut start: u16 = 0;
        let n = tokens.len();
        let mut idx: usize = 0;
        proof {
            lemma_run_push_eof(scan_spec(iview), initial_state(), self.lead_note, self.tpb);
            assert(tv.skip(0) =~= tv);
            assert(chords_view(chords@) =~= Seq::<MidiChordV>::empty());
            assert(SequencerState {
                start_acc: start,
                pending: opt_codes_view(pending),
                last_top: last_top,
                out: chords_view(chords@),
            } == initial_state());
        }
        while idx < n
            invariant
                self.wf(),
                iview == i@,
                n == tokens@.len(),
                tv == tokens_view(tokens@),
                idx <= n,
                seq_run(scan_spec(iview), initial_state(), self.lead_note, self.tpb) == seq_run(
                    tv.skip(idx as int),
                    SequencerState {
                        start_acc: start,
                        pending: opt_codes_view(pending),
                        last_top: last_top,
                        out: chords_view(chords@),
                    },
                    self.lead_note,
                    self.tpb,
                ),
            decreases n - idx,
        {
            let ghost pre = SequencerState {
                start_acc: start,
                pending: opt_codes_view(pending),
                last_top: last_top,
                out: chords_view(chords@),
            };
            let t = &tokens[idx];
            proof {
                assert(tv.skip(idx as int)[0] == tv[idx as int]);
                assert(tv[idx as int] == tokens@[idx as int]@);
                assert(tv.skip(idx as int).skip(1) =~= tv.skip(idx as int + 1));
            }
            match &t.token_type {
                TokenType::Chord(sym) => {
                    if !symbol_is_safe(sym.as_str()) {
                        proof {
                            assert(seq_step(pre, tv[idx as int], self.lead_note, self.tpb)
                                == Err::<SequencerState, Seq<char>>(sym@));
                            assert(seq_run(tv.skip(idx as int), pre, self.lead_note, self.tpb)
                                == Err::<SequencerState, Seq<char>>(sym@));
                        }
                        return Err(CompingError::unsupported_symbol());
                    }
                    let ln: u8 = match last_top {
                        Some(p) => {
                            let d: u8 = if p >= self.lead_note {
                                p - self.lead_note
                            } else {
                                self.lead_note - p
                            };
                            if d < 5 {
                                p
                            } else {
                                self.lead_note
                            }
                        },
                        None => self.lead_note,
                    };
                    proof {
                        assert(ln == next_lead(pre.last_top, self.lead_note));
                    }
                    match resolve_voicing(sym.as_str(), ln) {
                        Ok(v) => {
                            let top = v[v.len() - 1];
                            last_top = Some(top);
                            pending = Some(v);
                            proof {
                                let vv = voicing_of(sym@, ln);
                                let post = SequencerState {
                                    pending: Some(vv),
                                    last_top: top_pitch(vv),
                                    ..pre
                                };
                                assert(seq_step(pre, tv[idx as int], self.lead_note, self.tpb)
                                    == Ok::<SequencerState, Seq<char>>(post));
                                assert(seq_run(tv.skip(idx as int), pre, self.lead_note, self.tpb)
                                    == seq_run(
                                    tv.skip(idx as int + 1),
                                    post,
                                    self.lead_note,
                                    self.tpb,
                                ));
                            }
                        },
                        Err(msgs) => {
                            proof {
                                assert(!parses(sym@));
                                assert(seq_step(pre, tv[idx as int], self.lead_note, self.tpb)
                                    == Err::<SequencerState, Seq<char>>(sym@));
                                assert(seq_run(tv.skip(idx as int), pre, self.lead_note, self.tpb)
                                    == Err::<SequencerState, Seq<char>>(sym@));
                            }
                            return Err(CompingError::ChordSyntax(msgs));
                        },
                    }
                },
                TokenType::Rest(r) => {
                    let ticks: u16 = match r {
                        Rest::Whole => self.whole(),
                        Rest::Half => self.half(),
                        Rest::Quarter => self.quarter(),
                        Rest::Eight => self.eigth(),
                    };
                    start = start.saturating_add(ticks);
                    proof {
                        let post = SequencerState {
                            start_acc: sat_add16(pre.start_acc, rest_ticks(*r, self.tpb)),
                            ..pre
                        };
                        assert(start == post.start_acc);
                        assert(seq_step(pre, tv[idx as int], self.lead_note, self.tpb) == Ok::<SequencerState, Seq<char>>(post));
                        assert(seq_run(tv.skip(idx as int), pre, self.lead_note, self.tpb)
                            == seq_run(tv.skip(idx as int + 1), post, self.lead_note, self.tpb));
                    }
                },
                TokenType::Duration(d) => {
                    let ticks: u16 = match d {
                        Duration::Whole => self.whole(),
                        Duration::Half => self.half(),
                        Duration::Quarter => self.quarter(),
                        Duration::Eight => self.eigth(),
                    };
                    if pending.is_some() {
                        let v = pending.unwrap();
                        let ghost vv = v@;
                        chords.push(MidiChord { midi_codes: v, start, duration: ticks });
                        pending = None;
                        start = 0;
                        proof {
                            let finished = MidiChordV {
                                midi_codes: vv,
                                start: pre.start_acc,
                                duration: dur_ticks(*d, self.tpb),
                            };
                            assert(chords_view(chords@) =~= pre.out.push(finished));
                            let post = SequencerState {
                                start_acc: 0,
                                pending: None,
                                out: pre.out.push(finished),
                                ..pre
                            };
                            assert(seq_step(pre, tv[idx as int], self.lead_note, self.tpb)
                                == Ok::<SequencerState, Seq<char>>(post));
                            assert(seq_run(tv.skip(idx as int), pre, self.lead_note, self.tpb)
                                == seq_run(tv.skip(idx as int + 1), post, self.lead_note, self.tpb));
                        }
                    } else {
                        proof {
                            assert(seq_step(pre, tv[idx as int], self.lead_note, self.tpb) == Ok::<SequencerState, Seq<char>>(pre));
                            assert(seq_run(tv.skip(idx as int), pre, self.lead_note, self.tpb)
                                == seq_run(tv.skip(idx as int + 1), pre, self.lead_note, self.tpb));
                        }
                    }
                },
                TokenType::Eof => {
                    proof {
                        assert(seq_step(pre, tv[idx as int], self.lead_note, self.tpb) == Ok::<SequencerState, Seq<char>>(pre));
                        assert(seq_run(tv.skip(idx as int), pre, self.lead_note, self.tpb)
                            == seq_run(tv.skip(idx as int + 1), pre, self.lead_note, self.tpb));
                    }
                },
            }
            idx = idx + 1;
        }
        proof {
            assert(tv.skip(n as int).len() == 0);
            assert(seq_run(
                tv.skip(n as int),
                SequencerState {
                    start_acc: start,
                    pending: opt_codes_view(pending),
                    last_top: last_top,
                    out: chords_view(chords@),
                },
                self.lead_note,
                self.tpb,
            ) == Ok::<SequencerState, Seq<char>>(
                SequencerState {
                    start_acc: start,
                    pending: opt_codes_view(pending),
                    last_top: last_top,
                    out: chords_view(chords@),
                },
            ));
        }
        Ok(chords)
    }

    /// Add MIDI events for a chord to the events vector: a note-on for every
    /// pitch (the first carrying the start offset), then a note-off for
    /// every pitch (the first carrying the duration), velocities tapering
    /// from the base velocity.
    fn add_midi_chord(
        &self,
        events: &mut Vec<Event>,
        start: u16,
        duration: u16,
        midi_codes: &Vec<u8>,
    )
        ensures
            final(events)@ == old(events)@ + note_on_events(midi_codes@, start) + note_off_events(
                midi_codes@,
                duration,
            ),
    {
        let n = midi_codes.len();
        let ghost ons = note_on_events(midi_codes@, start);
        let ghost offs = note_off_events(midi_codes@, duration);
        let mut i: usize = 0;
        proof {
            assert(events@ + ons.take(0) =~= events@);
        }
        while i < n
            invariant
                n == midi_codes@.len(),
                i <= n,
                ons == note_on_events(midi_codes@, start),
                events@ == old(events)@ + ons.take(i as int),
            decreases n - i,
        {
            let note = midi_codes[i];
            let vel: u8 = if i < BASE_VELOCITY as usize {
                BASE_VELOCITY - (i as u8)
            } else {
                0
            };
            let delta: u32 = if i == 0 {
                start as u32
            } else {
                0
            };
            events.push(Event::NoteOn { key: note, vel, delta });
            proof {
                assert(vel == taper_velocity(i as int));
                assert(ons[i as int] == Event::NoteOn { key: note, vel, delta });
                assert(old(events)@ + ons.take(i as int).push(ons[i as int]) =~= old(events)@
                    + ons.take(i as int + 1));
            }
            i = i + 1;
        }
        proof {
            assert(ons.take(n as int) =~= ons);
        }
        let mut i: usize = 0;
        proof {
            assert(events@ + offs.take(0) =~= events@);
        }
        while i < n
            invariant
                n == midi_codes@.len(),
                i <= n,
                ons == note_on_events(midi_codes@, start),
                offs == note_off_events(midi_codes@, duration),
                events@ == old(events)@ + ons + offs.take(i as int),
            decreases n - i,
        {
            let note = midi_codes[i];
            let vel: u8 = if i < BASE_VELOCITY as usize {
                BASE_VELOCITY - (i as u8)
            } else {
                0
            };
            let delta: u32 = if i == 0 {
                duration as u32
            } else {
                0
            };
            events.push(Event::NoteOff { key: note, vel, delta });
            proof {
                assert(vel == taper_velocity(i as int));
                assert(offs[i as int] == Event::NoteOff { key: note, vel, delta });
                assert(old(events)@ + ons + offs.take(i as int).push(offs[i as int]) =~= old(
                    events,
                )@ + ons + offs.take(i as int + 1));
            }
            i = i + 1;
        }
        proof {
            assert(offs.take(n as int) =~= offs);
        }
    }

    /// Generate the MIDI event track for a string with chords and durations:
    /// one tempo event, the note events of every timed chord, and an
    /// end-of-track marker.
    /// ## Arguments
    /// * `i` - A string with chords and durations.
    /// * `omit_bass` - If true, the bass note of each chord is omitted.
    pub fn from_string(&self, i: &str, omit_bass: bool) -> (r: Result<Vec<Event>, CompingError>)
        requires
            self.wf(),
        ensures
            r is Ok <==> chords_of(i@, self.lead_note, self.tpb) is Ok,
            r matches Ok(evs) ==> (chords_of(i@, self.lead_note, self.tpb) matches Ok(cs) && evs@
                == emit_spec(cs, omit_bass, tempo_of(self.bpm))),
            r matches Err(e) ==> (e matches CompingError::ChordSyntax(msgs) && msgs@.len() >= 1
                && (chords_of(i@, self.lead_note, self.tpb) matches Err(sym) && (
                !chord_symbol_safe(sym) ==> msgs.deep_view() == unsupported_symbol_messages()))),
    {
        // microseconds x beat
        let mc_x_beat: u32 = 60 * 1_000_000 / self.bpm;
        proof {
            assert(mc_x_beat == tempo_of(self.bpm));
        }
        let chords = match self.chord_events(i) {
            Ok(cs) => cs,
            Err(e) => {
                return Err(e);
            },
        };
        let ghost csv = chords_view(chords@);
        let ghost tempo = tempo_of(self.bpm);
        let mut events: Vec<Event> = Vec::new();
        events.push(Event::Tempo(mc_x_beat));
        let n = chords.len();
        let mut k: usize = 0;
        proof {
            assert(csv.skip(0) =~= csv);
            assert(events@ =~= seq![Event::Tempo(tempo)]);
        }
        while k < n
            invariant
                n == chords@.len(),
                csv == chords_view(chords@),
                k <= n,
                events@ + chords_events_spec(csv.skip(k as int), omit_bass) == seq![
                    Event::Tempo(tempo),
                ] + chords_events_spec(csv, omit_bass),
            decreases n - k,
        {
            let ghost evs0 = events@;
            let ch = &chords[k];
            proof {
                assert(csv.skip(k as int)[0] == csv[k as int]);
                assert(csv[k as int] == chords@[k as int]@);
                assert(csv.skip(k as int).skip(1) =~= csv.skip(k as int + 1));
            }
            let ghost played = playable_codes(csv[k as int].midi_codes, omit_bass);
            if omit_bass {
                let mut codes = ch.midi_codes.clone();
                proof {
                    assert forall|j: int| 0 <= j < codes@.len() implies codes@[j]
                        == ch.midi_codes@[j] by {
                        assert(cloned::<u8>(ch.midi_codes@[j], codes@[j]));
                    }
                    assert(codes@ =~= ch.midi_codes@);
                }
                if codes.len() > 0 {
                    codes.remove(0);
                    proof {
                        assert(codes@ =~= ch.midi_codes@.skip(1));
                    }
                }
                proof {
                    assert(codes@ == played);
                }
                self.add_midi_chord(&mut events, ch.start, ch.duration, &codes);
            } else {
                proof {
                    assert(ch.midi_codes@ == played);
                }
                self.add_midi_chord(&mut events, ch.start, ch.duration, &ch.midi_codes);
            }
            proof {
                assert(chord_events_spec(csv[k as int], omit_bass) == note_on_events(
                    played,
                    csv[k as int].start,
                ) + note_off_events(played, csv[k as int].duration));
                assert(events@ =~= evs0 + chord_events_spec(csv[k as int], omit_bass));
                assert(events@ + chords_events_spec(csv.skip(k as int + 1), omit_bass) =~= evs0
                    + chords_events_spec(csv.skip(k as int), omit_bass));
            }
            k = k + 1;
        }
        events.push(Event::EndOfTrack);
        proof {
            assert(chords_events_spec(csv.skip(n as int), omit_bass) =~= Seq::<Event>::empty());
            assert(events@ =~= seq![Event::Tempo(tempo)] + chords_events_spec(csv, omit_bass)
                + seq![Event::EndOfTrack]);
        }
        Ok(events)
    }

    /// Generate the MIDI event track for a rhythm string and a set of chord
    /// symbols.  Every wildcard character `*` in the rhythm string is
    /// replaced by the next unused chord from the chords vector before the
    /// notation is sequenced.
    /// ## Arguments
    /// * `i` - A string with durations, rests and `*` placeholders.
    /// * `chords` - The chord symbols spliced in for the placeholders, in order.
    /// * `omit_bass` - If true, the bass note of each chord is omitted.
    pub fn from_wildcards(&self, i: &str, chords: &Vec<String>, omit_bass: bool) -> (r: Result<
        Vec<Event>,
        CompingError,
    >)
        requires
            self.wf(),
        ensures
            expand_spec(i@, chords.deep_view()) is None ==> (r matches Err(e) && e
                is WildcardExhausted),
            expand_spec(i@, chords.deep_view()) matches Some(ex) ==> {
                &&& r is Ok <==> chords_of(ex, self.lead_note, self.tpb) is Ok
                &&& (r matches Ok(evs) ==> (chords_of(ex, self.lead_note, self.tpb) matches Ok(cs)
                    && evs@ == emit_spec(cs, omit_bass, tempo_of(self.bpm))))
                &&& (r matches Err(e) ==> (e matches CompingError::ChordSyntax(msgs) && msgs@.len()
                    >= 1 && (chords_of(ex, self.lead_note, self.tpb) matches Err(sym) && (
                !chord_symbol_safe(sym) ==> msgs.deep_view() == unsupported_symbol_messages()))))
            },
    {
        match expand(i, chords) {
            Ok(parsed) => self.from_string(parsed.as_str(), omit_bass),
            Err(e) => Err(e),
        }
    }
}

impl Default for ChordCompingGenerator {
    fn default() -> (g: Self)
        ensures
            g.wf(),
            g.bpm == 120,
            g.lead_note == 74,
            g.tpb == 500,
    {
        Self::new(120, 74)
    }
}

} // verus!
