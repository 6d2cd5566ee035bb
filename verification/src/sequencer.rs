//! Mathematical model of the sequencer: a state machine over the token
//! stream.
//!
//! A chord token resolves its symbol into a voicing (around a lead note
//! smoothed against the previous voicing's lead pitch) and leaves it
//! pending; rest tokens accumulate start ticks; a duration token closes the
//! pending chord, stamping it with the accumulated start offset and the
//! duration's tick value.  A duration token with no pending chord has no
//! effect, and a pending chord never closed before the end of the stream is
//! discarded.  Rest accumulation saturates at the tick type's maximum.
//!
//! A run aborts at the first chord symbol that is rejected — because the
//! voicing engine cannot read it (a non-ASCII digit, or too many
//! parenthesis characters) or because
//! it does not parse.  Which diagnostics the engine reports for a rejected
//! symbol is not a function of the symbol alone, so the model carries the
//! offending symbol itself as the error.

use vstd::prelude::*;

use crate::midi_chord::MidiChordV;
use crate::tokens::{Duration, Rest, TokenV};
use crate::voicing::{chord_symbol_safe, parses, voicing_of};

verus! {

/// Ticks of a duration class at `tpb` ticks per beat.
pub open spec fn dur_ticks(d: Duration, tpb: u16) -> u16
    recommends
        4 * tpb <= u16::MAX,
{
    match d {
        Duration::Whole => (4 * tpb) as u16,
        Duration::Half => (2 * tpb) as u16,
        Duration::Quarter => tpb,
        Duration::Eight => tpb / 2,
    }
}

/// Ticks of a rest class at `tpb` ticks per beat.
pub open spec fn rest_ticks(r: Rest, tpb: u16) -> u16
    recommends
        4 * tpb <= u16::MAX,
{
    match r {
        Rest::Whole => (4 * tpb) as u16,
        Rest::Half => (2 * tpb) as u16,
        Rest::Quarter => tpb,
        Rest::Eight => tpb / 2,
    }
}

/// Saturating addition on tick counters.
pub open spec fn sat_add16(a: u16, b: u16) -> u16 {
    if a + b > u16::MAX {
        u16::MAX
    } else {
        (a + b) as u16
    }
}

/// Distance between two pitches in semitones.
pub open spec fn pitch_distance(a: u8, b: u8) -> int {
    if a >= b {
        a - b
    } else {
        b - a
    }
}

/// The lead note handed to the voicing engine for the next chord: the
/// previous voicing's lead pitch when it lies within five semitones of the
/// configured lead note (smoothing the voice leading), else the configured
/// lead note itself.
pub open spec fn next_lead(last_top: Option<u8>, lead_note: u8) -> u8 {
    match last_top {
        Some(p) => if pitch_distance(p, lead_note) < 5 {
            p
        } else {
            lead_note
        },
        None => lead_note,
    }
}

/// The pitch the voicing engine placed last: the voicing's lead pitch.
pub open spec fn top_pitch(codes: Seq<u8>) -> Option<u8> {
    if codes.len() > 0 {
        Some(codes.last())
    } else {
        None
    }
}

/// Transient state of the sequencer: the accumulated rest ticks, the chord
/// awaiting its closing duration (if any), the lead pitch of the most
/// recently resolved voicing (for voice-leading smoothing), and the timed
/// chords appended so far.
pub struct SequencerState {
    pub start_acc: u16,
    pub pending: Option<Seq<u8>>,
    pub last_top: Option<u8>,
    pub out: Seq<MidiChordV>,
}

/// The state at the start of sequencing.
pub open spec fn initial_state() -> SequencerState {
    SequencerState { start_acc: 0, pending: None, last_top: None, out: Seq::empty() }
}

/// One transition of the sequencer on one token.  A chord symbol that is
/// rejected aborts the whole run, carrying the symbol.
pub open spec fn seq_step(st: SequencerState, t: TokenV, lead_note: u8, tpb: u16) -> Result<
    SequencerState,
    Seq<char>,
> {
    match t {
        TokenV::Chord(sym) => if chord_symbol_safe(sym) && parses(sym) {
            let v = voicing_of(sym, next_lead(st.last_top, lead_note));
            Ok(SequencerState { pending: Some(v), last_top: top_pitch(v), ..st })
        } else {
            Err(sym)
        },
        TokenV::Rest(r) => Ok(
            SequencerState { start_acc: sat_add16(st.start_acc, rest_ticks(r, tpb)), ..st },
        ),
        TokenV::Duration(d) => match st.pending {
            Some(v) => Ok(
                SequencerState {
                    start_acc: 0,
                    pending: None,
                    out: st.out.push(
                        MidiChordV {
                            midi_codes: v,
                            start: st.start_acc,
                            duration: dur_ticks(d, tpb),
                        },
                    ),
                    ..st
                },
            ),
            None => Ok(st),
        },
        TokenV::Eof => Ok(st),
    }
}

/// The sequencer run over a token stream, from a given state.
pub open spec fn seq_run(toks: Seq<TokenV>, st: SequencerState, lead_note: u8, tpb: u16) -> Result<
    SequencerState,
    Seq<char>,
>
    decreases toks.len(),
{
    if toks.len() == 0 {
        Ok(st)
    } else {
        match seq_step(st, toks[0], lead_note, tpb) {
            Ok(st2) => seq_run(toks.skip(1), st2, lead_note, tpb),
            Err(e) => Err(e),
        }
    }
}

/// The timed chords of a notation string: the output of the sequencer run
/// over its tokens, or the first rejected chord symbol.
pub open spec fn chords_of(notation: Seq<char>, lead_note: u8, tpb: u16) -> Result<
    Seq<MidiChordV>,
    Seq<char>,
> {
    match seq_run(crate::lexer::scan_spec(notation), initial_state(), lead_note, tpb) {
        Ok(st) => Ok(st.out),
        Err(e) => Err(e),
    }
}

/// A trailing `Eof` token leaves a sequencer run unchanged.
pub proof fn lemma_run_push_eof(toks: Seq<TokenV>, st: SequencerState, lead_note: u8, tpb: u16)
    ensures
        seq_run(toks.push(TokenV::Eof), st, lead_note, tpb) == seq_run(toks, st, lead_note, tpb),
    decreases toks.len(),
{
    let ts2 = toks.push(TokenV::Eof);
    if toks.len() == 0 {
        assert(ts2[0] == TokenV::Eof);
        assert(ts2.skip(1) =~= Seq::<TokenV>::empty());
        assert(seq_run(ts2.skip(1), st, lead_note, tpb) == Ok::<SequencerState, Seq<char>>(st));
    } else {
        assert(ts2[0] == toks[0]);
        assert(ts2.skip(1) =~= toks.skip(1).push(TokenV::Eof));
        match seq_step(st, toks[0], lead_note, tpb) {
            Ok(st2) => lemma_run_push_eof(toks.skip(1), st2, lead_note, tpb),
            Err(_) => {},
        }
    }
}

/// The token stream of chord/duration pairs: each chord symbol immediately
/// closed by its duration, with no rests in between.
pub open spec fn pairs_tokens(syms: Seq<Seq<char>>, durs: Seq<Duration>) -> Seq<TokenV>
    decreases syms.len(),
{
    if syms.len() == 0 {
        Seq::empty()
    } else {
        seq![TokenV::Chord(syms[0]), TokenV::Duration(durs[0])] + pairs_tokens(
            syms.skip(1),
            durs.skip(1),
        )
    }
}

proof fn lemma_pairs_from(
    st: SequencerState,
    syms: Seq<Seq<char>>,
    durs: Seq<Duration>,
    lead_note: u8,
    tpb: u16,
)
    requires
        st.start_acc == 0,
        syms.len() == durs.len(),
        forall|j: int|
            0 <= j < syms.len() ==> chord_symbol_safe(#[trigger] syms[j]) && parses(syms[j]),
    ensures
        seq_run(pairs_tokens(syms, durs), st, lead_note, tpb) matches Ok(st2) && {
            &&& st2.out.len() == st.out.len() + syms.len()
            &&& st2.out.take(st.out.len() as int) == st.out
            &&& forall|j: int|
                st.out.len() <= j < st2.out.len() ==> (#[trigger] st2.out[j]).start == 0
        },
    decreases syms.len(),
{
    let ts = pairs_tokens(syms, durs);
    if syms.len() == 0 {
        assert(st.out.take(st.out.len() as int) =~= st.out);
    } else {
        let rest = pairs_tokens(syms.skip(1), durs.skip(1));
        assert(ts == seq![TokenV::Chord(syms[0]), TokenV::Duration(durs[0])] + rest);
        assert(ts[0] == TokenV::Chord(syms[0]));
        assert(chord_symbol_safe(syms[0]) && parses(syms[0]));
        let v = voicing_of(syms[0], next_lead(st.last_top, lead_note));
        let st1 = SequencerState { pending: Some(v), last_top: top_pitch(v), ..st };
        assert(seq_step(st, ts[0], lead_note, tpb) == Ok::<SequencerState, Seq<char>>(st1));
        assert(seq_run(ts, st, lead_note, tpb) == seq_run(ts.skip(1), st1, lead_note, tpb));
        assert(ts.skip(1)[0] == TokenV::Duration(durs[0]));
        let c0 = MidiChordV { midi_codes: v, start: 0, duration: dur_ticks(durs[0], tpb) };
        let st2 = SequencerState {
            start_acc: 0,
            pending: None,
            out: st.out.push(c0),
            ..st1
        };
        assert(seq_step(st1, ts.skip(1)[0], lead_note, tpb) == Ok::<SequencerState, Seq<char>>(
            st2,
        ));
        assert(seq_run(ts.skip(1), st1, lead_note, tpb) == seq_run(
            ts.skip(1).skip(1),
            st2,
            lead_note,
            tpb,
        ));
        assert(ts.skip(1).skip(1) =~= rest);
        assert(forall|j: int|
            0 <= j < syms.skip(1).len() ==> chord_symbol_safe(#[trigger] syms.skip(1)[j]) && parses(
                syms.skip(1)[j],
            ));
        lemma_pairs_from(st2, syms.skip(1), durs.skip(1), lead_note, tpb);
        let stf = seq_run(rest, st2, lead_note, tpb)->Ok_0;
        assert(stf.out.take(st2.out.len() as int) == st2.out);
        assert(stf.out.take(st.out.len() as int) =~= st.out);
        assert forall|j: int| st.out.len() <= j < stf.out.len() implies (#[trigger] stf.out[j]).start
            == 0 by {
            if j < st2.out.len() {
                assert(stf.out[j] == stf.out.take(st2.out.len() as int)[j]);
                assert(stf.out[j] == st2.out[j]);
            }
        }
    }
}

/// Law: a notation of chord/duration pairs and no rests yields exactly one
/// timed chord per pair, every one with a start offset of zero.
pub proof fn lemma_pairs_no_rests(
    syms: Seq<Seq<char>>,
    durs: Seq<Duration>,
    lead_note: u8,
    tpb: u16,
)
    requires
        syms.len() == durs.len(),
        forall|j: int|
            0 <= j < syms.len() ==> chord_symbol_safe(#[trigger] syms[j]) && parses(syms[j]),
    ensures
        seq_run(pairs_tokens(syms, durs), initial_state(), lead_note, tpb) matches Ok(st) && {
            &&& st.out.len() == syms.len()
            &&& forall|j: int| 0 <= j < st.out.len() ==> (#[trigger] st.out[j]).start == 0
        },
{
    lemma_pairs_from(initial_state(), syms, durs, lead_note, tpb);
}

/// Law: an eighth-note rest, then a chord closed by a quarter-note duration,
/// yields exactly one timed chord starting at `tpb / 2` and lasting `tpb`
/// ticks.
pub proof fn lemma_eighth_rest_quarter_close(sym: Seq<char>, lead_note: u8, tpb: u16)
    requires
        chord_symbol_safe(sym),
        parses(sym),
    ensures
        seq_run(
            seq![TokenV::Rest(Rest::Eight), TokenV::Chord(sym), TokenV::Duration(Duration::Quarter)],
            initial_state(),
            lead_note,
            tpb,
        ) matches Ok(st) && st.out =~= seq![
            MidiChordV {
                midi_codes: voicing_of(sym, lead_note),
                start: tpb / 2,
                duration: tpb,
            },
        ],
{
    let ts = seq![
        TokenV::Rest(Rest::Eight),
        TokenV::Chord(sym),
        TokenV::Duration(Duration::Quarter),
    ];
    assert(ts.skip(1) =~= seq![TokenV::Chord(sym), TokenV::Duration(Duration::Quarter)]);
    assert(ts.skip(1).skip(1) =~= seq![TokenV::Duration(Duration::Quarter)]);
    assert(ts.skip(1).skip(1).skip(1) =~= Seq::<TokenV>::empty());
    assert(sat_add16(0, tpb / 2) == tpb / 2);
    let st0 = initial_state();
    let st1 = SequencerState { start_acc: tpb / 2, ..st0 };
    assert(seq_step(st0, ts[0], lead_note, tpb) == Ok::<SequencerState, Seq<char>>(st1));
    assert(seq_run(ts, st0, lead_note, tpb) == seq_run(ts.skip(1), st1, lead_note, tpb));
    let v = voicing_of(sym, lead_note);
    assert(next_lead(st1.last_top, lead_note) == lead_note);
    let st2 = SequencerState { pending: Some(v), last_top: top_pitch(v), ..st1 };
    assert(seq_step(st1, ts.skip(1)[0], lead_note, tpb) == Ok::<SequencerState, Seq<char>>(st2));
    assert(seq_run(ts.skip(1), st1, lead_note, tpb) == seq_run(
        ts.skip(1).skip(1),
        st2,
        lead_note,
        tpb,
    ));
    let c0 = MidiChordV { midi_codes: v, start: tpb / 2, duration: tpb };
    let st3 = SequencerState { start_acc: 0, pending: None, out: st2.out.push(c0), ..st2 };
    assert(seq_step(st2, ts.skip(1).skip(1)[0], lead_note, tpb) == Ok::<
        SequencerState,
        Seq<char>,
    >(st3));
    assert(seq_run(ts.skip(1).skip(1), st2, lead_note, tpb) == seq_run(
        ts.skip(1).skip(1).skip(1),
        st3,
        lead_note,
        tpb,
    ));
    assert(seq_run(ts, st0, lead_note, tpb) == Ok::<SequencerState, Seq<char>>(st3));
    assert(st3.out =~= seq![c0]);
}

} // verus!
