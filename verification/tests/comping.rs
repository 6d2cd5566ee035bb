//! Tests of the comping generator: tokenizer, wildcard expansion,
//! sequencing, and event emission, run against the real voicing engine.

use midi_comping::comping_generator::ChordCompingGenerator;
use midi_comping::error::CompingError;
use midi_comping::events::Event;
use midi_comping::lexer::Lexer;
use midi_comping::midi_chord::MidiChord;
use midi_comping::tokens::{Duration, Rest, Token, TokenType};
use midi_comping::wildcard::expand;

/// The voicing chordparser builds for "C" around lead note 74.
const C_VOICING: [u8; 4] = [36, 52, 67, 72];

#[test]
fn test_tokenize_simple() {
    let mut lexer = Lexer::new();
    let tokens = lexer.scan_tokens("C\\");
    assert_eq!(
        tokens,
        vec![
            Token::new(TokenType::Chord("C".to_string())),
            Token::new(TokenType::Duration(Duration::Quarter)),
            Token::new(TokenType::Eof),
        ]
    );
}

#[test]
fn test_tokenize_delimiters() {
    let mut lexer = Lexer::new();
    let tokens = lexer.scan_tokens(",\\lL_.~=|");
    assert_eq!(
        tokens,
        vec![
            Token::new(TokenType::Duration(Duration::Eight)),
            Token::new(TokenType::Duration(Duration::Quarter)),
            Token::new(TokenType::Duration(Duration::Half)),
            Token::new(TokenType::Duration(Duration::Whole)),
            Token::new(TokenType::Rest(Rest::Quarter)),
            Token::new(TokenType::Rest(Rest::Eight)),
            Token::new(TokenType::Rest(Rest::Half)),
            Token::new(TokenType::Rest(Rest::Whole)),
            Token::new(TokenType::Eof),
        ]
    );
}

#[test]
fn test_tokenize_greedy_chord_symbols() {
    let mut lexer = Lexer::new();
    let tokens = lexer.scan_tokens("Dm7b5|G7#9");
    assert_eq!(
        tokens,
        vec![
            Token::new(TokenType::Chord("Dm7b5".to_string())),
            Token::new(TokenType::Chord("G7#9".to_string())),
            Token::new(TokenType::Eof),
        ]
    );
}

#[test]
fn test_tokenize_empty() {
    let mut lexer = Lexer::new();
    let tokens = lexer.scan_tokens("");
    assert_eq!(tokens, vec![Token::new(TokenType::Eof)]);
}

#[test]
fn test_lexer_reuse() {
    let mut lexer = Lexer::new();
    let first = lexer.scan_tokens(".C\\");
    let second = lexer.scan_tokens(".C\\");
    assert_eq!(first, second);
}

#[test]
fn test_token_new() {
    let t = Token::new(TokenType::Rest(Rest::Eight));
    assert_eq!(t.token_type, TokenType::Rest(Rest::Eight));
}

#[test]
fn test_expand_splices_in_order() {
    let chords = vec!["C".to_string(), "G7".to_string()];
    let out = expand("*,.*,", &chords).unwrap();
    assert_eq!(out, "C,.G7,");
}

#[test]
fn test_expand_surplus_chords_ignored() {
    let chords = vec!["C".to_string(), "G7".to_string(), "F".to_string()];
    let out = expand("*\\", &chords).unwrap();
    assert_eq!(out, "C\\");
}

#[test]
fn test_expand_exhausted() {
    let chords = vec!["C".to_string()];
    let r = expand("*.*\\", &chords);
    assert_eq!(r, Err(CompingError::WildcardExhausted));
}

#[test]
fn test_pairs_no_rests_start_at_zero() {
    let generator = ChordCompingGenerator::new(120, 74);
    let chords = generator.chord_events("C\\G7\\Dm7\\").unwrap();
    assert_eq!(chords.len(), 3);
    for ch in &chords {
        assert_eq!(ch.start, 0);
        assert_eq!(ch.duration, 500);
    }
}

#[test]
fn test_eighth_rest_quarter_close() {
    let generator = ChordCompingGenerator::new(120, 74);
    let chords = generator.chord_events(".C\\").unwrap();
    assert_eq!(chords.len(), 1);
    assert_eq!(chords[0].start, 250);
    assert_eq!(chords[0].duration, 500);
}

#[test]
fn test_half_and_whole_classes() {
    let generator = ChordCompingGenerator::new(120, 74);
    let chords = generator.chord_events("~Cl=CL").unwrap();
    assert_eq!(chords.len(), 2);
    assert_eq!(chords[0].start, 1000);
    assert_eq!(chords[0].duration, 1000);
    assert_eq!(chords[1].start, 2000);
    assert_eq!(chords[1].duration, 2000);
}

#[test]
fn test_unclosed_chord_is_dropped() {
    let generator = ChordCompingGenerator::new(120, 74);
    let chords = generator.chord_events(".C").unwrap();
    assert_eq!(chords.len(), 0);
}

#[test]
fn test_duration_without_chord_has_no_effect() {
    let generator = ChordCompingGenerator::new(120, 74);
    let chords = generator.chord_events(".\\.C\\").unwrap();
    assert_eq!(chords.len(), 1);
    assert_eq!(chords[0].start, 500);
    assert_eq!(chords[0].duration, 500);
}

#[test]
fn test_rest_accumulation_saturates() {
    let generator = ChordCompingGenerator::new(120, 74);
    let notation = format!("{}C\\", "=".repeat(33));
    let chords = generator.chord_events(&notation).unwrap();
    assert_eq!(chords.len(), 1);
    assert_eq!(chords[0].start, u16::MAX);
}

#[test]
fn test_chord_syntax_error() {
    let generator = ChordCompingGenerator::new(120, 74);
    let r = generator.from_string("H\\", false);
    match r {
        Err(CompingError::ChordSyntax(msgs)) => assert!(!msgs.is_empty()),
        other => panic!("expected a chord syntax error, got {:?}", other),
    }
}

#[test]
fn test_non_ascii_numeric_symbol_rejected() {
    // An Arabic-Indic digit is numeric but wider than one byte; the voicing
    // engine's scanner cannot read it, so the library rejects the symbol
    // itself with its own single diagnostic.
    let generator = ChordCompingGenerator::new(120, 74);
    let r = generator.from_string("C\u{0663}\\", false);
    assert_eq!(
        r,
        Err(CompingError::ChordSyntax(vec![
            "unsupported chord symbol: non-ASCII digit or too many parentheses".to_string()
        ]))
    );
}

#[test]
fn test_midi_chord_new_rejects_non_ascii_numeric() {
    let r = MidiChord::new("C\u{0663}", 0, 500, 74);
    assert_eq!(
        r,
        Err(CompingError::ChordSyntax(vec![
            "unsupported chord symbol: non-ASCII digit or too many parentheses".to_string()
        ]))
    );
}

#[test]
fn test_non_ascii_non_numeric_symbol_reaches_engine() {
    // A non-numeric multi-byte character is handed to the voicing engine,
    // which rejects it with its own diagnostics.
    let generator = ChordCompingGenerator::new(120, 74);
    match generator.from_string("C\u{00f1}\\", false) {
        Err(CompingError::ChordSyntax(msgs)) => {
            assert!(!msgs.is_empty());
            assert_ne!(
                msgs,
                vec!["unsupported chord symbol: non-ASCII digit or too many parentheses".to_string()]
            );
        }
        other => panic!("expected a chord syntax error, got {:?}", other),
    }
}

#[test]
fn test_paren_heavy_symbol_rejected() {
    // A run of parenthesis characters long enough to overrun the voicing
    // engine's balance counter is rejected by the library before the call.
    let generator = ChordCompingGenerator::new(120, 74);
    let notation = format!("C{}\\", ")".repeat(300));
    let r = generator.from_string(&notation, false);
    assert_eq!(
        r,
        Err(CompingError::ChordSyntax(vec![
            "unsupported chord symbol: non-ASCII digit or too many parentheses".to_string()
        ]))
    );
}

#[test]
fn test_few_parens_reach_engine() {
    // A symbol with only a few (here unbalanced) parentheses is handed to
    // the voicing engine, which rejects it with its own diagnostics.
    let generator = ChordCompingGenerator::new(120, 74);
    match generator.from_string("C)\\", false) {
        Err(CompingError::ChordSyntax(msgs)) => {
            assert!(!msgs.is_empty());
            assert_ne!(
                msgs,
                vec!["unsupported chord symbol: non-ASCII digit or too many parentheses".to_string()]
            );
        }
        other => panic!("expected a chord syntax error, got {:?}", other),
    }
}

#[test]
fn test_hyphen_minor_chord_symbol() {
    // The hyphen stays a chord-symbol character, so minor chords written
    // with it reach the voicing engine.
    let generator = ChordCompingGenerator::new(120, 74);
    let chords = generator.chord_events("C-7\\").unwrap();
    assert_eq!(chords.len(), 1);
    assert_eq!(chords[0].duration, 500);
    assert!(!chords[0].midi_codes.is_empty());
}

#[test]
fn test_tempo_event_first() {
    let generator = ChordCompingGenerator::new(120, 74);
    let events = generator.from_string("C\\", false).unwrap();
    assert_eq!(events[0], Event::Tempo(500_000));
    let generator = ChordCompingGenerator::new(7, 74);
    let events = generator.from_string("C\\", false).unwrap();
    assert_eq!(events[0], Event::Tempo(8_571_428));
}

#[test]
fn test_velocity_taper() {
    let generator = ChordCompingGenerator::new(120, 74);
    let events = generator.from_string("C\\", false).unwrap();
    let vels: Vec<u8> = events
        .iter()
        .filter_map(|e| match e {
            Event::NoteOn { vel, .. } => Some(*vel),
            _ => None,
        })
        .collect();
    assert_eq!(vels, vec![64, 63, 62, 61]);
}

#[test]
fn test_omit_bass_drops_lowest_pitch() {
    let generator = ChordCompingGenerator::new(120, 74);
    let with_bass = generator.from_string("C\\", false).unwrap();
    let without_bass = generator.from_string("C\\", true).unwrap();
    let keys = |events: &Vec<Event>| -> Vec<u8> {
        events
            .iter()
            .filter_map(|e| match e {
                Event::NoteOn { key, .. } => Some(*key),
                _ => None,
            })
            .collect()
    };
    let full = keys(&with_bass);
    let dropped = keys(&without_bass);
    assert_eq!(dropped.len() + 1, full.len());
    assert_eq!(&full[1..], &dropped[..]);
}

#[test]
fn test_end_to_end_c_major() {
    let generator = ChordCompingGenerator::new(120, 74);
    let events = generator.from_string("C\\", false).unwrap();
    let p = C_VOICING;
    let mut expected = vec![Event::Tempo(500_000)];
    for (i, &key) in p.iter().enumerate() {
        expected.push(Event::NoteOn {
            key,
            vel: 64 - i as u8,
            delta: 0,
        });
    }
    for (i, &key) in p.iter().enumerate() {
        expected.push(Event::NoteOff {
            key,
            vel: 64 - i as u8,
            delta: if i == 0 { 500 } else { 0 },
        });
    }
    expected.push(Event::EndOfTrack);
    assert_eq!(events, expected);
}

#[test]
fn test_midi_chord_new_resolves_voicing() {
    let mc = MidiChord::new("C", 0, 500, 74).unwrap();
    assert_eq!(mc.midi_codes, C_VOICING.to_vec());
    assert_eq!(mc.start, 0);
    assert_eq!(mc.duration, 500);
    let again = MidiChord::new("C", 0, 500, 74).unwrap();
    assert_eq!(mc, again);
    let other = MidiChord::new("D", 0, 500, 74).unwrap();
    assert_ne!(mc.midi_codes, other.midi_codes);
}

#[test]
fn test_midi_chord_new_rejects_bad_symbol() {
    let r = MidiChord::new("notachord", 0, 500, 74);
    assert!(r.is_err());
}

#[test]
fn test_from_wildcards_matches_from_string() {
    let generator = ChordCompingGenerator::new(120, 74);
    let chords = vec!["C".to_string(), "G7".to_string()];
    let expanded = generator.from_wildcards("*,.*\\", &chords, false).unwrap();
    let direct = generator.from_string("C,.G7\\", false).unwrap();
    assert_eq!(expanded, direct);
}

#[test]
fn test_from_wildcards_exhausted() {
    let generator = ChordCompingGenerator::new(120, 74);
    let chords = vec!["C".to_string()];
    let r = generator.from_wildcards("*\\*\\", &chords, false);
    assert_eq!(r, Err(CompingError::WildcardExhausted));
}
