//! The boundary to chordparser's voicing engine.
//!
//! A chord symbol string is parsed and voiced into an ordered list of MIDI
//! pitch codes built around a lead note.  The music theory inside the engine
//! is not modeled here: its outcome is only named, as a function of the
//! symbol and the lead note alone.
//!
//! Two shapes of symbol would make the engine fault and are therefore kept
//! away from it — the library rejects them with an error of its own before
//! the call.  The engine's numeric scanner steps through its input byte by
//! byte, so a numeric character wider than one byte (a non-ASCII digit)
//! would make it slice inside a character.  And the engine tracks its
//! parenthesis balance in a 16-bit counter moved once per parenthesis
//! token, recursing once per nested opening parenthesis, so a long enough
//! run of parentheses would drive the counter out of range or exhaust the
//! stack; symbols are bounded far below either limit, and every symbol the
//! bound excludes is unbalanced and would have been rejected anyway.

use vstd::prelude::*;

verus! {

/// Whether `char::is_numeric` accepts the character.
pub uninterp spec fn is_numeric_char(c: char) -> bool;

/// Relies on char::is_numeric: whether the character is numeric is a
/// property of the character alone.
#[verifier::external_body]
fn char_is_numeric(c: char) -> (r: bool)
    ensures
        r == is_numeric_char(c),
{
    c.is_numeric()
}

/// A parenthesis character, which moves the engine's balance counter.
pub open spec fn is_paren_char(c: char) -> bool {
    c == '(' || c == ')'
}

/// How many parenthesis characters a symbol holds.
pub open spec fn paren_count(sym: Seq<char>) -> nat
    decreases sym.len(),
{
    if sym.len() == 0 {
        0
    } else {
        (if is_paren_char(sym[0]) {
            1nat
        } else {
            0nat
        }) + paren_count(sym.skip(1))
    }
}

/// The most parenthesis characters a symbol handed to the engine may hold.
pub const MAX_SYMBOL_PARENS: usize = 256;

/// A chord symbol the voicing engine can read without fault: every numeric
/// character in it is ASCII, and its parenthesis characters are too few to
/// drive the engine's balance counter out of range or recurse deeply.
pub open spec fn chord_symbol_safe(sym: Seq<char>) -> bool {
    &&& forall|j: int|
        0 <= j < sym.len() ==> (is_numeric_char(#[trigger] sym[j]) ==> (sym[j] as u32) < 128)
    &&& paren_count(sym) < MAX_SYMBOL_PARENS
}

/// Whether the symbol can be handed to the voicing engine: every numeric
/// character is ASCII and the parenthesis characters are within bounds.
pub fn symbol_is_safe(sym: &str) -> (r: bool)
    ensures
        r == chord_symbol_safe(sym@),
{
    let n = sym.unicode_len();
    let mut parens: usize = 0;
    let mut j: usize = 0;
    proof {
        assert(sym@.skip(0) =~= sym@);
    }
    while j < n
        invariant
            n == sym@.len(),
            j <= n,
            parens <= j,
            forall|k: int|
                0 <= k < j ==> (is_numeric_char(#[trigger] sym@[k]) ==> (sym@[k] as u32) < 128),
            paren_count(sym@) == parens + paren_count(sym@.skip(j as int)),
        decreases n - j,
    {
        let c = sym.get_char(j);
        proof {
            assert(sym@.skip(j as int)[0] == sym@[j as int]);
            assert(sym@.skip(j as int).skip(1) =~= sym@.skip(j as int + 1));
        }
        if char_is_numeric(c) && (c as u32) >= 128 {
            return false;
        }
        if c == '(' || c == ')' {
            parens = parens + 1;
        }
        j = j + 1;
    }
    proof {
        assert(sym@.skip(n as int).len() == 0);
    }
    parens < MAX_SYMBOL_PARENS
}

/// Whether chordparser's `Parser::parse` accepts the chord symbol.
pub uninterp spec fn parses(sym: Seq<char>) -> bool;

/// The pitch list chordparser's `generate_voicing` builds for a valid chord
/// symbol around the given lead note.
pub uninterp spec fn voicing_of(sym: Seq<char>, lead: u8) -> Seq<u8>;

/// Relies on chordparser.  `Parser::parse` reads a chord symbol into a
/// `Chord` or reports at least one diagnostic; it clears the parser's state
/// before every parse, so whether a symbol is accepted depends on the symbol
/// alone.  (Which diagnostic is reported for a rejected symbol may differ
/// between calls — the validator walks a hash map — so nothing more is
/// stated of the messages.)  `voicings::generate_voicing` deterministically
/// turns the parsed chord and the lead note into a pitch list, and always
/// pushes at least the bass (or root) pitch and a lead pitch, so the list is
/// never empty.  The engine's numeric scanner requires the symbol's numeric
/// characters to be ASCII (wider ones would make it slice inside a
/// character), and its parenthesis balance lives in a 16-bit counter moved
/// once per parenthesis, with one recursion per nested opening parenthesis;
/// the safety precondition keeps the symbol within both limits.
#[verifier::external_body]
pub(crate) fn resolve_voicing(sym: &str, lead: u8) -> (r: Result<Vec<u8>, Vec<String>>)
    requires
        chord_symbol_safe(sym@),
    ensures
        r is Ok <==> parses(sym@),
        r matches Ok(v) ==> v@ == voicing_of(sym@, lead) && v@.len() >= 1,
        r matches Err(e) ==> e@.len() >= 1,
{
    let mut parser = chordparser::parsing::Parser::new();
    match parser.parse(sym) {
        Ok(ch) => Ok(chordparser::voicings::generate_voicing(&ch, Some(lead))),
        Err(e) => Err(e.errors.iter().map(|pe| pe.to_string()).collect()),
    }
}

} // verus!
