//! Failures of the comping generator.

use vstd::prelude::*;

verus! {

/// A failure while turning notation into events.  Either the notation holds
/// more wildcard placeholders than chord symbols were supplied, or a chord
/// symbol was rejected: by the voicing engine with its diagnostics, or by
/// the library itself when the symbol holds a character the engine's
/// scanner cannot read.
#[derive(Debug, Clone, PartialEq, Eq)]
pub enum CompingError {
    WildcardExhausted,
    ChordSyntax(Vec<String>),
}

/// The single diagnostic the library reports for a chord symbol it keeps
/// away from the voicing engine.
pub open spec fn unsupported_symbol_messages() -> Seq<Seq<char>> {
    seq!["unsupported chord symbol: non-ASCII digit or too many parentheses"@]
}

impl CompingError {
    /// The error for a chord symbol the voicing engine cannot read: one
    /// with a non-ASCII numeric character, or with more parenthesis
    /// characters than the engine survives.
    pub fn unsupported_symbol() -> (e: CompingError)
        ensures
            e matches CompingError::ChordSyntax(msgs) && msgs@.len() == 1 && msgs.deep_view()
                == unsupported_symbol_messages(),
    {
        let msg = String::from_str("unsupported chord symbol: non-ASCII digit or too many parentheses");
        let msgs: Vec<String> = vec![msg];
        proof {
            assert(msgs.deep_view() =~= unsupported_symbol_messages());
        }
        CompingError::ChordSyntax(msgs)
    }
}

} // verus!
