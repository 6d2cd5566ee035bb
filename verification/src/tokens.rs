//! Tokens of the comping notation grammar.
//!
//! The grammar is character based.  One character of the notation either
//! closes a chord with a duration, accumulates a rest, separates bars, or
//! belongs to a chord symbol:
//!
//! | character | token                |
//! |-----------|----------------------|
//! | `\`       | `Duration::Quarter`  |
//! | `,`       | `Duration::Eight`    |
//! | `l`       | `Duration::Half`     |
//! | `L`       | `Duration::Whole`    |
//! | `_`       | `Rest::Quarter`      |
//! | `.`       | `Rest::Eight`        |
//! | `~`       | `Rest::Half`         |
//! | `=`       | `Rest::Whole`        |
//! | `|`       | bar separator, emits no token |
//! | other     | chord-symbol character |

use vstd::prelude::*;

verus! {

/// Duration of a note
#[derive(Debug, Clone, Copy, PartialEq, Eq, Structural)]
pub enum Duration {
    Whole,
    Half,
    Quarter,
    Eight,
}

/// Rest duration
#[derive(Debug, Clone, Copy, PartialEq, Eq, Structural)]
pub enum Rest {
    Whole,
    Half,
    Quarter,
    Eight,
}

/// Token types for the comping generator
#[derive(Debug, Clone, PartialEq, Eq)]
pub enum TokenType {
    Chord(String),
    Rest(Rest),
    Duration(Duration),
    Eof,
}

#[derive(Debug, Clone, PartialEq, Eq)]
pub struct Token {
    pub token_type: TokenType,
}

/// Mathematical view of a token: a chord symbol is seen as its character
/// sequence.
pub enum TokenV {
    Chord(Seq<char>),
    Rest(Rest),
    Duration(Duration),
    Eof,
}

impl View for TokenType {
    type V = TokenV;

    open spec fn view(&self) -> TokenV {
        match self {
            TokenType::Chord(s) => TokenV::Chord(s@),
            TokenType::Rest(r) => TokenV::Rest(*r),
            TokenType::Duration(d) => TokenV::Duration(*d),
            TokenType::Eof => TokenV::Eof,
        }
    }
}

impl View for Token {
    type V = TokenV;

    open spec fn view(&self) -> TokenV {
        self.token_type@
    }
}

/// The views of a sequence of tokens.
pub open spec fn tokens_view(ts: Seq<Token>) -> Seq<TokenV> {
    ts.map_values(|t: Token| t@)
}

impl Token {
    pub fn new(token_type: TokenType) -> (t: Token)
        ensures
            t@ == token_type@,
    {
        Token { token_type }
    }
}

} // verus!
