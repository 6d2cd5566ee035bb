//! Scanner turning a notation string into tokens.
//!
//! The scan is a single left-to-right pass over the characters.  A duration
//! or rest character is one character wide and becomes a token of its own, a
//! bar separator emits no token, and any run of other characters is collected
//! greedily into one chord-symbol token.  The token stream always ends with
//! exactly one `Eof` token.

use vstd::prelude::*;
use vstd::string::*;

use crate::tokens::{Duration, Rest, Token, TokenType, TokenV, tokens_view};

verus! {

/// A character that is part of a chord symbol: anything that is not a
/// duration, rest or bar-separator character.
pub open spec fn is_chord_char(c: char) -> bool {
    c != '\\' && c != ',' && c != 'l' && c != 'L' && c != '_' && c != '.' && c != '~' && c != '='
        && c != '|'
}

/// The tokens emitted for a single delimiter character (none for the bar
/// separator).
pub open spec fn delim_tokens(c: char) -> Seq<TokenV>
    recommends
        !is_chord_char(c),
{
    if c == '\\' {
        seq![TokenV::Duration(Duration::Quarter)]
    } else if c == ',' {
        seq![TokenV::Duration(Duration::Eight)]
    } else if c == 'l' {
        seq![TokenV::Duration(Duration::Half)]
    } else if c == 'L' {
        seq![TokenV::Duration(Duration::Whole)]
    } else if c == '_' {
        seq![TokenV::Rest(Rest::Quarter)]
    } else if c == '.' {
        seq![TokenV::Rest(Rest::Eight)]
    } else if c == '~' {
        seq![TokenV::Rest(Rest::Half)]
    } else if c == '=' {
        seq![TokenV::Rest(Rest::Whole)]
    } else {
        seq![]
    }
}

/// One pass of the scanner over the remaining characters `s`, with `buf`
/// holding the chord-symbol characters collected so far.  A delimiter (or the
/// end of the input) flushes a non-empty buffer as one chord token.
pub open spec fn scan_chars(s: Seq<char>, buf: Seq<char>) -> Seq<TokenV>
    decreases s.len(),
{
    if s.len() == 0 {
        if buf.len() > 0 {
            seq![TokenV::Chord(buf)]
        } else {
            seq![]
        }
    } else {
        if is_chord_char(s[0]) {
            scan_chars(s.skip(1), buf.push(s[0]))
        } else {
            let flushed = if buf.len() > 0 {
                seq![TokenV::Chord(buf)]
            } else {
                Seq::<TokenV>::empty()
            };
            flushed + delim_tokens(s[0]) + scan_chars(s.skip(1), Seq::empty())
        }
    }
}

/// The tokens of a notation string, without the final `Eof` token.
pub open spec fn scan_spec(s: Seq<char>) -> Seq<TokenV> {
    scan_chars(s, Seq::empty())
}

pub struct Lexer {
    source: String,
    tokens: Vec<Token>,
    current: usize,
}

impl Lexer {
    /// A lexer holding no source text and no tokens.
    pub closed spec fn is_fresh(&self) -> bool {
        &&& self.source@.len() == 0
        &&& self.tokens@.len() == 0
        &&& self.current == 0
    }

    pub fn new() -> (l: Lexer)
        ensures
            l.is_fresh(),
    {
        Lexer { source: String::new(), tokens: Vec::new(), current: 0 }
    }

    fn is_at_end(&self) -> (b: bool)
        ensures
            b == (self.current >= self.source@.len()),
    {
        self.current >= self.source.as_str().unicode_len()
    }

    fn set_source(&mut self, source: &str)
        ensures
            final(self).source@ == source@,
            final(self).tokens == old(self).tokens,
            final(self).current == old(self).current,
    {
        self.source = String::from_str(source);
    }

    fn add_token(&mut self, token_type: TokenType)
        ensures
            tokens_view(final(self).tokens@) == tokens_view(old(self).tokens@).push(token_type@),
            final(self).source == old(self).source,
            final(self).current == old(self).current,
    {
        let ghost tv = token_type@;
        self.tokens.push(Token::new(token_type));
        proof {
            assert(tokens_view(self.tokens@) =~= tokens_view(old(self).tokens@).push(tv));
        }
    }

    fn advance(&mut self) -> (c: char)
        requires
            old(self).current < old(self).source@.len(),
        ensures
            c == old(self).source@[old(self).current as int],
            final(self).current == old(self).current + 1,
            final(self).source == old(self).source,
            final(self).tokens == old(self).tokens,
    {
        let n = self.source.as_str().unicode_len();
        let c = self.source.as_str().get_char(self.current);
        self.current = self.current + 1;
        c
    }

    fn is_chord_character(&self, c: char) -> (b: bool)
        ensures
            b == is_chord_char(c),
    {
        c != '\\' && c != ',' && c != 'l' && c != 'L' && c != '_' && c != '.' && c != '~' && c
            != '=' && c != '|'
    }

    /// Scan a notation string into its tokens, ending with `Eof`.  The scan
    /// is total: it never fails, and unrecognized text simply becomes part of
    /// a chord symbol.  The lexer is left empty, ready for another scan.
    pub fn scan_tokens(&mut self, source: &str) -> (res: Vec<Token>)
        ensures
            tokens_view(res@) == scan_spec(source@).push(TokenV::Eof),
            final(self).is_fresh(),
    {
        self.tokens = Vec::new();
        self.current = 0;
        self.set_source(source);
        let ghost s = source@;
        proof {
            assert(s.skip(0) =~= s);
        }
        while !self.is_at_end()
            invariant
                self.source@ == s,
                self.current <= s.len(),
                tokens_view(self.tokens@) + scan_chars(s.skip(self.current as int), Seq::empty())
                    =~= scan_spec(s),
            decreases s.len() - self.current,
        {
            self.scan_token();
        }
        proof {
            assert(s.skip(s.len() as int).len() == 0);
            assert(tokens_view(self.tokens@) =~= scan_spec(s));
        }
        self.add_token(TokenType::Eof);
        let mut res: Vec<Token> = Vec::new();
        core::mem::swap(&mut res, &mut self.tokens);
        self.source = String::new();
        self.current = 0;
        res
    }

    fn scan_token(&mut self)
        requires
            old(self).current < old(self).source@.len(),
        ensures
            final(self).source == old(self).source,
            old(self).current < final(self).current,
            final(self).current <= final(self).source@.len(),
            tokens_view(final(self).tokens@) + scan_chars(
                final(self).source@.skip(final(self).current as int),
                Seq::empty(),
            ) =~= tokens_view(old(self).tokens@) + scan_chars(
                old(self).source@.skip(old(self).current as int),
                Seq::empty(),
            ),
    {
        let ghost s = self.source@;
        let ghost cur0 = self.current as int;
        let c = self.advance();
        proof {
            assert(s.skip(cur0)[0] == s[cur0]);
            assert(s.skip(cur0).skip(1) =~= s.skip(cur0 + 1));
        }
        match c {
            '\\' => self.add_token(TokenType::Duration(Duration::Quarter)),
            ',' => self.add_token(TokenType::Duration(Duration::Eight)),
            'l' => self.add_token(TokenType::Duration(Duration::Half)),
            'L' => self.add_token(TokenType::Duration(Duration::Whole)),
            '_' => self.add_token(TokenType::Rest(Rest::Quarter)),
            '.' => self.add_token(TokenType::Rest(Rest::Eight)),
            '~' => self.add_token(TokenType::Rest(Rest::Half)),
            '=' => self.add_token(TokenType::Rest(Rest::Whole)),
            '|' => (),
            _ => {
                let start: usize = self.current - 1;
                proof {
                    assert(is_chord_char(c));
                    assert(Seq::<char>::empty().push(c) =~= s.subrange(cur0, cur0 + 1));
                }
                while !self.is_at_end() && self.is_chord_character(
                    self.source.as_str().get_char(self.current),
                )
                    invariant
                        self.source == old(self).source,
                        self.source@ == s,
                        self.tokens == old(self).tokens,
                        start + 1 <= self.current <= s.len(),
                        start == cur0,
                        scan_chars(s.skip(start as int), Seq::empty()) =~= scan_chars(
                            s.skip(self.current as int),
                            s.subrange(start as int, self.current as int),
                        ),
                    decreases s.len() - self.current,
                {
                    let ghost cur = self.current as int;
                    proof {
                        assert(s.skip(cur)[0] == s[cur]);
                        assert(s.skip(cur).skip(1) =~= s.skip(cur + 1));
                        assert(s.subrange(start as int, cur).push(s[cur]) =~= s.subrange(
                            start as int,
                            cur + 1,
                        ));
                    }
                    self.advance();
                }
                let ghost cur = self.current as int;
                let sub = self.source.as_str().substring_char(start, self.current);
                let symbol = String::from_str(sub);
                proof {
                    if cur == s.len() {
                        assert(s.skip(cur).len() == 0);
                    } else {
                        assert(s.skip(cur)[0] == s[cur]);
                        assert(s.skip(cur).skip(1) =~= s.skip(cur + 1));
                    }
                }
                self.add_token(TokenType::Chord(symbol));
            },
        }
    }
}

impl Default for Lexer {
    fn default() -> (l: Self)
        ensures
            l.is_fresh(),
    {
        Self::new()
    }
}

} // verus!
