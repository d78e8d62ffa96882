use vstd::prelude::*;

use crate::token_type::TokenType;

verus! {

/// One lexical unit: a kind and the literal source text it was scanned from.
#[derive(Debug)]
pub struct Token {
    pub kind: TokenType,
    pub literal: String,
}

/// The mathematical image of a [`Token`]: its kind and its text as a
/// character sequence.
pub struct SpecToken {
    pub kind: TokenType,
    pub text: Seq<char>,
}

impl View for Token {
    type V = SpecToken;

    open spec fn view(&self) -> SpecToken {
        SpecToken { kind: self.kind, text: self.literal@ }
    }
}

impl Clone for Token {
    fn clone(&self) -> (t: Token)
        ensures
            t == *self,
    {
        Token { kind: self.kind, literal: self.literal.clone() }
    }
}

impl Token {
    /// Builds a token from its kind and literal text.  The lexeme and the
    /// line number are accepted for interface compatibility and dropped.
    pub fn new(type_: TokenType, _lexeme: String, literal: String, _line: u32) -> (t: Token)
        ensures
            t.kind == type_,
            t.literal == literal,
    {
        Token { kind: type_, literal }
    }
}

/// The image of a token sequence under [`View`].
pub open spec fn toks_view(ts: Seq<Token>) -> Seq<SpecToken> {
    ts.map_values(|t: Token| t@)
}

/// The terminal token every scan ends with.
pub open spec fn eof_token() -> SpecToken {
    SpecToken { kind: TokenType::EOF, text: Seq::empty() }
}

/// [`toks_view`] maps the token view over the sequence elementwise.
pub proof fn lemma_toks_view(ts: Seq<Token>)
    ensures
        toks_view(ts).len() == ts.len(),
        forall|i: int| 0 <= i < ts.len() ==> toks_view(ts)[i] == ts[i]@,
{
}

} // verus!
