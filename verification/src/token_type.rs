use vstd::prelude::*;

verus! {

/// The closed set of lexical token kinds.
///
/// `Star` and `Slash` are reserved kinds: the scanner never produces them and
/// the evaluator has no reduction rule for them, so a `Binary` expression
/// built from one of them evaluates to an `UnknownOperation` error.
#[derive(Clone, Copy, Debug, PartialEq, Eq, Structural)]
pub enum TokenType {
    LeftParen,
    RightParen,
    Plus,
    Minus,
    Star,
    Slash,
    Number,
    Space,
    EOF,
}

/// The token kinds that may begin a binary operation.
pub open spec fn is_operator(k: TokenType) -> bool {
    k is Plus || k is Minus || k is Star || k is Slash
}

} // verus!
