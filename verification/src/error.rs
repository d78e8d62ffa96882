use vstd::prelude::*;

verus! {

/// The four failure classes of the pipeline.
#[derive(Clone, Copy, Debug, PartialEq, Eq, Structural)]
pub enum ErrorKind {
    Lexical,
    Syntax,
    Numeric,
    Evaluation,
}

/// Every way the pipeline can fail, as a returned value instead of a
/// process abort.  Positions are best effort: a character index for the
/// scanner, a token index for the parser.
#[derive(Clone, Copy, Debug, PartialEq, Eq, Structural)]
pub enum EvalError {
    /// The scanner met a character outside `( ) + -`, space and the digits.
    UnexpectedChar { at: usize, ch: char },
    /// The parser found no production at this token.
    ExpectExpression { at: usize },
    /// A `+` or `-` operator was not followed by a space token.
    ExpectSpaceAfterOperator { at: usize },
    /// A grouping was not closed by `)`.
    ExpectRightParen { at: usize },
    /// A value that should be an unsigned decimal number was empty or held
    /// a character other than a digit.
    InvalidNumber,
    /// A decimal number does not fit the 32-bit unsigned range.
    NumberTooLarge,
    /// An addition left the 32-bit unsigned range.
    AddOverflow,
    /// A subtraction went below zero.
    SubUnderflow,
    /// A binary expression carried an operator with no reduction rule.
    UnknownOperation,
}

impl EvalError {
    /// The failure class this error belongs to.
    pub fn kind(&self) -> (k: ErrorKind)
        ensures
            k == self.kind_spec(),
    {
        match self {
            EvalError::UnexpectedChar { .. } => ErrorKind::Lexical,
            EvalError::ExpectExpression { .. } => ErrorKind::Syntax,
            EvalError::ExpectSpaceAfterOperator { .. } => ErrorKind::Syntax,
            EvalError::ExpectRightParen { .. } => ErrorKind::Syntax,
            EvalError::InvalidNumber => ErrorKind::Numeric,
            EvalError::NumberTooLarge => ErrorKind::Numeric,
            EvalError::AddOverflow => ErrorKind::Numeric,
            EvalError::SubUnderflow => ErrorKind::Numeric,
            EvalError::UnknownOperation => ErrorKind::Evaluation,
        }
    }

    pub open spec fn kind_spec(&self) -> ErrorKind {
        match self {
            EvalError::UnexpectedChar { .. } => ErrorKind::Lexical,
            EvalError::ExpectExpression { .. } => ErrorKind::Syntax,
            EvalError::ExpectSpaceAfterOperator { .. } => ErrorKind::Syntax,
            EvalError::ExpectRightParen { .. } => ErrorKind::Syntax,
            EvalError::InvalidNumber => ErrorKind::Numeric,
            EvalError::NumberTooLarge => ErrorKind::Numeric,
            EvalError::AddOverflow => ErrorKind::Numeric,
            EvalError::SubUnderflow => ErrorKind::Numeric,
            EvalError::UnknownOperation => ErrorKind::Evaluation,
        }
    }

    /// A human-readable description, fixed per variant.
    pub fn message(&self) -> (m: &'static str)
        ensures
            self matches EvalError::ExpectExpression { .. } ==> m@ == "Expect expression."@,
            self matches EvalError::ExpectSpaceAfterOperator { .. } ==> m@
                == "Expect space after operator."@,
            self matches EvalError::ExpectRightParen { .. } ==> m@
                == "Expect ')' after expression."@,
            self matches EvalError::UnknownOperation ==> m@ == "Unknown operation."@,
            self matches EvalError::UnexpectedChar { .. } ==> m@ == "Unexpected character."@,
    {
        match self {
            EvalError::UnexpectedChar { .. } => "Unexpected character.",
            EvalError::ExpectExpression { .. } => "Expect expression.",
            EvalError::ExpectSpaceAfterOperator { .. } => "Expect space after operator.",
            EvalError::ExpectRightParen { .. } => "Expect ')' after expression.",
            EvalError::InvalidNumber => "Not an unsigned decimal number.",
            EvalError::NumberTooLarge => "Number does not fit 32 bits.",
            EvalError::AddOverflow => "Addition overflowed.",
            EvalError::SubUnderflow => "Subtraction went below zero.",
            EvalError::UnknownOperation => "Unknown operation.",
        }
    }
}

} // verus!
