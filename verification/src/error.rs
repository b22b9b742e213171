use vstd::prelude::*;
use crate::token::{Loc, Token, TokenKind};

verus! {

/// Every way a compilation can fail. A failure aborts the whole pipeline: no
/// stage returns a partial result next to one of these.
#[derive(Debug, Copy, Clone, PartialEq, Eq, Structural)]
pub enum CompileError {
    /// No lexical rule matches the character found at the location.
    Tokenize(char, Loc),
    /// The integer literal starting at the location does not fit in 64 bits.
    LiteralTooLarge(Loc),
    /// The reader was asked to move past the end of its input.
    EndOfInput,
    /// The parser required a token of kind `expected` and found another one.
    UnexpectedToken { expected: TokenKind, found: Token },
    /// The parser required an integer literal and found another token.
    ExpectedNumber(Token),
    /// The expression is complete, but tokens other than the end marker follow.
    TrailingToken(Token),
    /// The token cursor is exhausted: not even an end marker is left.
    EndOfTokens,
    /// An operator node lacks an operand. The parser never builds such a tree,
    /// so this reports a defect rather than bad input.
    MissingOperand,
}

} // verus!
