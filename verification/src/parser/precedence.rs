//! Binding strength of binary operators.
use vstd::prelude::*;

use crate::lexer::TokenKind;

verus! {

/// From weakest to strongest.
#[derive(Debug, Clone, Copy, PartialEq, Eq, PartialOrd, Ord)]
pub enum Precedence {
    Lowest,
    LogicalOr,
    LogicalAnd,
    Comparison,
    Concatenation,
    Addition,
    Multiplication,
    Exponentiation,
    Unary,
    Primary,
}

/// The rank of a precedence level, from 0 (weakest) upwards.
pub open spec fn rank(p: Precedence) -> nat {
    match p {
        Precedence::Lowest => 0,
        Precedence::LogicalOr => 1,
        Precedence::LogicalAnd => 2,
        Precedence::Comparison => 3,
        Precedence::Concatenation => 4,
        Precedence::Addition => 5,
        Precedence::Multiplication => 6,
        Precedence::Exponentiation => 7,
        Precedence::Unary => 8,
        Precedence::Primary => 9,
    }
}

/// The precedence with which `kind` binds as a binary operator, if it is one.
pub open spec fn precedence_of(kind: TokenKind) -> Option<Precedence> {
    match kind {
        TokenKind::Or => Some(Precedence::LogicalOr),
        TokenKind::And => Some(Precedence::LogicalAnd),
        TokenKind::EqualEqual | TokenKind::NotEqual | TokenKind::Less | TokenKind::LessEqual
        | TokenKind::Greater | TokenKind::GreaterEqual => Some(Precedence::Comparison),
        TokenKind::DotDot => Some(Precedence::Concatenation),
        TokenKind::Plus | TokenKind::Minus => Some(Precedence::Addition),
        TokenKind::Star | TokenKind::Slash | TokenKind::Percent => Some(Precedence::Multiplication),
        TokenKind::Caret => Some(Precedence::Exponentiation),
        _ => None,
    }
}

impl Precedence {
    pub fn of_token(kind: &TokenKind) -> (result: Option<Precedence>)
        ensures
            result == precedence_of(*kind),
    {
        match kind {
            TokenKind::Or => Some(Precedence::LogicalOr),
            TokenKind::And => Some(Precedence::LogicalAnd),
            TokenKind::EqualEqual | TokenKind::NotEqual | TokenKind::Less | TokenKind::LessEqual
            | TokenKind::Greater | TokenKind::GreaterEqual => Some(Precedence::Comparison),
            TokenKind::DotDot => Some(Precedence::Concatenation),
            TokenKind::Plus | TokenKind::Minus => Some(Precedence::Addition),
            TokenKind::Star | TokenKind::Slash | TokenKind::Percent => Some(
                Precedence::Multiplication,
            ),
            TokenKind::Caret => Some(Precedence::Exponentiation),
            _ => None,
        }
    }

    /// `^` and `..` group to the right.
    pub fn is_right_associative(kind: &TokenKind) -> (result: bool)
        ensures
            result == (*kind is Caret || *kind is DotDot),
    {
        match kind {
            TokenKind::Caret | TokenKind::DotDot => true,
            _ => false,
        }
    }

    /// The next stronger level; `Primary` is the strongest.
    pub fn next(self) -> (result: Precedence)
        ensures
            rank(self) < 9 ==> rank(result) == rank(self) + 1,
            rank(self) == 9 ==> result == Precedence::Primary,
    {
        match self {
            Precedence::Lowest => Precedence::LogicalOr,
            Precedence::LogicalOr => Precedence::LogicalAnd,
            Precedence::LogicalAnd => Precedence::Comparison,
            Precedence::Comparison => Precedence::Concatenation,
            Precedence::Concatenation => Precedence::Addition,
            Precedence::Addition => Precedence::Multiplication,
            Precedence::Multiplication => Precedence::Exponentiation,
            Precedence::Exponentiation => Precedence::Unary,
            Precedence::Unary => Precedence::Primary,
            Precedence::Primary => Precedence::Primary,
        }
    }

    /// Whether this level binds at most as strongly as `other` (the derived
    /// order of the levels).
    pub fn at_most(self, other: Precedence) -> (result: bool)
        ensures
            result == (rank(self) <= rank(other)),
    {
        self.level() <= other.level()
    }

    /// The rank of this level.
    pub fn level(self) -> (result: u8)
        ensures
            result == rank(self),
    {
        match self {
            Precedence::Lowest => 0,
            Precedence::LogicalOr => 1,
            Precedence::LogicalAnd => 2,
            Precedence::Comparison => 3,
            Precedence::Concatenation => 4,
            Precedence::Addition => 5,
            Precedence::Multiplication => 6,
            Precedence::Exponentiation => 7,
            Precedence::Unary => 8,
            Precedence::Primary => 9,
        }
    }
}

} // verus!
