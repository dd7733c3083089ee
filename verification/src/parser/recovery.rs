//! Error recovery: how the parser gets back on its feet after an error.
use vstd::prelude::*;

use crate::lexer::TokenKind;

verus! {

/// Counts errors and remembers whether the parser is resynchronising.
pub struct RecoveryState {
    error_count: usize,
    in_error_recovery: bool,
}

impl RecoveryState {
    pub closed spec fn count(&self) -> nat {
        self.error_count as nat
    }

    pub closed spec fn recovering(&self) -> bool {
        self.in_error_recovery
    }

    pub fn new() -> (result: Self)
        ensures
            result.count() == 0,
            !result.recovering(),
    {
        Self { error_count: 0, in_error_recovery: false }
    }

    pub fn error_count(&self) -> (result: usize)
        ensures
            result == self.count(),
    {
        self.error_count
    }

    /// Counts one more error (the count stops at `usize::MAX`).
    pub fn increment_error_count(&mut self)
        ensures
            final(self).count() == if old(self).count() < usize::MAX {
                old(self).count() + 1
            } else {
                old(self).count()
            },
            final(self).recovering() == old(self).recovering(),
    {
        self.error_count = self.error_count.saturating_add(1);
    }

    pub fn is_in_error_recovery(&self) -> (result: bool)
        ensures
            result == self.recovering(),
    {
        self.in_error_recovery
    }

    pub fn set_in_error_recovery(&mut self, value: bool)
        ensures
            final(self).recovering() == value,
            final(self).count() == old(self).count(),
    {
        self.in_error_recovery = value;
    }

    /// Further errors are suppressed while recovering after more than three.
    pub fn should_suppress_cascading(&self) -> (result: bool)
        ensures
            result == (self.recovering() && self.count() > 3),
    {
        self.in_error_recovery && self.error_count > 3
    }
}

/// Synchronization tokens: safe points to resume after an error.
pub open spec fn spec_is_synchronization_token(token: TokenKind) -> bool {
    token is End || token is ElseIf || token is Else || token is Until || token is Function
        || token is Local || token is If || token is While || token is Repeat || token is For
        || token is Return || token is Break || token is Continue || token is Type || token is EOF
}

/// Tokens that can end an expression.
pub open spec fn spec_is_expression_boundary(token: TokenKind) -> bool {
    token is Comma || token is RightParen || token is RightBracket || token is RightBrace
        || token is End || token is EOF || token is Semicolon
}

/// Tokens that can end a statement.
pub open spec fn spec_is_statement_boundary(token: TokenKind) -> bool {
    token is Semicolon || token is EOF || token is End || token is ElseIf || token is Else
        || token is Until
}

/// Tokens that can end a block.
pub open spec fn spec_is_block_terminator(token: TokenKind) -> bool {
    token is End || token is Else || token is ElseIf || token is Until || token is EOF
}

/// Tokens that can begin a type annotation.
pub open spec fn spec_can_start_type(token: TokenKind) -> bool {
    token is Identifier || token is LeftParen || token is LeftBrace || token is DotDotDot
        || token is Any || token is Never || token is Nil
}

pub fn is_synchronization_token(token: &TokenKind) -> (result: bool)
    ensures
        result == spec_is_synchronization_token(*token),
{
    match token {
        TokenKind::End | TokenKind::ElseIf | TokenKind::Else | TokenKind::Until
        | TokenKind::Function | TokenKind::Local | TokenKind::If | TokenKind::While
        | TokenKind::Repeat | TokenKind::For | TokenKind::Return | TokenKind::Break
        | TokenKind::Continue | TokenKind::Type | TokenKind::EOF => true,
        _ => false,
    }
}

pub fn is_expression_boundary(token: &TokenKind) -> (result: bool)
    ensures
        result == spec_is_expression_boundary(*token),
{
    match token {
        TokenKind::Comma | TokenKind::RightParen | TokenKind::RightBracket
        | TokenKind::RightBrace | TokenKind::End | TokenKind::EOF | TokenKind::Semicolon => true,
        _ => false,
    }
}

pub fn is_statement_boundary(token: &TokenKind) -> (result: bool)
    ensures
        result == spec_is_statement_boundary(*token),
{
    match token {
        TokenKind::Semicolon | TokenKind::EOF | TokenKind::End | TokenKind::ElseIf
        | TokenKind::Else | TokenKind::Until => true,
        _ => false,
    }
}

pub fn is_block_terminator(token: &TokenKind) -> (result: bool)
    ensures
        result == spec_is_block_terminator(*token),
{
    match token {
        TokenKind::End | TokenKind::Else | TokenKind::ElseIf | TokenKind::Until
        | TokenKind::EOF => true,
        _ => false,
    }
}

/// Tokens that follow a parameter in a parameter list.
pub fn is_parameter_separator(token: &TokenKind) -> (result: bool)
    ensures
        result == (*token is Comma || *token is RightParen),
{
    match token {
        TokenKind::Comma | TokenKind::RightParen => true,
        _ => false,
    }
}

pub fn can_start_type(token: &TokenKind) -> (result: bool)
    ensures
        result == spec_can_start_type(*token),
{
    match token {
        TokenKind::Identifier(_) | TokenKind::LeftParen | TokenKind::LeftBrace
        | TokenKind::DotDotDot | TokenKind::Any | TokenKind::Never | TokenKind::Nil => true,
        _ => false,
    }
}

} // verus!
