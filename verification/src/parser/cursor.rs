//! A position in a sequence of tokens.
use vstd::prelude::*;

use crate::lexer::Token;

verus! {

/// Walks forward through a slice of tokens.
pub struct Cursor<'a> {
    tokens: &'a [Token],
    index: usize,
}

impl<'a> Cursor<'a> {
    /// The tokens walked through.
    pub closed spec fn tokens(&self) -> Seq<Token> {
        self.tokens@
    }

    /// The position of the current token.
    pub closed spec fn index(&self) -> nat {
        self.index as nat
    }

    /// The position never passes the end.
    pub open spec fn wf(&self) -> bool {
        self.index() <= self.tokens().len()
    }

    pub fn new(tokens: &'a [Token]) -> (result: Self)
        ensures
            result.wf(),
            result.tokens() == tokens@,
            result.index() == 0,
    {
        Self { tokens, index: 0 }
    }

    pub fn current(&self) -> (result: Option<&'a Token>)
        ensures
            self.index() < self.tokens().len() ==> result == Some(&self.tokens()[self.index() as int]),
            self.index() >= self.tokens().len() ==> result is None,
    {
        if self.index < self.tokens.len() {
            Some(&self.tokens[self.index])
        } else {
            None
        }
    }

    pub fn peek(&self) -> (result: Option<&'a Token>)
        ensures
            0 <= self.index() + 1 < self.tokens().len() ==> result == Some(&self.tokens()[self.index() + 1int]),
            !(0 <= self.index() + 1 < self.tokens().len()) ==> result is None,
    {
        if self.index < self.tokens.len() && self.index + 1 < self.tokens.len() {
            Some(&self.tokens[self.index + 1])
        } else {
            None
        }
    }

    /// Moves to the next token, unless the end was reached.
    pub fn advance(&mut self)
        requires
            old(self).wf(),
        ensures
            final(self).wf(),
            final(self).tokens() == old(self).tokens(),
            final(self).index() == if old(self).index() < old(self).tokens().len() {
                old(self).index() + 1
            } else {
                old(self).index()
            },
    {
        if self.index < self.tokens.len() {
            self.index += 1;
        }
    }

    /// The token before the current one (the first token at the start).
    pub fn previous(&self) -> (result: Option<&'a Token>)
        ensures
            ({
                let i = if self.index() >= 1 { self.index() - 1 } else { 0 };
                &&& 0 <= i < self.tokens().len() ==> result == Some(&self.tokens()[i])
                &&& i >= self.tokens().len() ==> result is None
            }),
    {
        let i = self.index.saturating_sub(1);
        if i < self.tokens.len() {
            Some(&self.tokens[i])
        } else {
            None
        }
    }
}

} // verus!
