use vstd::prelude::*;
use crate::literal::{Literal, LiteralView};
use crate::token_type::TokenType;

verus! {

/// One lexical unit: its kind, the source text it was read from, the value it
/// denotes where it is a string or a number, and the line it ends on.
#[derive(Debug, PartialEq)]
pub struct Token {
    pub token_type: TokenType,
    pub lexeme: String,
    pub literal: Option<Literal>,
    pub line: usize,
}

/// A token as a mathematical value.
pub struct TokenView {
    pub token_type: TokenType,
    pub lexeme: Seq<char>,
    pub literal: Option<LiteralView>,
    pub line: usize,
}

impl View for Token {
    type V = TokenView;

    open spec fn view(&self) -> TokenView {
        TokenView {
            token_type: self.token_type,
            lexeme: self.lexeme@,
            literal: match self.literal {
                Some(literal) => Some(literal@),
                None => None,
            },
            line: self.line,
        }
    }
}

impl Clone for Token {
    fn clone(&self) -> (copy: Token)
        ensures
            copy@ == self@,
    {
        Token {
            token_type: self.token_type,
            lexeme: self.lexeme.clone(),
            literal: match &self.literal {
                Some(literal) => Some(literal.clone()),
                None => None,
            },
            line: self.line,
        }
    }
}

impl Token {
    /// A token of the given parts.
    pub fn new(token_type: TokenType, lexeme: String, literal: Option<Literal>, line: usize) -> (token: Token)
        ensures
            token.token_type == token_type,
            token.lexeme == lexeme,
            token.literal == literal,
            token.line == line,
    {
        Token { token_type, lexeme, literal, line }
    }
}

/// The views of a sequence of values, item by item.
pub open spec fn views<T: View>(items: Seq<T>) -> Seq<T::V> {
    Seq::new(items.len(), |i: int| items[i]@)
}

} // verus!
