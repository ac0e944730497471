//! Tokens, for a tokenizer that works ahead of the parsers.
use std::collections::VecDeque;
use vstd::prelude::*;
use vstd::utf8::encode_utf8;
use crate::literals::integer::IntLit;

verus! {

/// The tokens of a source text, in the order in which they are read.
pub type Tokens<'a> = VecDeque<Token<'a>>;

/// The three kinds of brackets.
#[derive(Debug, Clone, Copy, PartialEq, Eq, Structural)]
pub enum Delimiter {
    /// `(` and `)`
    Paren,
    /// `[` and `]`
    Bra,
    /// `{` and `}`
    Cur,
}

/// A token: an integer literal, a keyword, an opening or a closing bracket,
/// or an operator symbol.
#[derive(Debug, Clone, Copy, PartialEq, Eq)]
pub enum Token<'a> {
    IntLit(IntLit<'a>),
    Keyword(&'static str),
    LDel(Delimiter),
    RDel(Delimiter),
    Symbol(Symbol),
}

/// The operator symbols that are tokens.
#[derive(Debug, Clone, Copy, PartialEq, Eq, Structural)]
pub enum Symbol {
    Plus,
    Minus,
    Aster,
    Slash,
}

impl Symbol {
    /// The number of bytes that the symbol takes in a source text.
    pub open spec fn spec_len(&self) -> nat {
        1
    }

    /// The number of bytes that the symbol takes in a source text: each of
    /// the four symbols is one ASCII character.
    pub fn len(&self) -> (n: usize)
        ensures
            n == self.spec_len(),
    {
        1
    }
}

impl<'a> Token<'a> {
    /// The number of bytes that the token takes in a source text, in its
    /// UTF-8 encoding.
    pub open spec fn spec_len(&self) -> nat {
        match *self {
            Token::IntLit(i) => i.spec_len(),
            Token::Keyword(word) => encode_utf8(word@).len(),
            Token::LDel(_) => 1,
            Token::RDel(_) => 1,
            Token::Symbol(symbol) => symbol.spec_len(),
        }
    }

    /// The number of bytes that the token takes in a source text: the
    /// length of a literal or a keyword as it is written, and one for a
    /// bracket or a symbol.
    pub fn len(&self) -> (n: usize)
        ensures
            n == self.spec_len() as usize,
    {
        match self {
            Token::IntLit(i) => i.len(),
            Token::Keyword(word) => word.len(),
            Token::LDel(_) | Token::RDel(_) => 1,
            Token::Symbol(symbol) => symbol.len(),
        }
    }
}

} // verus!
