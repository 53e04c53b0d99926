//! Lexical tokens.

use vstd::prelude::*;
use crate::num::Num;

verus! {

/// One piece of a text literal: literal characters, or a variable to be
/// interpolated.
#[derive(Clone, Debug)]
pub enum TextPart {
    Lit(String),
    Interp(String),
}

/// A lexical token.
#[derive(Clone, Debug)]
pub enum Token {
    Ident(String),
    Number(Num),
    TextLit(Vec<TextPart>),
    KwLet,
    KwIf,
    KwWhile,
    KwAs,
    KwTrue,
    KwFalse,
    KwNothing,
    Colon,
    Assign,
    Plus,
    Minus,
    Star,
    Slash,
    LParen,
    RParen,
    LBrace,
    RBrace,
    Comma,
    Newline,
}

} // verus!
