//! An assembler and a virtual machine for the LC-3, a 16-bit word-addressed
//! teaching architecture.
//!
//! `assembler` turns source text into a memory image: a line screen, a lexer, a
//! semantic pass that lays out the program and resolves labels, and an
//! encoder. `vm` loads such an image and executes it one instruction at a
//! time. `output` is the character device both sides talk to, and `text`
//! holds the small character and string routines the rest is built on.
use crate::assembler::lexer::{lex, Lexer};
use crate::assembler::syntax::screen_compiles;
use crate::assembler::token::TokenCollection;
use vstd::prelude::*;

pub mod assembler;
pub mod output;
pub mod text;
pub mod vm;

verus! {

/// The tokens of a source text. There are some when the regular expression
/// engine accepts every pattern of the line screen, and none when it refuses
/// one.
pub fn get_tokens(file: String) -> (collection: Option<TokenCollection>)
    ensures
        collection is Some <==> screen_compiles(),
        collection matches Some(c) ==> c.tokens.deep_view() == lex(file@).tokens,
{
    tokens_from(Lexer::new(), file)
}

/// The tokens that `lexer` reads from `file`, when there is a lexer; nothing
/// when there is none.
pub fn tokens_from(lexer: Option<Lexer>, file: String) -> (collection: Option<TokenCollection>)
    ensures
        collection is Some <==> lexer is Some,
        collection matches Some(c) ==> c.tokens.deep_view() == lex(file@).tokens,
{
    match lexer {
        Some(mut lexer) => Some(TokenCollection { tokens: lexer.run(file) }),
        None => None,
    }
}

} // verus!
