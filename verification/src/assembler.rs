//! The assembler: from source text to a memory image.
pub mod asm_error;
pub mod asm_ins;
pub mod directive;
pub mod encoder;
pub mod file;
pub mod laws;
pub mod lexer;
pub mod semantic;
pub mod symbols;
pub mod syntax;
pub mod token;
