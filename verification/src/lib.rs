//! A compiler for a minimal C subset: a single `int main(void) { return N; }`
//! function is lexed, parsed into a language-level syntax tree, lowered into an
//! assembly-level syntax tree, and finally emitted as assembly text.
//!
//! The pipeline is strictly sequential: each stage takes the whole output of
//! the one before it, and either produces a complete result or fails after
//! recording a diagnostic in an [`error::ErrorList`] passed along explicitly.

pub mod emit;
pub mod error;
pub mod grammar;
pub mod lexer;
pub mod parser;
pub mod parser_asm;
pub mod parser_c;
pub mod pipeline;
