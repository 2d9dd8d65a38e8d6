//! A character-level tokenizer for a small templating language with `$name`
//! variables, `{ }` blocks, `[ ]` brackets and `"` string delimiters.
//!
//! The lexer turns source text into a stream of tokens whose reconstructed
//! text reproduces the input exactly; it never checks nesting or grammar.

pub mod classify;
pub mod token;
pub mod lexer;
