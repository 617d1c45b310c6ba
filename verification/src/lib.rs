//! A line-oriented command tokenizer for a minimal interactive shell.
//!
//! One line of raw input is split into an ordered sequence of word tokens,
//! honoring shell-style single/double quoting and backslash escaping. The
//! mathematical model of the scanner lives in [`model`], the executable
//! tokenizer in [`tokenizer`], and the proved laws about the model in
//! [`laws`].

pub mod laws;
pub mod model;
pub mod tokenizer;

pub use tokenizer::parse_input;
pub use tokenizer::tokenize;
pub use tokenizer::Tokenization;

