//! Turns a subtitle transcript into a successor-frequency model of its
//! tokens and samples that model to emit a short pseudo-random quote.

pub mod error;
pub mod text;
pub mod random;
pub mod io;
pub mod cache;
pub mod dictionary;
pub mod tokenizer;
pub mod builder;
