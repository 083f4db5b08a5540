//! Lexical analysis for a small dynamically-typed scripting language.
//!
//! The library turns raw source text into an ordered sequence of typed
//! tokens together with a collection of lexical errors, collected in one
//! pass: the scan never stops at the first problem. `tokenizer` holds the
//! token and error data model, `scanner` the one-shot scanning engine, and
//! `laws` proofs of the properties the scanner guarantees.

pub mod laws;
pub mod scanner;
pub mod tokenizer;
