//! A lexical tokenizer and highlighting classifier for Rust-like source text.
//!
//! The tokenizer walks an in-memory byte buffer and emits a stream of
//! classified spans: half-open byte ranges tagged with a semantic category
//! (keyword, string, number, comment, attribute, lifetime, macro invocation,
//! operator, punctuation, whitespace). Successive spans are contiguous and
//! together cover the input exactly once; that totality, and the idempotence
//! of re-tokenizing a reconstructed document, are proved as laws in
//! [`tokenizer`].
//!
//! - [`scan`] holds the scanner: byte classes and maximal-munch runs.
//! - [`classify`] holds the classifier: reserved words and operator tables.
//! - [`context`] holds the context stack of open nested constructs.
//! - [`tokenizer`] ties them into the token stream and states the laws.
//! - [`text`] renders integers and messages exactly.
//! - [`support`] holds the value types around the tokenizer.

pub mod classify;
pub mod context;
pub mod scan;
pub mod support;
pub mod text;
pub mod token;
pub mod tokenizer;
