//! A lexical scanner for a small dynamically-typed scripting language.
//!
//! The scanner turns raw source text into an ordered sequence of typed
//! tokens, tracking 1-based line numbers, skipping whitespace and `//`
//! comments, and recovering from lexical errors (unexpected characters
//! and unterminated string literals) so that a single pass reports every
//! error while still returning every token it recognized.

pub mod diagnostics;
pub mod model;
pub mod props;
pub mod scanner;
pub mod token;
