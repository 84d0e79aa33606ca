//! A verified core for a word-count utility: counting bytes, lines, words
//! and characters of byte inputs, and summing per-input results into a
//! total.

pub mod counter;
pub mod record;
pub mod text;
