//! A lexical scanner for a small scripting language: source text in, a
//! sequence of classified tokens or a list of lexical errors out.
//!
//! [`token::scan`] makes one pass over the text. It recognises punctuation
//! and operators, string and number literals, identifiers and reserved
//! words, and skips blanks and `//` comments. A failure does not stop the
//! pass: every failure is recorded as a [`LexError`], and the outcome is
//! either all the tokens or all the failures, never both.
//!
//! What the pass computes is stated in [`grammar`] as functions on
//! sequences of characters, and the pass is proved to compute exactly
//! that; [`laws`] holds what follows from the grammar for every text.
//!
//! Three choices are worth knowing:
//! - A number literal is kept as its decimal spelling, which is always a
//!   run of digits, or two runs with one dot between them. Turning it into
//!   a floating-point value is left to the consumer and cannot fail.
//! - A dot belongs to a number only where a digit follows it. In `1.` the
//!   number `1` is kept and the dot is scanned next, as an operator.
//! - An identifier keeps its spelling.
//!
//! Positions are counted in characters from the start of the text, lines
//! in newlines consumed, both from zero.

pub mod cursor;
pub mod error;
pub mod grammar;
pub mod laws;
pub mod text;
pub mod token;

pub use error::LexError;
