//! A classical shift (Caesar) substitution cipher over Unicode text.
//!
//! The cipher shifts each character's position within a chosen alphabet,
//! a fixed ordered sequence of distinct characters; characters outside the
//! alphabet pass through unchanged.  An alphabet can be chosen explicitly
//! by language code, by statistical language detection over the text, or
//! left to a default.

pub mod alphabet;
pub mod cipher;
pub mod options;
pub mod text;
