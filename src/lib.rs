//! Splits text into words, possessive word forms, punctuation, blanks and
//! other characters; expands known abbreviations; and writes tokens back out
//! as text.
pub mod parsers;
pub mod render;
pub mod rewrite;
mod text;
pub mod token;

pub use parsers::tokens;
pub use render::{clean, to_string};
pub use rewrite::{replace, replace_with, Replacements};
pub use token::{PunctuationKind, Token};
