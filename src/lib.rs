//! A small regular-expression engine: a parser that turns a pattern into a
//! sequence of elements, and a backtracking matcher that decides whether the
//! pattern occurs anywhere in a text.
pub mod laws;
pub mod matcher;
pub mod parser;

pub use matcher::{match_pattern, RegexMatcher};
pub use parser::{
    AnchorType, CharClass, ParseError, Pattern, PatternElement, Quantifier, RegexParser,
};
