//! Whole-string matching of regular expressions by Brzozowski derivatives.
//!
//! A pattern is scanned into tokens (`lex`), parsed into a syntax tree
//! (`parse`) and turned into a `KyomuRegex` (`regex`), which matches an
//! input by differentiating once per character.
//!
//! `grammar` states the pattern grammar as a relation and proves that the
//! parser decides it. `language` says what a language is, and `soundness` and
//! `laws` prove the engine against the language of a value.

pub mod grammar;
pub mod language;
pub mod laws;
pub mod lex;
pub mod parse;
pub mod regex;
pub mod soundness;

pub use regex::KyomuRegex;
