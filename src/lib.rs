//! A parsing-expression-grammar engine: a grammar is a tree of expressions,
//! and each rule is run as a backtracking recursive-descent matcher over an
//! input text, with whole-input entry points that report line numbers.
//!
//! `semantics` states what every matcher returns, `matcher` runs the
//! expressions and is proved to return exactly that, and `laws` proves
//! general facts of the semantics.

pub mod grammar;
pub mod runtime;
pub mod value;
pub mod semantics;
pub mod matcher;
pub mod compile;
pub mod laws;
