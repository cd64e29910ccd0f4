//! The grammar tree: rules, expressions, character-set cases, tagged
//! sub-expressions and import declarations.
use vstd::prelude::*;

verus! {

/// A whole grammar: optional initializer code, imports and rules, in order.
pub struct Grammar {
    pub initializer: Option<String>,
    pub imports: Vec<RustUse>,
    pub rules: Vec<Rule>,
}

/// An import declaration of the generated module.
pub enum RustUse {
    RustUseSimple(String),
    RustUseGlob(String),
    RustUseList(String, Vec<String>),
}

/// A named rule with its expression, its return-type text and whether it
/// gets a whole-input entry point.
pub struct Rule {
    pub name: String,
    pub expr: Box<Expr>,
    pub ret_type: String,
    pub exported: bool,
}

/// An inclusive character range; a single character has `start == end`.
pub struct CharSetCase {
    pub start: char,
    pub end: char,
}

/// A sub-expression of an action, optionally bound to a name.
pub struct TaggedExpr {
    pub name: Option<String>,
    pub expr: Box<Expr>,
}

/// A parsing expression.
pub enum Expr {
    AnyCharExpr,
    LiteralExpr(String),
    CharSetExpr(bool, Vec<CharSetCase>),
    RuleExpr(String),
    SequenceExpr(Vec<Expr>),
    ChoiceExpr(Vec<Expr>),
    OptionalExpr(Box<Expr>),
    /// The repeated expression, the minimum count and an optional separator.
    Repeat(Box<Expr>, usize, Option<Box<Expr>>),
    PosAssertExpr(Box<Expr>),
    NegAssertExpr(Box<Expr>),
    StringifyExpr(Box<Expr>),
    ActionExpr(Vec<TaggedExpr>, String),
}

/// True when `c` lies in one of the cases.
pub open spec fn in_cases(cases: Seq<CharSetCase>, c: char) -> bool {
    exists|i: int| 0 <= i < cases.len() && cases[i].start <= c && c <= cases[i].end
}

} // verus!
