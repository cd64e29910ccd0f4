//! What a matcher produces: a value on success, a position on failure.
use vstd::prelude::*;

verus! {

/// The mathematical model of a matched value.
pub enum Val {
    Unit,
    Absent,
    Present(Box<Val>),
    Nil,
    Cons(Box<Val>, Box<Val>),
    Named(Seq<char>, Box<Val>),
    /// Host code, the named bindings in scope for it (a list of `Named`),
    /// and the text the action matched.
    Host(Seq<char>, Box<Val>, Seq<char>),
}

/// The list of `items`, first item first.
pub open spec fn list_val(items: Seq<Val>) -> Val
    decreases items.len(),
{
    if items.len() == 0 {
        Val::Nil
    } else {
        Val::Cons(Box::new(items[0]), Box::new(list_val(items.drop_first())))
    }
}

/// The model of what a matcher returns.
pub enum Outcome {
    Success(int, Val),
    Failure(int),
    /// No result: the matcher would not return (a rule chain deeper than the
    /// budget, or a repetition that succeeds without consuming anything), or
    /// the expression cannot be run (an unknown rule, `StringifyExpr`).
    Stuck,
}

/// A value built by a matcher.
#[derive(Debug, PartialEq)]
pub enum Value {
    Unit,
    /// An optional expression that did not match.
    Absent,
    /// An optional expression that matched.
    Present(Box<Value>),
    /// The end of a list.
    Nil,
    /// A list item followed by the rest of the list.
    Cons(Box<Value>, Box<Value>),
    /// A value bound to a name.
    Named(String, Box<Value>),
    /// The result of an action: its host code, the list of named bindings in
    /// scope for it, and the text it matched.
    Host(String, Box<Value>, Vec<char>),
}

impl View for Value {
    type V = Val;

    open spec fn view(&self) -> Val
        decreases self,
    {
        match self {
            Value::Unit => Val::Unit,
            Value::Absent => Val::Absent,
            Value::Present(v) => Val::Present(Box::new((**v).view())),
            Value::Nil => Val::Nil,
            Value::Cons(h, t) => Val::Cons(Box::new((**h).view()), Box::new((**t).view())),
            Value::Named(n, v) => Val::Named(n@, Box::new((**v).view())),
            Value::Host(c, b, t) => Val::Host(c@, Box::new((**b).view()), t@),
        }
    }
}

/// What a matcher returns.
#[derive(Debug, PartialEq)]
pub enum MatchResult {
    Success(usize, Value),
    Failure(usize),
    Stuck,
}

impl View for MatchResult {
    type V = Outcome;

    open spec fn view(&self) -> Outcome {
        match self {
            MatchResult::Success(p, v) => Outcome::Success(*p as int, v@),
            MatchResult::Failure(p) => Outcome::Failure(*p as int),
            MatchResult::Stuck => Outcome::Stuck,
        }
    }
}

} // verus!
