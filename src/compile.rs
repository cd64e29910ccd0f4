//! Turning a grammar into a parser: every rule gets a matcher, and every
//! exported rule an entry point that runs on a whole input.
use vstd::prelude::*;
use crate::grammar::{Grammar, Rule, Expr, TaggedExpr};
use crate::runtime::{line_of, pos_to_line};
use crate::semantics::{eval, find_rule};
use crate::value::{Val, Value, Outcome, MatchResult};
use crate::matcher::{match_expr, rule_index, chars_of};

verus! {

/// How many rule references a chain may follow before a matcher gives up.
pub const RULE_DEPTH: usize = 0xffff_ffff;

/// Why a grammar cannot be compiled.
#[derive(Debug, PartialEq, Eq, Structural)]
pub enum CompileError {
    /// The grammar uses `StringifyExpr`, which has no matcher.
    Unimplemented,
}

/// True when no `StringifyExpr` occurs in `e`.
pub open spec fn expr_supported(e: Expr) -> bool
    decreases e, 0int,
{
    match e {
        Expr::SequenceExpr(es) => list_supported(es@, 0),
        Expr::ChoiceExpr(es) => list_supported(es@, 0),
        Expr::OptionalExpr(x) => expr_supported(*x),
        Expr::Repeat(x, _, sep) => expr_supported(*x) && match sep {
            Some(y) => expr_supported(*y),
            None => true,
        },
        Expr::PosAssertExpr(x) => expr_supported(*x),
        Expr::NegAssertExpr(x) => expr_supported(*x),
        Expr::StringifyExpr(_) => false,
        Expr::ActionExpr(ts, _) => tagged_supported(ts@, 0),
        _ => true,
    }
}

/// True when no `StringifyExpr` occurs in the expressions from index `i` on.
pub open spec fn list_supported(es: Seq<Expr>, i: int) -> bool
    decreases es, es.len() - i,
{
    if i < 0 || i >= es.len() {
        true
    } else {
        expr_supported(es[i]) && list_supported(es, i + 1)
    }
}

/// True when no `StringifyExpr` occurs in the tagged expressions from index `i` on.
pub open spec fn tagged_supported(ts: Seq<TaggedExpr>, i: int) -> bool
    decreases ts, ts.len() - i,
{
    if i < 0 || i >= ts.len() {
        true
    } else {
        expr_supported(*ts[i].expr) && tagged_supported(ts, i + 1)
    }
}

/// True when every rule of the grammar can be compiled.
pub open spec fn grammar_supported(g: Grammar) -> bool {
    forall|i: int| 0 <= i < g.rules@.len() ==> expr_supported(*#[trigger] g.rules@[i].expr)
}

/// The indices of the exported rules among the first `n`, in order.
pub open spec fn exported_among(rules: Seq<Rule>, n: int) -> Seq<usize>
    decreases n,
{
    if n <= 0 || n > rules.len() {
        seq![]
    } else if rules[n - 1].exported {
        exported_among(rules, n - 1).push((n - 1) as usize)
    } else {
        exported_among(rules, n - 1)
    }
}

/// Checks that no `StringifyExpr` occurs in `e`.
pub fn check_expr(e: &Expr) -> (r: bool)
    ensures
        r == expr_supported(*e),
    decreases *e, 0int,
{
    match e {
        Expr::SequenceExpr(es) => check_list(es, 0),
        Expr::ChoiceExpr(es) => check_list(es, 0),
        Expr::OptionalExpr(x) => check_expr(x),
        Expr::Repeat(x, _, sep) => {
            check_expr(x) && match sep {
                Some(y) => check_expr(y),
                None => true,
            }
        },
        Expr::PosAssertExpr(x) => check_expr(x),
        Expr::NegAssertExpr(x) => check_expr(x),
        Expr::StringifyExpr(_) => false,
        Expr::ActionExpr(ts, _) => check_tagged(ts, 0),
        _ => true,
    }
}

fn check_list(es: &Vec<Expr>, i: usize) -> (r: bool)
    ensures
        r == list_supported(es@, i as int),
    decreases es@, es@.len() - i,
{
    if i >= es.len() {
        true
    } else {
        check_expr(&es[i]) && check_list(es, i + 1)
    }
}

fn check_tagged(ts: &Vec<TaggedExpr>, i: usize) -> (r: bool)
    ensures
        r == tagged_supported(ts@, i as int),
    decreases ts@, ts@.len() - i,
{
    if i >= ts.len() {
        true
    } else {
        check_expr(&ts[i].expr) && check_tagged(ts, i + 1)
    }
}

/// A compiled grammar: its rules, each with a matcher, and the indices of
/// the exported rules in declaration order.
pub struct Parser {
    pub grammar: Grammar,
    pub exported: Vec<usize>,
}

impl Parser {
    /// The parser is built from a grammar that compiles, and lists its exported rules.
    pub open spec fn wf(&self) -> bool {
        &&& grammar_supported(self.grammar)
        &&& self.exported@ == exported_among(self.grammar.rules@, self.grammar.rules@.len() as int)
    }
}

/// Compiles a grammar: fails when a rule uses `StringifyExpr`, otherwise
/// keeps the grammar and lists its exported rules.
pub fn compile_grammar(grammar: Grammar) -> (r: Result<Parser, CompileError>)
    ensures
        r is Ok <==> grammar_supported(grammar),
        r is Err ==> r == Err::<Parser, CompileError>(CompileError::Unimplemented),
        r matches Ok(p) ==> p.grammar == grammar && p.wf(),
{
    let mut exported: Vec<usize> = Vec::new();
    let mut i: usize = 0;
    while i < grammar.rules.len()
        invariant
            0 <= i <= grammar.rules@.len(),
            forall|j: int| 0 <= j < i ==> expr_supported(*#[trigger] grammar.rules@[j].expr),
            exported@ == exported_among(grammar.rules@, i as int),
        decreases grammar.rules@.len() - i,
    {
        if !check_expr(&grammar.rules[i].expr) {
            return Err(CompileError::Unimplemented);
        }
        if grammar.rules[i].exported {
            exported.push(i);
        }
        i = i + 1;
    }
    Ok(Parser { grammar, exported })
}

/// Why a run of an exported rule on a whole input produced no value.
#[derive(Debug, PartialEq, Eq, Structural)]
pub enum ParseFailure {
    /// The rule matched, but input is left from the given line on.
    ExpectedEnd(usize),
    /// The rule failed at a position on the given line.
    ErrorAt(usize),
    /// The matcher gave no result (see `Outcome::Stuck`).
    NoResult,
}

/// The decimal digit `d`.
pub open spec fn digit_char(d: nat) -> char {
    seq!['0', '1', '2', '3', '4', '5', '6', '7', '8', '9'][d as int]
}

/// The decimal digits of `n`, without leading zeros.
pub open spec fn digits(n: nat) -> Seq<char>
    decreases n,
{
    if n < 10 {
        seq![digit_char(n)]
    } else {
        digits(n / 10) + seq![digit_char(n % 10)]
    }
}

/// The message of a failure.
pub open spec fn failure_text(f: ParseFailure) -> Seq<char> {
    match f {
        ParseFailure::ExpectedEnd(line) => "Expected end of input at "@ + digits(line as nat),
        ParseFailure::ErrorAt(line) => "Error at "@ + digits(line as nat),
        ParseFailure::NoResult => "No result"@,
    }
}

/// Relies on `format!` with `Display` for `usize`: `prefix` followed by the
/// decimal digits of `n`.
#[verifier::external_body]
fn with_number(prefix: &str, n: usize) -> (r: String)
    ensures
        r@ == prefix@ + digits(n as nat),
{
    format!("{}{}", prefix, n)
}

impl ParseFailure {
    /// The message: `Expected end of input at <line>` or `Error at <line>`.
    pub fn message(&self) -> (r: String)
        ensures
            r@ == failure_text(*self),
    {
        match self {
            ParseFailure::ExpectedEnd(line) => with_number("Expected end of input at ", *line),
            ParseFailure::ErrorAt(line) => with_number("Error at ", *line),
            ParseFailure::NoResult => "No result".to_owned(),
        }
    }
}

/// What an entry point returns for the outcome `o` of its rule at position 0
/// of `s`: the value when all of `s` was consumed, else the line of the
/// leftover input or of the failure.
pub open spec fn entry_result(o: Outcome, s: Seq<char>) -> Result<Val, ParseFailure> {
    match o {
        Outcome::Success(p, v) => if p == s.len() {
            Ok(v)
        } else {
            Err(ParseFailure::ExpectedEnd(line_of(s, p) as usize))
        },
        Outcome::Failure(p) => Err(ParseFailure::ErrorAt(line_of(s, p) as usize)),
        Outcome::Stuck => Err(ParseFailure::NoResult),
    }
}

/// The model of what an entry point returns.
pub open spec fn result_view(r: Result<Value, ParseFailure>) -> Result<Val, ParseFailure> {
    match r {
        Ok(v) => Ok(v@),
        Err(f) => Err(f),
    }
}

/// The index of the exported rule named `name`, if one is.
pub open spec fn export_index(g: Grammar, name: Seq<char>) -> Option<int> {
    match find_rule(g.rules@, name) {
        Some(i) => if g.rules@[i].exported { Some(i) } else { None },
        None => None,
    }
}

impl Parser {
    /// The matcher of rule `i`: its expression run on `input` at `pos`.
    pub fn parse_rule(&self, i: usize, input: &[char], pos: usize) -> (r: MatchResult)
        requires
            i < self.grammar.rules@.len(),
        ensures
            r@ == eval(self.grammar, *self.grammar.rules@[i as int].expr, input@, pos as int, RULE_DEPTH as nat),
    {
        match_expr(&self.grammar, &self.grammar.rules[i].expr, input, pos, RULE_DEPTH)
    }

    /// The entry point of the exported rule `name` on the whole of `input`;
    /// `None` when no exported rule has that name.
    pub fn parse(&self, name: &str, input: &str) -> (r: Option<Result<Value, ParseFailure>>)
        ensures
            r is None <==> export_index(self.grammar, name@) is None,
            r matches Some(res) ==> result_view(res) == entry_result(
                eval(self.grammar, *self.grammar.rules@[export_index(self.grammar, name@)->Some_0].expr,
                    input@, 0, RULE_DEPTH as nat),
                input@,
            ),
    {
        let key = name.to_owned();
        match rule_index(&self.grammar.rules, &key) {
            Some(i) => {
                if !self.grammar.rules[i].exported {
                    return None;
                }
                let chars = chars_of(input);
                let r = match self.parse_rule(i, chars.as_slice(), 0) {
                    MatchResult::Success(p, v) => {
                        if p == chars.len() {
                            Ok(v)
                        } else {
                            Err(ParseFailure::ExpectedEnd(pos_to_line(chars.as_slice(), p)))
                        }
                    },
                    MatchResult::Failure(p) => Err(ParseFailure::ErrorAt(pos_to_line(chars.as_slice(), p))),
                    MatchResult::Stuck => Err(ParseFailure::NoResult),
                };
                Some(r)
            },
            None => None,
        }
    }
}

} // verus!
