use peg::compile::{compile_grammar, CompileError, ParseFailure, Parser};
use peg::grammar::{CharSetCase, Expr, Grammar, Rule, TaggedExpr};
use peg::matcher::{cond_swap, match_expr};
use peg::runtime::{any_char, pos_to_line, slice_eq};
use peg::value::{MatchResult, Value};

fn chars(s: &str) -> Vec<char> {
    s.chars().collect()
}

fn lit(s: &str) -> Expr {
    Expr::LiteralExpr(s.to_string())
}

fn rule(name: &str, expr: Expr, exported: bool) -> Rule {
    Rule { name: name.to_string(), expr: Box::new(expr), ret_type: "()".to_string(), exported }
}

fn grammar(rules: Vec<Rule>) -> Grammar {
    Grammar { initializer: None, imports: Vec::new(), rules }
}

fn run(e: &Expr, input: &str, pos: usize) -> MatchResult {
    let g = grammar(Vec::new());
    match_expr(&g, e, &chars(input), pos, 1000)
}

fn parser(rules: Vec<Rule>) -> Parser {
    compile_grammar(grammar(rules)).ok().unwrap()
}

fn list(items: Vec<Value>) -> Value {
    let mut acc = Value::Nil;
    for v in items.into_iter().rev() {
        acc = Value::Cons(Box::new(v), Box::new(acc));
    }
    acc
}

fn digits_rule() -> Rule {
    let digit = Expr::CharSetExpr(false, vec![CharSetCase { start: '0', end: '9' }]);
    let body = Expr::ActionExpr(
        vec![TaggedExpr { name: None, expr: Box::new(Expr::Repeat(Box::new(digit), 1, None)) }],
        "match_str.parse()".to_string(),
    );
    Rule { name: "digit".to_string(), expr: Box::new(body), ret_type: "u32".to_string(), exported: true }
}

fn parens_rule() -> Rule {
    let group = Expr::SequenceExpr(vec![lit("("), Expr::RuleExpr("parens".to_string()), lit(")")]);
    let item = Expr::ChoiceExpr(vec![group, lit("\n")]);
    rule("parens", Expr::Repeat(Box::new(item), 0, None), true)
}

fn balanced(s: &str) -> bool {
    let mut depth: i64 = 0;
    for c in s.chars() {
        depth += if c == '(' { 1 } else { -1 };
        if depth < 0 {
            return false;
        }
    }
    depth == 0
}

#[test]
fn slice_eq_matches_whole_literal_only() {
    let input = chars("hello");
    assert_eq!(slice_eq(&input, 0, &chars("hell")), Ok((4, ())));
    assert_eq!(slice_eq(&input, 1, &chars("ello")), Ok((5, ())));
    assert_eq!(slice_eq(&input, 1, &chars("elk")), Err(1));
    assert_eq!(slice_eq(&input, 3, &chars("lot")), Err(3));
    assert_eq!(slice_eq(&input, 7, &chars("")), Err(7));
    assert_eq!(slice_eq(&input, 5, &chars("")), Ok((5, ())));
}

#[test]
fn any_char_steps_one_character() {
    let input = chars("é!");
    assert_eq!(any_char(&input, 0), Ok((1, ())));
    assert_eq!(any_char(&input, 1), Ok((2, ())));
    assert_eq!(any_char(&input, 2), Err(2));
}

#[test]
fn pos_to_line_counts_newlines_before() {
    let input = chars("ab\ncd\n\nef");
    assert_eq!(pos_to_line(&input, 0), 1);
    assert_eq!(pos_to_line(&input, 2), 1);
    assert_eq!(pos_to_line(&input, 3), 2);
    assert_eq!(pos_to_line(&input, 6), 3);
    assert_eq!(pos_to_line(&input, 7), 4);
    assert_eq!(pos_to_line(&input, 100), 4);
}

#[test]
fn cond_swap_swaps_only_when_asked() {
    assert_eq!(cond_swap(true, (1, 2)), (2, 1));
    assert_eq!(cond_swap(false, (1, 2)), (1, 2));
}

#[test]
fn literal_rule_accepts_itself() {
    let p = parser(vec![rule("word", lit("abc"), true)]);
    assert_eq!(p.parse("word", "abc"), Some(Ok(Value::Unit)));
    assert_eq!(p.parse("word", "abd"), Some(Err(ParseFailure::ErrorAt(1))));
    assert_eq!(p.parse("word", "xbc"), Some(Err(ParseFailure::ErrorAt(1))));
    assert_eq!(p.parse("word", "abcd"), Some(Err(ParseFailure::ExpectedEnd(1))));
    assert_eq!(p.parse("word", "ab"), Some(Err(ParseFailure::ErrorAt(1))));
}

#[test]
fn choice_retries_at_original_position() {
    let first = Expr::SequenceExpr(vec![lit("a"), lit("b")]);
    let e = Expr::ChoiceExpr(vec![first, lit("ac")]);
    assert_eq!(run(&e, "ac", 0), MatchResult::Success(2, Value::Unit));
    assert_eq!(run(&e, "ax", 0), MatchResult::Failure(0));
    let e2 = Expr::ChoiceExpr(vec![lit("x"), lit("y")]);
    assert_eq!(run(&e2, "zy", 1), MatchResult::Success(2, Value::Unit));
}

#[test]
fn choice_with_no_alternatives_succeeds() {
    assert_eq!(run(&Expr::ChoiceExpr(vec![]), "q", 0), MatchResult::Success(0, Value::Unit));
}

#[test]
fn optional_never_fails() {
    let e = Expr::OptionalExpr(Box::new(lit("y")));
    assert_eq!(run(&e, "x", 0), MatchResult::Success(0, Value::Absent));
    assert_eq!(run(&e, "", 0), MatchResult::Success(0, Value::Absent));
    assert_eq!(run(&e, "yy", 1), MatchResult::Success(2, Value::Present(Box::new(Value::Unit))));
}

#[test]
fn repeat_min_zero_on_no_match() {
    let e = Expr::Repeat(Box::new(lit("a")), 0, None);
    assert_eq!(run(&e, "bbb", 0), MatchResult::Success(0, Value::Nil));
    assert_eq!(run(&e, "", 0), MatchResult::Success(0, Value::Nil));
}

#[test]
fn repeat_below_min_fails_after_last_repetition() {
    let e = Expr::Repeat(Box::new(lit("ab")), 2, None);
    assert_eq!(run(&e, "abac", 0), MatchResult::Failure(2));
    assert_eq!(run(&e, "xx", 0), MatchResult::Failure(0));
    assert_eq!(run(&e, "ababa", 0), MatchResult::Success(4, list(vec![Value::Unit, Value::Unit])));
}

#[test]
fn repeat_separator_between_items_only() {
    let e = Expr::Repeat(Box::new(lit("a")), 0, Some(Box::new(lit(","))));
    let three = list(vec![Value::Unit, Value::Unit, Value::Unit]);
    assert_eq!(run(&e, "a,a,a;x", 0), MatchResult::Success(5, list(vec![Value::Unit, Value::Unit, Value::Unit])));
    assert_eq!(run(&e, "a,a,a,", 0), MatchResult::Success(5, three));
    assert_eq!(run(&e, ",a", 0), MatchResult::Success(0, Value::Nil));
}

#[test]
fn assertions_never_advance() {
    let pos = Expr::PosAssertExpr(Box::new(lit("a")));
    let neg = Expr::NegAssertExpr(Box::new(lit("a")));
    assert_eq!(run(&pos, "ab", 0), MatchResult::Success(0, Value::Unit));
    assert_eq!(run(&pos, "ba", 0), MatchResult::Failure(0));
    assert_eq!(run(&neg, "ab", 0), MatchResult::Failure(0));
    assert_eq!(run(&neg, "ba", 0), MatchResult::Success(0, Value::Unit));
    assert_eq!(run(&neg, "ba", 1), MatchResult::Failure(1));
}

#[test]
fn charset_membership_and_inversion() {
    let cases = vec![CharSetCase { start: 'a', end: 'c' }, CharSetCase { start: 'x', end: 'x' }];
    let e = Expr::CharSetExpr(false, cases);
    assert_eq!(run(&e, "b", 0), MatchResult::Success(1, Value::Unit));
    assert_eq!(run(&e, "x", 0), MatchResult::Success(1, Value::Unit));
    assert_eq!(run(&e, "d", 0), MatchResult::Failure(0));
    assert_eq!(run(&e, "", 0), MatchResult::Failure(0));
    let inv = Expr::CharSetExpr(true, vec![CharSetCase { start: 'a', end: 'c' }]);
    assert_eq!(run(&inv, "d", 0), MatchResult::Success(1, Value::Unit));
    assert_eq!(run(&inv, "a", 0), MatchResult::Failure(0));
    assert_eq!(run(&inv, "", 0), MatchResult::Failure(0));
}

#[test]
fn sequence_propagates_failure_position() {
    let e = Expr::SequenceExpr(vec![lit("a"), lit("b"), lit("c")]);
    assert_eq!(run(&e, "abc", 0), MatchResult::Success(3, Value::Unit));
    assert_eq!(run(&e, "abx", 0), MatchResult::Failure(2));
    assert_eq!(run(&Expr::SequenceExpr(vec![]), "z", 0), MatchResult::Success(0, Value::Unit));
}

#[test]
fn action_binds_names_and_text() {
    let e = Expr::ActionExpr(
        vec![
            TaggedExpr { name: Some("x".to_string()), expr: Box::new(lit("a")) },
            TaggedExpr { name: None, expr: Box::new(lit("b")) },
        ],
        "x".to_string(),
    );
    let bound = list(vec![Value::Named("x".to_string(), Box::new(Value::Unit))]);
    assert_eq!(
        run(&e, "zab", 1),
        MatchResult::Success(3, Value::Host("x".to_string(), Box::new(bound), vec!['a', 'b']))
    );
    assert_eq!(run(&e, "zac", 1), MatchResult::Failure(2));
    let empty = Expr::ActionExpr(vec![], "()".to_string());
    assert_eq!(run(&empty, "q", 0), MatchResult::Success(0, Value::Host("()".to_string(), Box::new(Value::Nil), vec![])));
}

#[test]
fn zero_width_repetition_gives_no_result() {
    let e = Expr::Repeat(Box::new(Expr::OptionalExpr(Box::new(lit("a")))), 0, None);
    assert_eq!(run(&e, "b", 0), MatchResult::Stuck);
}

#[test]
fn unknown_rule_gives_no_result() {
    assert_eq!(run(&Expr::RuleExpr("nope".to_string()), "b", 0), MatchResult::Stuck);
}

#[test]
fn stringify_is_not_compiled() {
    let g = grammar(vec![rule("s", Expr::StringifyExpr(Box::new(lit("a"))), true)]);
    assert_eq!(compile_grammar(g).err(), Some(CompileError::Unimplemented));
}

#[test]
fn exported_rules_listed_in_order() {
    let p = parser(vec![rule("a", lit("a"), true), rule("b", lit("b"), false), rule("c", lit("c"), true)]);
    assert_eq!(p.exported, vec![0, 2]);
    assert_eq!(p.parse("b", "b"), None);
    assert_eq!(p.parse("zz", "b"), None);
    assert_eq!(p.parse("c", "c"), Some(Ok(Value::Unit)));
    assert_eq!(p.parse_rule(1, &chars("xb"), 1), MatchResult::Success(2, Value::Unit));
}

#[test]
fn failure_messages() {
    assert_eq!(ParseFailure::ExpectedEnd(12).message(), "Expected end of input at 12");
    assert_eq!(ParseFailure::ErrorAt(3).message(), "Error at 3");
    assert_eq!(ParseFailure::ErrorAt(0).message(), "Error at 0");
}

#[test]
fn balanced_parentheses_round_trip() {
    let p = parser(vec![parens_rule()]);
    let mut strings: Vec<String> = vec![String::new()];
    let mut all: Vec<String> = vec![String::new()];
    for _ in 0..8 {
        let mut next = Vec::new();
        for s in &strings {
            next.push(format!("{}(", s));
            next.push(format!("{})", s));
        }
        all.extend(next.iter().cloned());
        strings = next;
    }
    for s in &all {
        let r = p.parse("parens", s).unwrap();
        assert_eq!(r.is_ok(), balanced(s), "{}", s);
        if balanced(s) {
            let garbage = format!("{}x", s);
            assert_eq!(p.parse("parens", &garbage), Some(Err(ParseFailure::ExpectedEnd(1))));
        }
    }
    let r = p.parse("parens", "(())\n()\nx").unwrap();
    assert_eq!(r.err().unwrap().message(), "Expected end of input at 3");
    let r = p.parse("parens", "()\n)").unwrap();
    assert_eq!(r, Err(ParseFailure::ExpectedEnd(2)));
}

#[test]
fn digit_rule_example() {
    let p = parser(vec![digits_rule()]);
    match p.parse("digit", "42").unwrap() {
        Ok(Value::Host(code, _, text)) => {
            assert_eq!(code, "match_str.parse()");
            let match_str: String = text.into_iter().collect();
            assert_eq!(match_str.parse::<u32>(), Ok(42));
        }
        other => panic!("unexpected {:?}", other),
    }
    assert_eq!(p.parse("digit", "4x").unwrap().err().unwrap().message(), "Expected end of input at 1");
    assert_eq!(p.parse("digit", "x").unwrap().err().unwrap().message(), "Error at 1");
}
