//! The meaning of each expression: what its matcher returns on an input at a
//! position. `fuel` bounds how many rule references may be followed in a chain.
use vstd::prelude::*;
use crate::grammar::{Grammar, Rule, Expr, TaggedExpr, in_cases};
use crate::runtime::literal_at;
use crate::value::{Val, Outcome, list_val};

verus! {

/// The index of the first rule named `name`, if any.
pub open spec fn find_rule(rules: Seq<Rule>, name: Seq<char>) -> Option<int>
    decreases rules.len(),
{
    if rules.len() == 0 {
        None
    } else if rules.last().name@ == name {
        match find_rule(rules.drop_last(), name) {
            Some(i) => Some(i),
            None => Some(rules.len() - 1),
        }
    } else {
        find_rule(rules.drop_last(), name)
    }
}

/// The input left at `pos`, never negative.
pub open spec fn room(s: Seq<char>, pos: int) -> nat {
    if 0 <= pos <= s.len() { (s.len() - pos) as nat } else { 0 }
}

/// The binding a tagged sub-expression adds: one for a named tag, none otherwise.
pub open spec fn binding_of(name: Option<String>, v: Val) -> Seq<Val> {
    match name {
        Some(n) => seq![Val::Named(n@, Box::new(v))],
        None => seq![],
    }
}

/// The outcome of `e` on `s` at `pos`.
pub open spec fn eval(g: Grammar, e: Expr, s: Seq<char>, pos: int, fuel: nat) -> Outcome
    decreases fuel, e, 2 * room(s, pos) + 2,
{
    match e {
        Expr::AnyCharExpr => {
            if 0 <= pos < s.len() { Outcome::Success(pos + 1, Val::Unit) } else { Outcome::Failure(pos) }
        },
        Expr::LiteralExpr(lit) => {
            if literal_at(s, pos, lit@) {
                Outcome::Success(pos + lit@.len(), Val::Unit)
            } else {
                Outcome::Failure(pos)
            }
        },
        Expr::CharSetExpr(invert, cases) => {
            if 0 <= pos < s.len() && in_cases(cases@, s[pos]) != invert {
                Outcome::Success(pos + 1, Val::Unit)
            } else {
                Outcome::Failure(pos)
            }
        },
        Expr::RuleExpr(name) => {
            match find_rule(g.rules@, name@) {
                Some(i) => if fuel == 0 {
                    Outcome::Stuck
                } else {
                    eval(g, *g.rules@[i].expr, s, pos, (fuel - 1) as nat)
                },
                None => Outcome::Stuck,
            }
        },
        Expr::SequenceExpr(es) => eval_seq(g, es@, 0, s, pos, fuel),
        Expr::ChoiceExpr(es) => eval_choice(g, es@, 0, s, pos, fuel),
        Expr::OptionalExpr(inner) => {
            match eval(g, *inner, s, pos, fuel) {
                Outcome::Success(q, v) => Outcome::Success(q, Val::Present(Box::new(v))),
                Outcome::Failure(_) => Outcome::Success(pos, Val::Absent),
                Outcome::Stuck => Outcome::Stuck,
            }
        },
        Expr::Repeat(inner, min, sep) => eval_repeat(g, e, s, pos, seq![], fuel),
        Expr::PosAssertExpr(inner) => {
            match eval(g, *inner, s, pos, fuel) {
                Outcome::Success(_, _) => Outcome::Success(pos, Val::Unit),
                Outcome::Failure(_) => Outcome::Failure(pos),
                Outcome::Stuck => Outcome::Stuck,
            }
        },
        Expr::NegAssertExpr(inner) => {
            match eval(g, *inner, s, pos, fuel) {
                Outcome::Success(_, _) => Outcome::Failure(pos),
                Outcome::Failure(_) => Outcome::Success(pos, Val::Unit),
                Outcome::Stuck => Outcome::Stuck,
            }
        },
        Expr::StringifyExpr(_) => Outcome::Stuck,
        Expr::ActionExpr(tagged, code) => eval_action(g, tagged@, 0, code@, s, pos, pos, seq![], fuel),
    }
}

/// The elements of a sequence from index `i` on, each starting where the
/// previous one ended; success carries the unit value.
pub open spec fn eval_seq(g: Grammar, es: Seq<Expr>, i: int, s: Seq<char>, pos: int, fuel: nat) -> Outcome
    decreases fuel, es, es.len() - i,
{
    if i < 0 || i >= es.len() {
        Outcome::Success(pos, Val::Unit)
    } else {
        match eval(g, es[i], s, pos, fuel) {
            Outcome::Success(q, _) => eval_seq(g, es, i + 1, s, q, fuel),
            Outcome::Failure(p) => Outcome::Failure(p),
            Outcome::Stuck => Outcome::Stuck,
        }
    }
}

/// The alternatives from index `i` on, each tried at `pos` until one does not
/// fail; the last one tried decides.
pub open spec fn eval_choice(g: Grammar, es: Seq<Expr>, i: int, s: Seq<char>, pos: int, fuel: nat) -> Outcome
    decreases fuel, es, es.len() - i,
{
    if i < 0 || i >= es.len() {
        Outcome::Success(pos, Val::Unit)
    } else {
        match eval(g, es[i], s, pos, fuel) {
            Outcome::Failure(p) => if i + 1 < es.len() {
                eval_choice(g, es, i + 1, s, pos, fuel)
            } else {
                Outcome::Failure(p)
            },
            r => r,
        }
    }
}

/// A repetition `node` whose loop stands at `pos` with the values `items`
/// accepted so far.
pub open spec fn eval_repeat(g: Grammar, node: Expr, s: Seq<char>, pos: int, items: Seq<Val>, fuel: nat) -> Outcome
    decreases fuel, node, 2 * room(s, pos) + if items.len() == 0 { 1int } else { 0int },
{
    match node {
        Expr::Repeat(inner, min, sep) => {
            let after_sep: Option<Outcome> = match sep {
                Some(sep_e) => if items.len() > 0 {
                    Some(eval(g, *sep_e, s, pos, fuel))
                } else {
                    None
                },
                None => None,
            };
            let stop = if items.len() < min {
                Outcome::Failure(pos)
            } else {
                Outcome::Success(pos, list_val(items))
            };
            match after_sep {
                Some(Outcome::Failure(_)) => stop,
                Some(Outcome::Stuck) => Outcome::Stuck,
                _ => {
                    let p1 = match after_sep {
                        Some(Outcome::Success(q, _)) => q,
                        _ => pos,
                    };
                    match eval(g, *inner, s, p1, fuel) {
                        Outcome::Success(q, v) => {
                            if 0 <= pos <= q <= s.len() && (pos < q || items.len() == 0) {
                                eval_repeat(g, node, s, q, items.push(v), fuel)
                            } else {
                                Outcome::Stuck
                            }
                        },
                        Outcome::Failure(_) => stop,
                        Outcome::Stuck => Outcome::Stuck,
                    }
                },
            }
        },
        _ => Outcome::Stuck,
    }
}

/// The tagged sub-expressions of an action from index `i` on, started at
/// `start`; `binds` are the named values bound so far. After the last one the
/// action yields its host code with the bindings and the text it matched.
pub open spec fn eval_action(
    g: Grammar,
    tagged: Seq<TaggedExpr>,
    i: int,
    code: Seq<char>,
    s: Seq<char>,
    start: int,
    pos: int,
    binds: Seq<Val>,
    fuel: nat,
) -> Outcome
    decreases fuel, tagged, tagged.len() - i,
{
    if i < 0 || i >= tagged.len() {
        if 0 <= start <= pos <= s.len() {
            Outcome::Success(pos, Val::Host(code, Box::new(list_val(binds)), s.subrange(start, pos)))
        } else {
            Outcome::Stuck
        }
    } else {
        match eval(g, *tagged[i].expr, s, pos, fuel) {
            Outcome::Success(q, v) => eval_action(
                g, tagged, i + 1, code, s, start, q, binds + binding_of(tagged[i].name, v), fuel),
            Outcome::Failure(p) => Outcome::Failure(p),
            Outcome::Stuck => Outcome::Stuck,
        }
    }
}

} // verus!
