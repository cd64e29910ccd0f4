//! The matchers: each expression of a grammar run on an input at a position,
//! with backtracking, exactly as `eval` describes.
use vstd::prelude::*;
use crate::grammar::{Grammar, Rule, Expr, TaggedExpr, CharSetCase, in_cases};
use crate::runtime::{slice_eq, any_char};
use crate::semantics::{find_rule, room, binding_of, eval, eval_seq, eval_choice, eval_repeat, eval_action};
use crate::value::{Val, Value, MatchResult, list_val};

verus! {

/// The models of a list of values.
pub open spec fn views(items: Seq<Value>) -> Seq<Val> {
    items.map_values(|v: Value| v@)
}

/// Relies on `str::chars` and `collect`: the characters of `s`, in order,
/// in a vector, which never holds more than `isize::MAX` bytes.
#[verifier::external_body]
pub(crate) fn chars_of(s: &str) -> (r: Vec<char>)
    ensures
        r@ == s@,
        r@.len() <= isize::MAX,
{
    s.chars().collect()
}

/// Swaps the pair when `swap` holds.
pub fn cond_swap<T>(swap: bool, tup: (T, T)) -> (r: (T, T))
    ensures
        r == (if swap { (tup.1, tup.0) } else { tup }),
{
    let (a, b) = tup;
    if swap {
        (b, a)
    } else {
        (a, b)
    }
}

proof fn lemma_find_rule(rules: Seq<Rule>, name: Seq<char>)
    ensures
        match find_rule(rules, name) {
            Some(i) => 0 <= i < rules.len() && rules[i].name@ == name
                && forall|j: int| 0 <= j < i ==> rules[j].name@ != name,
            None => forall|j: int| 0 <= j < rules.len() ==> rules[j].name@ != name,
        },
    decreases rules.len(),
{
    if rules.len() > 0 {
        lemma_find_rule(rules.drop_last(), name);
        assert forall|j: int| 0 <= j < rules.len() - 1 implies rules[j] == rules.drop_last()[j] by {}
    }
}

/// The index of the first rule named `name`.
pub fn rule_index(rules: &Vec<Rule>, name: &String) -> (r: Option<usize>)
    ensures
        r matches Some(i) ==> find_rule(rules@, name@) == Some(i as int) && i < rules@.len(),
        r is None ==> find_rule(rules@, name@) is None,
{
    proof {
        lemma_find_rule(rules@, name@);
    }
    let mut i: usize = 0;
    while i < rules.len()
        invariant
            0 <= i <= rules@.len(),
            forall|j: int| 0 <= j < i ==> rules@[j].name@ != name@,
        decreases rules@.len() - i,
    {
        if rules[i].name == *name {
            proof {
                lemma_find_rule(rules@, name@);
                match find_rule(rules@, name@) {
                    Some(k) => {
                        if k < i {
                            assert(rules@[k].name@ != name@);
                        } else if k > i {
                            assert(rules@[i as int].name@ != name@);
                        }
                    },
                    None => {
                        assert(rules@[i as int].name@ != name@);
                    },
                }
            }
            return Some(i);
        }
        i = i + 1;
    }
    proof {
        lemma_find_rule(rules@, name@);
        if let Some(k) = find_rule(rules@, name@) {
            assert(rules@[k].name@ != name@);
        }
    }
    None
}

/// True when `c` lies in one of the cases.
pub fn cases_contain(cases: &Vec<CharSetCase>, c: char) -> (r: bool)
    ensures
        r == in_cases(cases@, c),
{
    let mut i: usize = 0;
    while i < cases.len()
        invariant
            0 <= i <= cases@.len(),
            forall|j: int| 0 <= j < i ==> !(cases@[j].start <= c && c <= cases@[j].end),
        decreases cases@.len() - i,
    {
        if cases[i].start <= c && c <= cases[i].end {
            return true;
        }
        i = i + 1;
    }
    false
}

/// The characters of `input` from `start` to `end`.
pub fn text_between(input: &[char], start: usize, end: usize) -> (r: Vec<char>)
    requires
        start <= end <= input@.len(),
    ensures
        r@ == input@.subrange(start as int, end as int),
{
    let mut r: Vec<char> = Vec::new();
    let mut i: usize = start;
    while i < end
        invariant
            start <= i <= end <= input@.len(),
            r@ == input@.subrange(start as int, i as int),
        decreases end - i,
    {
        r.push(input[i]);
        i = i + 1;
        assert(r@ =~= input@.subrange(start as int, i as int));
    }
    r
}

/// The list of `items`, first item first.
pub fn list_of(items: Vec<Value>) -> (r: Value)
    ensures
        r@ == list_val(views(items@)),
{
    let ghost all = views(items@);
    let ghost n = items@.len();
    let mut items = items;
    let mut acc = Value::Nil;
    assert(all.subrange(n as int, n as int) =~= Seq::<Val>::empty());
    while items.len() > 0
        invariant
            items@.len() <= n == all.len(),
            forall|j: int| 0 <= j < items@.len() ==> all[j] == items@[j]@,
            acc@ == list_val(all.subrange(items@.len() as int, n as int)),
        decreases items@.len(),
    {
        let k = items.len();
        let v = items.pop().unwrap();
        proof {
            let s = all.subrange(k - 1, n as int);
            assert(s.drop_first() =~= all.subrange(k as int, n as int));
        }
        acc = Value::Cons(Box::new(v), Box::new(acc));
    }
    assert(all.subrange(0, n as int) =~= all);
    acc
}

/// Runs `e` on `input` at `pos`, following at most `fuel` rule references in a chain.
pub fn match_expr(g: &Grammar, e: &Expr, input: &[char], pos: usize, fuel: usize) -> (r: MatchResult)
    ensures
        r@ == eval(*g, *e, input@, pos as int, fuel as nat),
    decreases fuel, *e, 2 * room(input@, pos as int) + 2,
{
    match e {
        Expr::AnyCharExpr => {
            match any_char(input, pos) {
                Ok((q, _)) => MatchResult::Success(q, Value::Unit),
                Err(p) => MatchResult::Failure(p),
            }
        },
        Expr::LiteralExpr(lit) => {
            let m = chars_of(lit.as_str());
            match slice_eq(input, pos, m.as_slice()) {
                Ok((q, _)) => MatchResult::Success(q, Value::Unit),
                Err(p) => MatchResult::Failure(p),
            }
        },
        Expr::CharSetExpr(invert, cases) => {
            if pos < input.len() {
                let (in_set, not_in_set) = cond_swap(
                    *invert,
                    (MatchResult::Success(pos + 1, Value::Unit), MatchResult::Failure(pos)),
                );
                if cases_contain(cases, input[pos]) {
                    in_set
                } else {
                    not_in_set
                }
            } else {
                MatchResult::Failure(pos)
            }
        },
        Expr::RuleExpr(name) => {
            match rule_index(&g.rules, name) {
                Some(i) => {
                    if fuel == 0 {
                        MatchResult::Stuck
                    } else {
                        match_expr(g, &g.rules[i].expr, input, pos, fuel - 1)
                    }
                },
                None => MatchResult::Stuck,
            }
        },
        Expr::SequenceExpr(es) => match_seq(g, es, 0, input, pos, fuel),
        Expr::ChoiceExpr(es) => match_choice(g, es, 0, input, pos, fuel),
        Expr::OptionalExpr(inner) => {
            match match_expr(g, inner, input, pos, fuel) {
                MatchResult::Success(q, v) => MatchResult::Success(q, Value::Present(Box::new(v))),
                MatchResult::Failure(_) => MatchResult::Success(pos, Value::Absent),
                MatchResult::Stuck => MatchResult::Stuck,
            }
        },
        Expr::Repeat(_, _, _) => match_repeat(g, e, input, pos, fuel),
        Expr::PosAssertExpr(inner) => {
            match match_expr(g, inner, input, pos, fuel) {
                MatchResult::Success(_, _) => MatchResult::Success(pos, Value::Unit),
                MatchResult::Failure(_) => MatchResult::Failure(pos),
                MatchResult::Stuck => MatchResult::Stuck,
            }
        },
        Expr::NegAssertExpr(inner) => {
            match match_expr(g, inner, input, pos, fuel) {
                MatchResult::Success(_, _) => MatchResult::Failure(pos),
                MatchResult::Failure(_) => MatchResult::Success(pos, Value::Unit),
                MatchResult::Stuck => MatchResult::Stuck,
            }
        },
        Expr::StringifyExpr(_) => MatchResult::Stuck,
        Expr::ActionExpr(tagged, code) => {
            let binds: Vec<Value> = Vec::new();
            assert(views(binds@) =~= Seq::<Val>::empty());
            match_action(g, tagged, 0, code, input, pos, pos, binds, fuel)
        },
    }
}

/// Runs the elements of a sequence from index `i` on.
fn match_seq(g: &Grammar, es: &Vec<Expr>, i: usize, input: &[char], pos: usize, fuel: usize) -> (r: MatchResult)
    ensures
        r@ == eval_seq(*g, es@, i as int, input@, pos as int, fuel as nat),
    decreases fuel, es@, es@.len() - i,
{
    if i >= es.len() {
        MatchResult::Success(pos, Value::Unit)
    } else {
        match match_expr(g, &es[i], input, pos, fuel) {
            MatchResult::Success(q, _) => match_seq(g, es, i + 1, input, q, fuel),
            MatchResult::Failure(p) => MatchResult::Failure(p),
            MatchResult::Stuck => MatchResult::Stuck,
        }
    }
}

/// Tries the alternatives from index `i` on, each at `pos`.
fn match_choice(g: &Grammar, es: &Vec<Expr>, i: usize, input: &[char], pos: usize, fuel: usize) -> (r: MatchResult)
    ensures
        r@ == eval_choice(*g, es@, i as int, input@, pos as int, fuel as nat),
    decreases fuel, es@, es@.len() - i,
{
    if i >= es.len() {
        MatchResult::Success(pos, Value::Unit)
    } else {
        match match_expr(g, &es[i], input, pos, fuel) {
            MatchResult::Failure(p) => {
                if i + 1 < es.len() {
                    match_choice(g, es, i + 1, input, pos, fuel)
                } else {
                    MatchResult::Failure(p)
                }
            },
            r => r,
        }
    }
}

/// Runs the repetition `node` from `pos`: greedy, with the separator tried
/// between repetitions only.
fn match_repeat(g: &Grammar, node: &Expr, input: &[char], pos: usize, fuel: usize) -> (r: MatchResult)
    requires
        node is Repeat,
    ensures
        r@ == eval_repeat(*g, *node, input@, pos as int, seq![], fuel as nat),
    decreases fuel, *node, 2 * room(input@, pos as int) + 1,
{
    match node {
        Expr::Repeat(inner, min, sep) => {
            let ghost target = eval_repeat(*g, *node, input@, pos as int, seq![], fuel as nat);
            let mut repeat_pos: usize = pos;
            let mut items: Vec<Value> = Vec::new();
            assert(views(items@) =~= Seq::<Val>::empty());
            loop
                invariant
                    node == Expr::Repeat(*inner, *min, *sep),
                    target == eval_repeat(*g, *node, input@, pos as int, seq![], fuel as nat),
                    eval_repeat(*g, *node, input@, repeat_pos as int, views(items@), fuel as nat) == target,
                decreases 2 * room(input@, repeat_pos as int) + if items@.len() == 0 { 1int } else { 0int },
            {
                let ghost vs = views(items@);
                let mut p1: usize = repeat_pos;
                let mut sep_failed = false;
                if items.len() > 0 {
                    match sep {
                        Some(sep_e) => {
                            match match_expr(g, sep_e, input, repeat_pos, fuel) {
                                MatchResult::Success(q, _) => {
                                    p1 = q;
                                },
                                MatchResult::Failure(_) => {
                                    sep_failed = true;
                                },
                                MatchResult::Stuck => {
                                    return MatchResult::Stuck;
                                },
                            }
                        },
                        None => {},
                    }
                }
                if !sep_failed {
                    match match_expr(g, inner, input, p1, fuel) {
                        MatchResult::Success(q, v) => {
                            if repeat_pos <= q && q <= input.len() && (repeat_pos < q || items.len() == 0) {
                                items.push(v);
                                repeat_pos = q;
                                assert(views(items@) =~= vs.push(items@.last()@));
                                continue;
                            } else {
                                return MatchResult::Stuck;
                            }
                        },
                        MatchResult::Failure(_) => {},
                        MatchResult::Stuck => {
                            return MatchResult::Stuck;
                        },
                    }
                }
                if items.len() < *min {
                    return MatchResult::Failure(repeat_pos);
                } else {
                    return MatchResult::Success(repeat_pos, list_of(items));
                }
            }
        },
        _ => MatchResult::Stuck,
    }
}

/// Runs the tagged sub-expressions of an action from index `i` on; the action
/// started at `start`, and `binds` holds the named values bound so far.
fn match_action(
    g: &Grammar,
    tagged: &Vec<TaggedExpr>,
    i: usize,
    code: &String,
    input: &[char],
    start: usize,
    pos: usize,
    binds: Vec<Value>,
    fuel: usize,
) -> (r: MatchResult)
    ensures
        r@ == eval_action(*g, tagged@, i as int, code@, input@, start as int, pos as int, views(binds@), fuel as nat),
    decreases fuel, tagged@, tagged@.len() - i,
{
    if i >= tagged.len() {
        if start <= pos && pos <= input.len() {
            let text = text_between(input, start, pos);
            MatchResult::Success(pos, Value::Host(code.clone(), Box::new(list_of(binds)), text))
        } else {
            MatchResult::Stuck
        }
    } else {
        match match_expr(g, &tagged[i].expr, input, pos, fuel) {
            MatchResult::Success(q, v) => {
                let ghost bv = views(binds@);
                let ghost vv = v@;
                let mut binds = binds;
                match &tagged[i].name {
                    Some(n) => {
                        binds.push(Value::Named(n.clone(), Box::new(v)));
                    },
                    None => {},
                }
                assert(views(binds@) =~= bv + binding_of(tagged@[i as int].name, vv));
                match_action(g, tagged, i + 1, code, input, start, q, binds, fuel)
            },
            MatchResult::Failure(p) => MatchResult::Failure(p),
            MatchResult::Stuck => MatchResult::Stuck,
        }
    }
}

} // verus!
