//! Facts that hold of every grammar and input, proved from the semantics.
use vstd::prelude::*;
use crate::grammar::{Grammar, Expr};
use crate::runtime::{literal_at, line_of};
use crate::semantics::{eval, eval_seq, eval_choice, eval_repeat, eval_action, find_rule, room};
use crate::grammar::TaggedExpr;
use crate::value::{Val, Outcome, list_val};
use crate::compile::{entry_result, ParseFailure};

verus! {

/// A literal matches exactly its own text: on an input that is the literal,
/// the rule consumes all of it and its entry point yields the unit value.
pub proof fn lemma_literal_accepts_itself(g: Grammar, e: Expr, lit: String, fuel: nat)
    requires
        e == Expr::LiteralExpr(lit),
    ensures
        eval(g, e, lit@, 0, fuel) == Outcome::Success(lit@.len() as int, Val::Unit),
        entry_result(eval(g, e, lit@, 0, fuel), lit@) == Ok::<Val, crate::compile::ParseFailure>(Val::Unit),
{
    assert(lit@.subrange(0, lit@.len() as int) =~= lit@);
}

/// On an input that differs from the literal at some offset `k` before both
/// end, the literal fails at the position where it was tried.
pub proof fn lemma_literal_mismatch(g: Grammar, e: Expr, lit: String, input: Seq<char>, k: int, fuel: nat)
    requires
        e == Expr::LiteralExpr(lit),
        0 <= k < lit@.len(),
        k < input.len(),
        input[k] != lit@[k],
    ensures
        eval(g, e, input, 0, fuel) == Outcome::Failure(0),
        entry_result(eval(g, e, input, 0, fuel), input)
            == Err::<Val, crate::compile::ParseFailure>(crate::compile::ParseFailure::ErrorAt(1)),
{
    if literal_at(input, 0, lit@) {
        assert(input.subrange(0, lit@.len() as int)[k] == input[k]);
    }
    assert(line_of(input, 0) == 1);
}

/// An ordered choice whose first alternative fails runs the second at the
/// original position, never where the first one failed.
pub proof fn lemma_choice_retries_at_start(g: Grammar, e: Expr, es: Vec<Expr>, s: Seq<char>, pos: int, fuel: nat)
    requires
        e == Expr::ChoiceExpr(es),
        es@.len() == 2,
        eval(g, es@[0], s, pos, fuel) is Failure,
    ensures
        eval(g, e, s, pos, fuel) == eval(g, es@[1], s, pos, fuel),
{
    assert(eval(g, e, s, pos, fuel) == eval_choice(g, es@, 0, s, pos, fuel));
    assert(eval_choice(g, es@, 0, s, pos, fuel) == eval_choice(g, es@, 1, s, pos, fuel));
    assert(eval_choice(g, es@, 1, s, pos, fuel) == eval(g, es@[1], s, pos, fuel));
}

/// An optional expression never fails.
pub proof fn lemma_optional_never_fails(g: Grammar, e: Expr, s: Seq<char>, pos: int, fuel: nat)
    requires
        e is OptionalExpr,
    ensures
        !(eval(g, e, s, pos, fuel) is Failure),
{
}

/// A repetition with minimum 0 whose expression fails at once succeeds where
/// it started, with the empty list.
pub proof fn lemma_repeat_zero_matches(g: Grammar, e: Expr, s: Seq<char>, pos: int, fuel: nat)
    requires
        e matches Expr::Repeat(inner, min, _) && min == 0 && eval(g, *inner, s, pos, fuel) is Failure,
    ensures
        eval(g, e, s, pos, fuel) == Outcome::Success(pos, Val::Nil),
{
    assert(list_val(seq![]) == Val::Nil);
    assert(eval(g, e, s, pos, fuel) == eval_repeat(g, e, s, pos, seq![], fuel));
}

/// The repetitions of `inner` from `ps[i]` on: each succeeds at `ps[j]` and
/// ends at `ps[j + 1]` for `i <= j < ps.len() - 1`, and the next attempt fails.
proof fn lemma_repeat_stops(
    g: Grammar,
    node: Expr,
    inner: Expr,
    min: usize,
    s: Seq<char>,
    ps: Seq<int>,
    i: int,
    items: Seq<Val>,
    fuel: nat,
)
    requires
        node == Expr::Repeat(Box::new(inner), min, None),
        ps.len() - 1 < min,
        0 <= i < ps.len(),
        items.len() == i,
        0 <= ps[i] <= s.len(),
        forall|j: int| 0 <= j < ps.len() - 1 ==> #[trigger] ps[j] < ps[j + 1],
        forall|j: int| 0 <= j < ps.len() - 1 ==> (#[trigger] eval(g, inner, s, ps[j], fuel) is Success
            && eval(g, inner, s, ps[j], fuel)->Success_0 == ps[j + 1]),
        eval(g, inner, s, ps.last(), fuel) is Failure,
    ensures
        eval_repeat(g, node, s, ps[i], items, fuel) == Outcome::Failure(ps.last()),
    decreases ps.len() - i,
{
    if i < ps.len() - 1 {
        lemma_moves_forward(g, inner, s, ps[i], fuel);
        let v = eval(g, inner, s, ps[i], fuel)->Success_1;
        lemma_repeat_stops(g, node, inner, min, s, ps, i + 1, items.push(v), fuel);
    }
}

/// A repetition that accepts fewer than its minimum fails right after the
/// last accepted repetition, not where the failed attempt stopped: `ps[0]`
/// is where it starts and each accepted repetition ends at the next `ps[j]`,
/// consuming at least one character.
pub proof fn lemma_repeat_below_min(g: Grammar, e: Expr, inner: Expr, min: usize, s: Seq<char>, ps: Seq<int>, fuel: nat)
    requires
        e == Expr::Repeat(Box::new(inner), min, None),
        1 <= ps.len(),
        ps.len() - 1 < min,
        0 <= ps[0] <= s.len(),
        forall|j: int| 0 <= j < ps.len() - 1 ==> #[trigger] ps[j] < ps[j + 1],
        forall|j: int| 0 <= j < ps.len() - 1 ==> (#[trigger] eval(g, inner, s, ps[j], fuel) is Success
            && eval(g, inner, s, ps[j], fuel)->Success_0 == ps[j + 1]),
        eval(g, inner, s, ps.last(), fuel) is Failure,
    ensures
        eval(g, e, s, ps[0], fuel) == Outcome::Failure(ps.last()),
{
    lemma_repeat_stops(g, e, inner, min, s, ps, 0, seq![], fuel);
}

/// With a separator, `e S e S e` followed by text where the separator fails
/// gives exactly three repetitions, and the repetition ends right after the
/// third `e`, leaving the rest untouched.
pub proof fn lemma_repeat_separator(
    g: Grammar,
    e: Expr,
    inner: Expr,
    sep: Expr,
    s: Seq<char>,
    p: Seq<int>,
    v1: Val,
    v2: Val,
    v3: Val,
    fuel: nat,
)
    requires
        e == Expr::Repeat(Box::new(inner), 0, Some(Box::new(sep))),
        p.len() == 6,
        0 <= p[0] <= s.len(),
        p[1] < p[3] < p[5],
        eval(g, inner, s, p[0], fuel) == Outcome::Success(p[1], v1),
        eval(g, sep, s, p[1], fuel) matches Outcome::Success(q, _) && q == p[2],
        eval(g, inner, s, p[2], fuel) == Outcome::Success(p[3], v2),
        eval(g, sep, s, p[3], fuel) matches Outcome::Success(q, _) && q == p[4],
        eval(g, inner, s, p[4], fuel) == Outcome::Success(p[5], v3),
        eval(g, sep, s, p[5], fuel) is Failure,
    ensures
        eval(g, e, s, p[0], fuel) == Outcome::Success(p[5], list_val(seq![v1, v2, v3])),
{
    lemma_moves_forward(g, inner, s, p[0], fuel);
    lemma_moves_forward(g, sep, s, p[1], fuel);
    lemma_moves_forward(g, inner, s, p[2], fuel);
    lemma_moves_forward(g, sep, s, p[3], fuel);
    lemma_moves_forward(g, inner, s, p[4], fuel);
    let s3 = seq![v1, v2, v3];
    assert(seq![v1].push(v2) =~= seq![v1, v2]);
    assert(seq![v1, v2].push(v3) =~= s3);
    assert(seq![].push(v1) =~= seq![v1]);
    assert(eval_repeat(g, e, s, p[5], s3, fuel) == Outcome::Success(p[5], list_val(s3)));
    assert(eval_repeat(g, e, s, p[3], seq![v1, v2], fuel) == Outcome::Success(p[5], list_val(s3)));
    assert(eval_repeat(g, e, s, p[1], seq![v1], fuel) == Outcome::Success(p[5], list_val(s3)));
    assert(eval_repeat(g, e, s, p[0], seq![], fuel) == Outcome::Success(p[5], list_val(s3)));
    assert(eval(g, e, s, p[0], fuel) == eval_repeat(g, e, s, p[0], seq![], fuel));
}

/// Lookahead never moves: a positive or negative assertion succeeds or fails
/// exactly where it was tried.
pub proof fn lemma_assertions_stay(g: Grammar, e: Expr, s: Seq<char>, pos: int, fuel: nat)
    requires
        e is PosAssertExpr || e is NegAssertExpr,
    ensures
        eval(g, e, s, pos, fuel) matches Outcome::Success(q, v) ==> q == pos && v == Val::Unit,
        eval(g, e, s, pos, fuel) matches Outcome::Failure(q) ==> q == pos,
{
}

/// Walking `s` from `i` to `q` with `d` parentheses open, every character is
/// a parenthesis, no `)` closes more than is open, and all are closed at `q`.
pub open spec fn parens_close(s: Seq<char>, i: int, q: int, d: int) -> bool
    decreases q - i,
{
    if i >= q {
        d == 0
    } else if s[i] == '(' {
        parens_close(s, i + 1, q, d + 1)
    } else if s[i] == ')' {
        d > 0 && parens_close(s, i + 1, q, d - 1)
    } else {
        false
    }
}

/// `s` is a balanced string of parentheses.
pub open spec fn balanced(s: Seq<char>) -> bool {
    parens_close(s, 0, s.len() as int, 0)
}

/// With `d + 1` open, some `)` at `j` closes down to `d` open, and the rest is balanced.
proof fn lemma_split_at_close(s: Seq<char>, i: int, q: int, d: int)
    requires
        0 <= i <= q <= s.len(),
        d >= 0,
        parens_close(s, i, q, d + 1),
    ensures
        exists|j: int| i <= j < q && s[j] == ')' && parens_close(s, i, j, d) && parens_close(s, j + 1, q, 0),
    decreases q - i,
{
    if s[i] == '(' {
        lemma_split_at_close(s, i + 1, q, d + 1);
        let j = choose|j: int| i + 1 <= j < q && s[j] == ')' && parens_close(s, i + 1, j, d + 1) && parens_close(s, j + 1, q, 0);
        assert(parens_close(s, i, j, d));
    } else if d == 0 {
        assert(parens_close(s, i, i, 0));
    } else {
        lemma_split_at_close(s, i + 1, q, d - 1);
        let j = choose|j: int| i + 1 <= j < q && s[j] == ')' && parens_close(s, i + 1, j, d - 1) && parens_close(s, j + 1, q, 0);
        assert(parens_close(s, i, j, d));
    }
}

/// The grammar shape `parens = ("(" parens ")")*`: `e` is the rule's
/// expression and `name` names the rule.
pub open spec fn parens_grammar(g: Grammar, e: Expr) -> bool {
    e matches Expr::Repeat(group, min, sep)
        && min == 0 && sep is None
        && (*group matches Expr::SequenceExpr(v)
            && v@.len() == 3
            && (v@[0] matches Expr::LiteralExpr(o) && o@ == seq!['('])
            && (v@[2] matches Expr::LiteralExpr(c) && c@ == seq![')'])
            && (v@[1] matches Expr::RuleExpr(n)
                && find_rule(g.rules@, n@) is Some
                && *g.rules@[find_rule(g.rules@, n@)->Some_0].expr == e))
}

proof fn lemma_parens_loop(g: Grammar, e: Expr, s: Seq<char>, p: int, q: int, items: Seq<Val>, fuel: nat)
    requires
        parens_grammar(g, e),
        0 <= p <= q <= s.len(),
        parens_close(s, p, q, 0),
        q == s.len() || s[q] != '(',
        fuel >= q - p + 1,
    ensures
        eval_repeat(g, e, s, p, items, fuel) is Success,
        eval_repeat(g, e, s, p, items, fuel)->Success_0 == q,
    decreases q - p,
{
    let group = *(e->Repeat_0);
    let v = group->SequenceExpr_0;
    let n = v@[1]->RuleExpr_0;
    if p == q {
        if literal_at(s, p, seq!['(']) {
            assert(s.subrange(p, p + 1)[0] == s[p]);
        }
        assert(eval(g, v@[0], s, p, fuel) is Failure);
        assert(eval(g, group, s, p, fuel) == eval_seq(g, v@, 0, s, p, fuel));
    } else {
        assert(s[p] == '(');
        lemma_split_at_close(s, p + 1, q, 0);
        let j = choose|j: int| p + 1 <= j < q && s[j] == ')' && parens_close(s, p + 1, j, 0) && parens_close(s, j + 1, q, 0);
        assert(s.subrange(p, p + 1) =~= seq!['(']);
        assert(s.subrange(j, j + 1) =~= seq![')']);
        assert(eval(g, v@[0], s, p, fuel) == Outcome::Success(p + 1, Val::Unit));
        lemma_parens_loop(g, e, s, p + 1, j, seq![], (fuel - 1) as nat);
        assert(eval(g, e, s, p + 1, (fuel - 1) as nat) == eval_repeat(g, e, s, p + 1, seq![], (fuel - 1) as nat));
        assert(eval(g, v@[1], s, p + 1, fuel) == eval(g, e, s, p + 1, (fuel - 1) as nat));
        assert(eval(g, v@[2], s, j, fuel) == Outcome::Success(j + 1, Val::Unit));
        assert(eval_seq(g, v@, 3, s, j + 1, fuel) == Outcome::Success(j + 1, Val::Unit));
        assert(eval_seq(g, v@, 2, s, j, fuel) == Outcome::Success(j + 1, Val::Unit));
        assert(eval_seq(g, v@, 1, s, p + 1, fuel) == Outcome::Success(j + 1, Val::Unit));
        assert(eval(g, group, s, p, fuel) == Outcome::Success(j + 1, Val::Unit));
        lemma_parens_loop(g, e, s, j + 1, q, items.push(Val::Unit), fuel);
    }
}

/// For the rule `parens = ("(" parens ")")*`, with a budget of rule
/// references at least one more than the input length: a balanced string
/// is consumed whole and its entry point succeeds; a balanced prefix followed
/// by text that does not start with `(` ends the match, and the entry point
/// reports `Expected end of input` at the line where that text starts.
pub proof fn lemma_balanced_round_trip(g: Grammar, e: Expr, s: Seq<char>, k: int, fuel: nat)
    requires
        parens_grammar(g, e),
        0 <= k <= s.len(),
        balanced(s.subrange(0, k)),
        k == s.len() || s[k] != '(',
        fuel >= s.len() + 1,
    ensures
        eval(g, e, s, 0, fuel) is Success,
        eval(g, e, s, 0, fuel)->Success_0 == k,
        k == s.len() ==> entry_result(eval(g, e, s, 0, fuel), s) is Ok,
        k < s.len() ==> entry_result(eval(g, e, s, 0, fuel), s)
            == Err::<Val, ParseFailure>(ParseFailure::ExpectedEnd(line_of(s, k) as usize)),
{
    lemma_close_prefix(s, k, 0);
    lemma_parens_loop(g, e, s, 0, k, seq![], fuel);
    assert(eval(g, e, s, 0, fuel) == eval_repeat(g, e, s, 0, seq![], fuel));
}

/// Walking a prefix of `s` is walking `s` up to the prefix's end.
proof fn lemma_close_prefix(s: Seq<char>, k: int, i: int)
    requires
        0 <= i <= k <= s.len(),
    ensures
        forall|d: int| parens_close(s.subrange(0, k), i, k, d) == parens_close(s, i, k, d),
    decreases k - i,
{
    if i < k {
        lemma_close_prefix(s, k, i + 1);
        assert(s.subrange(0, k)[i] == s[i]);
        assert forall|d: int| parens_close(s.subrange(0, k), i, k, d) == parens_close(s, i, k, d) by {
            assert(parens_close(s.subrange(0, k), i + 1, k, d + 1) == parens_close(s, i + 1, k, d + 1));
            assert(parens_close(s.subrange(0, k), i + 1, k, d - 1) == parens_close(s, i + 1, k, d - 1));
        }
    }
}

/// The outcome leaves the cursor between `pos` and the end of `s`.
pub open spec fn moves_forward(o: Outcome, s: Seq<char>, pos: int) -> bool {
    match o {
        Outcome::Success(q, _) => pos <= q <= s.len(),
        Outcome::Failure(q) => pos <= q <= s.len(),
        Outcome::Stuck => true,
    }
}

/// Matchers never move backwards nor past the end of the input: success
/// and failure both report a position between the start and the end.
pub proof fn lemma_moves_forward(g: Grammar, e: Expr, s: Seq<char>, pos: int, fuel: nat)
    requires
        0 <= pos <= s.len(),
    ensures
        moves_forward(eval(g, e, s, pos, fuel), s, pos),
    decreases fuel, e, 2 * room(s, pos) + 2,
{
    match e {
        Expr::RuleExpr(name) => {
            if let Some(i) = find_rule(g.rules@, name@) {
                if fuel > 0 {
                    lemma_moves_forward(g, *g.rules@[i].expr, s, pos, (fuel - 1) as nat);
                }
            }
        },
        Expr::SequenceExpr(es) => lemma_seq_forward(g, es@, 0, s, pos, fuel),
        Expr::ChoiceExpr(es) => lemma_choice_forward(g, es@, 0, s, pos, fuel),
        Expr::OptionalExpr(inner) => lemma_moves_forward(g, *inner, s, pos, fuel),
        Expr::Repeat(_, _, _) => lemma_repeat_forward(g, e, s, pos, seq![], fuel),
        Expr::PosAssertExpr(inner) => lemma_moves_forward(g, *inner, s, pos, fuel),
        Expr::NegAssertExpr(inner) => lemma_moves_forward(g, *inner, s, pos, fuel),
        Expr::ActionExpr(tagged, code) => lemma_action_forward(g, tagged@, 0, code@, s, pos, pos, seq![], fuel),
        _ => {},
    }
}

proof fn lemma_seq_forward(g: Grammar, es: Seq<Expr>, i: int, s: Seq<char>, pos: int, fuel: nat)
    requires
        0 <= pos <= s.len(),
    ensures
        moves_forward(eval_seq(g, es, i, s, pos, fuel), s, pos),
    decreases fuel, es, es.len() - i,
{
    if 0 <= i < es.len() {
        lemma_moves_forward(g, es[i], s, pos, fuel);
        if let Outcome::Success(q, _) = eval(g, es[i], s, pos, fuel) {
            lemma_seq_forward(g, es, i + 1, s, q, fuel);
        }
    }
}

proof fn lemma_choice_forward(g: Grammar, es: Seq<Expr>, i: int, s: Seq<char>, pos: int, fuel: nat)
    requires
        0 <= pos <= s.len(),
    ensures
        moves_forward(eval_choice(g, es, i, s, pos, fuel), s, pos),
    decreases fuel, es, es.len() - i,
{
    if 0 <= i < es.len() {
        lemma_moves_forward(g, es[i], s, pos, fuel);
        if i + 1 < es.len() {
            lemma_choice_forward(g, es, i + 1, s, pos, fuel);
        }
    }
}

proof fn lemma_repeat_forward(g: Grammar, node: Expr, s: Seq<char>, pos: int, items: Seq<Val>, fuel: nat)
    requires
        0 <= pos <= s.len(),
    ensures
        moves_forward(eval_repeat(g, node, s, pos, items, fuel), s, pos),
    decreases fuel, node, 2 * room(s, pos) + if items.len() == 0 { 1int } else { 0int },
{
    if let Expr::Repeat(inner, min, sep) = node {
        let mut p1 = pos;
        if let Some(sep_e) = sep {
            if items.len() > 0 {
                lemma_moves_forward(g, *sep_e, s, pos, fuel);
                if let Outcome::Success(q, _) = eval(g, *sep_e, s, pos, fuel) {
                    p1 = q;
                }
            }
        }
        lemma_moves_forward(g, *inner, s, p1, fuel);
        if let Outcome::Success(q, v) = eval(g, *inner, s, p1, fuel) {
            if 0 <= pos <= q <= s.len() && (pos < q || items.len() == 0) {
                lemma_repeat_forward(g, node, s, q, items.push(v), fuel);
            }
        }
    }
}

proof fn lemma_action_forward(
    g: Grammar,
    tagged: Seq<TaggedExpr>,
    i: int,
    code: Seq<char>,
    s: Seq<char>,
    start: int,
    pos: int,
    binds: Seq<Val>,
    fuel: nat,
)
    requires
        0 <= pos <= s.len(),
    ensures
        moves_forward(eval_action(g, tagged, i, code, s, start, pos, binds, fuel), s, pos),
    decreases fuel, tagged, tagged.len() - i,
{
    if 0 <= i < tagged.len() {
        lemma_moves_forward(g, *tagged[i].expr, s, pos, fuel);
        if let Outcome::Success(q, v) = eval(g, *tagged[i].expr, s, pos, fuel) {
            lemma_action_forward(g, tagged, i + 1, code, s, start, q, binds + crate::semantics::binding_of(tagged[i].name, v), fuel);
        }
    }
}

} // verus!
