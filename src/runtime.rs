//! The primitives every generated matcher relies on: literal matching,
//! single-character consumption and position-to-line conversion.
//!
//! Positions count characters of the input.
use vstd::prelude::*;

verus! {

/// True when `m` occurs in `s` starting at `pos`.
pub open spec fn literal_at(s: Seq<char>, pos: int, m: Seq<char>) -> bool {
    0 <= pos && pos + m.len() <= s.len() && s.subrange(pos, pos + m.len()) == m
}

/// The number of newlines among the first `n` characters of `s`.
pub open spec fn newlines_before(s: Seq<char>, n: int) -> nat
    decreases n,
{
    if n <= 0 || s.len() == 0 {
        0
    } else if n > s.len() {
        newlines_before(s, s.len() as int)
    } else {
        newlines_before(s, n - 1) + if s[n - 1] == '\n' { 1nat } else { 0nat }
    }
}

/// The 1-based line that holds position `pos`.
pub open spec fn line_of(s: Seq<char>, pos: int) -> nat {
    1 + newlines_before(s, pos)
}

proof fn lemma_newlines_bounded(s: Seq<char>, n: int)
    requires
        0 <= n <= s.len(),
    ensures
        newlines_before(s, n) <= n,
    decreases n,
{
    if n > 0 {
        lemma_newlines_bounded(s, n - 1);
    }
}

/// Matches the literal `m` at `pos`: success right after it, else failure at `pos`.
pub fn slice_eq(input: &[char], pos: usize, m: &[char]) -> (r: Result<(usize, ()), usize>)
    ensures
        literal_at(input@, pos as int, m@) ==> r == Ok::<(usize, ()), usize>(((pos + m@.len()) as usize, ())),
        !literal_at(input@, pos as int, m@) ==> r == Err::<(usize, ()), usize>(pos),
        r matches Ok((q, _)) ==> q == pos + m@.len(),
{
    if pos > input.len() || m.len() > input.len() - pos {
        return Err(pos);
    }
    let mut i: usize = 0;
    while i < m.len()
        invariant
            pos + m@.len() <= input@.len() <= usize::MAX,
            0 <= i <= m@.len(),
            forall|j: int| 0 <= j < i ==> input@[pos + j] == m@[j],
        decreases m@.len() - i,
    {
        if input[pos + i] != m[i] {
            assert(input@.subrange(pos as int, pos + m@.len())[i as int] != m@[i as int]);
            return Err(pos);
        }
        i = i + 1;
    }
    assert(input@.subrange(pos as int, pos + m@.len()) =~= m@);
    Ok((pos + m.len(), ()))
}

/// Consumes one character at `pos`; fails at `pos` at the end of the input.
pub fn any_char(input: &[char], pos: usize) -> (r: Result<(usize, ()), usize>)
    ensures
        pos < input@.len() ==> r == Ok::<(usize, ()), usize>(((pos + 1) as usize, ())),
        pos >= input@.len() ==> r == Err::<(usize, ()), usize>(pos),
        r matches Ok((q, _)) ==> q == pos + 1,
{
    if pos < input.len() {
        Ok((pos + 1, ()))
    } else {
        Err(pos)
    }
}

/// The 1-based line number of position `pos`: one more than the newlines before it.
pub fn pos_to_line(input: &[char], pos: usize) -> (r: usize)
    requires
        input@.len() < usize::MAX,
    ensures
        r == line_of(input@, pos as int),
{
    let n: usize = if pos < input.len() { pos } else { input.len() };
    let mut lineno: usize = 1;
    let mut i: usize = 0;
    while i < n
        invariant
            n <= input@.len() < usize::MAX,
            n == if pos < input@.len() { pos as int } else { input@.len() as int },
            0 <= i <= n,
            lineno == 1 + newlines_before(input@, i as int),
        decreases n - i,
    {
        proof {
            lemma_newlines_bounded(input@, i as int);
        }
        if input[i] == '\n' {
            lineno = lineno + 1;
        }
        i = i + 1;
    }
    proof {
        if pos as int > input@.len() {
            assert(newlines_before(input@, pos as int) == newlines_before(input@, input@.len() as int));
        }
    }
    lineno
}

} // verus!
