//! Properties of the scanner that relate several steps or several inputs.

use vstd::prelude::*;
use crate::ascii::{is_digit, is_ident_part, is_space};
use crate::scan::{ident_end, number_end, skip_ws, step, string_end, Step};

verus! {

proof fn lemma_skip_ws(s: Seq<char>, i: int)
    requires
        0 <= i <= s.len(),
    ensures
        i <= skip_ws(s, i) <= s.len(),
        skip_ws(s, i) < s.len() ==> !is_space(s[skip_ws(s, i)]),
    decreases s.len() - i,
{
    if i < s.len() && is_space(s[i]) {
        lemma_skip_ws(s, i + 1);
    }
}

proof fn lemma_ident_sub(s: Seq<char>, a: int, k: int)
    requires
        0 <= a <= k <= s.len(),
    ensures
        k <= ident_end(s, k) <= s.len(),
        ident_end(s.subrange(a, ident_end(s, k)), k - a) == ident_end(s, k) - a,
    decreases s.len() - k,
{
    let e = ident_end(s, k);
    let t = s.subrange(a, e);
    if k < s.len() && is_ident_part(s[k]) {
        lemma_ident_sub(s, a, k + 1);
        assert(t[k - a] == s[k]);
    }
}

proof fn lemma_number_sub(s: Seq<char>, a: int, k: int, seen: bool)
    requires
        0 <= a <= k <= s.len(),
    ensures
        k <= number_end(s, k, seen) <= s.len(),
        number_end(s.subrange(a, number_end(s, k, seen)), k - a, seen) == number_end(s, k, seen) - a,
    decreases s.len() - k,
{
    let e = number_end(s, k, seen);
    let t = s.subrange(a, e);
    if k < s.len() && is_digit(s[k]) {
        lemma_number_sub(s, a, k + 1, seen);
        assert(t[k - a] == s[k]);
    } else if k < s.len() && s[k] == '.' && !seen {
        lemma_number_sub(s, a, k + 1, true);
        assert(t[k - a] == s[k]);
    }
}

proof fn lemma_string_sub(s: Seq<char>, a: int, k: int)
    requires
        0 <= a <= k,
    ensures
        string_end(s, k) matches Some(e) ==> {
            &&& k < e <= s.len()
            &&& string_end(s.subrange(a, e), k - a) == Some(e - a)
        },
    decreases s.len() + 1 - k,
{
    if k < s.len() {
        if s[k] == '\\' {
            lemma_string_sub(s, a, k + 2);
            if let Some(e) = string_end(s, k) {
                assert(s.subrange(a, e)[k - a] == s[k]);
            }
        } else if s[k] == '"' {
            assert(s.subrange(a, k + 1)[k - a] == s[k]);
        } else {
            lemma_string_sub(s, a, k + 1);
            if let Some(e) = string_end(s, k) {
                assert(s.subrange(a, e)[k - a] == s[k]);
            }
        }
    }
}

/// Every step that is not the end of input moves the cursor forward, and
/// never past the end.
pub proof fn lemma_step_advances(s: Seq<char>, i: int)
    requires
        0 <= i <= s.len(),
    ensures
        step(s, i).0 is End ==> step(s, i).1 == skip_ws(s, i),
        !(step(s, i).0 is End) ==> i < step(s, i).1 <= s.len(),
{
    lemma_skip_ws(s, i);
    let a = skip_ws(s, i);
    if a < s.len() {
        lemma_ident_sub(s, a, a + 1);
        lemma_number_sub(s, a, a + 1, s[a] == '.');
        lemma_string_sub(s, a, a + 1);
    }
}

/// The results of scanning `s` from cursor `i` until the end of input.
pub open spec fn steps(s: Seq<char>, i: int) -> Seq<Step>
    decreases s.len() - i,
    via steps_decrease
{
    if i < 0 || i > s.len() || step(s, i).0 is End {
        Seq::empty()
    } else {
        seq![step(s, i).0] + steps(s, step(s, i).1)
    }
}

#[via_fn]
proof fn steps_decrease(s: Seq<char>, i: int) {
    if 0 <= i <= s.len() {
        lemma_step_advances(s, i);
    }
}

/// The results of scanning from cursor `i` are the result of the step at `i`
/// followed by the results from the cursor that step leaves: successive
/// calls of `Lexer::next` yield `steps(s, 0)` in order, then the end.
pub proof fn lemma_steps_unfold(s: Seq<char>, i: int)
    requires
        0 <= i <= s.len(),
    ensures
        step(s, i).0 is End ==> steps(s, i) == Seq::<Step>::empty(),
        !(step(s, i).0 is End) ==> steps(s, i) == seq![step(s, i).0] + steps(s, step(s, i).1),
{
}

/// Scanning is a function of the text alone: scanning equal texts from the
/// start, however often, yields the same sequence of results.
pub proof fn lemma_rescan_identical(s1: Seq<char>, s2: Seq<char>)
    requires
        s1 == s2,
    ensures
        steps(s1, 0) == steps(s2, 0),
{
}

/// Once the input is exhausted the scanner keeps yielding the end of input,
/// and its cursor stays where it is.
pub proof fn lemma_end_is_stable(s: Seq<char>, i: int)
    requires
        0 <= i <= s.len(),
        step(s, i).0 is End,
    ensures
        step(s, step(s, i).1) == step(s, i),
{
    lemma_skip_ws(s, i);
}

/// Each token, scanned again on its own, is one token of the same kind at
/// position 0 that spans the whole lexeme, followed by the end of input.
pub proof fn lemma_round_trip(s: Seq<char>, i: int)
    requires
        0 <= i <= s.len(),
        step(s, i).0 is Tok,
    ensures
        ({
            let (st, _) = step(s, i);
            let t = s.subrange(st->start, st->end);
            &&& step(t, 0) == (Step::Tok { kind: st->kind, start: 0, end: t.len() as int }, t.len() as int)
            &&& step(t, t.len() as int).0 is End
        }),
{
    lemma_skip_ws(s, i);
    let a = skip_ws(s, i);
    let (st, _) = step(s, i);
    let e = st->end;
    let t = s.subrange(a, e);
    lemma_ident_sub(s, a, a + 1);
    lemma_number_sub(s, a, a + 1, s[a] == '.');
    lemma_string_sub(s, a, a + 1);
    assert(a < e <= s.len());
    assert(t[0] == s[a]);
    assert(t.len() > 1 ==> t[1] == s[a + 1]);
    assert(skip_ws(t, 0) == 0);
    assert(skip_ws(t, t.len() as int) == t.len());
    let c = s[a];
    if c == '.' && a + 1 < s.len() && is_digit(s[a + 1]) {
        lemma_number_sub(s, a, a + 2, true);
        assert(t.len() > 1);
    }
}

} // verus!
