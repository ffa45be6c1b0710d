//! The fuzzy matcher.
//!
//! A query matches a text when its non-space characters occur in the text in
//! order (a subsequence, found greedily left to right). Each matched character
//! earns a base award, a contiguity bonus when no text character was skipped,
//! and a word-boundary bonus; a space in the query earns a flat award and
//! consumes no text. The total is then normalized by the text length, so that
//! equal raw totals rank the shorter text higher.
//!
//! Scores are exact rationals. All awards are whole numbers of half points
//! (base 2, contiguity 2, boundary 1, space 1), and a [`Score`] keeps the
//! half-point total `num` over the denominator `den == 120 + text length`,
//! so `num / den` orders exactly as the normalized score does. No rounding
//! ever happens; comparisons cross-multiply in 128-bit arithmetic.

use vstd::arithmetic::mul::lemma_mul_upper_bound;
use vstd::prelude::*;

use crate::text::{is_alphanumeric_char, is_whitespace_char, lower_of};
use crate::text::{char_is_alphanumeric, char_is_whitespace, to_lower_chars};

verus! {

/// Largest query length (in characters) the matcher scores: five half points
/// per character, doubled by the tag boost, must fit in 64 bits.
pub const MAX_QUERY_LEN: u64 = 0x1000_0000_0000_0000;

/// Largest text length (in characters) the matcher scores: the denominator
/// `120 + length`, doubled by the dampening of a fallback match, must fit in
/// 64 bits.
pub const MAX_TEXT_LEN: u64 = 0x2000_0000_0000_0000;

/// An exact match score: the fraction `num / den`. A failed or empty match
/// has `num == 0`; every score of a text of `l` characters has
/// `den == 120 + l` (doubled once when a score is dampened).
#[derive(Clone, Copy, Debug, PartialEq, Eq, Structural)]
pub struct Score {
    /// Half-point total of the match (doubled once when a score is boosted).
    pub num: u64,
    /// Length normalizer.
    pub den: u64,
}

/// Whether the character before position `j` starts a word: `j` is the very
/// start of the text, or follows whitespace or another non-alphanumeric
/// character.
pub open spec fn boundary_before(t: Seq<char>, j: int) -> bool {
    j == 0 || is_whitespace_char(t[j - 1]) || !is_alphanumeric_char(t[j - 1])
}

/// Position of the first occurrence of `c` in `t` at or after `ti`.
pub open spec fn find_from(t: Seq<char>, c: char, ti: int) -> Option<int>
    decreases t.len() - ti,
{
    if ti < 0 || ti >= t.len() {
        None
    } else if t[ti] == c {
        Some(ti)
    } else {
        find_from(t, c, ti + 1)
    }
}

/// Half points earned by a match at position `j`, searched from cursor `ti`:
/// base 2, plus 2 when contiguous (`j == ti`), plus 1 at a word boundary.
pub open spec fn match_bonus(t: Seq<char>, j: int, ti: int) -> nat {
    ((2int + (if j == ti {
        2int
    } else {
        0int
    })) + (if boundary_before(t, j) {
        1int
    } else {
        0int
    })) as nat
}

/// Half-point total of matching `q[qi..]` against `t` with the text cursor at
/// `ti`; `None` when some non-space query character has no occurrence left.
pub open spec fn raw_from(q: Seq<char>, t: Seq<char>, qi: int, ti: int) -> Option<nat>
    decreases q.len() - qi,
{
    if qi < 0 || qi >= q.len() {
        Some(0)
    } else if q[qi] == ' ' {
        match raw_from(q, t, qi + 1, ti) {
            Some(r) => Some(r + 1),
            None => None,
        }
    } else {
        match find_from(t, q[qi], ti) {
            Some(j) => match raw_from(q, t, qi + 1, j + 1) {
                Some(r) => Some(r + match_bonus(t, j, ti)),
                None => None,
            },
            None => None,
        }
    }
}

/// Half-point total of the whole match; 0 when the match fails.
pub open spec fn spec_raw_score(q: Seq<char>, t: Seq<char>) -> nat {
    match raw_from(q, t, 0, 0) {
        Some(r) => r,
        None => 0,
    }
}

/// Whether the non-space characters of `q[qi..]` occur in order in `t[ti..]`.
pub open spec fn is_fuzzy_subsequence_from(q: Seq<char>, t: Seq<char>, qi: int, ti: int) -> bool
    decreases q.len() - qi,
{
    if qi < 0 || qi >= q.len() {
        true
    } else if q[qi] == ' ' {
        is_fuzzy_subsequence_from(q, t, qi + 1, ti)
    } else {
        exists|j: int|
            ti <= j < t.len() && t[j] == q[qi] && is_fuzzy_subsequence_from(q, t, qi + 1, j + 1)
    }
}

/// Whether the non-space characters of `q` occur in order in `t`.
pub open spec fn is_fuzzy_subsequence(q: Seq<char>, t: Seq<char>) -> bool {
    is_fuzzy_subsequence_from(q, t, 0, 0)
}

/// Strict order on scores as fractions: `a.num / a.den < b.num / b.den`.
pub open spec fn score_lt(a: Score, b: Score) -> bool {
    (a.num as int) * (b.den as int) < (b.num as int) * (a.den as int)
}

proof fn lemma_u64_mul_fits_u128(x: u64, y: u64)
    ensures
        (x as int) * (y as int) <= u128::MAX as int,
{
    lemma_mul_upper_bound(x as int, u64::MAX as int, y as int, u64::MAX as int);
    assert((u64::MAX as int) * (u64::MAX as int) <= u128::MAX as int) by (nonlinear_arith);
}

/// Compares two scores as exact fractions.
pub fn score_less(a: &Score, b: &Score) -> (r: bool)
    ensures
        r == score_lt(*a, *b),
{
    proof {
        lemma_u64_mul_fits_u128(a.num, b.den);
        lemma_u64_mul_fits_u128(b.num, a.den);
    }
    (a.num as u128) * (b.den as u128) < (b.num as u128) * (a.den as u128)
}

proof fn lemma_find_from_some(t: Seq<char>, c: char, ti: int, j: int)
    requires
        0 <= ti <= j < t.len(),
        t[j] == c,
        forall|k: int| ti <= k < j ==> t[k] != c,
    ensures
        find_from(t, c, ti) == Some(j),
    decreases j - ti,
{
    if ti < j {
        lemma_find_from_some(t, c, ti + 1, j);
    }
}

proof fn lemma_find_from_none(t: Seq<char>, c: char, ti: int)
    requires
        0 <= ti,
        forall|k: int| ti <= k < t.len() ==> t[k] != c,
    ensures
        find_from(t, c, ti) is None,
    decreases t.len() - ti,
{
    if ti < t.len() {
        lemma_find_from_none(t, c, ti + 1);
    }
}

/// `shift_opt(o, n)` adds the already-earned half points `n` to the total of
/// the remaining match `o`, keeping failure as failure.
pub open spec fn shift_opt(o: Option<nat>, n: nat) -> Option<nat> {
    match o {
        Some(r) => Some(r + n),
        None => None,
    }
}

proof fn lemma_shift_shift(o: Option<nat>, a: nat, b: nat)
    ensures
        shift_opt(shift_opt(o, b), a) == shift_opt(o, a + b),
{
}

/// Scores an already-lowercased query against an already-lowercased text.
///
/// Returns the exact half-point total over the length normalizer
/// `120 + text length`; the total is 0 exactly when the query (non-empty,
/// with some non-space character) is no fuzzy subsequence of the text, or
/// when there is nothing to award.
pub fn score_lowered(query: &Vec<char>, text: &Vec<char>) -> (s: Score)
    requires
        query@.len() <= MAX_QUERY_LEN,
        text@.len() <= MAX_TEXT_LEN,
    ensures
        s.num == spec_raw_score(query@, text@),
        s.den == 120 + text@.len(),
        s.num <= 5 * query@.len(),
{
    let q_len = query.len();
    let t_len = text.len();
    let den: u64 = 120 + (t_len as u64);
    let mut qi: usize = 0;
    let mut ti: usize = 0;
    let mut num: u64 = 0;
    while qi < q_len
        invariant
            q_len == query@.len(),
            t_len == text@.len(),
            query@.len() <= MAX_QUERY_LEN,
            text@.len() <= MAX_TEXT_LEN,
            den == 120 + (t_len as u64),
            qi <= q_len,
            ti <= t_len,
            num as int <= 5 * (qi as int),
            raw_from(query@, text@, 0, 0) == shift_opt(
                raw_from(query@, text@, qi as int, ti as int),
                num as nat,
            ),
        decreases q_len - qi,
    {
        let qc = query[qi];
        if qc == ' ' {
            proof {
                assert(raw_from(query@, text@, qi as int, ti as int) == shift_opt(
                    raw_from(query@, text@, qi + 1, ti as int),
                    1,
                ));
                lemma_shift_shift(raw_from(query@, text@, qi + 1, ti as int), num as nat, 1);
            }
            num = num + 1;
            qi = qi + 1;
        } else {
            let mut j: usize = ti;
            while j < t_len && text[j] != qc
                invariant
                    t_len == text@.len(),
                    ti <= j <= t_len,
                    qc == query@[qi as int],
                    forall|k: int| ti <= k < j ==> text@[k] != qc,
                decreases t_len - j,
            {
                j = j + 1;
            }
            if j == t_len {
                proof {
                    lemma_find_from_none(text@, qc, ti as int);
                    assert(raw_from(query@, text@, qi as int, ti as int) is None);
                }
                return Score { num: 0, den };
            }
            proof {
                lemma_find_from_some(text@, qc, ti as int, j as int);
            }
            let mut bonus: u64 = 2;
            if j == ti {
                bonus = bonus + 2;
            }
            let at_boundary: bool = if j == 0 {
                true
            } else {
                let prev = text[j - 1];
                char_is_whitespace(prev) || !char_is_alphanumeric(prev)
            };
            if at_boundary {
                bonus = bonus + 1;
            }
            proof {
                assert(bonus == match_bonus(text@, j as int, ti as int));
                assert(raw_from(query@, text@, qi as int, ti as int) == shift_opt(
                    raw_from(query@, text@, qi + 1, j + 1),
                    match_bonus(text@, j as int, ti as int),
                ));
                lemma_shift_shift(
                    raw_from(query@, text@, qi + 1, j + 1),
                    num as nat,
                    match_bonus(text@, j as int, ti as int),
                );
            }
            num = num + bonus;
            ti = j + 1;
            qi = qi + 1;
        }
    }
    proof {
        assert(raw_from(query@, text@, qi as int, ti as int) == Some(0nat));
    }
    Score { num, den }
}

/// Scores `query` against `text`, comparing case-insensitively.
///
/// Both strings are folded to lowercase first; the result is the exact
/// normalized match score of the folded strings. Strings too long for the
/// 64-bit half-point budget (beyond any realizable input) score zero.
pub fn fuzzy_score(query: &str, text: &str) -> (s: Score)
    ensures
        lower_of(query@).len() <= MAX_QUERY_LEN && lower_of(text@).len() <= MAX_TEXT_LEN ==> {
            &&& s.num == spec_raw_score(lower_of(query@), lower_of(text@))
            &&& s.den == 120 + lower_of(text@).len()
        },
        !(lower_of(query@).len() <= MAX_QUERY_LEN && lower_of(text@).len() <= MAX_TEXT_LEN) ==> s
            == (Score { num: 0, den: 120 }),
{
    let lq = to_lower_chars(query);
    let lt = to_lower_chars(text);
    if (lq.len() as u64) <= MAX_QUERY_LEN && (lt.len() as u64) <= MAX_TEXT_LEN {
        score_lowered(&lq, &lt)
    } else {
        Score { num: 0, den: 120 }
    }
}

proof fn lemma_match_implies_subsequence(q: Seq<char>, t: Seq<char>, qi: int, ti: int)
    ensures
        raw_from(q, t, qi, ti) is Some ==> is_fuzzy_subsequence_from(q, t, qi, ti),
    decreases q.len() - qi,
{
    if qi < 0 || qi >= q.len() {
    } else if q[qi] == ' ' {
        lemma_match_implies_subsequence(q, t, qi + 1, ti);
    } else {
        match find_from(t, q[qi], ti) {
            Some(j) => {
                lemma_find_from_props(t, q[qi], ti);
                lemma_match_implies_subsequence(q, t, qi + 1, j + 1);
            },
            None => {},
        }
    }
}

proof fn lemma_find_from_props(t: Seq<char>, c: char, ti: int)
    ensures
        find_from(t, c, ti) matches Some(j) ==> ti <= j < t.len() && t[j] == c && (forall|k: int|
            ti <= k < j ==> t[k] != c),
        0 <= ti && find_from(t, c, ti) is None ==> forall|k: int| ti <= k < t.len() ==> t[k] != c,
    decreases t.len() - ti,
{
    if ti < 0 || ti >= t.len() {
    } else if t[ti] == c {
    } else {
        lemma_find_from_props(t, c, ti + 1);
    }
}

proof fn lemma_subsequence_monotone(q: Seq<char>, t: Seq<char>, qi: int, ti: int, lo: int)
    requires
        is_fuzzy_subsequence_from(q, t, qi, ti),
        lo <= ti,
    ensures
        is_fuzzy_subsequence_from(q, t, qi, lo),
    decreases q.len() - qi,
{
    if qi < 0 || qi >= q.len() {
    } else if q[qi] == ' ' {
        lemma_subsequence_monotone(q, t, qi + 1, ti, lo);
    } else {
        let j = choose|j: int|
            ti <= j < t.len() && t[j] == q[qi] && is_fuzzy_subsequence_from(q, t, qi + 1, j + 1);
        assert(lo <= j < t.len() && t[j] == q[qi] && is_fuzzy_subsequence_from(
            q,
            t,
            qi + 1,
            j + 1,
        ));
    }
}

proof fn lemma_subsequence_implies_match(q: Seq<char>, t: Seq<char>, qi: int, ti: int)
    requires
        0 <= ti,
        is_fuzzy_subsequence_from(q, t, qi, ti),
    ensures
        raw_from(q, t, qi, ti) is Some,
    decreases q.len() - qi,
{
    if qi < 0 || qi >= q.len() {
    } else if q[qi] == ' ' {
        lemma_subsequence_implies_match(q, t, qi + 1, ti);
    } else {
        let j = choose|j: int|
            ti <= j < t.len() && t[j] == q[qi] && is_fuzzy_subsequence_from(q, t, qi + 1, j + 1);
        lemma_find_from_props(t, q[qi], ti);
        match find_from(t, q[qi], ti) {
            Some(j0) => {
                assert(j0 <= j);
                lemma_subsequence_monotone(q, t, qi + 1, j + 1, j0 + 1);
                lemma_subsequence_implies_match(q, t, qi + 1, j0 + 1);
            },
            None => {
                assert(t[j] != q[qi]);
            },
        }
    }
}

/// Law: a non-empty query that is a fuzzy subsequence of the text earns a
/// strictly positive total (together with
/// [`lemma_no_subsequence_scores_zero`], the matcher returns zero exactly
/// when the query is empty or no full subsequence match exists).
pub proof fn lemma_subsequence_scores_positive(q: Seq<char>, t: Seq<char>)
    requires
        q.len() > 0,
        is_fuzzy_subsequence(q, t),
    ensures
        spec_raw_score(q, t) > 0,
{
    lemma_subsequence_implies_match(q, t, 0, 0);
}

/// Law: a query that is not a fuzzy subsequence of the text scores zero.
pub proof fn lemma_no_subsequence_scores_zero(q: Seq<char>, t: Seq<char>)
    requires
        !is_fuzzy_subsequence(q, t),
    ensures
        spec_raw_score(q, t) == 0,
{
    lemma_match_implies_subsequence(q, t, 0, 0);
}

/// Law: the empty query accrues nothing, on every text.
pub proof fn lemma_empty_query_scores_zero(q: Seq<char>, t: Seq<char>)
    requires
        q.len() == 0,
    ensures
        spec_raw_score(q, t) == 0,
{
}

/// Law (length normalization): when two texts earn the same positive raw
/// total for a query, the shorter text's normalized score is strictly higher.
pub proof fn lemma_length_normalization(q: Seq<char>, t1: Seq<char>, t2: Seq<char>)
    requires
        spec_raw_score(q, t1) == spec_raw_score(q, t2),
        spec_raw_score(q, t1) > 0,
        t1.len() < t2.len(),
    ensures
        spec_raw_score(q, t2) * (120 + t1.len()) < spec_raw_score(q, t1) * (120 + t2.len()),
{
    let r1 = spec_raw_score(q, t1) as int;
    let r2 = spec_raw_score(q, t2) as int;
    let d1 = 120 + t1.len() as int;
    let d2 = 120 + t2.len() as int;
    assert(r2 * d1 < r1 * d2) by (nonlinear_arith)
        requires
            r1 == r2,
            r1 > 0,
            0 < d1 < d2,
    ;
}

/// Law: doubling a positive score's numerator ranks it strictly above the
/// undoubled score (the tag-mode boost outranks the plain match).
pub proof fn lemma_boost_outranks(base: Score, boosted: Score)
    requires
        base.num > 0,
        base.den > 0,
        boosted.num == 2 * base.num,
        boosted.den == base.den,
    ensures
        score_lt(base, boosted),
{
    assert((base.num as int) * (boosted.den as int) < (boosted.num as int) * (base.den as int))
        by (nonlinear_arith)
        requires
            base.num > 0,
            base.den > 0,
            boosted.num == 2 * base.num,
            boosted.den == base.den,
    ;
}

} // verus!
