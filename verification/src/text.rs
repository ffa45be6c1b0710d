//! Character-level text primitives.
//!
//! All matching in this crate is case-insensitive and works on sequences of
//! `char`. Unicode case folding and character classification are delegated to
//! the standard library; their results are given names (`lower_of`,
//! `is_whitespace_char`, `is_alphanumeric_char`) that the contracts of the
//! matcher and the index builder speak of.

use vstd::prelude::*;

verus! {

/// The sequence of characters that `str::to_lowercase` produces for `s`.
pub uninterp spec fn lower_of(s: Seq<char>) -> Seq<char>;

/// The view of an optional string.
pub open spec fn spec_opt_str_view(o: Option<String>) -> Option<Seq<char>> {
    match o {
        Some(s) => Some(s@),
        None => None,
    }
}

/// Whether `char::is_whitespace` holds of `c`.
pub uninterp spec fn is_whitespace_char(c: char) -> bool;

/// Whether `char::is_alphanumeric` holds of `c`.
pub uninterp spec fn is_alphanumeric_char(c: char) -> bool;

/// Relies on str::to_lowercase: the lowercase equivalent of the string,
/// a function of its characters alone; an empty string stays empty.
#[verifier::external_body]
pub fn to_lower_chars(s: &str) -> (r: Vec<char>)
    ensures
        r@ == lower_of(s@),
        s@.len() == 0 ==> r@.len() == 0,
{
    s.to_lowercase().chars().collect()
}

/// Relies on char::is_whitespace: the Unicode white-space property of `c`.
#[verifier::external_body]
pub fn char_is_whitespace(c: char) -> (r: bool)
    ensures
        r == is_whitespace_char(c),
{
    c.is_whitespace()
}

/// Relies on char::is_alphanumeric: the Unicode alphanumeric property of `c`.
#[verifier::external_body]
pub fn char_is_alphanumeric(c: char) -> (r: bool)
    ensures
        r == is_alphanumeric_char(c),
{
    c.is_alphanumeric()
}

/// Element-wise equality of two character vectors.
pub fn char_vecs_equal(a: &Vec<char>, b: &Vec<char>) -> (r: bool)
    ensures
        r == (a@ == b@),
{
    if a.len() != b.len() {
        return false;
    }
    let mut i: usize = 0;
    while i < a.len()
        invariant
            a@.len() == b@.len(),
            i <= a@.len(),
            forall|k: int| 0 <= k < i ==> a@[k] == b@[k],
        decreases a@.len() - i,
    {
        if a[i] != b[i] {
            return false;
        }
        i += 1;
    }
    proof {
        assert(a@ =~= b@);
    }
    true
}

} // verus!
