use vstd::prelude::*;

verus! {

/// What `str::trim` leaves of a string: the string without its leading and
/// trailing Unicode whitespace.
pub uninterp spec fn trim_of(s: Seq<char>) -> Seq<char>;

/// Relies on `str::trim`: the result is a function of the characters alone,
/// and an empty string trims to an empty string.
#[verifier::external_body]
pub(crate) fn trim(s: &str) -> (r: &str)
    ensures
        r@ == trim_of(s@),
        s@.len() == 0 ==> r@.len() == 0,
{
    s.trim()
}

/// Whether a description holds something other than whitespace.
pub open spec fn is_meaningful(s: Seq<char>) -> bool {
    trim_of(s).len() > 0
}

/// True exactly when the input is not empty after trimming.
pub fn validate_input(input: &str) -> (r: bool)
    ensures
        r == is_meaningful(input@),
{
    !trim(input).is_empty()
}

} // verus!
