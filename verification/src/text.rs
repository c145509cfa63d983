//! Strings as sequences of characters.
use std::borrow::Cow;
use vstd::prelude::*;

verus! {

/// Equality of string slices is equality of their contents, so two slices are
/// equal exactly when they hold the same sequence of characters.
pub assume_specification[ <str as PartialEq>::eq ](a: &str, b: &str) -> (equal: bool)
    ensures
        equal == (a@ == b@),
;

/// Whether two string slices hold the same characters.
pub fn same_text(a: &str, b: &str) -> (equal: bool)
    ensures
        equal == (a@ == b@),
{
    a.eq(b)
}

/// The characters of a string, borrowed or owned, as a slice.
pub fn as_slice<'a>(text: &'a Cow<'_, str>) -> (slice: &'a str)
    ensures
        slice@ == text@,
{
    match text {
        Cow::Borrowed(borrowed) => borrowed,
        Cow::Owned(owned) => owned.as_str(),
    }
}

} // verus!
