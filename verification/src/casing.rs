//! Letter case, as the standard library's Unicode tables define it.
//!
//! Case mapping is not spelled out here: each mapping gets a name, and the
//! function that calls into the standard library is taken to compute it.

use vstd::prelude::*;

verus! {

/// The lower-case form of a text, as `str::to_lowercase` of the standard
/// library gives it.
pub uninterp spec fn lowercase_of(text: Seq<char>) -> Seq<char>;

/// The upper-case form of one character, as `char::to_uppercase` of the
/// standard library gives it. It may be longer than one character.
pub uninterp spec fn uppercase_of(c: char) -> Seq<char>;

/// Calls `str::to_lowercase`. Taken on trust: the result is the lower-case
/// form of the argument, which depends on the argument's characters alone.
#[verifier::external_body]
pub(crate) fn lowercase(text: &str) -> (lower: String)
    ensures
        lower@ == lowercase_of(text@),
{
    text.to_lowercase()
}

/// Calls `char::to_uppercase` and collects the characters it yields. Taken
/// on trust: the result is the upper-case form of the argument, which
/// depends on the argument alone.
#[verifier::external_body]
pub(crate) fn uppercase(c: char) -> (upper: String)
    ensures
        upper@ == uppercase_of(c),
{
    c.to_uppercase().collect()
}

} // verus!
