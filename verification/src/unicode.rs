//! Unicode case mapping and character classes, taken from std: the tables
//! behind them are not restated here, their results are named.

use vstd::prelude::*;

verus! {

// What `str::to_lowercase` returns for a string.
pub uninterp spec fn lowercase(s: Seq<char>) -> Seq<char>;

// Whether `char::is_alphanumeric` holds of a character.
pub uninterp spec fn alphanumeric(c: char) -> bool;

/// `str::to_lowercase`: the Unicode lowercase mapping of each character.
/// The contract only names the result; which string it is, is not stated.
#[verifier::external_body]
pub(crate) fn to_lowercase(s: &str) -> (r: String)
    ensures
        r@ == lowercase(s@),
{
    s.to_lowercase()
}

/// `char::is_alphanumeric`: the character is alphabetic or numeric in the
/// Unicode sense. The contract only names the result.
#[verifier::external_body]
pub(crate) fn is_alphanumeric(c: char) -> (r: bool)
    ensures
        r == alphanumeric(c),
{
    c.is_alphanumeric()
}

} // verus!
