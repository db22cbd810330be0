//! Case conversions of names, done by the `convert_case` crate and by std.

use vstd::prelude::*;
use convert_case::{Case, Casing};
use vstd::utf8::is_ascii_chars;

verus! {

/// What `convert_case` makes of a string in upper camel case.
pub uninterp spec fn upper_camel_of(s: Seq<char>) -> Seq<char>;

/// What `convert_case` makes of a string in snake case.
pub uninterp spec fn snake_of(s: Seq<char>) -> Seq<char>;

/// What `str::to_lowercase` makes of a string.
pub uninterp spec fn lower_of(s: Seq<char>) -> Seq<char>;

/// Relies on `convert_case::Casing::to_case` with `Case::UpperCamel`: the result
/// depends on the characters alone, and an empty string has no words to join.
/// The crate cuts words at character counts taken as byte offsets, so only ASCII
/// text is handed to it.
#[verifier::external_body]
pub(crate) fn to_upper_camel(s: &str) -> (r: String)
    requires
        is_ascii_chars(s@),
    ensures
        r@ == upper_camel_of(s@),
        s@.len() == 0 ==> r@.len() == 0,
{
    s.to_case(Case::UpperCamel)
}

/// Relies on `convert_case::Casing::to_case` with `Case::Snake`: the result
/// depends on the characters alone, and an empty string has no words to join.
/// As for `to_upper_camel`, only ASCII text is handed to it.
#[verifier::external_body]
pub(crate) fn to_snake(s: &str) -> (r: String)
    requires
        is_ascii_chars(s@),
    ensures
        r@ == snake_of(s@),
        s@.len() == 0 ==> r@.len() == 0,
{
    s.to_case(Case::Snake)
}

/// Relies on `str::to_lowercase`: the result depends on the characters alone.
#[verifier::external_body]
pub(crate) fn to_lower(s: &str) -> (r: String)
    ensures
        r@ == lower_of(s@),
{
    s.to_lowercase()
}

} // verus!
