//! Case mapping of text, done by the standard library's Unicode tables.

use vstd::prelude::*;

verus! {

/// The text with every character mapped to upper case.
pub uninterp spec fn uppercase_of(text: Seq<char>) -> Seq<char>;

/// The text with every character mapped to lower case.
pub uninterp spec fn lowercase_of(text: Seq<char>) -> Seq<char>;

/// Calls `str::to_uppercase`, whose result depends on the text alone and is
/// named `uppercase_of`.
#[verifier::external_body]
pub(crate) fn to_uppercase(text: &str) -> (r: String)
    ensures
        r@ == uppercase_of(text@),
{
    text.to_uppercase()
}

/// Calls `str::to_lowercase`, whose result depends on the text alone and is
/// named `lowercase_of`.
#[verifier::external_body]
pub(crate) fn to_lowercase(text: &str) -> (r: String)
    ensures
        r@ == lowercase_of(text@),
{
    text.to_lowercase()
}

} // verus!
