//! Unicode case and character classes from std, where vstd gives them no specification.
use vstd::prelude::*;

verus! {

/// `str::to_lowercase`: the Unicode lowercase mapping of a text.
pub uninterp spec fn lowercase(s: Seq<char>) -> Seq<char>;

/// `str::to_uppercase`: the Unicode uppercase mapping of a text.
pub uninterp spec fn uppercase(s: Seq<char>) -> Seq<char>;

/// `char::is_alphanumeric`: the character is Alphabetic or Numeric in Unicode.
pub uninterp spec fn is_alnum(c: char) -> bool;

/// `str::to_lowercase` (locale-independent: the result depends on the text alone).
#[verifier::external_body]
pub(crate) fn str_to_lowercase(s: &str) -> (r: String)
    ensures
        r@ == lowercase(s@),
{
    s.to_lowercase()
}

/// `str::to_uppercase` (locale-independent: the result depends on the text alone).
#[verifier::external_body]
pub(crate) fn str_to_uppercase(s: &str) -> (r: String)
    ensures
        r@ == uppercase(s@),
{
    s.to_uppercase()
}

/// `char::is_alphanumeric`.
#[verifier::external_body]
pub(crate) fn char_is_alphanumeric(c: char) -> (r: bool)
    ensures
        r == is_alnum(c),
{
    c.is_alphanumeric()
}

} // verus!
