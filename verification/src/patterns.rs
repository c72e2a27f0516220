//! Regular expressions.
use regex::Regex;
use vstd::prelude::*;
use crate::json::optional;
use crate::text::contains;

verus! {

/// The first match of a pattern in a text, as regex finds it; nothing if there
/// is none or the pattern is not one.
pub uninterp spec fn first_match(pattern: Seq<char>, text: Seq<char>) -> Option<Seq<char>>;

/// What the first group of the first match of a pattern in a text took, as
/// regex finds it; nothing if it took no part or the pattern is not one.
pub uninterp spec fn first_group(pattern: Seq<char>, text: Seq<char>) -> Option<Seq<char>>;

/// `regex::Regex::find` finds the leftmost match. It depends on the pattern and
/// the text alone and is a part of the text.
#[verifier::external_body]
pub(crate) fn find_match(pattern: &str, text: &str) -> (r: Option<String>)
    ensures
        optional(r) == first_match(pattern@, text@),
        r matches Some(s) ==> contains(text@, s@),
{
    Regex::new(pattern).ok()?.find(text).map(|m| m.as_str().to_string())
}

/// `regex::Regex::captures` finds the leftmost match and `get` gives what its
/// first group took. It depends on the pattern and the text alone and is a part
/// of the text.
#[verifier::external_body]
pub(crate) fn find_group(pattern: &str, text: &str) -> (r: Option<String>)
    ensures
        optional(r) == first_group(pattern@, text@),
        r matches Some(s) ==> contains(text@, s@),
{
    Regex::new(pattern).ok()?.captures(text)?.get(1).map(|m| m.as_str().to_string())
}

} // verus!
