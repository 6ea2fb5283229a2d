//! Regular expressions.

use vstd::prelude::*;
use vstd::string::*;
use regex::Regex;

verus! {

/// Whether the regular expression `pattern` matches somewhere in `haystack`;
/// none when `pattern` is not a regular expression that can be compiled.
pub uninterp spec fn regex_search(pattern: Seq<char>, haystack: Seq<char>) -> Option<bool>;

/// `regex::Regex::new` compiles `pattern`, and `Regex::is_match` tells
/// whether the compiled expression matches anywhere in `haystack`. A pattern
/// that does not compile gives `None`.
#[verifier::external_body]
pub(crate) fn search(pattern: &str, haystack: &str) -> (r: Option<bool>)
    ensures
        r == regex_search(pattern@, haystack@),
{
    match Regex::new(pattern) {
        Ok(compiled) => Some(compiled.is_match(haystack)),
        Err(_) => None,
    }
}

} // verus!
