//! Semantic versions.

use vstd::prelude::*;
use vstd::string::*;
use semver::Version;
use std::cmp::Ordering;

verus! {

/// How the semantic version `left` stands to the semantic version `right`:
/// -1 when it is lower, 0 when the two are the same, 1 when it is higher;
/// none when either text is not a semantic version.
pub uninterp spec fn semver_order(left: Seq<char>, right: Seq<char>) -> Option<i8>;

/// `semver::Version::parse` reads both texts, and the total order of
/// `Version` (`Ord::cmp`) compares the two versions. The result is -1, 0 or 1;
/// a text that is not a semantic version gives `None`.
#[verifier::external_body]
pub(crate) fn order(left: &str, right: &str) -> (r: Option<i8>)
    ensures
        r == semver_order(left@, right@),
        r matches Some(o) ==> -1 <= o <= 1,
{
    match (Version::parse(left), Version::parse(right)) {
        (Ok(a), Ok(b)) => Some(
            match a.cmp(&b) {
                Ordering::Less => -1,
                Ordering::Equal => 0,
                Ordering::Greater => 1,
            },
        ),
        _ => None,
    }
}

} // verus!
