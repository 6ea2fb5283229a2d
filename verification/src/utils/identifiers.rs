//! Fresh identifiers.

use vstd::prelude::*;
use vstd::string::*;
use uuid::Uuid;

verus! {

/// `uuid::Uuid::new_v4` in its hyphenated form: a random identifier. Nothing
/// is known of it but that it is some text.
#[verifier::external_body]
pub fn get_uuid() -> String {
    Uuid::new_v4().hyphenated().to_string()
}

} // verus!
