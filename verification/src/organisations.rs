//! Organisations.

use vstd::prelude::*;
use vstd::string::*;
use crate::decimal::{nat_text, push_nat};
use crate::text::text_of;

verus! {

/// The organisation that a project belongs to.
#[derive(Clone, Debug, PartialEq, Eq)]
pub struct Organisation {
    pub id: u32,
    pub name: String,
    pub feature_analytics: bool,
    pub stop_serving_flags: bool,
    pub persist_trait_data: bool,
}

/// The text of an identifier: its decimal digits.
pub fn id_text(id: u32) -> (r: String)
    ensures
        r@ == nat_text(id as nat),
{
    let mut out: Vec<char> = Vec::new();
    push_nat(&mut out, id as u128);
    text_of(&out)
}

impl Organisation {
    /// The id and the name of the organisation, joined by an underscore.
    pub fn unique_slug(&self) -> (r: String)
        ensures
            r@ == nat_text(self.id as nat) + "_"@ + self.name@,
    {
        let mut slug = id_text(self.id);
        slug.append("_");
        slug.append(self.name.as_str());
        slug
    }
}

} // verus!
