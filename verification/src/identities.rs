//! Identities and their traits.

use vstd::prelude::*;
use vstd::string::*;
use crate::features::FeatureState;
use crate::types::FlagsmithValue;
use crate::utils::datetime::now_micros;
use crate::utils::identifiers::get_uuid;

verus! {

/// A trait of an identity: a key and a value.
#[derive(Clone, Debug, PartialEq, Eq)]
pub struct Trait {
    pub trait_key: String,
    pub trait_value: FlagsmithValue,
}

/// An identity of an environment.
#[derive(Clone, Debug, PartialEq, Eq)]
pub struct Identity {
    pub identifier: String,
    pub environment_api_key: String,
    /// When the identity was created, in microseconds since the Unix epoch.
    pub created_date: i64,
    pub identity_features: Vec<FeatureState>,
    pub identity_traits: Vec<Trait>,
    pub identity_uuid: String,
    pub django_id: Option<u32>,
}

impl Identity {
    /// The key of the environment and the identifier, joined by an
    /// underscore.
    pub open spec fn spec_composite_key(&self) -> Seq<char> {
        self.environment_api_key@ + "_"@ + self.identifier@
    }

    /// The key of the environment and the identifier, joined by an
    /// underscore.
    pub fn composite_key(&self) -> (r: String)
        ensures
            r@ == self.spec_composite_key(),
    {
        let mut key = self.environment_api_key.clone();
        key.append("_");
        key.append(self.identifier.as_str());
        key
    }

    /// A new identity, created now, with a fresh UUID and without features,
    /// traits or numeric id.
    pub fn new(identifier: String, environment_api_key: String) -> (r: Self)
        ensures
            r.identifier == identifier,
            r.environment_api_key == environment_api_key,
            r.identity_features@.len() == 0,
            r.identity_traits@.len() == 0,
            r.django_id is None,
    {
        Identity {
            identifier,
            environment_api_key,
            created_date: now_micros(),
            identity_features: Vec::new(),
            identity_traits: Vec::new(),
            identity_uuid: get_uuid(),
            django_id: None,
        }
    }
}

} // verus!
