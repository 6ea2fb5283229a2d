//! Environments and the keys that give access to them.

use vstd::prelude::*;
use vstd::string::*;
use crate::features::FeatureState;
use crate::identities::Identity;
use crate::projects::Project;
use crate::utils::datetime::now_micros;

verus! {

/// An environment document: the feature states of the environment, the
/// project with its segments, and the identities that override features.
#[derive(Debug, PartialEq, Eq)]
pub struct Environment {
    pub id: u32,
    pub api_key: String,
    pub name: String,
    pub project: Project,
    pub feature_states: Vec<FeatureState>,
    pub identity_overrides: Vec<Identity>,
}

/// A server-side key of an environment.
#[derive(Clone, Debug, PartialEq, Eq)]
pub struct EnvironmentAPIKey {
    pub id: u32,
    pub key: String,
    pub active: bool,
    /// When the key was created, in microseconds since the Unix epoch.
    pub created_at: i64,
    pub name: String,
    pub client_api_key: String,
    /// When the key expires, in microseconds since the Unix epoch; a key
    /// without expiry never expires.
    pub expires_at: Option<i64>,
}

impl EnvironmentAPIKey {
    /// Whether the key is valid at the time `now`: it is active, and it has
    /// not expired.
    pub open spec fn valid_at(&self, now: i64) -> bool {
        self.active && match self.expires_at {
            None => true,
            Some(expires_at) => expires_at > now,
        }
    }

    /// Whether the key is valid at the time `now`, given in microseconds
    /// since the Unix epoch.
    pub fn is_valid_at(&self, now: i64) -> (r: bool)
        ensures
            r == self.valid_at(now),
    {
        if !self.active {
            return false;
        }
        match self.expires_at {
            None => true,
            Some(expires_at) => expires_at > now,
        }
    }

    /// Whether the key is valid now. An inactive key never is, and an active
    /// key without expiry always is; for a key with an expiry the answer
    /// depends on the clock.
    pub fn is_valid(&self) -> (r: bool)
        ensures
            !self.active ==> !r,
            self.active && self.expires_at is None ==> r,
            exists|now: i64| r == self.valid_at(now),
    {
        let now = now_micros();
        self.is_valid_at(now)
    }
}

} // verus!
