//! The errors of the engine.

use vstd::prelude::*;
use vstd::string::*;

verus! {

/// What went wrong.
#[derive(Clone, Copy, Debug, PartialEq, Eq, Structural)]
pub enum ErrorKind {
    FeatureStateNotFound,
    DuplicateFeatureState,
}

/// An error of the engine.
#[derive(Clone, Copy, Debug, PartialEq, Eq, Structural)]
pub struct Error {
    pub kind: ErrorKind,
}

/// The message of an error of each kind.
pub open spec fn message_of(kind: ErrorKind) -> Seq<char> {
    match kind {
        ErrorKind::FeatureStateNotFound => "Feature State Not Found"@,
        ErrorKind::DuplicateFeatureState => "Feature State already exists"@,
    }
}

impl Error {
    /// An error of the given kind.
    pub fn new(kind: ErrorKind) -> (r: Error)
        ensures
            r.kind == kind,
    {
        Error { kind }
    }

    /// The message of this error.
    pub fn message(&self) -> (r: String)
        ensures
            r@ == message_of(self.kind),
    {
        match self.kind {
            ErrorKind::FeatureStateNotFound => "Feature State Not Found".to_string(),
            ErrorKind::DuplicateFeatureState => "Feature State already exists".to_string(),
        }
    }
}

} // verus!
