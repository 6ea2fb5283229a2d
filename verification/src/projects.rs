//! Projects.

use vstd::prelude::*;
use vstd::string::*;
use crate::organisations::Organisation;
use crate::segments::Segment;

verus! {

/// A project: the segments that its environments share.
#[derive(Debug, PartialEq, Eq)]
pub struct Project {
    pub id: u32,
    pub name: String,
    pub organisation: Organisation,
    pub hide_disabled_flags: bool,
    pub segments: Vec<Segment>,
}

} // verus!
