//! What an evaluation returns.

use vstd::prelude::*;
use vstd::string::*;
use crate::engine_eval::context::{FeatureMetadata, SegmentMetadata};
use crate::maps::StringMap;
use crate::types::{FlagsmithValue, ValueView};

verus! {

/// The evaluated state of one feature.
#[derive(Clone, Debug, PartialEq, Eq)]
pub struct FlagResult {
    pub enabled: bool,
    pub name: String,
    /// Why the flag has this value: `DEFAULT`,
    /// `TARGETING_MATCH; segment=` and the name of a segment, or
    /// `SPLIT; weight=` and the weight of a variant.
    pub reason: String,
    pub value: FlagsmithValue,
    pub metadata: FeatureMetadata,
}

/// What a flag result is in contracts.
pub struct FlagResultView {
    pub enabled: bool,
    pub name: Seq<char>,
    pub reason: Seq<char>,
    pub value: ValueView,
    pub metadata: FeatureMetadata,
}

impl View for FlagResult {
    type V = FlagResultView;

    open spec fn view(&self) -> FlagResultView {
        FlagResultView {
            enabled: self.enabled,
            name: self.name@,
            reason: self.reason@,
            value: self.value@,
            metadata: self.metadata,
        }
    }
}

/// A segment that the context is in.
#[derive(Clone, Debug, PartialEq, Eq)]
pub struct SegmentResult {
    pub name: String,
    pub metadata: SegmentMetadata,
}

/// What a segment result is in contracts.
pub struct SegmentResultView {
    pub name: Seq<char>,
    pub metadata: SegmentMetadata,
}

impl View for SegmentResult {
    type V = SegmentResultView;

    open spec fn view(&self) -> SegmentResultView {
        SegmentResultView { name: self.name@, metadata: self.metadata }
    }
}

/// The result of an evaluation: one flag for each feature, by feature name,
/// and the segments that the context is in.
#[derive(Clone, Debug, PartialEq, Eq)]
pub struct EvaluationResult {
    pub flags: StringMap<FlagResult>,
    pub segments: Vec<SegmentResult>,
}

/// What an evaluation result is in contracts: the names under which
/// flags are stored, the flags in the same order, and the segments.
pub struct EvaluationView {
    pub flag_keys: Seq<Seq<char>>,
    pub flags: Seq<FlagResultView>,
    pub segments: Seq<SegmentResultView>,
}

/// The views of the flags stored in a map, in stored order.
pub open spec fn flag_views(flags: StringMap<FlagResult>) -> Seq<FlagResultView> {
    Seq::new(flags.entries@.len(), |i: int| flags.entries@[i].value@)
}

/// The views of a list of segment results.
pub open spec fn segment_views(segments: Seq<SegmentResult>) -> Seq<SegmentResultView> {
    Seq::new(segments.len(), |i: int| segments[i]@)
}

impl View for EvaluationResult {
    type V = EvaluationView;

    open spec fn view(&self) -> EvaluationView {
        EvaluationView {
            flag_keys: self.flags.keys(),
            flags: flag_views(self.flags),
            segments: segment_views(self.segments@),
        }
    }
}

} // verus!
