//! The evaluation context, the evaluation result and the segment evaluator.

pub mod context;
pub mod document;
pub mod mappers;
pub mod result;
pub mod segment_evaluator;

pub use context::{EngineEvaluationContext, FeatureContext, FeatureMetadata};
pub use mappers::{add_identity_to_context, environment_to_context};
pub use result::{EvaluationResult, FlagResult, SegmentResult};
pub use segment_evaluator::is_context_in_segment;
