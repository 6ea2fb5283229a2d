//! A feature-flag evaluation engine.
//!
//! Given an evaluation context (an environment, its features and segments,
//! and optionally an identity), [`engine::get_evaluation_result`] returns one
//! flag for every feature and the list of segments that the context is in.
//! Evaluation reads the context and nothing else, and it always returns a
//! result.
//!
//! Every function states what it computes over the characters of the texts
//! it is given. Numbers are exact decimals (see [`decimal`]); texts are read
//! as numbers as a floating-point parse reads them, and [`numbers`] says for
//! which operands a comparison is decided. Maps keep their entries in order
//! of insertion (see [`maps`]). A few functions call
//! other crates for what takes pages to state: MD5 and SHA-256 digests,
//! regular expressions, semantic versions, JSONPath queries and RFC 3339
//! dates. What these return is named in the contracts, not described.

pub mod decimal;
pub mod engine;
pub mod engine_eval;
pub mod environments;
pub mod error;
pub mod features;
pub mod identities;
pub mod json;
pub mod maps;
pub mod numbers;
pub mod organisations;
pub mod patterns;
pub mod projects;
pub mod segments;
pub mod text;
pub mod types;
pub mod utils;
pub mod versions;
