//! Semantic query parsing and tag-encoded account metadata.
//!
//! Account records carry structured facts (role markers, key=value
//! attributes, access grants) in a single ordered list of string tags, and
//! free-text search strings are parsed into structured field filters plus a
//! residual keyword query. This crate provides the tag encoding model, the
//! query parser, the search planner that combines both, and the role/access
//! evaluator built on top of the tag primitives.

pub mod account;
pub mod casing;
pub mod numbers;
pub mod planner;
pub mod profile;
pub mod query;
pub mod strutil;
pub mod tags;
