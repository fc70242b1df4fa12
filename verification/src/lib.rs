//! Turns a structured code-coverage report into a flat, timestamped,
//! tagged batch of gauge metrics, ready for submission to a time-series
//! backend.
//!
//! The crate is split into:
//! - [`json`]: a plain tree model of the input document and the validating
//!   parser that turns it into a [`entity::FileContent`];
//! - [`entity`]: the coverage data model and the flattener that expands a
//!   document into a batch of named metric series;
//! - [`args`]: the run configuration and the derivation of the shared tag set;
//! - [`submit`]: the submission contract — credential check and the mapping
//!   of a transport outcome to the run's result.

pub mod args;
pub mod entity;
pub mod error;
pub mod json;
pub mod submit;
