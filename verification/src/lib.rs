//! Suggests open, approachable issues from the GitHub repositories behind a
//! crate's dependencies.
//!
//! The crate models the dependency-to-issue pipeline: locating the repository
//! that hosts each dependency, deduplicating repositories, filtering issues by
//! canonicalized labels, classifying upstream faults, and merging the
//! per-repository issue streams into one output stream.

pub mod args;
pub mod crates_io;
pub mod display;
pub mod labels;
pub mod logging;
pub mod manifest;
pub mod merge;
pub mod model;
pub mod resolver;
pub mod search;
pub mod text;
pub mod versions;
