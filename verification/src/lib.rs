//! Verified core of a commit-range report generator.
//!
//! The library parses commit history as reported by a version-control tool,
//! resolves a commit range from explicit references or an interactive
//! selection, and synthesizes a text report for that range, either
//! deterministically or through a delegated generation service whose
//! request and response framing are built and checked here.

pub mod ai;
pub mod bytes;
pub mod errors;
pub mod history;
pub mod range;
pub mod report;
pub mod time;
