//! The review report built from an analysis.
pub mod report;
