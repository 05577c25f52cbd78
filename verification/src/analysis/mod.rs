//! The analysis pipeline: snapshots, symbol diff, references, test facts
//! and review signals.
pub mod diff;
pub mod facts;
pub mod filter;
pub mod modules;
pub mod references;
pub mod signals;
pub mod test_facts;
pub mod snapshot;
pub mod pipeline;
