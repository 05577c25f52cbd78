//! The compact review report: scope, the high-signal items to inspect with
//! their labels, signatures, complexity, callers and tests, and what was
//! left out.
use vstd::prelude::*;

pub mod complexity;
pub mod labels;
pub mod references;
pub mod sections;
pub mod selection;

verus! {

/// How much the report shows.
#[derive(Debug, Clone, Copy, PartialEq, Eq, Structural)]
pub enum ReportVerbosity {
    Normal,
    Verbose,
    Full,
}

/// How many signal-bearing items the report shows.
#[derive(Debug, Clone, Copy, PartialEq, Eq, Structural)]
pub enum ReportLimit {
    Limited(usize),
    All,
}

impl Default for ReportLimit {
    /// Five items.
    fn default() -> (r: ReportLimit)
        ensures
            r == ReportLimit::Limited(5),
    {
        ReportLimit::Limited(5)
    }
}

/// The review report.
#[derive(Debug)]
pub struct Report {
    pub schema_version: u8,
    pub verbosity: ReportVerbosity,
    pub scope: ReportScope,
    pub parse_errors: Option<ParseErrors>,
    pub note: Option<String>,
    pub inspect: Vec<InspectItem>,
    pub omitted: Option<Omitted>,
}

/// How much changed.
#[derive(Debug)]
pub struct ReportScope {
    pub changed_files: usize,
    pub changed_symbols: usize,
    pub changed_test_files: usize,
}

/// How many parsed files held syntax errors.
#[derive(Debug)]
pub struct ParseErrors {
    pub files: usize,
}

/// One changed symbol to inspect.
#[derive(Debug)]
pub struct InspectItem {
    pub symbol: String,
    pub changes: Vec<String>,
    pub members: Vec<InspectMember>,
    pub signature: Option<SignatureReport>,
    pub complexity: Option<ComplexityReport>,
    pub changed_tests: Vec<String>,
    pub unchanged_tests: Vec<String>,
    pub tests: Option<String>,
    pub unchanged_callers: Vec<String>,
    pub changed_callers: Vec<String>,
    pub facts: Option<VerboseFacts>,
}

/// A method shown under its added or deleted class.
#[derive(Debug)]
pub struct InspectMember {
    pub name: String,
    pub changes: Vec<String>,
    pub complexity: Option<ComplexityReport>,
    pub facts: Option<VerboseFacts>,
}

/// A signature before and after, cleaned for reading.
#[derive(Debug)]
pub struct SignatureReport {
    pub before: String,
    pub after: String,
}

/// How complexity moved, and the metrics that show it.
#[derive(Debug)]
pub struct ComplexityReport {
    pub status: String,
    pub metrics: Vec<ComplexityMetricReport>,
}

/// One complexity metric.
#[derive(Debug)]
pub struct ComplexityMetricReport {
    pub name: String,
    pub before: Option<usize>,
    pub after: Option<usize>,
}

/// Extra facts of an item in verbose reports.
#[derive(Debug)]
pub struct VerboseFacts {
    pub change_kinds: Vec<String>,
    pub signals: Vec<String>,
    pub references: ReferenceCounts,
    pub test_references_after: usize,
}

/// Reference counts of a changed symbol.
#[derive(Debug)]
pub struct ReferenceCounts {
    pub before: usize,
    pub after: usize,
    pub delta: isize,
}

/// What the report left out.
#[derive(Debug)]
pub struct Omitted {
    pub symbol_changes: usize,
    pub high_signal: usize,
    pub low_signal: usize,
    pub hint: String,
}

} // verus!
