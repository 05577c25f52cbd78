//! The fact model: snapshots of each side, symbol changes and the facts
//! attached to them.  Nothing here is a score.
use vstd::prelude::*;

use crate::git::ChangedFile;
use crate::language::{ComplexityMetrics, Reference, ReferenceKind, ReferenceResolution, Symbol, SymbolKind};

verus! {

/// Which parse errors are tolerated.
#[derive(Debug, Clone, Copy)]
pub struct AnalysisOptions {
    pub allow_parse_errors: bool,
}

/// The parsed state of one side of the comparison.
#[derive(Debug)]
pub struct Snapshot {
    pub git_ref: String,
    pub files_considered: usize,
    pub files_skipped: usize,
    pub files_parsed: usize,
    pub files_with_parse_errors: usize,
    pub parse_error_files: Vec<String>,
    pub symbols: Vec<Symbol>,
}

/// The comparison key of a symbol: file and qualified name.
#[derive(Debug)]
pub struct SymbolId {
    pub file: String,
    pub qualified_name: String,
}

impl SymbolId {
    /// A copy of the id.
    pub fn copy(&self) -> (r: SymbolId)
        ensures
            r.file@ == self.file@,
            r.qualified_name@ == self.qualified_name@,
    {
        SymbolId { file: self.file.clone(), qualified_name: self.qualified_name.clone() }
    }
}

/// A factual change label.
#[derive(Debug, Clone, Copy, PartialEq, Eq, Structural)]
pub enum ChangeKind {
    Added,
    Deleted,
    PathChanged,
    BodyChanged,
    SignatureChanged,
}

/// Heuristic visibility of a symbol.
#[derive(Debug, Clone, Copy, PartialEq, Eq, Structural)]
pub enum SymbolVisibility {
    Private,
    Internal,
    Public,
}

/// Kind and visibility of a changed symbol.
#[derive(Debug, Clone, Copy, PartialEq, Eq, Structural)]
pub struct SymbolFacts {
    pub kind: SymbolKind,
    pub visibility: SymbolVisibility,
}

/// How the parameters of a function changed.
#[derive(Debug)]
pub struct SignatureChangeFacts {
    pub parameters_added: Vec<String>,
    pub parameters_removed: Vec<String>,
    pub parameters_reordered: bool,
    pub parameter_kind_changed: Vec<String>,
    pub parameter_default_changed: Vec<String>,
    pub parameter_annotation_changed: Vec<String>,
    pub return_annotation_changed: bool,
    pub async_changed: bool,
}

impl SignatureChangeFacts {
    /// A change that affects how the function is called.
    pub open spec fn runtime_change(&self) -> bool {
        self.async_changed || self.parameters_added@.len() > 0 || self.parameters_removed@.len()
            > 0 || self.parameters_reordered || self.parameter_kind_changed@.len() > 0
            || self.parameter_default_changed@.len() > 0
    }

    /// A change of annotations only.
    pub open spec fn type_annotation_change(&self) -> bool {
        self.parameter_annotation_changed@.len() > 0 || self.return_annotation_changed
    }

    /// Whether the change affects how the function is called.
    pub fn has_runtime_change(&self) -> (r: bool)
        ensures
            r == self.runtime_change(),
    {
        self.async_changed || self.parameters_added.len() > 0 || self.parameters_removed.len() > 0
            || self.parameters_reordered || self.parameter_kind_changed.len() > 0
            || self.parameter_default_changed.len() > 0
    }

    /// Whether annotations changed.
    pub fn has_type_annotation_change(&self) -> (r: bool)
        ensures
            r == self.type_annotation_change(),
    {
        self.parameter_annotation_changed.len() > 0 || self.return_annotation_changed
    }
}

/// Before and after metrics of a symbol present on both sides, with one
/// delta per metric.
#[derive(Debug, Clone, Copy, PartialEq, Eq, Structural)]
pub struct ComplexityDelta {
    pub before: ComplexityMetrics,
    pub after: ComplexityMetrics,
    pub length_lines_delta: isize,
    pub branch_count_delta: isize,
    pub loop_count_delta: isize,
    pub boolean_operator_count_delta: isize,
    pub exception_handler_count_delta: isize,
    pub match_count_delta: isize,
    pub with_count_delta: isize,
    pub max_nesting_depth_delta: isize,
}

/// A structural metric must move by at least this much to be reported.
pub const REVIEW_COMPLEXITY_DELTA_THRESHOLD: isize = 2;

impl ComplexityDelta {
    /// The seven structural deltas (all but length).
    pub open spec fn structural(&self) -> Seq<isize> {
        seq![
            self.branch_count_delta,
            self.loop_count_delta,
            self.boolean_operator_count_delta,
            self.exception_handler_count_delta,
            self.match_count_delta,
            self.with_count_delta,
            self.max_nesting_depth_delta,
        ]
    }

    /// Some structural metric moved by at least the threshold.
    pub open spec fn reportable_change(&self) -> bool {
        exists|i: int|
            0 <= i < 7 && (self.structural()[i] >= REVIEW_COMPLEXITY_DELTA_THRESHOLD
                || self.structural()[i] <= -REVIEW_COMPLEXITY_DELTA_THRESHOLD)
    }

    /// Some structural metric grew by at least the threshold.
    pub open spec fn reportable_increase(&self) -> bool {
        exists|i: int| 0 <= i < 7 && self.structural()[i] >= REVIEW_COMPLEXITY_DELTA_THRESHOLD
    }

    fn structural_deltas(&self) -> (r: [isize; 7])
        ensures
            r@ == self.structural(),
    {
        let r = [
            self.branch_count_delta,
            self.loop_count_delta,
            self.boolean_operator_count_delta,
            self.exception_handler_count_delta,
            self.match_count_delta,
            self.with_count_delta,
            self.max_nesting_depth_delta,
        ];
        proof {
            assert(r@ =~= self.structural());
        }
        r
    }

    /// Whether some structural metric moved by at least the threshold.
    pub fn has_reportable_structural_change(&self) -> (r: bool)
        ensures
            r == self.reportable_change(),
    {
        let d = self.structural_deltas();
        let mut i: usize = 0;
        while i < 7
            invariant
                0 <= i <= 7,
                d@ == self.structural(),
                forall|j: int|
                    0 <= j < i ==> !(d@[j] >= REVIEW_COMPLEXITY_DELTA_THRESHOLD || d@[j]
                        <= -REVIEW_COMPLEXITY_DELTA_THRESHOLD),
            decreases 7 - i,
        {
            if d[i] >= REVIEW_COMPLEXITY_DELTA_THRESHOLD || d[i] <= -REVIEW_COMPLEXITY_DELTA_THRESHOLD {
                return true;
            }
            i = i + 1;
        }
        false
    }

    /// Whether some structural metric grew by at least the threshold.
    pub fn has_reportable_structural_increase(&self) -> (r: bool)
        ensures
            r == self.reportable_increase(),
    {
        let d = self.structural_deltas();
        let mut i: usize = 0;
        while i < 7
            invariant
                0 <= i <= 7,
                d@ == self.structural(),
                forall|j: int| 0 <= j < i ==> d@[j] < REVIEW_COMPLEXITY_DELTA_THRESHOLD,
            decreases 7 - i,
        {
            if d[i] >= REVIEW_COMPLEXITY_DELTA_THRESHOLD {
                return true;
            }
            i = i + 1;
        }
        false
    }
}

/// Which rule matched a reference to a changed symbol.
#[derive(Debug, Clone, Copy, PartialEq, Eq, Structural)]
pub enum ReferenceMatchSource {
    ResolvedImport,
    ResolvedAttribute,
    UnresolvedShortName,
}

/// A reference that matched a changed symbol.
#[derive(Debug)]
pub struct MatchedReference {
    pub file: String,
    pub line: usize,
    pub caller_symbol: Option<String>,
    pub kind: ReferenceKind,
    pub resolution: ReferenceResolution,
    pub match_source: ReferenceMatchSource,
    pub changed_file: bool,
}

/// Reference counts and files for one changed symbol on one side.
#[derive(Debug)]
pub struct SymbolReferenceFacts {
    pub count: usize,
    pub resolved_count: usize,
    pub unresolved_count: usize,
    pub import_count: usize,
    pub from_import_count: usize,
    pub direct_call_count: usize,
    pub attribute_call_count: usize,
    pub files: Vec<String>,
    pub changed_files: Vec<String>,
    pub unchanged_files: Vec<String>,
    pub matched_references: Vec<MatchedReference>,
}

impl SymbolReferenceFacts {
    /// No references.
    pub fn empty() -> (r: SymbolReferenceFacts)
        ensures
            r.count == 0 && r.resolved_count == 0 && r.unresolved_count == 0 && r.import_count
                == 0 && r.from_import_count == 0 && r.direct_call_count == 0
                && r.attribute_call_count == 0 && r.files@.len() == 0 && r.changed_files@.len()
                == 0 && r.unchanged_files@.len() == 0 && r.matched_references@.len() == 0,
    {
        SymbolReferenceFacts {
            count: 0,
            resolved_count: 0,
            unresolved_count: 0,
            import_count: 0,
            from_import_count: 0,
            direct_call_count: 0,
            attribute_call_count: 0,
            files: Vec::new(),
            changed_files: Vec::new(),
            unchanged_files: Vec::new(),
            matched_references: Vec::new(),
        }
    }
}

/// How the referencing files of a symbol moved between the two sides.
#[derive(Debug)]
pub struct SymbolReferenceDelta {
    pub count_delta: isize,
    pub added_files: Vec<String>,
    pub removed_files: Vec<String>,
    pub unchanged_files: Vec<String>,
}

impl SymbolReferenceDelta {
    /// No movement.
    pub fn empty() -> (r: SymbolReferenceDelta)
        ensures
            r.count_delta == 0 && r.added_files@.len() == 0 && r.removed_files@.len() == 0
                && r.unchanged_files@.len() == 0,
    {
        SymbolReferenceDelta {
            count_delta: 0,
            added_files: Vec::new(),
            removed_files: Vec::new(),
            unchanged_files: Vec::new(),
        }
    }
}

/// A factual label derived from raw facts; not a score.
#[derive(Debug, Clone, Copy, PartialEq, Eq, Structural)]
pub enum ReviewSignal {
    PublicSymbolAdded,
    PublicSymbolDeleted,
    PublicSignatureChanged,
    TypeAnnotationsChanged,
    SignatureChangedWithUnchangedCallers,
    ComplexityIncreased,
    ImplementationChangedWithoutTestMovement,
    PathChangedOnly,
}

/// Everything known about one changed symbol.
#[derive(Debug)]
pub struct SymbolChange {
    pub id: SymbolId,
    pub kinds: Vec<ChangeKind>,
    pub before: Option<Symbol>,
    pub after: Option<Symbol>,
    pub symbol_facts: SymbolFacts,
    pub signature_change: Option<SignatureChangeFacts>,
    pub complexity_delta: Option<ComplexityDelta>,
    pub references_before: SymbolReferenceFacts,
    pub references_after: SymbolReferenceFacts,
    pub test_references_after: SymbolReferenceFacts,
    pub reference_delta: SymbolReferenceDelta,
    pub review_signals: Vec<ReviewSignal>,
}

/// Facts about test files at the head side.
#[derive(Debug)]
pub struct TestFacts {
    pub changed_test_files: Vec<String>,
    pub test_files_parsed: usize,
    pub test_files_with_parse_errors: usize,
    pub test_parse_error_files: Vec<String>,
    pub production_files_with_nearby_test_changes: Vec<String>,
    pub production_files_without_nearby_test_changes: Vec<String>,
}

/// The result of comparing two sides.
#[derive(Debug)]
pub struct Analysis {
    pub base: String,
    pub head: String,
    pub language: String,
    pub changed_files: Vec<ChangedFile>,
    pub before: Snapshot,
    pub after: Snapshot,
    pub symbol_changes: Vec<SymbolChange>,
    pub references_before: Vec<Reference>,
    pub references_after: Vec<Reference>,
    pub test_facts: TestFacts,
}

} // verus!
