use sniffdiff::analysis::diff::diff_symbols;
use sniffdiff::analysis::facts::{
    ChangeKind, ComplexityDelta, ReviewSignal, SignatureChangeFacts, Snapshot, SymbolChange,
    SymbolFacts, SymbolId, SymbolReferenceDelta, SymbolReferenceFacts, SymbolVisibility, TestFacts,
};
use sniffdiff::analysis::modules::ModuleIndex;
use sniffdiff::analysis::references::{attach_reference_facts, ReferenceSnapshot};
use sniffdiff::analysis::signals::attach_review_signals;
use sniffdiff::analysis::test_facts::derive_test_facts;
use sniffdiff::git::{ChangedFile, FileStatus};
use sniffdiff::language::{
    ComplexityMetrics, FunctionSignatureFacts, LineRange, ParameterFacts, ParameterKind,
    Reference, ReferenceKind, ReferenceResolution, Symbol, SymbolKind,
};
use sniffdiff::paths::is_test_path;

fn symbol(file: &str, name: &str, signature: &str, body_hash: &str) -> Symbol {
    Symbol {
        file: file.to_string(),
        qualified_name: name.to_string(),
        kind: SymbolKind::Function,
        signature: signature.to_string(),
        signature_facts: None,
        range: LineRange { start: 1, end: 2 },
        body_hash: body_hash.to_string(),
        complexity: ComplexityMetrics::zero(),
    }
}

fn parameter(
    name: &str,
    kind: ParameterKind,
    has_default: bool,
    annotation: Option<&str>,
) -> ParameterFacts {
    ParameterFacts {
        name: name.to_string(),
        kind,
        has_default,
        default_value: None,
        annotation: annotation.map(|a| a.to_string()),
    }
}

fn change_of(file: &str, name: &str, kind: SymbolKind, before: Symbol, after: Symbol) -> SymbolChange {
    SymbolChange {
        id: SymbolId { file: file.to_string(), qualified_name: name.to_string() },
        kinds: vec![ChangeKind::BodyChanged],
        before: Some(before),
        after: Some(after),
        symbol_facts: SymbolFacts { kind, visibility: SymbolVisibility::Public },
        signature_change: None,
        complexity_delta: None,
        references_before: SymbolReferenceFacts::empty(),
        references_after: SymbolReferenceFacts::empty(),
        test_references_after: SymbolReferenceFacts::empty(),
        reference_delta: SymbolReferenceDelta::empty(),
        review_signals: Vec::new(),
    }
}

fn reference(file: &str, name: &str) -> Reference {
    Reference {
        file: file.to_string(),
        name: name.to_string(),
        module: None,
        resolved_name: Some(name.to_string()),
        resolved_module: None,
        resolution: ReferenceResolution::Unresolved,
        line: 1,
        kind: ReferenceKind::Call,
    }
}

fn attribute_reference(file: &str, module: &str, name: &str, line: usize) -> Reference {
    Reference {
        file: file.to_string(),
        name: name.to_string(),
        module: Some(module.to_string()),
        resolved_name: Some(name.to_string()),
        resolved_module: Some(module.to_string()),
        resolution: ReferenceResolution::Unresolved,
        line,
        kind: ReferenceKind::Attribute,
    }
}

fn kinds_of<'a>(changes: &'a [SymbolChange], name: &str) -> Option<&'a Vec<ChangeKind>> {
    changes.iter().find(|c| c.id.qualified_name == name).map(|c| &c.kinds)
}

#[test]
fn detects_added_deleted_body_and_signature_changes() {
    let before = vec![
        symbol("src/app.py", "removed", "def removed():", "aaa"),
        symbol("src/app.py", "changed", "def changed(x):", "bbb"),
        symbol("src/app.py", "resigned", "def resigned(x):", "ccc"),
        symbol("src/app.py", "same", "def same():", "ddd"),
    ];
    let after = vec![
        symbol("src/app.py", "added", "def added():", "eee"),
        symbol("src/app.py", "changed", "def changed(x):", "zzz"),
        symbol("src/app.py", "resigned", "def resigned(x, y):", "yyy"),
        symbol("src/app.py", "same", "def same():", "ddd"),
    ];

    let changes = diff_symbols(&before, &after, &[]);

    assert_eq!(kinds_of(&changes, "added"), Some(&vec![ChangeKind::Added]));
    assert_eq!(kinds_of(&changes, "removed"), Some(&vec![ChangeKind::Deleted]));
    assert_eq!(kinds_of(&changes, "changed"), Some(&vec![ChangeKind::BodyChanged]));
    assert_eq!(
        kinds_of(&changes, "resigned"),
        Some(&vec![ChangeKind::BodyChanged, ChangeKind::SignatureChanged])
    );
    assert!(kinds_of(&changes, "same").is_none());
}

#[test]
fn treats_symbols_in_renamed_files_as_path_changed_not_deleted_and_added() {
    let before = vec![symbol("src/old.py", "same", "def same():", "aaa")];
    let after = vec![symbol("src/new.py", "same", "def same():", "aaa")];
    let changed_files = vec![ChangedFile {
        path: "src/new.py".to_string(),
        status: FileStatus::Renamed { old_path: "src/old.py".to_string() },
    }];

    let changes = diff_symbols(&before, &after, &changed_files);

    assert_eq!(changes.len(), 1);
    assert_eq!(changes[0].id.file, "src/new.py");
    assert_eq!(changes[0].kinds, vec![ChangeKind::PathChanged]);
}

#[test]
fn reports_structured_signature_change_facts() {
    let mut before = symbol("src/app.py", "build", "def build(rows, strict=False):", "aaa");
    before.signature_facts = Some(FunctionSignatureFacts {
        is_async: false,
        parameters: vec![
            parameter("rows", ParameterKind::PositionalOrKeyword, false, None),
            parameter("strict", ParameterKind::PositionalOrKeyword, true, None),
        ],
        return_annotation: None,
    });
    let mut after = symbol("src/app.py", "build", "def build(rows: list, *, limit=10) -> list:", "bbb");
    after.signature_facts = Some(FunctionSignatureFacts {
        is_async: false,
        parameters: vec![
            parameter("rows", ParameterKind::PositionalOrKeyword, false, Some("list")),
            parameter("limit", ParameterKind::KeywordOnly, true, None),
        ],
        return_annotation: Some("list".to_string()),
    });

    let changes = diff_symbols(&[before], &[after], &[]);
    let signature_change = changes[0].signature_change.as_ref().unwrap();

    assert_eq!(signature_change.parameters_added, vec!["limit"]);
    assert_eq!(signature_change.parameters_removed, vec!["strict"]);
    assert_eq!(signature_change.parameter_annotation_changed, vec!["rows"]);
    assert!(signature_change.return_annotation_changed);
}

#[test]
fn reports_complexity_delta_facts() {
    let mut before = symbol("src/app.py", "build", "def build(rows):", "aaa");
    before.complexity = ComplexityMetrics {
        length_lines: 3,
        branch_count: 1,
        max_nesting_depth: 1,
        ..ComplexityMetrics::zero()
    };
    let mut after = symbol("src/app.py", "build", "def build(rows):", "bbb");
    after.complexity = ComplexityMetrics {
        length_lines: 8,
        branch_count: 3,
        loop_count: 1,
        max_nesting_depth: 2,
        ..ComplexityMetrics::zero()
    };

    let changes = diff_symbols(&[before], &[after], &[]);
    let complexity_delta = changes[0].complexity_delta.as_ref().unwrap();

    assert_eq!(complexity_delta.length_lines_delta, 5);
    assert_eq!(complexity_delta.branch_count_delta, 2);
    assert_eq!(complexity_delta.loop_count_delta, 1);
    assert_eq!(complexity_delta.max_nesting_depth_delta, 1);
}

#[test]
fn identifies_test_paths_for_default_skipping() {
    assert!(is_test_path("tests/test_features.py"));
    assert!(is_test_path("test/test_features.py"));
    assert!(is_test_path("src/test_features.py"));
    assert!(is_test_path("src/features_test.py"));
    assert!(!is_test_path("src/features.py"));
    assert!(!is_test_path("src/contest.py"));
}

#[test]
fn indexes_top_level_symbols_by_module() {
    let index = ModuleIndex::from_symbols(&[
        symbol("pkg/features.py", "build_features", "def build_features():", "hash"),
        symbol("pkg/features.py", "Formatter.format_name", "def Formatter.format_name():", "hash"),
        symbol("pkg/__init__.py", "exported", "def exported():", "hash"),
    ]);

    assert!(index.contains_symbol("pkg.features", "build_features"));
    assert!(index.contains_symbol("pkg.features", "Formatter"));
    assert!(index.contains_symbol("pkg", "exported"));
    assert!(!index.contains_symbol("other.features", "build_features"));
}

#[test]
fn attaches_reference_facts_to_changed_symbols() {
    let changes = vec![change_of(
        "src/features.py",
        "build_features",
        SymbolKind::Function,
        symbol("src/features.py", "build_features", "def build_features(rows):", "aaa"),
        symbol("src/features.py", "build_features", "def build_features(rows):", "bbb"),
    )];
    let references = vec![
        reference("src/train.py", "build_features"),
        reference("tests/test_features.py", "build_features"),
    ];
    let changed_files = vec![ChangedFile {
        path: "tests/test_features.py".to_string(),
        status: FileStatus::Modified,
    }];
    let module_index = ModuleIndex::from_symbols(&[symbol(
        "src/features.py",
        "build_features",
        "def build_features(rows):",
        "bbb",
    )]);
    let symbols = vec![
        symbol("src/train.py", "train", "def train(rows):", "train"),
        symbol("tests/test_features.py", "test_build_features", "def test_build_features():", "test"),
    ];

    let changes = attach_reference_facts(
        changes,
        &ReferenceSnapshot { references: &[], module_index: &module_index, symbols: &[] },
        &ReferenceSnapshot { references: &references, module_index: &module_index, symbols: &symbols },
        &changed_files,
    );

    assert_eq!(changes[0].references_after.count, 2);
    assert_eq!(changes[0].references_after.files, vec!["src/train.py", "tests/test_features.py"]);
    assert_eq!(changes[0].references_after.changed_files, vec!["tests/test_features.py"]);
    assert_eq!(changes[0].references_after.unchanged_files, vec!["src/train.py"]);
    assert_eq!(changes[0].references_after.matched_references.len(), 2);
    assert_eq!(
        changes[0].references_after.matched_references[0].caller_symbol,
        Some("train".to_string())
    );
    assert_eq!(changes[0].reference_delta.count_delta, 2);
    assert_eq!(changes[0].reference_delta.added_files, vec!["src/train.py", "tests/test_features.py"]);
}

fn method(file: &str, name: &str, signature: &str, body_hash: &str) -> Symbol {
    let mut m = symbol(file, name, signature, body_hash);
    m.kind = SymbolKind::Method;
    m
}

#[test]
fn does_not_match_unresolved_method_calls_by_short_name() {
    let changes = vec![change_of(
        "src/features.py",
        "Formatter.format",
        SymbolKind::Method,
        method("src/features.py", "Formatter.format", "def format(self, value):", "aaa"),
        method("src/features.py", "Formatter.format", "def format(self, value):", "aaa"),
    )];
    let references = vec![reference("src/other.py", "format")];
    let module_index = ModuleIndex::from_symbols(&[method(
        "src/features.py",
        "Formatter.format",
        "def format(self, value):",
        "aaa",
    )]);

    let changes = attach_reference_facts(
        changes,
        &ReferenceSnapshot { references: &[], module_index: &module_index, symbols: &[] },
        &ReferenceSnapshot { references: &references, module_index: &module_index, symbols: &[] },
        &[],
    );

    assert_eq!(changes[0].references_after.count, 0);
}

#[test]
fn matches_unresolved_same_class_self_method_calls() {
    let caller = || {
        let mut c = method("src/features.py", "Formatter.format_many", "def format_many(self, values):", "bbb");
        c.range = LineRange { start: 10, end: 12 };
        c
    };
    let target = || method("src/features.py", "Formatter.format", "def format(self, value):", "aaa");
    let changes = vec![change_of(
        "src/features.py",
        "Formatter.format",
        SymbolKind::Method,
        target(),
        target(),
    )];
    let references = vec![attribute_reference("src/features.py", "self", "format", 11)];
    let module_index = ModuleIndex::from_symbols(&[target(), caller()]);
    let symbols = vec![target(), caller()];

    let changes = attach_reference_facts(
        changes,
        &ReferenceSnapshot { references: &[], module_index: &module_index, symbols: &[] },
        &ReferenceSnapshot { references: &references, module_index: &module_index, symbols: &symbols },
        &[],
    );

    assert_eq!(changes[0].references_after.count, 1);
    assert_eq!(
        changes[0].references_after.matched_references[0].caller_symbol,
        Some("Formatter.format_many".to_string())
    );
}

fn production_change(file: &str, name: &str) -> SymbolChange {
    let signature = format!("def {name}():");
    change_of(
        file,
        name,
        SymbolKind::Function,
        symbol(file, name, &signature, "hash"),
        symbol(file, name, &signature, "hash"),
    )
}

fn empty_test_snapshot() -> Snapshot {
    Snapshot {
        git_ref: "HEAD".to_string(),
        files_considered: 1,
        files_skipped: 0,
        files_parsed: 1,
        files_with_parse_errors: 0,
        parse_error_files: Vec::new(),
        symbols: Vec::new(),
    }
}

#[test]
fn separates_changed_production_files_by_nearby_test_movement() {
    let changed_files = vec![ChangedFile {
        path: "tests/test_features.py".to_string(),
        status: FileStatus::Modified,
    }];
    let symbol_changes = vec![
        production_change("src/features.py", "build_features"),
        production_change("src/train.py", "train"),
    ];

    let facts = derive_test_facts(&changed_files, &symbol_changes, &empty_test_snapshot());

    assert_eq!(facts.changed_test_files, vec!["tests/test_features.py"]);
    assert_eq!(facts.production_files_with_nearby_test_changes, vec!["src/features.py"]);
    assert_eq!(facts.production_files_without_nearby_test_changes, vec!["src/train.py"]);
}

#[test]
fn diffing_a_side_against_itself_reports_nothing() {
    let side = || {
        vec![
            symbol("src/app.py", "a", "def a():", "aaa"),
            symbol("src/app.py", "b", "def b(x):", "bbb"),
            symbol("pkg/other.py", "c", "def c():", "ccc"),
        ]
    };
    assert!(diff_symbols(&side(), &side(), &[]).is_empty());
}

#[test]
fn moving_a_symbol_without_a_rename_is_deleted_and_added() {
    let before = vec![symbol("src/old.py", "same", "def same():", "aaa")];
    let after = vec![symbol("src/new.py", "same", "def same():", "aaa")];
    let changed_files = vec![
        ChangedFile { path: "src/new.py".to_string(), status: FileStatus::Added },
        ChangedFile { path: "src/old.py".to_string(), status: FileStatus::Deleted },
    ];

    let changes = diff_symbols(&before, &after, &changed_files);

    assert_eq!(changes.len(), 2);
    assert_eq!(changes[0].id.file, "src/new.py");
    assert_eq!(changes[0].kinds, vec![ChangeKind::Added]);
    assert_eq!(changes[1].id.file, "src/old.py");
    assert_eq!(changes[1].kinds, vec![ChangeKind::Deleted]);
}

#[test]
fn orders_changes_by_key() {
    let before = vec![
        symbol("src/b.py", "z", "def z():", "1"),
        symbol("src/a.py", "y", "def y():", "1"),
        symbol("src/a.py", "x", "def x():", "1"),
    ];
    let changes = diff_symbols(&before, &[], &[]);
    let keys: Vec<(String, String)> =
        changes.iter().map(|c| (c.id.file.clone(), c.id.qualified_name.clone())).collect();
    assert_eq!(
        keys,
        vec![
            ("src/a.py".to_string(), "x".to_string()),
            ("src/a.py".to_string(), "y".to_string()),
            ("src/b.py".to_string(), "z".to_string()),
        ]
    );
}

#[test]
fn reference_counts_add_up() {
    let changes = vec![production_change("src/features.py", "build_features")];
    let module_index =
        ModuleIndex::from_symbols(&[symbol("src/features.py", "build_features", "def build_features():", "hash")]);
    let mut resolved = reference("src/train.py", "build_features");
    resolved.resolution = ReferenceResolution::Resolved;
    resolved.resolved_module = Some("src.features".to_string());
    let references = vec![
        resolved,
        reference("src/api.py", "build_features"),
        attribute_reference("src/batch.py", "features", "build_features", 3),
    ];
    let changed_files = vec![ChangedFile { path: "src/api.py".to_string(), status: FileStatus::Modified }];

    let changes = attach_reference_facts(
        changes,
        &ReferenceSnapshot { references: &[], module_index: &module_index, symbols: &[] },
        &ReferenceSnapshot { references: &references, module_index: &module_index, symbols: &[] },
        &changed_files,
    );

    let facts = &changes[0].references_after;
    assert_eq!(facts.count, 3);
    assert_eq!(facts.resolved_count, 1);
    assert_eq!(facts.attribute_call_count, 1);
    assert_eq!(facts.resolved_count + facts.unresolved_count, facts.count);
    assert_eq!(
        facts.import_count + facts.from_import_count + facts.direct_call_count + facts.attribute_call_count,
        facts.count
    );
    assert_eq!(facts.changed_files.len() + facts.unchanged_files.len(), facts.files.len());
    assert_eq!(facts.files, vec!["src/api.py", "src/batch.py", "src/train.py"]);
    assert_eq!(facts.changed_files, vec!["src/api.py"]);
}

fn delta(before: ComplexityMetrics, after: ComplexityMetrics) -> ComplexityDelta {
    let d = |b: usize, a: usize| a as isize - b as isize;
    ComplexityDelta {
        before,
        after,
        length_lines_delta: d(before.length_lines, after.length_lines),
        branch_count_delta: d(before.branch_count, after.branch_count),
        loop_count_delta: d(before.loop_count, after.loop_count),
        boolean_operator_count_delta: d(before.boolean_operator_count, after.boolean_operator_count),
        exception_handler_count_delta: d(before.exception_handler_count, after.exception_handler_count),
        match_count_delta: d(before.match_count, after.match_count),
        with_count_delta: d(before.with_count, after.with_count),
        max_nesting_depth_delta: d(before.max_nesting_depth, after.max_nesting_depth),
    }
}

fn no_test_facts(without: Vec<String>) -> TestFacts {
    TestFacts {
        changed_test_files: Vec::new(),
        test_files_parsed: 0,
        test_files_with_parse_errors: 0,
        test_parse_error_files: Vec::new(),
        production_files_with_nearby_test_changes: Vec::new(),
        production_files_without_nearby_test_changes: without,
    }
}

#[test]
fn derives_review_signals_with_the_reporting_threshold() {
    let mut change = production_change("src/features.py", "build_features");
    change.kinds = vec![ChangeKind::BodyChanged, ChangeKind::SignatureChanged];
    change.signature_change = Some(SignatureChangeFacts {
        parameters_added: vec!["strict".to_string()],
        parameters_removed: Vec::new(),
        parameters_reordered: false,
        parameter_kind_changed: Vec::new(),
        parameter_default_changed: Vec::new(),
        parameter_annotation_changed: Vec::new(),
        return_annotation_changed: false,
        async_changed: false,
    });
    change.complexity_delta = Some(delta(
        ComplexityMetrics::zero(),
        ComplexityMetrics { branch_count: 2, ..ComplexityMetrics::zero() },
    ));
    change.references_after.unchanged_files = vec!["src/consumer.py".to_string()];
    let mut small = production_change("src/small.py", "tweak");
    small.complexity_delta = Some(delta(
        ComplexityMetrics::zero(),
        ComplexityMetrics { branch_count: 1, ..ComplexityMetrics::zero() },
    ));

    let changes = attach_review_signals(
        vec![small, change],
        &no_test_facts(vec!["src/features.py".to_string()]),
    );

    assert_eq!(changes[0].id.file, "src/features.py");
    assert_eq!(
        changes[0].review_signals,
        vec![
            ReviewSignal::PublicSignatureChanged,
            ReviewSignal::SignatureChangedWithUnchangedCallers,
            ReviewSignal::ComplexityIncreased,
            ReviewSignal::ImplementationChangedWithoutTestMovement,
        ]
    );
    assert_eq!(changes[1].id.file, "src/small.py");
    assert!(changes[1].review_signals.is_empty());
}

#[test]
fn annotation_only_signature_changes_are_public_and_annotation_changes() {
    let mut change = production_change("src/features.py", "normalize");
    change.kinds = vec![ChangeKind::SignatureChanged];
    change.signature_change = Some(SignatureChangeFacts {
        parameters_added: Vec::new(),
        parameters_removed: Vec::new(),
        parameters_reordered: false,
        parameter_kind_changed: Vec::new(),
        parameter_default_changed: Vec::new(),
        parameter_annotation_changed: vec!["row".to_string()],
        return_annotation_changed: true,
        async_changed: false,
    });
    let changes = attach_review_signals(vec![change], &no_test_facts(Vec::new()));
    assert_eq!(
        changes[0].review_signals,
        vec![ReviewSignal::PublicSignatureChanged, ReviewSignal::TypeAnnotationsChanged]
    );
}

#[test]
fn signals_for_added_deleted_and_moved_symbols() {
    let mut added = production_change("src/a.py", "fresh");
    added.kinds = vec![ChangeKind::Added];
    added.before = None;
    let mut deleted = production_change("src/b.py", "gone");
    deleted.kinds = vec![ChangeKind::Deleted];
    deleted.after = None;
    let mut moved = production_change("src/c.py", "moved");
    moved.kinds = vec![ChangeKind::PathChanged];
    let mut private = production_change("src/d.py", "_hidden");
    private.kinds = vec![ChangeKind::Added];
    private.symbol_facts.visibility = SymbolVisibility::Private;

    let changes = attach_review_signals(vec![moved, added, private, deleted], &no_test_facts(Vec::new()));
    let order: Vec<&str> = changes.iter().map(|c| c.id.qualified_name.as_str()).collect();

    assert_eq!(order, vec!["gone", "fresh", "moved", "_hidden"]);
    assert_eq!(changes[0].review_signals, vec![ReviewSignal::PublicSymbolDeleted]);
    assert_eq!(changes[1].review_signals, vec![ReviewSignal::PublicSymbolAdded]);
    assert_eq!(changes[2].review_signals, vec![ReviewSignal::PathChangedOnly]);
    assert!(changes[3].review_signals.is_empty());
}

#[test]
fn every_changed_production_file_lands_on_one_side_of_the_test_split() {
    let changed_files = vec![
        ChangedFile { path: "tests/features_test.py".to_string(), status: FileStatus::Added },
        ChangedFile { path: "README.md".to_string(), status: FileStatus::Modified },
    ];
    let symbol_changes = vec![
        production_change("src/features.py", "a"),
        production_change("src/train.py", "b"),
        production_change("pkg/features.py", "c"),
        production_change("tests/test_other.py", "d"),
    ];

    let facts = derive_test_facts(&changed_files, &symbol_changes, &empty_test_snapshot());

    assert_eq!(facts.changed_test_files, vec!["tests/features_test.py"]);
    assert_eq!(facts.production_files_with_nearby_test_changes, vec!["pkg/features.py", "src/features.py"]);
    assert_eq!(facts.production_files_without_nearby_test_changes, vec!["src/train.py"]);
    assert_eq!(facts.test_files_parsed, 1);
}

// The original test expected `ComplexityIncreased` for a branch delta of 1
// and named the test-movement signal differently; the documented signal
// list and its complexity threshold of 2 govern here, so those two
// expectations follow the docs.
#[test]
fn derives_review_signals_from_raw_facts() {
    let mut change = production_change("src/features.py", "build_features");
    change.kinds = vec![ChangeKind::BodyChanged, ChangeKind::SignatureChanged];
    change.signature_change = Some(SignatureChangeFacts {
        parameters_added: Vec::new(),
        parameters_removed: Vec::new(),
        parameters_reordered: false,
        parameter_kind_changed: Vec::new(),
        parameter_default_changed: Vec::new(),
        parameter_annotation_changed: Vec::new(),
        return_annotation_changed: false,
        async_changed: false,
    });
    change.complexity_delta = Some(delta(
        ComplexityMetrics::zero(),
        ComplexityMetrics { branch_count: 1, ..ComplexityMetrics::zero() },
    ));
    change.references_after.unchanged_files = vec!["src/consumer.py".to_string()];

    let changes = attach_review_signals(vec![change], &no_test_facts(vec!["src/features.py".to_string()]));

    assert_eq!(
        changes[0].review_signals,
        vec![
            ReviewSignal::PublicSignatureChanged,
            ReviewSignal::SignatureChangedWithUnchangedCallers,
            ReviewSignal::ImplementationChangedWithoutTestMovement,
        ]
    );
}

#[test]
fn reference_delta_lists_sorted_sets() {
    let mut before = SymbolReferenceFacts::empty();
    before.files = vec!["src/c.py".to_string(), "src/a.py".to_string()];
    let mut after = SymbolReferenceFacts::empty();
    after.count = 3;
    after.files = vec!["src/b.py".to_string(), "src/a.py".to_string(), "src/b.py".to_string()];
    let d = sniffdiff::analysis::references::reference_delta(&before, &after);
    assert_eq!(d.count_delta, 3);
    assert_eq!(d.added_files, vec!["src/b.py"]);
    assert_eq!(d.removed_files, vec!["src/c.py"]);
    assert_eq!(d.unchanged_files, vec!["src/a.py"]);
}

#[test]
fn compare_signatures_reports_a_changed_default_flag_or_value() {
    let sig = |params: Vec<ParameterFacts>| FunctionSignatureFacts {
        is_async: false,
        parameters: params,
        return_annotation: None,
    };
    let before = sig(vec![
        parameter("a", ParameterKind::PositionalOrKeyword, true, None),
        ParameterFacts { default_value: Some("False".to_string()), ..parameter("b", ParameterKind::KeywordOnly, true, None) },
        parameter("c", ParameterKind::PositionalOrKeyword, false, None),
    ]);
    let after = sig(vec![
        parameter("a", ParameterKind::PositionalOrKeyword, false, None),
        ParameterFacts { default_value: Some("True".to_string()), ..parameter("b", ParameterKind::KeywordOnly, true, None) },
        parameter("c", ParameterKind::PositionalOrKeyword, false, None),
    ]);
    let facts = sniffdiff::analysis::diff::compare_signatures(&before, &after);
    assert_eq!(facts.parameter_default_changed, vec!["a".to_string(), "b".to_string()]);
    assert!(facts.parameter_kind_changed.is_empty());
    assert!(facts.parameters_added.is_empty());
}
