use std::collections::BTreeMap;

use sniffdiff::analysis::facts::{
    Analysis, AnalysisOptions, ChangeKind, ReferenceMatchSource, ReviewSignal, SymbolChange,
    SymbolVisibility,
};
use sniffdiff::analysis::pipeline::analyze;
use sniffdiff::git::{ChangedFile, FileStatus};
use sniffdiff::language::{ReferenceKind, ReferenceResolution, SymbolKind};
use sniffdiff::output::report::InspectItem;
use sniffdiff::{
    analyze_repo_json, analyze_repo_report, analyze_repo_report_verbose, PublicAnalysisOptions,
    RepoData, Report, ReportLimit, ReportVerbosity, SideFiles, SourceFile, TimingRecorder,
    INDEX_REF, WORKTREE_REF,
};

/// The files of one side of a comparison, by path.
#[derive(Clone, Default)]
struct Files {
    files: BTreeMap<String, String>,
}

impl Files {
    fn new() -> Self {
        Files::default()
    }

    fn write(&mut self, path: &str, content: &str) {
        self.files.insert(path.to_string(), content.trim_start().to_string());
    }

    fn remove(&mut self, path: &str) {
        self.files.remove(path);
    }

    fn rename(&mut self, from: &str, to: &str) {
        let content = self.files.remove(from).unwrap();
        self.files.insert(to.to_string(), content);
    }

    fn side(&self, git_ref: &str) -> SideFiles {
        SideFiles {
            git_ref: git_ref.to_string(),
            files: self
                .files
                .iter()
                .filter(|(path, _)| path.ends_with(".py"))
                .map(|(path, text)| SourceFile { path: path.clone(), source: Some(text.clone()) })
                .collect(),
        }
    }
}

/// What `git diff --name-status --find-renames` reports between two trees,
/// the given renames included.
fn changed_files(base: &Files, head: &Files, renames: &[(&str, &str)]) -> Vec<ChangedFile> {
    let mut entries: BTreeMap<String, FileStatus> = BTreeMap::new();
    for (path, text) in &head.files {
        if renames.iter().any(|(_, to)| to == path) {
            continue;
        }
        match base.files.get(path) {
            None => {
                entries.insert(path.clone(), FileStatus::Added);
            }
            Some(old) if old != text => {
                entries.insert(path.clone(), FileStatus::Modified);
            }
            Some(_) => {}
        }
    }
    for path in base.files.keys() {
        if !head.files.contains_key(path) && !renames.iter().any(|(from, _)| from == path) {
            entries.insert(path.clone(), FileStatus::Deleted);
        }
    }
    for (from, to) in renames {
        entries.insert(to.to_string(), FileStatus::Renamed { old_path: from.to_string() });
    }
    entries.into_iter().map(|(path, status)| ChangedFile { path, status }).collect()
}

fn repo_data(base: &Files, head: &Files, renames: &[(&str, &str)], base_ref: &str, head_ref: &str) -> RepoData {
    RepoData {
        changed_files: changed_files(base, head, renames),
        base: base.side(base_ref),
        head: head.side(head_ref),
    }
}

fn commits(base: &Files, head: &Files, renames: &[(&str, &str)]) -> RepoData {
    repo_data(base, head, renames, "base", "head")
}

fn facts(data: &RepoData, allow_parse_errors: bool) -> Result<Analysis, String> {
    let mut timings = TimingRecorder::start();
    analyze(data, "base", "head", AnalysisOptions { allow_parse_errors }, &mut timings)
        .map_err(|e| e.message())
}

fn report(data: &RepoData, options: PublicAnalysisOptions) -> Report {
    analyze_repo_report(data, "base", "head", options).unwrap()
}

fn allow_errors() -> PublicAnalysisOptions {
    PublicAnalysisOptions { allow_parse_errors: true, ..Default::default() }
}

fn change<'a>(analysis: &'a Analysis, name: &str) -> &'a SymbolChange {
    analysis.symbol_changes.iter().find(|c| c.id.qualified_name == name).unwrap()
}

fn change_at<'a>(analysis: &'a Analysis, file: &str, name: &str) -> &'a SymbolChange {
    analysis
        .symbol_changes
        .iter()
        .find(|c| c.id.file == file && c.id.qualified_name == name)
        .unwrap()
}

fn item<'a>(report: &'a Report, symbol: &str) -> &'a InspectItem {
    report.inspect.iter().find(|i| i.symbol == symbol).unwrap()
}

fn strings(values: &[&str]) -> Vec<String> {
    values.iter().map(|v| v.to_string()).collect()
}

#[test]
fn analyzes_symbols_before_and_after_from_real_git_refs() {
    let mut base = Files::new();
    base.write(
        "src/features.py",
        r#"
def build_features(rows):
    return [_normalize_row(row) for row in rows]

def _normalize_row(row):
    return row

def removed():
    return 1

class Formatter:
    kind = "name"

    def format_name(self, name):
        return name.strip()
"#,
    );
    base.write(
        "src/legacy.py",
        r#"
def stable_helper():
    return 1
"#,
    );
    base.write(
        "src/train.py",
        r#"
from src.features import build_features

def train(rows):
    return build_features(rows)
"#,
    );
    base.write(
        "src/consumer.py",
        r#"
from src.features import build_features

def count(rows):
    return len(build_features(rows))
"#,
    );
    base.write(
        "tests/test_features.py",
        r#"
from src.features import build_features

def test_build_features():
    assert build_features([]) == []
"#,
    );

    let mut head = base.clone();
    head.rename("src/legacy.py", "src/new_path.py");
    head.write(
        "src/features.py",
        r#"
def build_features(rows, *, strict=False):
    values = []
    for row in rows:
        values.append(_normalize_row(row, strict=strict))
    return values

def _normalize_row(row, *, strict=False):
    if strict and row is None:
        raise ValueError("missing row")
    return row

def added():
    return 2

class Formatter:
    kind = "name"

    def format_name(self, name, *, uppercase=False):
        value = name.strip()
        if uppercase:
            return value.upper()
        return value
"#,
    );
    head.write(
        "src/train.py",
        r#"
from src.features import build_features

def train(rows):
    values = build_features(rows)
    return len(values)
"#,
    );
    head.write(
        "src/broken.py",
        r#"
def valid_symbol():
    return 1

def broken(:
"#,
    );
    head.write(
        "tests/test_features.py",
        r#"
from src.features import build_features

def test_build_features():
    assert build_features([]) == []

def test_build_features_strict():
    assert build_features([], strict=True) == []
"#,
    );
    let data = commits(&base, &head, &[("src/legacy.py", "src/new_path.py")]);

    let error = facts(&data, false).unwrap_err();
    assert!(error.contains("Python parse errors found"));
    assert!(error.contains("src/broken.py"));
    assert!(error.contains("--allow-parse-errors"));

    let partial_report = report(&data, allow_errors());
    assert_eq!(partial_report.parse_errors.as_ref().unwrap().files, 1);

    let analysis = facts(&data, true).unwrap();
    assert_eq!(analysis.before.files_parsed, 4);
    assert_eq!(analysis.after.files_parsed, 5);
    assert_eq!(analysis.before.files_skipped, 1);
    assert_eq!(analysis.after.files_skipped, 1);
    assert_eq!(analysis.before.files_with_parse_errors, 0);
    assert_eq!(analysis.after.files_with_parse_errors, 1);
    assert_eq!(analysis.before.symbols.len(), 8);
    assert_eq!(analysis.after.symbols.len(), 10);

    assert_eq!(change(&analysis, "added").kinds, vec![ChangeKind::Added]);
    assert_eq!(change(&analysis, "removed").kinds, vec![ChangeKind::Deleted]);
    assert_eq!(
        change(&analysis, "build_features").kinds,
        vec![ChangeKind::BodyChanged, ChangeKind::SignatureChanged]
    );
    assert_eq!(
        change(&analysis, "Formatter.format_name").kinds,
        vec![ChangeKind::BodyChanged, ChangeKind::SignatureChanged]
    );
    assert_eq!(change(&analysis, "stable_helper").kinds, vec![ChangeKind::PathChanged]);
    assert_eq!(change(&analysis, "valid_symbol").kinds, vec![ChangeKind::Added]);
    assert!(!analysis.symbol_changes.iter().any(|c| c.id.qualified_name == "Formatter"));
    assert!(!analysis.symbol_changes.iter().any(|c| c.id.qualified_name == "test_build_features_strict"));

    let build_features = change(&analysis, "build_features");
    assert_eq!(build_features.symbol_facts.kind, SymbolKind::Function);
    assert_eq!(build_features.symbol_facts.visibility, SymbolVisibility::Public);
    let signature_change = build_features.signature_change.as_ref().unwrap();
    assert_eq!(signature_change.parameters_added, strings(&["strict"]));
    assert!(!signature_change.parameters_reordered);
    assert_eq!(build_features.complexity_delta.as_ref().unwrap().loop_count_delta, 1);
    assert_eq!(build_features.references_after.count, 4);
    assert_eq!(build_features.references_before.count, 4);
    assert_eq!(build_features.reference_delta.count_delta, 0);
    assert_eq!(build_features.references_after.from_import_count, 2);
    assert_eq!(build_features.references_after.direct_call_count, 2);
    assert_eq!(build_features.references_after.import_count, 0);
    assert_eq!(build_features.references_after.attribute_call_count, 0);
    assert_eq!(build_features.references_after.unchanged_files, strings(&["src/consumer.py"]));
    assert_eq!(build_features.references_after.changed_files, strings(&["src/train.py"]));
    assert_eq!(
        build_features.reference_delta.unchanged_files,
        strings(&["src/consumer.py", "src/train.py"])
    );
    assert!(build_features.references_after.matched_references.iter().any(|r| {
        r.file == "src/consumer.py"
            && r.line == 4
            && r.kind == ReferenceKind::Call
            && r.match_source == ReferenceMatchSource::ResolvedImport
            && !r.changed_file
    }));
    assert_eq!(build_features.test_references_after.count, 3);
    assert_eq!(build_features.test_references_after.direct_call_count, 2);
    assert_eq!(build_features.test_references_after.changed_files, strings(&["tests/test_features.py"]));
    assert!(build_features.test_references_after.matched_references.iter().any(|r| {
        r.file == "tests/test_features.py"
            && r.caller_symbol.as_deref() == Some("test_build_features_strict")
            && r.kind == ReferenceKind::Call
            && r.changed_file
    }));
    assert_eq!(
        build_features.review_signals,
        vec![ReviewSignal::PublicSignatureChanged, ReviewSignal::SignatureChangedWithUnchangedCallers]
    );
    assert_eq!(analysis.test_facts.changed_test_files, strings(&["tests/test_features.py"]));
    assert_eq!(
        analysis.test_facts.production_files_with_nearby_test_changes,
        strings(&["src/features.py"])
    );
    assert_eq!(change(&analysis, "_normalize_row").symbol_facts.visibility, SymbolVisibility::Private);
}

#[test]
fn analyzes_package_repo_with_aliases_relative_imports_and_test_facts() {
    let mut base = Files::new();
    base.write("pkg/__init__.py", "");
    base.write(
        "pkg/features.py",
        r#"
def build_features(rows):
    return [row for row in rows]


def clean_rows(rows):
    return list(rows)
"#,
    );
    base.write(
        "pkg/runner.py",
        r#"
from .features import build_features


def run(rows):
    return build_features(rows)
"#,
    );
    base.write(
        "pkg/sub/consumer.py",
        r#"
from ..features import build_features as make_features


def consume(rows):
    return make_features(rows)
"#,
    );
    base.write(
        "pkg/attribute_consumer.py",
        r#"
import pkg.features as features


def consume(rows):
    return features.build_features(rows)
"#,
    );
    base.write(
        "pkg/unaliased_module_consumer.py",
        r#"
import pkg.features


def consume(rows):
    return pkg.features.build_features(rows)
"#,
    );
    base.write(
        "pkg/from_module_consumer.py",
        r#"
from pkg import features


def consume(rows):
    return features.build_features(rows)
"#,
    );
    base.write(
        "pkg/unresolved_consumer.py",
        r#"
def consume(rows):
    return build_features(rows)
"#,
    );
    base.write(
        "tests/test_features.py",
        r#"
from pkg.features import build_features


def test_build_features():
    assert build_features([]) == []
"#,
    );

    let mut head = base.clone();
    head.write(
        "pkg/features.py",
        r#"
def build_features(rows, *, strict=False):
    values = []
    for row in rows:
        if strict and row is None:
            raise ValueError("missing row")
        values.append(row)
    return values


def clean_rows(rows):
    values = []
    for row in rows:
        if row is not None:
            values.append(row)
    return values
"#,
    );
    head.write(
        "tests/test_features.py",
        r#"
from pkg.features import build_features


def test_build_features():
    assert build_features([]) == []


def test_build_features_strict():
    assert build_features([], strict=True) == []
"#,
    );

    let analysis = facts(&commits(&base, &head, &[]), false).unwrap();
    let build_features = change(&analysis, "build_features");

    assert_eq!(analysis.before.files_parsed, 8);
    assert_eq!(analysis.after.files_parsed, 8);
    assert_eq!(analysis.before.files_skipped, 1);
    assert_eq!(analysis.after.files_skipped, 1);
    assert_eq!(build_features.kinds, vec![ChangeKind::BodyChanged, ChangeKind::SignatureChanged]);
    assert_eq!(build_features.signature_change.as_ref().unwrap().parameters_added, strings(&["strict"]));
    assert_eq!(build_features.references_after.count, 8);
    assert_eq!(build_features.references_before.count, 8);
    assert_eq!(build_features.reference_delta.count_delta, 0);
    assert_eq!(build_features.references_after.resolved_count, 7);
    assert_eq!(build_features.references_after.unresolved_count, 1);
    assert_eq!(build_features.test_references_after.count, 3);
    assert_eq!(build_features.test_references_after.direct_call_count, 2);
    assert_eq!(build_features.test_references_after.changed_files, strings(&["tests/test_features.py"]));
    assert_eq!(
        build_features.references_after.unchanged_files,
        strings(&[
            "pkg/attribute_consumer.py",
            "pkg/from_module_consumer.py",
            "pkg/runner.py",
            "pkg/sub/consumer.py",
            "pkg/unaliased_module_consumer.py",
            "pkg/unresolved_consumer.py",
        ])
    );
    assert_eq!(
        build_features.review_signals,
        vec![
            ReviewSignal::PublicSignatureChanged,
            ReviewSignal::SignatureChangedWithUnchangedCallers,
            ReviewSignal::ComplexityIncreased,
        ]
    );
    assert_eq!(analysis.test_facts.changed_test_files, strings(&["tests/test_features.py"]));
    assert_eq!(
        analysis.test_facts.production_files_with_nearby_test_changes,
        strings(&["pkg/features.py"])
    );

    let references = &analysis.references_after;
    assert!(references.iter().any(|r| {
        r.file == "pkg/sub/consumer.py"
            && r.name == "make_features"
            && r.resolved_module.as_deref() == Some("pkg.features")
            && r.resolved_name.as_deref() == Some("build_features")
            && r.resolution == ReferenceResolution::Resolved
    }));
    assert!(references.iter().any(|r| {
        r.file == "pkg/unaliased_module_consumer.py"
            && r.name == "build_features"
            && r.module.as_deref() == Some("pkg.features")
            && r.resolved_module.as_deref() == Some("pkg.features")
            && r.resolved_name.as_deref() == Some("build_features")
            && r.resolution == ReferenceResolution::Resolved
    }));
    assert!(references.iter().any(|r| {
        r.file == "pkg/from_module_consumer.py"
            && r.name == "build_features"
            && r.module.as_deref() == Some("features")
            && r.resolved_module.as_deref() == Some("pkg.features")
            && r.resolved_name.as_deref() == Some("build_features")
            && r.resolution == ReferenceResolution::Resolved
    }));
    assert!(build_features.references_after.matched_references.iter().any(|r| {
        r.file == "pkg/sub/consumer.py"
            && r.line == 5
            && r.match_source == ReferenceMatchSource::ResolvedImport
            && !r.changed_file
    }));
    assert!(references.iter().any(|r| {
        r.file == "pkg/unresolved_consumer.py"
            && r.name == "build_features"
            && r.resolution == ReferenceResolution::Unresolved
    }));
}

fn impact_trees() -> (Files, Files) {
    let mut base = Files::new();
    base.write(
        "pkg/features.py",
        r#"
def build_features(rows):
    return [row for row in rows]


def clean_rows(rows):
    return list(rows)
"#,
    );
    base.write(
        "pkg/runner.py",
        r#"
from pkg.features import build_features


def run(rows):
    return build_features(rows)
"#,
    );
    base.write(
        "pkg/alias_consumer.py",
        r#"
import pkg.features as features


def consume(rows):
    return features.build_features(rows)
"#,
    );
    base.write(
        "pkg/legacy.py",
        r#"
def old_helper():
    return "old"
"#,
    );
    base.write(
        "pkg/old_consumer.py",
        r#"
from pkg.legacy import old_helper


def consume():
    return old_helper()
"#,
    );
    base.write(
        "pkg/reporting.py",
        r#"
def summarize(rows):
    return len(rows)
"#,
    );
    let mut head = base.clone();
    head.write(
        "pkg/features.py",
        r#"
def build_features(rows, *, strict=False):
    values = []
    for row in rows:
        if strict and row is None:
            raise ValueError("missing row")
        values.append(row)
    return values


def clean_rows(rows):
    values = []
    for row in rows:
        if row is not None:
            values.append(row)
    return values
"#,
    );
    head.remove("pkg/old_consumer.py");
    head.write(
        "pkg/export.py",
        r#"
import httpx
from pydantic import BaseModel
from pkg.reporting import summarize


class ExportEnvelope(BaseModel):
    body: str


def export_summary(rows):
    response = httpx.Response(200, text=str(summarize(rows)))
    return ExportEnvelope(body=response.text)
"#,
    );
    (base, head)
}

#[test]
fn renders_default_report_with_impact_and_inspect_items() {
    let (base, head) = impact_trees();
    let data = commits(&base, &head, &[]);

    let report = report(&data, PublicAnalysisOptions::default());

    assert_eq!(report.schema_version, 1);
    assert_eq!(report.verbosity, ReportVerbosity::Normal);
    assert_eq!(report.scope.changed_files, 3);
    assert_eq!(report.scope.changed_test_files, 0);
    assert!(!report.inspect.is_empty());
    let build_features = item(&report, "pkg/features.py::build_features");
    assert_eq!(build_features.changes, strings(&["public signature", "implementation"]));
    let signature = build_features.signature.as_ref().unwrap();
    assert_eq!(signature.before, "build_features(rows)");
    assert_eq!(signature.after, "build_features(rows, *, strict=False)");
    let complexity = build_features.complexity.as_ref().unwrap();
    assert_eq!(complexity.status, "increased");
    assert!(complexity
        .metrics
        .iter()
        .any(|m| m.name == "nesting" && m.before == Some(0) && m.after == Some(2)));
    assert_eq!(build_features.tests.as_deref(), Some("no direct test references found"));
    assert_eq!(
        build_features.unchanged_callers,
        strings(&["pkg/alias_consumer.py::consume", "pkg/runner.py::run"])
    );
    assert!(report.inspect.iter().any(|i| i.changes == strings(&["added public function"])));
    assert!(report.omitted.is_none());

    let limited = analyze_repo_report(
        &data,
        "base",
        "head",
        PublicAnalysisOptions { report_limit: ReportLimit::Limited(1), ..Default::default() },
    )
    .unwrap();
    assert_eq!(limited.inspect.len(), 1);
    let hint = &limited.omitted.as_ref().unwrap().hint;
    assert!(hint.contains("use --limit"));
    assert!(hint.contains("show all high-signal items"));

    let verbose = analyze_repo_report_verbose(&data, "base", "head", PublicAnalysisOptions::default()).unwrap();
    assert!(!verbose.inspect.is_empty());
    let facts = item(&verbose, "pkg/features.py::build_features").facts.as_ref().unwrap();
    assert_eq!(facts.change_kinds, strings(&["body changed", "signature changed"]));
}

#[test]
fn groups_added_class_methods_under_class_in_report() {
    let mut base = Files::new();
    base.write("README.md", "base\n");
    let mut head = base.clone();
    head.write(
        "pkg/exceptions.py",
        r#"
class NoSuchCommand(Exception):
    def __init__(self, name):
        if not name:
            raise ValueError("missing name")
        self.name = name

    def format_message(self):
        if self.name:
            return f"No such command: {self.name}"
        return "No such command"
"#,
    );
    head.write(
        "pkg/core.py",
        r#"
from pkg.exceptions import NoSuchCommand


def resolve_command(name):
    raise NoSuchCommand(name)
"#,
    );

    let report = report(&commits(&base, &head, &[]), PublicAnalysisOptions::default());

    assert!(report.inspect.iter().any(|i| i.symbol == "pkg/exceptions.py::NoSuchCommand"
        && i.members.len() == 2
        && i.members[0].name == "__init__"
        && i.members[1].name == "format_message"
        && i.members[0].changes[0] == "added public method"
        && i.members[1].changes[0] == "added public method"));
    assert!(!report.inspect.iter().any(|i| i.symbol == "pkg/exceptions.py::NoSuchCommand.__init__"));
    assert!(!report.inspect.iter().any(|i| i.symbol == "pkg/exceptions.py::NoSuchCommand.format_message"));
    assert!(report.omitted.is_none());
}

#[test]
fn report_limit_controls_report_item_count() {
    let mut base = Files::new();
    base.write(
        "pkg/features.py",
        r#"
def first(rows):
    return list(rows)


def second(rows):
    return list(rows)


def third(rows):
    return list(rows)
"#,
    );
    let mut head = base.clone();
    head.write(
        "pkg/features.py",
        r#"
def first(rows):
    result = []
    for row in rows:
        result.append(row)
    return result


def second(rows):
    result = []
    for row in rows:
        if row is not None:
            result.append(row)
    return result


def third(rows):
    if not rows:
        return []
    return list(rows)
"#,
    );
    let data = commits(&base, &head, &[]);

    let limited = report(&data, PublicAnalysisOptions { report_limit: ReportLimit::Limited(2), ..Default::default() });
    assert_eq!(limited.inspect.len(), 2);
    assert!(limited.omitted.as_ref().unwrap().hint.contains("use --limit 3 to show all high-signal items"));

    let all = report(&data, PublicAnalysisOptions { report_limit: ReportLimit::All, ..Default::default() });
    assert_eq!(all.inspect.len(), 3);
    assert!(all.omitted.as_ref().map_or(true, |o| !o.hint.contains("use --limit")));

    let verbose_limited = analyze_repo_report_verbose(
        &data,
        "base",
        "head",
        PublicAnalysisOptions { report_limit: ReportLimit::Limited(2), ..Default::default() },
    )
    .unwrap();
    assert_eq!(verbose_limited.inspect.len(), 2);
    assert!(verbose_limited
        .inspect
        .iter()
        .any(|i| i.facts.as_ref().unwrap().change_kinds == strings(&["body changed"])));
}

fn build_features_trees() -> (Files, Files) {
    let mut base = Files::new();
    base.write(
        "pkg/features.py",
        r#"
def build_features(rows):
    return list(rows)
"#,
    );
    let mut head = base.clone();
    head.write(
        "pkg/features.py",
        r#"
def build_features(rows, *, strict=False):
    if strict and not rows:
        return []
    return list(rows)
"#,
    );
    (base, head)
}

#[test]
fn json_output_uses_the_same_report_model_and_verbosity_levels() {
    let (base, head) = build_features_trees();
    let data = commits(&base, &head, &[]);

    let report = analyze_repo_json(
        &data,
        "base",
        "head",
        PublicAnalysisOptions { report_verbosity: ReportVerbosity::Verbose, ..Default::default() },
    )
    .unwrap();

    assert_eq!(report.schema_version, 1);
    assert_eq!(report.verbosity, ReportVerbosity::Verbose);
    assert_eq!(report.scope.changed_symbols, 1);
    assert_eq!(report.inspect[0].symbol, "pkg/features.py::build_features");
    assert_eq!(
        report.inspect[0].facts.as_ref().unwrap().change_kinds,
        strings(&["body changed", "signature changed"])
    );
}

#[test]
fn analyzes_ref_against_worktree_like_git_diff_ref() {
    let (base, mut head) = build_features_trees();
    head.write(
        "pkg/new_module.py",
        r#"
def added_helper():
    return "new"
"#,
    );
    let data = repo_data(&base, &head, &[], "base", WORKTREE_REF);

    let report = analyze_repo_report(&data, "base", WORKTREE_REF, PublicAnalysisOptions::default()).unwrap();

    assert_eq!(report.scope.changed_files, 2);
    assert_eq!(report.scope.changed_symbols, 2);
    item(&report, "pkg/features.py::build_features");
    assert_eq!(item(&report, "pkg/new_module.py::added_helper").changes, strings(&["added public function"]));
    assert!(!report.inspect.iter().any(|i| i.symbol == "pkg/untracked.py::ignored_by_git_diff"));
}

#[test]
fn analyzes_index_against_worktree_like_git_diff_without_args() {
    let mut index = Files::new();
    index.write(
        "pkg/features.py",
        r#"
def build_features(rows, *, strict=False):
    return list(rows)
"#,
    );
    let mut worktree = index.clone();
    worktree.write(
        "pkg/features.py",
        r#"
def build_features(rows, *, strict=False, source="unknown"):
    return list(rows)
"#,
    );
    let data = repo_data(&index, &worktree, &[], INDEX_REF, WORKTREE_REF);

    let report = analyze_repo_report(&data, INDEX_REF, WORKTREE_REF, PublicAnalysisOptions::default()).unwrap();

    assert_eq!(report.scope.changed_files, 1);
    assert_eq!(report.scope.changed_symbols, 1);
    let signature = report.inspect[0].signature.as_ref().unwrap();
    assert_eq!(signature.before, "build_features(rows, *, strict=False)");
    assert_eq!(signature.after, "build_features(rows, *, strict=False, source=\"unknown\")");
}

#[test]
fn analyzes_head_against_index_like_git_diff_staged() {
    let mut committed = Files::new();
    committed.write(
        "pkg/features.py",
        r#"
def build_features(rows):
    return list(rows)
"#,
    );
    let mut index = committed.clone();
    index.write(
        "pkg/features.py",
        r#"
def build_features(rows, *, strict=False):
    return list(rows)
"#,
    );
    let data = repo_data(&committed, &index, &[], "HEAD", INDEX_REF);

    let report = analyze_repo_report(&data, "HEAD", INDEX_REF, PublicAnalysisOptions::default()).unwrap();

    assert_eq!(report.scope.changed_files, 1);
    assert_eq!(report.scope.changed_symbols, 1);
    let signature = report.inspect[0].signature.as_ref().unwrap();
    assert_eq!(signature.before, "build_features(rows)");
    assert_eq!(signature.after, "build_features(rows, *, strict=False)");
}

fn removed_helper_tree() -> Files {
    let mut base = Files::new();
    base.write(
        "pkg/features.py",
        r#"
def removed_helper():
    return "removed"
"#,
    );
    base
}

#[test]
fn reports_deleted_symbols_against_worktree() {
    let base = removed_helper_tree();
    let mut worktree = base.clone();
    worktree.remove("pkg/features.py");
    let data = repo_data(&base, &worktree, &[], "base", WORKTREE_REF);

    let report = analyze_repo_report(&data, "base", WORKTREE_REF, PublicAnalysisOptions::default()).unwrap();

    assert_eq!(report.scope.changed_files, 1);
    assert_eq!(report.scope.changed_symbols, 1);
    assert_eq!(
        item(&report, "pkg/features.py::removed_helper").changes,
        strings(&["deleted public function"])
    );
}

#[test]
fn reports_deleted_symbols_against_index() {
    let base = removed_helper_tree();
    let mut index = base.clone();
    index.remove("pkg/features.py");
    let data = repo_data(&base, &index, &[], "HEAD", INDEX_REF);

    let report = analyze_repo_report(&data, "HEAD", INDEX_REF, PublicAnalysisOptions::default()).unwrap();

    assert_eq!(report.scope.changed_files, 1);
    assert_eq!(report.scope.changed_symbols, 1);
    assert_eq!(
        item(&report, "pkg/features.py::removed_helper").changes,
        strings(&["deleted public function"])
    );
}

#[test]
fn caller_preview_limit_controls_nested_reference_count() {
    let (mut base, _) = build_features_trees();
    for name in ["api", "batch", "pipeline"] {
        base.write(
            &format!("pkg/{name}.py"),
            r#"
from pkg.features import build_features

def run(rows):
    return build_features(rows)
"#,
        );
    }
    let mut head = base.clone();
    head.write(
        "pkg/features.py",
        r#"
def build_features(rows, *, strict=False):
    if strict and not rows:
        return []
    return list(rows)
"#,
    );

    let report = report(
        &commits(&base, &head, &[]),
        PublicAnalysisOptions { caller_preview_limit: 2, ..Default::default() },
    );

    assert_eq!(
        report.inspect[0].unchanged_callers,
        strings(&["pkg/api.py::run", "pkg/batch.py::run", "+1 more"])
    );
    assert!(!report.inspect[0].unchanged_callers.iter().any(|c| c.contains("pkg/pipeline.py::run")));
}

#[test]
fn repeated_callers_show_callsite_count() {
    let (mut base, _) = build_features_trees();
    base.write(
        "pkg/api.py",
        r#"
from pkg.features import build_features


def run(rows):
    left = build_features(rows)
    right = build_features(rows)
    return left + right
"#,
    );
    let mut head = base.clone();
    head.write(
        "pkg/features.py",
        r#"
def build_features(rows, *, strict=False):
    if strict and not rows:
        return []
    return list(rows)
"#,
    );

    let report = report(&commits(&base, &head, &[]), PublicAnalysisOptions::default());

    assert_eq!(report.inspect[0].unchanged_callers, strings(&["pkg/api.py::run (2 callsites)"]));
}

#[test]
fn report_handles_no_signal_bearing_items() {
    let mut base = Files::new();
    base.write(
        "pkg/legacy.py",
        r#"
def stable_helper():
    return 1
"#,
    );
    let mut head = base.clone();
    head.rename("pkg/legacy.py", "pkg/compatibility.py");

    let report = report(
        &commits(&base, &head, &[("pkg/legacy.py", "pkg/compatibility.py")]),
        PublicAnalysisOptions::default(),
    );

    assert_eq!(report.scope.changed_files, 1);
    assert_eq!(report.scope.changed_symbols, 1);
    assert_eq!(report.scope.changed_test_files, 0);
    assert!(report.inspect.is_empty());
    let omitted = report.omitted.as_ref().unwrap();
    assert_eq!(omitted.symbol_changes, 1);
    assert_eq!(omitted.high_signal, 0);
    assert_eq!(omitted.low_signal, 1);
    assert_eq!(omitted.hint, "use --format json --verbosity full for full details");
}

#[test]
fn report_explains_when_range_has_no_changed_python_files() {
    let mut base = Files::new();
    base.write("README.md", "before\n");
    let mut head = base.clone();
    head.write("README.md", "after\n");

    let report = report(&commits(&base, &head, &[]), PublicAnalysisOptions::default());

    assert_eq!(report.scope.changed_files, 1);
    assert_eq!(report.scope.changed_symbols, 0);
    assert_eq!(report.scope.changed_test_files, 0);
    assert!(report.inspect.is_empty());
    assert_eq!(
        report.note.as_deref(),
        Some("No Python file changes inside sniffdiff's symbol model were detected.")
    );
}

#[test]
fn report_explains_when_python_changes_have_no_symbol_changes() {
    let mut base = Files::new();
    base.write("pkg/settings.py", "\nFEATURE_FLAG = False\n");
    let mut head = base.clone();
    head.write("pkg/settings.py", "\nFEATURE_FLAG = True\n");

    let report = report(&commits(&base, &head, &[]), PublicAnalysisOptions::default());

    assert_eq!(report.scope.changed_files, 1);
    assert_eq!(report.scope.changed_symbols, 0);
    assert_eq!(report.scope.changed_test_files, 0);
    assert!(report.inspect.is_empty());
    assert_eq!(
        report.note.as_deref(),
        Some("No Python file changes inside sniffdiff's symbol model were detected.")
    );
}

#[test]
fn formatting_only_python_changes_do_not_create_symbol_changes() {
    let mut base = Files::new();
    base.write(
        "pkg/features.py",
        r#"
def build_features(rows, *, strict=False):
    value = rows[0]
    return value
"#,
    );
    let mut head = base.clone();
    head.write(
        "pkg/features.py",
        r#"
def build_features(
    rows,
    *,
    strict=False,
):
    value=rows[0]

    # formatting/comment-only change
    return value
"#,
    );
    let data = commits(&base, &head, &[]);

    let report = report(&data, PublicAnalysisOptions::default());
    let analysis = facts(&data, false).unwrap();

    assert_eq!(report.scope.changed_files, 1);
    assert_eq!(report.scope.changed_symbols, 0);
    assert_eq!(report.scope.changed_test_files, 0);
    assert!(analysis.symbol_changes.is_empty());
}

#[test]
fn reports_unchanged_test_references_for_changed_production_symbols() {
    let mut base = Files::new();
    base.write(
        "pkg/features.py",
        r#"
def build_features(rows):
    return list(rows)
"#,
    );
    base.write(
        "tests/test_features.py",
        r#"
from pkg.features import build_features


def test_build_features():
    assert build_features([]) == []
"#,
    );
    let mut head = base.clone();
    head.write(
        "pkg/features.py",
        r#"
def build_features(rows, *, strict=False):
    values = []
    for row in rows:
        values.append(row)
    return values
"#,
    );
    let data = commits(&base, &head, &[]);

    let analysis = facts(&data, false).unwrap();
    let build_features = change(&analysis, "build_features");
    assert_eq!(build_features.references_after.count, 0);
    assert_eq!(build_features.test_references_after.count, 2);
    assert_eq!(build_features.test_references_after.unchanged_files, strings(&["tests/test_features.py"]));

    let report = report(&data, PublicAnalysisOptions::default());
    assert_eq!(report.inspect[0].unchanged_tests, strings(&["tests/test_features.py::test_build_features"]));
    assert!(report.inspect[0].tests.is_none());
}

#[test]
fn reports_parse_errors_from_test_reference_pass() {
    let mut base = Files::new();
    base.write(
        "pkg/features.py",
        r#"
def build_features(rows):
    return list(rows)
"#,
    );
    let mut head = base.clone();
    head.write(
        "pkg/features.py",
        r#"
def build_features(rows, *, strict=False):
    return list(rows)
"#,
    );
    head.write(
        "tests/test_features.py",
        r#"
def test_broken(:
"#,
    );
    let data = commits(&base, &head, &[]);

    let error = facts(&data, false).unwrap_err();
    assert!(error.contains("tests/test_features.py"));

    let report = report(&data, allow_errors());
    assert_eq!(report.parse_errors.as_ref().unwrap().files, 1);

    let analysis = facts(&data, true).unwrap();
    assert_eq!(analysis.test_facts.test_files_with_parse_errors, 1);
    assert_eq!(analysis.test_facts.test_parse_error_files, strings(&["tests/test_features.py"]));
}

#[test]
fn renders_async_signature_change_in_report() {
    let mut base = Files::new();
    base.write(
        "pkg/tasks.py",
        r#"
def load():
    return "ok"
"#,
    );
    base.write(
        "pkg/consumer.py",
        r#"
from pkg.tasks import load


def run():
    return load()
"#,
    );
    let mut head = base.clone();
    head.write(
        "pkg/tasks.py",
        r#"
async def load():
    return "ok"
"#,
    );

    let report = report(&commits(&base, &head, &[]), PublicAnalysisOptions::default());

    let load = item(&report, "pkg/tasks.py::load");
    let signature = load.signature.as_ref().unwrap();
    assert_eq!(signature.before, "load()");
    assert_eq!(signature.after, "async load()");
    assert_eq!(load.unchanged_callers, strings(&["pkg/consumer.py::run"]));
}

#[test]
fn renders_annotation_only_signature_changes_as_type_annotations() {
    let mut base = Files::new();
    base.write(
        "pkg/features.py",
        r#"
def normalize(row):
    return row
"#,
    );
    let mut head = base.clone();
    head.write(
        "pkg/features.py",
        r#"
def normalize(row: dict[str, object]) -> dict[str, object]:
    return row
"#,
    );

    let report = report(&commits(&base, &head, &[]), PublicAnalysisOptions::default());

    let normalize = item(&report, "pkg/features.py::normalize");
    assert_eq!(
        normalize.changes,
        strings(&["type annotations (row: unannotated -> dict[str, object]; return: unannotated -> dict[str, object])"])
    );
    assert!(!normalize.changes.iter().any(|c| c == "public signature"));
    let signature = normalize.signature.as_ref().unwrap();
    assert_eq!(signature.before, "normalize(row)");
    assert_eq!(signature.after, "normalize(row: dict[str, object]) -> dict[str, object]");
}

#[test]
fn renders_parameter_type_annotation_delta_in_change_label() {
    let mut base = Files::new();
    base.write(
        "pkg/errors.py",
        r#"
import collections.abc as cabc


class NoSuchOption(Exception):
    def __init__(self, possibilities: cabc.Sequence[str] | None = None) -> None:
        self.possibilities = possibilities
"#,
    );
    let mut head = base.clone();
    head.write(
        "pkg/errors.py",
        r#"
import collections.abc as cabc


class NoSuchOption(Exception):
    def __init__(self, possibilities: cabc.Iterable[str] | None = None) -> None:
        self.possibilities = possibilities
"#,
    );

    let report = report(&commits(&base, &head, &[]), PublicAnalysisOptions::default());

    assert_eq!(
        item(&report, "pkg/errors.py::NoSuchOption.__init__").changes,
        strings(&["type annotation (possibilities: cabc.Sequence[str] | None -> cabc.Iterable[str] | None)"])
    );
}

#[test]
fn renders_multiline_signature_changes_as_before_after_report_block() {
    let mut base = Files::new();
    base.write(
        "pkg/leaderboard.py",
        r#"
def display_player(
    record: str,
    *,
    current_player_id: str,
) -> str:
    return record
"#,
    );
    let mut head = base.clone();
    head.write(
        "pkg/leaderboard.py",
        r#"
def display_player(record: str) -> str:
    if not record:
        return ""
    return record
"#,
    );

    let report = report(&commits(&base, &head, &[]), PublicAnalysisOptions::default());

    let signature = item(&report, "pkg/leaderboard.py::display_player").signature.as_ref().unwrap();
    assert_eq!(signature.before, "display_player(record: str, *, current_player_id: str) -> str");
    assert_eq!(signature.after, "display_player(record: str) -> str");
}

#[test]
fn does_not_match_resolved_references_to_same_named_symbols_in_other_modules() {
    let mut base = Files::new();
    base.write(
        "pkg/features.py",
        r#"
def build_features(rows):
    return rows
"#,
    );
    base.write(
        "other/features.py",
        r#"
def build_features(rows):
    return rows
"#,
    );
    base.write(
        "pkg/consumer.py",
        r#"
from other.features import build_features


def consume(rows):
    return build_features(rows)
"#,
    );
    let mut head = base.clone();
    head.write(
        "pkg/features.py",
        r#"
def build_features(rows, *, strict=False):
    return rows
"#,
    );

    let analysis = facts(&commits(&base, &head, &[]), false).unwrap();
    let build_features = change_at(&analysis, "pkg/features.py", "build_features");

    assert_eq!(build_features.references_after.count, 0);
    assert_eq!(build_features.references_before.count, 0);
    assert_eq!(build_features.reference_delta.count_delta, 0);
    assert!(build_features.references_after.unchanged_files.is_empty());
    assert_eq!(build_features.review_signals, vec![ReviewSignal::PublicSignatureChanged]);
}

#[test]
fn reports_reference_file_deltas_when_callers_are_added_and_removed() {
    let consumer = r#"
from pkg.features import build_features


def consume(rows):
    return build_features(rows)
"#;
    let mut base = Files::new();
    base.write(
        "pkg/features.py",
        r#"
def build_features(rows):
    return rows
"#,
    );
    base.write("pkg/old_consumer.py", consumer);
    base.write("pkg/stable_consumer.py", consumer);
    let mut head = base.clone();
    head.write(
        "pkg/features.py",
        r#"
def build_features(rows, *, strict=False):
    return rows
"#,
    );
    head.rename("pkg/old_consumer.py", "pkg/new_consumer.py");

    let analysis = facts(&commits(&base, &head, &[("pkg/old_consumer.py", "pkg/new_consumer.py")]), false).unwrap();
    let build_features = change_at(&analysis, "pkg/features.py", "build_features");

    assert_eq!(build_features.references_before.count, 4);
    assert_eq!(build_features.references_after.count, 4);
    assert_eq!(build_features.reference_delta.added_files, strings(&["pkg/new_consumer.py"]));
    assert_eq!(build_features.reference_delta.removed_files, strings(&["pkg/old_consumer.py"]));
    assert_eq!(build_features.reference_delta.unchanged_files, strings(&["pkg/stable_consumer.py"]));
}

#[test]
fn diffing_identical_sides_reports_no_symbol_changes() {
    let (base, _) = impact_trees();
    let analysis = facts(&commits(&base, &base, &[]), false).unwrap();
    assert!(analysis.symbol_changes.is_empty());
    assert!(analysis.changed_files.is_empty());
    let report = report(&commits(&base, &base, &[]), PublicAnalysisOptions::default());
    assert_eq!(report.scope.changed_files, 0);
    assert!(report.inspect.is_empty());
    assert!(report.omitted.is_none());
}

#[test]
fn full_verbosity_lists_every_change_and_limit_hint_round_trips() {
    let (base, head) = impact_trees();
    let data = commits(&base, &head, &[]);
    let analysis = facts(&data, false).unwrap();

    let full = report(&data, PublicAnalysisOptions { report_verbosity: ReportVerbosity::Full, ..Default::default() });
    let all = report(&data, PublicAnalysisOptions { report_limit: ReportLimit::All, ..Default::default() });
    assert!(full.inspect.len() >= all.inspect.len());
    assert!(full.omitted.is_none());
    assert_eq!(full.scope.changed_symbols, analysis.symbol_changes.len());

    let limited = report(&data, PublicAnalysisOptions { report_limit: ReportLimit::Limited(1), ..Default::default() });
    let omitted = limited.omitted.as_ref().unwrap();
    let hinted: usize = omitted
        .hint
        .trim_start_matches("use --limit ")
        .split(' ')
        .next()
        .unwrap()
        .parse()
        .unwrap();
    let by_hint = report(&data, PublicAnalysisOptions { report_limit: ReportLimit::Limited(hinted), ..Default::default() });
    assert_eq!(by_hint.inspect.len(), all.inspect.len());
    assert_eq!(limited.inspect.len() + omitted.high_signal, all.inspect.len());
}

#[test]
fn complexity_signal_and_report_share_one_threshold() {
    let mut base = Files::new();
    base.write(
        "pkg/rules.py",
        r#"
def one_more(value):
    return value


def two_more(value):
    return value
"#,
    );
    let mut head = base.clone();
    head.write(
        "pkg/rules.py",
        r#"
def one_more(value):
    if value:
        return value
    return None


def two_more(value):
    if value:
        return value
    if value is None:
        return 0
    return None
"#,
    );
    let data = commits(&base, &head, &[]);
    let analysis = facts(&data, false).unwrap();
    let report = report(&data, PublicAnalysisOptions { report_limit: ReportLimit::All, ..Default::default() });

    let one = change(&analysis, "one_more");
    assert_eq!(one.complexity_delta.as_ref().unwrap().branch_count_delta, 1);
    assert!(!one.review_signals.contains(&ReviewSignal::ComplexityIncreased));
    assert!(item(&report, "pkg/rules.py::one_more").complexity.is_none());

    let two = change(&analysis, "two_more");
    assert_eq!(two.complexity_delta.as_ref().unwrap().branch_count_delta, 2);
    assert!(two.review_signals.contains(&ReviewSignal::ComplexityIncreased));
    let complexity = item(&report, "pkg/rules.py::two_more").complexity.as_ref().unwrap();
    assert_eq!(complexity.status, "increased");
    assert!(complexity
        .metrics
        .iter()
        .any(|m| m.name == "branches" && m.before == Some(0) && m.after == Some(2)));
}

#[test]
fn timed_analysis_records_each_phase_in_order() {
    let (base, head) = build_features_trees();
    let data = commits(&base, &head, &[]);
    let mut timings = TimingRecorder::start();

    let report = sniffdiff::analyze_repo_json_with_timing(&data, "base", "head", PublicAnalysisOptions::default(), &mut timings)
        .unwrap();
    let timings = timings.finish();

    assert_eq!(report.scope.changed_symbols, 1);
    let names: Vec<&str> = timings.phases.iter().map(|p| p.name.as_str()).collect();
    assert_eq!(
        names,
        vec![
            "before_snapshot",
            "after_snapshot",
            "test_snapshot",
            "parse_error_validation",
            "symbol_diff",
            "reference_facts",
            "test_reference_facts",
            "test_facts",
            "review_signals",
            "report_model",
        ]
    );
    let durations: Vec<String> = timings.phases.iter().map(|_| "0.01ms".to_string()).collect();
    let text = timings.render_text("0.01ms", &durations);
    assert!(text.starts_with("timing:\n  total: "));
    assert_eq!(text.lines().count(), 12);
}

#[test]
fn resolves_triple_dot_base_like_git_diff() {
    let selection = sniffdiff::cli::parse_ref_selection(&sniffdiff::cli::RefArgs {
        range: Some("main...feature".to_string()),
        base: None,
        head: None,
        staged: false,
    })
    .unwrap();
    assert_eq!(
        selection,
        sniffdiff::cli::RefSelection::MergeBase { left: "main".to_string(), right: "feature".to_string() }
    );
    let resolved_base = sniffdiff::merge_base("4b825dc642cb6eb9a060e54bf8d69288fbee4904\n");
    assert_eq!(resolved_base, "4b825dc642cb6eb9a060e54bf8d69288fbee4904");

    let mut base = Files::new();
    base.write(
        "pkg/features.py",
        r#"
def build_features(rows):
    return list(rows)
"#,
    );
    let mut feature_side = base.clone();
    feature_side.write(
        "pkg/features.py",
        r#"
def build_features(rows, *, strict=False):
    if strict and not rows:
        return []
    return list(rows)
"#,
    );
    let data = repo_data(&base, &feature_side, &[], &resolved_base, "feature");

    let report = analyze_repo_report(&data, &resolved_base, "feature", PublicAnalysisOptions::default()).unwrap();

    assert_eq!(report.scope.changed_files, 1);
    let signature = item(&report, "pkg/features.py::build_features").signature.as_ref().unwrap();
    assert_eq!(signature.before, "build_features(rows)");
    assert_eq!(signature.after, "build_features(rows, *, strict=False)");
}

#[test]
fn timed_and_verbose_runs_agree_with_plain_runs() {
    let mut base = Files::new();
    base.write("src/a.py", "def f(x):\n    return x\n");
    let mut head = Files::new();
    head.write("src/a.py", "def f(x, y=1):\n    return x + y\n");
    head.write("src/b.py", "def broken(:\n");
    let data = commits(&base, &head, &[]);
    let options = PublicAnalysisOptions::default();

    let plain = analyze_repo_report(&data, "base", "head", options).unwrap_err().message();
    let mut timings = TimingRecorder::start();
    let timed = sniffdiff::analyze_repo_report_with_timing(&data, "base", "head", options, &mut timings)
        .unwrap_err()
        .message();
    let verbose = analyze_repo_report_verbose(&data, "base", "head", options).unwrap_err().message();
    assert_eq!(plain, timed);
    assert_eq!(plain, verbose);
    assert!(plain.contains("- src/b.py"));

    let allowed = allow_errors();
    let plain = format!("{:?}", analyze_repo_json(&data, "base", "head", allowed).unwrap());
    let mut timings = TimingRecorder::start();
    let timed = format!(
        "{:?}",
        sniffdiff::analyze_repo_json_with_timing(&data, "base", "head", allowed, &mut timings).unwrap()
    );
    assert_eq!(plain, timed);
    let verbose_options = PublicAnalysisOptions { report_verbosity: ReportVerbosity::Verbose, ..allowed };
    let verbose = format!("{:?}", analyze_repo_report_verbose(&data, "base", "head", allowed).unwrap());
    let by_options = format!("{:?}", analyze_repo_report(&data, "base", "head", verbose_options).unwrap());
    assert_eq!(verbose, by_options);
}
