use sniffdiff::analysis::diff::visibility;
use sniffdiff::analysis::facts::SymbolVisibility;
use sniffdiff::language::{ComplexityMetrics, LineRange, ParameterKind, Symbol, SymbolKind};
use sniffdiff::output::report::labels::clean_signature;
use sniffdiff::output::report::selection::omitted;
use sniffdiff::python::signature::signature_facts;
use sniffdiff::python::symbols::stable_hash;
use sniffdiff::text::{decimal, lines, trim};
use sniffdiff::timing::{TimingPhase, TimingReport};

fn symbol(file: &str, name: &str) -> Symbol {
    Symbol {
        file: file.to_string(),
        qualified_name: name.to_string(),
        kind: SymbolKind::Function,
        signature: format!("def {name}():"),
        signature_facts: None,
        range: LineRange { start: 1, end: 2 },
        body_hash: "hash".to_string(),
        complexity: ComplexityMetrics::zero(),
    }
}

#[test]
fn stable_hash_is_sixteen_hex_digits_of_the_text() {
    let a = stable_hash("return rows");
    assert_eq!(a.len(), 16);
    assert!(a.chars().all(|c| c.is_ascii_hexdigit() && !c.is_ascii_uppercase()));
    assert_ne!(a, "return rows");
    assert_eq!(a, stable_hash("return rows"));
    assert_ne!(a, stable_hash("return row"));
}

#[test]
fn visibility_follows_name_and_path_components() {
    assert_eq!(visibility(&symbol("pkg/features.py", "build")), SymbolVisibility::Public);
    assert_eq!(visibility(&symbol("pkg/features.py", "_build")), SymbolVisibility::Private);
    assert_eq!(visibility(&symbol("pkg/features.py", "Formatter._fmt")), SymbolVisibility::Private);
    assert_eq!(visibility(&symbol("pkg/features.py", "Formatter.__init__")), SymbolVisibility::Public);
    assert_eq!(visibility(&symbol("pkg/_internal/features.py", "build")), SymbolVisibility::Internal);
    assert_eq!(visibility(&symbol("pkg/_internal.py", "_build")), SymbolVisibility::Private);
}

#[test]
fn signature_facts_of_a_function_header() {
    let facts = signature_facts("async def f(a, /, b: int = 1, *args, c, **kw) -> str:");
    assert!(facts.is_async);
    assert_eq!(facts.return_annotation.as_deref(), Some("str"));
    let summary: Vec<(&str, ParameterKind, bool, Option<&str>, Option<&str>)> = facts
        .parameters
        .iter()
        .map(|p| (p.name.as_str(), p.kind, p.has_default, p.default_value.as_deref(), p.annotation.as_deref()))
        .collect();
    assert_eq!(
        summary,
        vec![
            ("a", ParameterKind::PositionalOnly, false, None, None),
            ("b", ParameterKind::PositionalOrKeyword, true, Some("1"), Some("int")),
            ("args", ParameterKind::VarArgs, false, None, None),
            ("c", ParameterKind::KeywordOnly, false, None, None),
            ("kw", ParameterKind::KwArgs, false, None, None),
        ]
    );
    let bare = signature_facts("def g():");
    assert!(!bare.is_async);
    assert!(bare.parameters.is_empty());
    assert_eq!(bare.return_annotation, None);
}

#[test]
fn cleans_signatures_for_the_report() {
    assert_eq!(clean_signature("def build(rows):"), "build(rows)");
    assert_eq!(clean_signature("async def load():"), "async load()");
    assert_eq!(
        clean_signature("def build(\n    rows,\n    *,\n    strict=False,\n):"),
        "build(rows, *, strict=False)"
    );
}

#[test]
fn renders_timings_in_milliseconds_and_seconds() {
    let report = TimingReport {
        total_nanos: 1_234_000_000,
        phases: vec![
            TimingPhase { name: "before_snapshot".to_string(), nanos: 3_456_000 },
            TimingPhase { name: "render".to_string(), nanos: 125_400_000 },
        ],
    };
    assert_eq!(
        report.render_text("1.23s", &vec!["3.46ms".to_string(), "125ms".to_string()]),
        "timing:\n  total: 1.23s\n  before_snapshot: 3.46ms\n  render: 125ms\n"
    );
}

#[test]
fn describes_omitted_changes() {
    let some = omitted(6, 4, 2, 1).unwrap();
    assert_eq!(some.symbol_changes, 4);
    assert_eq!(some.high_signal, 3);
    assert_eq!(some.low_signal, 1);
    assert_eq!(some.hint, "use --limit 4 to show all high-signal items, --verbosity full for 1 low-signal facts");
    let only_high = omitted(3, 3, 1, 1).unwrap();
    assert_eq!(only_high.hint, "use --limit 3 to show all high-signal items");
    assert!(omitted(2, 2, 2, 2).is_none());
}

#[test]
fn text_helpers_match_std() {
    assert_eq!(decimal(0), "0");
    assert_eq!(decimal(40213), "40213");
    assert_eq!(trim("  a b\n"), "a b");
    assert_eq!(lines("a\nb\n\nc"), vec!["a", "b", "", "c"]);
    assert_eq!(lines("a\r\nb\n"), vec!["a", "b"]);
}

