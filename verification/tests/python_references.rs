use sniffdiff::language::{ReferenceKind, ReferenceResolution};
use sniffdiff::python::references::extract_references;
use sniffdiff::python::tree::parse_file;

#[test]
fn mod_extracts_import_and_call_references() {
    let parsed = parse_file(
        "src/train.py".to_string(),
        r#"
import src.features as features
from src.features import build_features, Formatter as NameFormatter


def train(rows):
    values = build_features(rows)
    return features.build_features(values)
"#
        .trim_start()
        .to_string(),
    )
    .unwrap();

    let references = extract_references(&parsed);
    let facts = references
        .iter()
        .map(|reference| {
            (
                reference.kind,
                reference.module.as_ref().map(ToString::to_string),
                reference.name.as_str(),
            )
        })
        .collect::<Vec<_>>();

    assert_eq!(
        facts,
        vec![
            (
                ReferenceKind::Import,
                Some("src.features".to_string()),
                "features"
            ),
            (
                ReferenceKind::FromImport,
                Some("src.features".to_string()),
                "build_features"
            ),
            (
                ReferenceKind::FromImport,
                Some("src.features".to_string()),
                "NameFormatter"
            ),
            (ReferenceKind::Call, None, "build_features"),
            (
                ReferenceKind::Attribute,
                Some("features".to_string()),
                "build_features"
            ),
        ]
    );
}

#[test]
fn mod_resolves_import_aliases_for_calls() {
    let parsed = parse_file(
        "src/train.py".to_string(),
        r#"
import src.features as features
from src.features import build_features as make_features


def train(rows):
    values = make_features(rows)
    return features.build_features(values)
"#
        .trim_start()
        .to_string(),
    )
    .unwrap();

    let calls = extract_references(&parsed)
        .into_iter()
        .filter(|reference| {
            matches!(
                reference.kind,
                ReferenceKind::Call | ReferenceKind::Attribute
            )
        })
        .map(|reference| {
            (
                reference.name.to_string(),
                reference.resolved_name.map(|name| name.to_string()),
                reference.resolved_module.map(|module| module.to_string()),
                reference.resolution,
            )
        })
        .collect::<Vec<_>>();

    assert_eq!(
        calls,
        vec![
            (
                "make_features".to_string(),
                Some("build_features".to_string()),
                Some("src.features".to_string()),
                ReferenceResolution::Resolved,
            ),
            (
                "build_features".to_string(),
                Some("build_features".to_string()),
                Some("src.features".to_string()),
                ReferenceResolution::Resolved,
            ),
        ]
    );
}

#[test]
fn resolves_unaliased_dotted_imports_for_attribute_calls() {
    let parsed = parse_file(
        "pkg/consumer.py".to_string(),
        r#"
import pkg.features


def run(rows):
    return pkg.features.build_features(rows)
"#
        .trim_start()
        .to_string(),
    )
    .unwrap();

    let references = extract_references(&parsed);
    let calls = references
        .iter()
        .filter(|reference| reference.kind == ReferenceKind::Attribute)
        .map(|reference| {
            (
                reference.name.to_string(),
                reference.module.as_ref().map(ToString::to_string),
                reference.resolved_module.as_ref().map(ToString::to_string),
                reference.resolution,
            )
        })
        .collect::<Vec<_>>();

    assert_eq!(
        calls,
        vec![(
            "build_features".to_string(),
            Some("pkg.features".to_string()),
            Some("pkg.features".to_string()),
            ReferenceResolution::Resolved,
        )]
    );
}

#[test]
fn resolves_from_imported_modules_for_attribute_calls() {
    let parsed = parse_file(
        "pkg/consumer.py".to_string(),
        r#"
from pkg import features


def run(rows):
    return features.build_features(rows)
"#
        .trim_start()
        .to_string(),
    )
    .unwrap();

    let references = extract_references(&parsed);
    let calls = references
        .iter()
        .filter(|reference| reference.kind == ReferenceKind::Attribute)
        .map(|reference| {
            (
                reference.name.to_string(),
                reference.module.as_ref().map(ToString::to_string),
                reference.resolved_module.as_ref().map(ToString::to_string),
                reference.resolution,
            )
        })
        .collect::<Vec<_>>();

    assert_eq!(
        calls,
        vec![(
            "build_features".to_string(),
            Some("features".to_string()),
            Some("pkg.features".to_string()),
            ReferenceResolution::Resolved,
        )]
    );
}

#[test]
fn keeps_function_local_imports_from_leaking_to_later_functions() {
    let parsed = parse_file(
        "pkg/consumer.py".to_string(),
        r#"
def configure(rows):
    from pkg import features as local_features
    return local_features.build_features(rows)


def run(rows):
    return local_features.build_features(rows)
"#
        .trim_start()
        .to_string(),
    )
    .unwrap();

    let calls = extract_references(&parsed)
        .into_iter()
        .filter(|reference| reference.kind == ReferenceKind::Attribute)
        .map(|reference| {
            (
                reference.line,
                reference.resolved_module.map(|module| module.to_string()),
                reference.resolution,
            )
        })
        .collect::<Vec<_>>();

    assert_eq!(
        calls,
        vec![
            (
                3,
                Some("pkg.features".to_string()),
                ReferenceResolution::Resolved,
            ),
            (
                7,
                Some("local_features".to_string()),
                ReferenceResolution::Unresolved,
            ),
        ]
    );
}

#[test]
fn keeps_class_imports_from_leaking_into_methods() {
    let parsed = parse_file(
        "pkg/consumer.py".to_string(),
        r#"
class Runner:
    import pkg.features as features

    def run(self, rows):
        return features.build_features(rows)
"#
        .trim_start()
        .to_string(),
    )
    .unwrap();

    let calls = extract_references(&parsed)
        .into_iter()
        .filter(|reference| reference.kind == ReferenceKind::Attribute)
        .map(|reference| {
            (
                reference.line,
                reference.resolved_module.map(|module| module.to_string()),
                reference.resolution,
            )
        })
        .collect::<Vec<_>>();

    assert_eq!(
        calls,
        vec![(
            5,
            Some("features".to_string()),
            ReferenceResolution::Unresolved
        )]
    );
}

#[test]
fn keeps_class_imports_visible_inside_class_body() {
    let parsed = parse_file(
        "pkg/consumer.py".to_string(),
        r#"
class Runner:
    import pkg.features as features
    rows = features.build_features([])
"#
        .trim_start()
        .to_string(),
    )
    .unwrap();

    let calls = extract_references(&parsed)
        .into_iter()
        .filter(|reference| reference.kind == ReferenceKind::Attribute)
        .map(|reference| {
            (
                reference.line,
                reference.resolved_module.map(|module| module.to_string()),
                reference.resolution,
            )
        })
        .collect::<Vec<_>>();

    assert_eq!(
        calls,
        vec![(
            3,
            Some("pkg.features".to_string()),
            ReferenceResolution::Resolved,
        )]
    );
}

#[test]
fn mod_resolves_relative_imports_against_file_package() {
    let parsed = parse_file(
        "pkg/sub/consumer.py".to_string(),
        r#"
from ..features import build_features as make_features


def run(rows):
    return make_features(rows)
"#
        .trim_start()
        .to_string(),
    )
    .unwrap();

    let references = extract_references(&parsed);

    assert_eq!(
        references
            .iter()
            .map(|reference| (
                reference.kind,
                reference.name.to_string(),
                reference.resolved_module.as_ref().map(ToString::to_string),
                reference.resolved_name.as_ref().map(ToString::to_string),
                reference.resolution,
            ))
            .collect::<Vec<_>>(),
        vec![
            (
                ReferenceKind::FromImport,
                "make_features".to_string(),
                Some("pkg.features".to_string()),
                Some("build_features".to_string()),
                ReferenceResolution::Resolved,
            ),
            (
                ReferenceKind::Call,
                "make_features".to_string(),
                Some("pkg.features".to_string()),
                Some("build_features".to_string()),
                ReferenceResolution::Resolved,
            ),
        ]
    );
}

#[test]
fn resolves_relative_from_imported_modules_for_attribute_calls() {
    let parsed = parse_file(
        "pkg/sub/consumer.py".to_string(),
        r#"
from .. import features
from . import local_features as local


def run(rows):
    first = features.build_features(rows)
    return local.build_features(first)
"#
        .trim_start()
        .to_string(),
    )
    .unwrap();

    let calls = extract_references(&parsed)
        .into_iter()
        .filter(|reference| reference.kind == ReferenceKind::Attribute)
        .map(|reference| {
            (
                reference.name.to_string(),
                reference.resolved_module.map(|module| module.to_string()),
                reference.resolution,
            )
        })
        .collect::<Vec<_>>();

    assert_eq!(
        calls,
        vec![
            (
                "build_features".to_string(),
                Some("pkg.features".to_string()),
                ReferenceResolution::Resolved,
            ),
            (
                "build_features".to_string(),
                Some("pkg.sub.local_features".to_string()),
                ReferenceResolution::Resolved,
            ),
        ]
    );
}

#[test]
fn references_extracts_import_and_call_references() {
    let parsed = parse_file(
        "src/train.py".to_string(),
        r#"
import src.features as features
from src.features import build_features, Formatter as NameFormatter


def train(rows):
    values = build_features(rows)
    return features.build_features(values)
"#
        .trim_start()
        .to_string(),
    )
    .unwrap();

    let references = extract_references(&parsed);
    let facts = references
        .iter()
        .map(|reference| {
            (
                reference.kind,
                reference.module.as_ref().map(ToString::to_string),
                reference.name.as_str(),
            )
        })
        .collect::<Vec<_>>();

    assert_eq!(
        facts,
        vec![
            (
                ReferenceKind::Import,
                Some("src.features".to_string()),
                "features"
            ),
            (
                ReferenceKind::FromImport,
                Some("src.features".to_string()),
                "build_features"
            ),
            (
                ReferenceKind::FromImport,
                Some("src.features".to_string()),
                "NameFormatter"
            ),
            (ReferenceKind::Call, None, "build_features"),
            (
                ReferenceKind::Attribute,
                Some("features".to_string()),
                "build_features"
            ),
        ]
    );
}

#[test]
fn references_resolves_import_aliases_for_calls() {
    let parsed = parse_file(
        "src/train.py".to_string(),
        r#"
import src.features as features
from src.features import build_features as make_features


def train(rows):
    values = make_features(rows)
    return features.build_features(values)
"#
        .trim_start()
        .to_string(),
    )
    .unwrap();

    let calls = extract_references(&parsed)
        .into_iter()
        .filter(|reference| {
            matches!(
                reference.kind,
                ReferenceKind::Call | ReferenceKind::Attribute
            )
        })
        .map(|reference| {
            (
                reference.name.to_string(),
                reference.resolved_name.map(|name| name.to_string()),
                reference.resolved_module.map(|module| module.to_string()),
                reference.resolution,
            )
        })
        .collect::<Vec<_>>();

    assert_eq!(
        calls,
        vec![
            (
                "make_features".to_string(),
                Some("build_features".to_string()),
                Some("src.features".to_string()),
                ReferenceResolution::Resolved,
            ),
            (
                "build_features".to_string(),
                Some("build_features".to_string()),
                Some("src.features".to_string()),
                ReferenceResolution::Resolved,
            ),
        ]
    );
}

#[test]
fn references_resolves_relative_imports_against_file_package() {
    let parsed = parse_file(
        "pkg/sub/consumer.py".to_string(),
        r#"
from ..features import build_features as make_features


def run(rows):
    return make_features(rows)
"#
        .trim_start()
        .to_string(),
    )
    .unwrap();

    let references = extract_references(&parsed);

    assert_eq!(
        references
            .iter()
            .map(|reference| (
                reference.kind,
                reference.name.to_string(),
                reference.resolved_module.as_ref().map(ToString::to_string),
                reference.resolved_name.as_ref().map(ToString::to_string),
                reference.resolution,
            ))
            .collect::<Vec<_>>(),
        vec![
            (
                ReferenceKind::FromImport,
                "make_features".to_string(),
                Some("pkg.features".to_string()),
                Some("build_features".to_string()),
                ReferenceResolution::Resolved,
            ),
            (
                ReferenceKind::Call,
                "make_features".to_string(),
                Some("pkg.features".to_string()),
                Some("build_features".to_string()),
                ReferenceResolution::Resolved,
            ),
        ]
    );
}

#[test]
fn parse_file_reads_the_tree_of_its_own_source() {
    let parsed = parse_file("m.py".to_string(), "def f(a):\n    return a\n".to_string()).unwrap();
    assert!(!parsed.has_parse_errors);
    let root = &parsed.tree.nodes[0];
    assert_eq!(root.kind, "module");
    let def = &parsed.tree.nodes[root.children[0]];
    assert_eq!(def.kind, "function_definition");
    assert_eq!((def.start_row, def.end_row), (0, 1));
    let name = parsed.tree.child_by_field_name(root.children[0], "name").unwrap();
    assert_eq!(parsed.tree.nodes[name].kind, "identifier");
    assert_eq!((parsed.tree.nodes[name].start_byte, parsed.tree.nodes[name].end_byte), (4, 5));

    let broken = parse_file("m.py".to_string(), "def f(:\n".to_string()).unwrap();
    assert!(broken.has_parse_errors);
}
