use sniffdiff::cli::{
    default_empty_ref, parse_positive_usize, parse_ref_selection, parse_report_limit, parse_usize,
    split_once, RefArgs, RefSelection,
};
use sniffdiff::{ReportLimit, INDEX_REF, WORKTREE_REF};

fn test_cli(range: Option<&str>, staged: bool) -> RefArgs {
    RefArgs { range: range.map(|r| r.to_string()), base: None, head: None, staged }
}

fn direct(base: &str, head: &str) -> RefSelection {
    RefSelection::Direct { base: base.to_string(), head: head.to_string() }
}

fn merge_base(left: &str, right: &str) -> RefSelection {
    RefSelection::MergeBase { left: left.to_string(), right: right.to_string() }
}

#[test]
fn parses_report_limit() {
    assert_eq!(parse_report_limit("all"), Ok(ReportLimit::All));
    assert_eq!(parse_report_limit("7"), Ok(ReportLimit::Limited(7)));
    assert!(parse_report_limit("0").is_err());
    assert!(parse_report_limit("many").is_err());
}

#[test]
fn parses_positive_usize() {
    assert_eq!(parse_positive_usize("4"), Ok(4));
    assert!(parse_positive_usize("0").is_err());
    assert!(parse_positive_usize("many").is_err());
}

#[test]
fn parses_single_ref_as_worktree_comparison() {
    assert_eq!(parse_ref_selection(&test_cli(Some("main"), false)).unwrap(), direct("main", WORKTREE_REF));
}

#[test]
fn parses_explicit_range_as_ref_comparison() {
    assert_eq!(parse_ref_selection(&test_cli(Some("main..HEAD"), false)).unwrap(), direct("main", "HEAD"));
}

#[test]
fn parses_triple_dot_as_merge_base_comparison() {
    assert_eq!(
        parse_ref_selection(&test_cli(Some("main...HEAD"), false)).unwrap(),
        merge_base("main", "HEAD")
    );
}

#[test]
fn defaults_empty_two_dot_range_sides_to_head() {
    assert_eq!(parse_ref_selection(&test_cli(Some("main.."), false)).unwrap(), direct("main", "HEAD"));
    assert_eq!(parse_ref_selection(&test_cli(Some("..feature"), false)).unwrap(), direct("HEAD", "feature"));
}

#[test]
fn defaults_empty_triple_dot_range_sides_to_head() {
    assert_eq!(
        parse_ref_selection(&test_cli(Some("main..."), false)).unwrap(),
        merge_base("main", "HEAD")
    );
    assert_eq!(
        parse_ref_selection(&test_cli(Some("...feature"), false)).unwrap(),
        merge_base("HEAD", "feature")
    );
}

#[test]
fn parses_no_ref_as_index_to_worktree_comparison() {
    assert_eq!(parse_ref_selection(&test_cli(None, false)).unwrap(), direct(INDEX_REF, WORKTREE_REF));
}

#[test]
fn parses_staged_without_ref_as_head_to_index_comparison() {
    assert_eq!(parse_ref_selection(&test_cli(None, true)).unwrap(), direct("HEAD", INDEX_REF));
}

#[test]
fn parses_staged_with_ref_as_ref_to_index_comparison() {
    assert_eq!(parse_ref_selection(&test_cli(Some("main"), true)).unwrap(), direct("main", INDEX_REF));
}

#[test]
fn rejects_staged_with_triple_dot_range() {
    assert!(parse_ref_selection(&test_cli(Some("main...HEAD"), true)).is_err());
}

#[test]
fn rejects_staged_with_explicit_sides_or_two_dot_range() {
    assert_eq!(
        parse_ref_selection(&test_cli(Some("main..HEAD"), true)).unwrap_err(),
        "--staged cannot be combined with an explicit ref range"
    );
    let args = RefArgs {
        range: None,
        base: Some("main".to_string()),
        head: Some("HEAD".to_string()),
        staged: true,
    };
    assert_eq!(
        parse_ref_selection(&args).unwrap_err(),
        "--staged cannot be combined with --base/--head"
    );
}

#[test]
fn explicit_base_and_head_are_compared_directly() {
    let args = RefArgs {
        range: None,
        base: Some("v1".to_string()),
        head: Some("v2".to_string()),
        staged: false,
    };
    assert_eq!(parse_ref_selection(&args).unwrap(), direct("v1", "v2"));
}

#[test]
fn splits_at_the_first_separator() {
    assert_eq!(split_once("a..b..c", ".."), Some(("a".to_string(), "b..c".to_string())));
    assert_eq!(split_once("main", ".."), None);
    assert_eq!(split_once("..", ".."), Some((String::new(), String::new())));
    assert_eq!(default_empty_ref(""), "HEAD");
    assert_eq!(default_empty_ref("topic"), "topic");
}

#[test]
fn parses_usize_like_str_parse() {
    assert_eq!(parse_usize("0"), Some(0));
    assert_eq!(parse_usize("+12"), Some(12));
    assert_eq!(parse_usize("007"), Some(7));
    assert_eq!(parse_usize(""), None);
    assert_eq!(parse_usize("+"), None);
    assert_eq!(parse_usize("-1"), None);
    assert_eq!(parse_usize("1 "), None);
    assert_eq!(parse_usize("18446744073709551615"), Some(usize::MAX));
    assert_eq!(parse_usize("18446744073709551616"), None);
    for text in ["0", "+12", "007", "", "+", "-1", "1 ", "4x", "99999999999999999999"] {
        assert_eq!(parse_usize(text), text.parse::<usize>().ok(), "{text}");
    }
}

#[test]
fn report_limit_accepts_all_in_any_case_and_explains_errors() {
    assert_eq!(parse_report_limit("ALL"), Ok(ReportLimit::All));
    assert_eq!(parse_report_limit("All"), Ok(ReportLimit::All));
    assert_eq!(parse_report_limit("0"), Err("expected a positive integer or \"all\"".to_string()));
    assert_eq!(parse_positive_usize("x"), Err("expected a positive integer".to_string()));
}
