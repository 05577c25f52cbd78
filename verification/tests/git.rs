use std::io;

use sniffdiff::git::{
    git_spawn_error, has_extension, is_missing_git_object_error, parse_name_status_line,
    parse_name_status_output, paths_with_extension, spawn_error_message, ChangedFile, FileStatus,
    GIT_NOT_FOUND_MESSAGE,
};
use sniffdiff::merge_base;

#[test]
fn parses_added_modified_deleted_files() {
    assert_eq!(
        parse_name_status_line("A\tsrc/new.py").unwrap(),
        ChangedFile { path: "src/new.py".to_string(), status: FileStatus::Added }
    );
    assert_eq!(
        parse_name_status_line("M\tsrc/changed.py").unwrap(),
        ChangedFile { path: "src/changed.py".to_string(), status: FileStatus::Modified }
    );
    assert_eq!(
        parse_name_status_line("D\tsrc/old.py").unwrap(),
        ChangedFile { path: "src/old.py".to_string(), status: FileStatus::Deleted }
    );
}

#[test]
fn parses_renamed_files() {
    assert_eq!(
        parse_name_status_line("R091\tsrc/old.py\tsrc/new.py").unwrap(),
        ChangedFile {
            path: "src/new.py".to_string(),
            status: FileStatus::Renamed { old_path: "src/old.py".to_string() },
        }
    );
}

#[test]
fn filters_paths_by_extension() {
    assert!(has_extension("src/app.py", &["py"]));
    assert!(!has_extension("src/app.rs", &["py"]));
    assert!(!has_extension("Makefile", &["py"]));
}

#[test]
fn explains_missing_git_prerequisite() {
    let error = git_spawn_error(
        &["diff"],
        &io::Error::new(io::ErrorKind::NotFound, "No such file or directory"),
    );

    assert_eq!(error.to_string(), GIT_NOT_FOUND_MESSAGE);
}

#[test]
fn explains_other_spawn_failures_with_the_command() {
    let error = git_spawn_error(
        &["show", "HEAD:src/app.py"],
        &io::Error::new(io::ErrorKind::PermissionDenied, "denied"),
    );
    assert_eq!(error.to_string(), "failed to run git show HEAD:src/app.py: denied");
    assert_eq!(
        spawn_error_message(&["diff", "--name-status"], false, "boom"),
        "failed to run git diff --name-status: boom"
    );
    assert_eq!(spawn_error_message(&["diff"], true, "boom"), GIT_NOT_FOUND_MESSAGE);
}

#[test]
fn rejects_malformed_name_status_lines() {
    assert_eq!(parse_name_status_line("A").unwrap_err().to_string(), "added file missing path");
    assert_eq!(parse_name_status_line("M").unwrap_err().to_string(), "modified file missing path");
    assert_eq!(parse_name_status_line("D").unwrap_err().to_string(), "deleted file missing path");
    assert_eq!(
        parse_name_status_line("R100").unwrap_err().to_string(),
        "renamed file missing new path"
    );
    assert_eq!(
        parse_name_status_line("R100\tsrc/old.py").unwrap_err().to_string(),
        "renamed file missing new path"
    );
    assert_eq!(
        parse_name_status_line("X\tsrc/app.py").unwrap_err().to_string(),
        "unsupported git name-status line: X\tsrc/app.py"
    );
}

#[test]
fn parses_whole_name_status_output_skipping_blank_lines() {
    let files = parse_name_status_output("M\tsrc/a.py\n\nA\tsrc/b.py\n").unwrap();
    assert_eq!(
        files,
        vec![
            ChangedFile { path: "src/a.py".to_string(), status: FileStatus::Modified },
            ChangedFile { path: "src/b.py".to_string(), status: FileStatus::Added },
        ]
    );
    assert_eq!(
        parse_name_status_output("M\tsrc/a.py\nQ\n").unwrap_err().to_string(),
        "unsupported git name-status line: Q"
    );
    assert!(parse_name_status_output("").unwrap().is_empty());
}

#[test]
fn lists_python_paths_in_listing_order() {
    assert_eq!(
        paths_with_extension("src/b.py\nREADME.md\nsrc/a.py\nsetup.cfg\n", &["py"]),
        vec!["src/b.py", "src/a.py"]
    );
}

#[test]
fn recognises_missing_object_errors() {
    assert!(is_missing_git_object_error("fatal: path 'x.py' does not exist in 'HEAD'"));
    assert!(is_missing_git_object_error("fatal: path 'x.py' exists on disk, but not in the index"));
    assert!(!is_missing_git_object_error("fatal: not a git repository"));
}

#[test]
fn merge_base_trims_git_output() {
    assert_eq!(merge_base("  3f2a1c\n"), "3f2a1c");
}
