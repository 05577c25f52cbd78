//! Symbol-level review facts for Python diffs: which functions, classes
//! and methods changed between two Git refs, how their signatures and
//! complexity moved, who calls them, whether their tests moved, and a
//! compact report of what deserves review.
pub mod analysis;
pub mod cli;
pub mod git;
pub mod language;
pub mod output;
pub mod paths;
pub mod python;
pub mod text;
pub mod timing;

use vstd::prelude::*;

pub use crate::analysis::pipeline::{AnalysisError, RepoData};
pub use crate::analysis::snapshot::{SideFiles, SourceFile};
pub use crate::git::{INDEX_REF, WORKTREE_REF};
pub use crate::output::report::{Report, ReportLimit, ReportVerbosity};
pub use crate::timing::{TimingRecorder, TimingReport};

use crate::analysis::facts::{Analysis, AnalysisOptions};
use crate::analysis::pipeline::{
    analysis_ok, analysis_phases, analyze, errors_found_ok, first_parse_failure, syntax_error_files,
};
use crate::python::tree::ParseError;
use crate::text::views;
use crate::output::report::sections::{build_report, report_ok};

verus! {

/// How many callers and tests an item previews by default.
pub const DEFAULT_CALLER_PREVIEW_LIMIT: usize = 4;

/// What the analysis and its report are asked for.
#[derive(Debug, Clone, Copy)]
pub struct PublicAnalysisOptions {
    pub allow_parse_errors: bool,
    pub report_limit: ReportLimit,
    pub caller_preview_limit: usize,
    pub report_verbosity: ReportVerbosity,
}

impl Default for PublicAnalysisOptions {
    /// Syntax errors refused, five items, four callers each, normal
    /// verbosity.
    fn default() -> (r: PublicAnalysisOptions)
        ensures
            !r.allow_parse_errors,
            r.report_limit == ReportLimit::Limited(5),
            r.caller_preview_limit == DEFAULT_CALLER_PREVIEW_LIMIT,
            r.report_verbosity == ReportVerbosity::Normal,
    {
        PublicAnalysisOptions {
            allow_parse_errors: false,
            report_limit: ReportLimit::Limited(5),
            caller_preview_limit: DEFAULT_CALLER_PREVIEW_LIMIT,
            report_verbosity: ReportVerbosity::Normal,
        }
    }
}

/// A rendered report and the timings of its making.
pub struct TimedOutput {
    pub output: String,
    pub timings: TimingReport,
}

/// The report is the report of an analysis of the repository data, with
/// the options' verbosity and limits.
pub open spec fn report_of(r: Report, repo: RepoData, base: Seq<char>, head: Seq<char>, options: PublicAnalysisOptions) -> bool {
    exists|a: Analysis|
        #![trigger analysis_ok(a, repo, base, head, AnalysisOptions { allow_parse_errors: options.allow_parse_errors })]
        analysis_ok(a, repo, base, head, AnalysisOptions { allow_parse_errors: options.allow_parse_errors })
            && report_ok(r, a, options.report_verbosity, options.report_limit, options.caller_preview_limit)
}

/// Whether an analysis fails: a file cannot be read, or files with syntax
/// errors were found and partial analysis was not asked for.
pub open spec fn analysis_fails(repo: RepoData, options: PublicAnalysisOptions) -> bool {
    first_parse_failure(repo) is Some || (!options.allow_parse_errors && !syntax_error_files(
        repo,
    ).is_empty())
}

/// The error of a failed analysis: the first file that cannot be read, in
/// the order the analysis parses; else the files with syntax errors.
pub open spec fn failure_ok(e: AnalysisError, repo: RepoData, options: PublicAnalysisOptions) -> bool {
    match e {
        AnalysisError::Parse(p) => first_parse_failure(repo) == Some(p.file@) && p.reason
            == ParseError::TextTooLarge,
        AnalysisError::ParseErrorsFound(files) => first_parse_failure(repo) is None
            && !options.allow_parse_errors && errors_found_ok(views(files@), repo),
    }
}

fn report_recorded(repo: &RepoData, base: &str, head: &str, options: PublicAnalysisOptions, timings: &mut TimingRecorder) -> (r: Result<Report, AnalysisError>)
    ensures
        match r {
            Ok(report) => report_of(report, *repo, base@, head@, options) && final(timings).phase_names()
                == old(timings).phase_names() + analysis_phases().push("report_model"@),
            Err(e) => failure_ok(e, *repo, options),
        },
        r is Err <==> analysis_fails(*repo, options),
{
    let analysis = match analyze(
        repo,
        base,
        head,
        AnalysisOptions { allow_parse_errors: options.allow_parse_errors },
        timings,
    ) {
        Ok(a) => a,
        Err(e) => {
            return Err(e);
        },
    };
    let t = timings.begin();
    let report = build_report(
        &analysis,
        options.report_verbosity,
        options.report_limit,
        options.caller_preview_limit,
    );
    timings.end("report_model", &t);
    proof {
        assert(analysis_ok(analysis, *repo, base@, head@, AnalysisOptions { allow_parse_errors: options.allow_parse_errors }));
    }
    Ok(report)
}

/// The review report of a comparison, for rendering as YAML.
pub fn analyze_repo_report(repo: &RepoData, base: &str, head: &str, options: PublicAnalysisOptions) -> (r: Result<Report, AnalysisError>)
    ensures
        match r {
            Ok(report) => report_of(report, *repo, base@, head@, options),
            Err(e) => failure_ok(e, *repo, options),
        },
        r is Err <==> analysis_fails(*repo, options),
{
    let mut timings = TimingRecorder::start();
    report_recorded(repo, base, head, options, &mut timings)
}

/// The review report of a comparison, for rendering as JSON.
pub fn analyze_repo_json(repo: &RepoData, base: &str, head: &str, options: PublicAnalysisOptions) -> (r: Result<Report, AnalysisError>)
    ensures
        match r {
            Ok(report) => report_of(report, *repo, base@, head@, options),
            Err(e) => failure_ok(e, *repo, options),
        },
        r is Err <==> analysis_fails(*repo, options),
{
    let mut timings = TimingRecorder::start();
    report_recorded(repo, base, head, options, &mut timings)
}

/// The verbose review report of a comparison.
pub fn analyze_repo_report_verbose(repo: &RepoData, base: &str, head: &str, options: PublicAnalysisOptions) -> (r: Result<Report, AnalysisError>)
    ensures
        match r {
            Ok(report) => report_of(
                report,
                *repo,
                base@,
                head@,
                PublicAnalysisOptions { report_verbosity: ReportVerbosity::Verbose, ..options },
            ),
            Err(e) => failure_ok(
                e,
                *repo,
                PublicAnalysisOptions { report_verbosity: ReportVerbosity::Verbose, ..options },
            ),
        },
        r is Err <==> analysis_fails(*repo, options),
{
    let mut verbose = options;
    verbose.report_verbosity = ReportVerbosity::Verbose;
    analyze_repo_report(repo, base, head, verbose)
}

/// The review report of a comparison, each phase recorded in `timings`,
/// for rendering as YAML.
pub fn analyze_repo_report_with_timing(repo: &RepoData, base: &str, head: &str, options: PublicAnalysisOptions, timings: &mut TimingRecorder) -> (r: Result<Report, AnalysisError>)
    ensures
        match r {
            Ok(report) => report_of(report, *repo, base@, head@, options) && final(timings).phase_names()
                == old(timings).phase_names() + analysis_phases().push("report_model"@),
            Err(e) => failure_ok(e, *repo, options),
        },
        r is Err <==> analysis_fails(*repo, options),
{
    report_recorded(repo, base, head, options, timings)
}

/// The review report of a comparison, each phase recorded in `timings`,
/// for rendering as JSON.
pub fn analyze_repo_json_with_timing(repo: &RepoData, base: &str, head: &str, options: PublicAnalysisOptions, timings: &mut TimingRecorder) -> (r: Result<Report, AnalysisError>)
    ensures
        match r {
            Ok(report) => report_of(report, *repo, base@, head@, options) && final(timings).phase_names()
                == old(timings).phase_names() + analysis_phases().push("report_model"@),
            Err(e) => failure_ok(e, *repo, options),
        },
        r is Err <==> analysis_fails(*repo, options),
{
    report_recorded(repo, base, head, options, timings)
}

/// Every entry point, timed or not, verbose or not, fails on the same
/// repository data for the same options' `allow_parse_errors`: the
/// analysis fails or succeeds regardless of verbosity, limits and timing.
pub proof fn lemma_failure_ignores_report_options(repo: RepoData, o1: PublicAnalysisOptions, o2: PublicAnalysisOptions)
    requires
        o1.allow_parse_errors == o2.allow_parse_errors,
    ensures
        analysis_fails(repo, o1) == analysis_fails(repo, o2),
{
}

/// A failed analysis has one error: two errors that both meet the failure
/// contract, for options that agree on `allow_parse_errors`, name the same
/// file for the same reason, or the same files in the same order.
pub proof fn lemma_failure_is_determined(e1: AnalysisError, e2: AnalysisError, repo: RepoData, o1: PublicAnalysisOptions, o2: PublicAnalysisOptions)
    requires
        o1.allow_parse_errors == o2.allow_parse_errors,
        failure_ok(e1, repo, o1),
        failure_ok(e2, repo, o2),
    ensures
        match (e1, e2) {
            (AnalysisError::Parse(p1), AnalysisError::Parse(p2)) => p1.file@ == p2.file@ && p1.reason
                == p2.reason,
            (AnalysisError::ParseErrorsFound(f1), AnalysisError::ParseErrorsFound(f2)) => views(f1@)
                == views(f2@),
            _ => false,
        },
{
    match (e1, e2) {
        (AnalysisError::ParseErrorsFound(f1), AnalysisError::ParseErrorsFound(f2)) => {
            crate::text::lemma_sorted_unique(views(f1@), views(f2@), true);
        },
        _ => {},
    }
}

/// The merge base of two refs, from the output of `git merge-base`.
pub fn merge_base(git_output: &str) -> (r: String)
    ensures
        r@ == crate::text::trim_spec(git_output@),
{
    crate::text::trim(git_output)
}

} // verus!
