//! The analysis of a comparison: both sides parsed, parse errors checked,
//! symbols diffed, references and test facts attached, review signals
//! derived, each step timed.
use vstd::prelude::*;

use crate::analysis::diff::{changed_views, diff_ok, diff_symbols};
use crate::analysis::facts::{Analysis, AnalysisOptions, Snapshot, SymbolChange};
use crate::analysis::modules::{index_entry, ModuleIndex};
use crate::analysis::references::{
    attach_reference_facts, attach_test_reference_facts, changed_path_set, refs_attached_ok,
    side_refs, test_refs_attached_ok, ReferenceSnapshot, SideRefs,
};
use crate::analysis::signals::{attach_review_signals, signals_ok};
use crate::analysis::snapshot::{first_unparsed, parse_side, side_ok, syntax_error_paths, FileParseError, SideFiles};
use crate::python::tree::ParseError;
use crate::analysis::test_facts::{derive_test_facts, test_facts_ok};
use crate::git::{ChangedFile, ChangedFileView};
use crate::language::{Reference, Symbol};
use crate::text::{
    concat2, concat3, insert_sorted, join_chars, join_spec, owned, strictly_sorted, string_from_chars,
    views, chars_of,
};
use crate::timing::TimingRecorder;

verus! {

/// What the analysis reads from Git: the changed files between the two
/// sides, and the Python files of each side.
#[derive(Debug)]
pub struct RepoData {
    pub changed_files: Vec<ChangedFile>,
    pub base: SideFiles,
    pub head: SideFiles,
}

/// Why an analysis could not be made.
#[derive(Debug)]
pub enum AnalysisError {
    /// A file could not be read for parsing.
    Parse(FileParseError),
    /// Files with syntax errors were found and partial analysis was not
    /// asked for; the files, sorted.
    ParseErrorsFound(Vec<String>),
}

/// The text listing files with syntax errors.
pub open spec fn parse_errors_text(files: Seq<Seq<char>>) -> Seq<char> {
    "Python parse errors found.\n\nsniffdiff requires syntactically valid Python by default because review facts may be incomplete.\n\nFiles with parse errors:\n"@
        + join_spec(files.map_values(|f: Seq<char>| "- "@ + f), "\n"@)
        + "\n\nRe-run with --allow-parse-errors to get partial analysis."@
}

impl AnalysisError {
    /// What went wrong, in words.
    pub fn message(&self) -> (r: String)
        ensures
            match self {
                AnalysisError::Parse(e) => r@ == "failed to parse "@ + e.file@ + ": "@
                    + crate::python::tree::parse_error_text(e.reason),
                AnalysisError::ParseErrorsFound(files) => r@ == parse_errors_text(views(files@)),
            },
    {
        match self {
            AnalysisError::Parse(e) => e.message(),
            AnalysisError::ParseErrorsFound(files) => {
                let mut lines: Vec<Vec<char>> = Vec::new();
                let mut k: usize = 0;
                while k < files.len()
                    invariant
                        0 <= k <= files@.len(),
                        lines@.len() == k,
                        forall|j: int| 0 <= j < k ==> (#[trigger] lines@[j])@ == "- "@ + files@[j]@,
                    decreases files@.len() - k,
                {
                    let line = concat2("- ", files[k].as_str());
                    lines.push(chars_of(line.as_str()));
                    k = k + 1;
                }
                let sep = chars_of("\n");
                let joined = join_chars(&lines, sep.as_slice());
                proof {
                    assert(Seq::new(lines@.len(), |i: int| lines@[i]@) =~= views(files@).map_values(
                        |f: Seq<char>| "- "@ + f,
                    ));
                }
                let body = string_from_chars(joined.as_slice());
                concat3(
                    "Python parse errors found.\n\nsniffdiff requires syntactically valid Python by default because review facts may be incomplete.\n\nFiles with parse errors:\n",
                    body.as_str(),
                    "\n\nRe-run with --allow-parse-errors to get partial analysis.",
                )
            },
        }
    }
}

/// The files with syntax errors of three snapshots.
pub open spec fn error_file_set(a: Snapshot, b: Snapshot, c: Snapshot) -> Set<Seq<char>> {
    views(a.parse_error_files@).to_set() + views(b.parse_error_files@).to_set() + views(
        c.parse_error_files@,
    ).to_set()
}

fn add_all(out: &mut Vec<String>, files: &Vec<String>)
    requires
        strictly_sorted(views(old(out)@), true),
    ensures
        strictly_sorted(views(final(out)@), true),
        views(final(out)@).to_set() == views(old(out)@).to_set() + views(files@).to_set(),
{
    let mut k: usize = 0;
    while k < files.len()
        invariant
            0 <= k <= files@.len(),
            strictly_sorted(views(out@), true),
            views(out@).to_set() == views(old(out)@).to_set() + views(files@.subrange(0, k as int)).to_set(),
        decreases files@.len() - k,
    {
        insert_sorted(out, files[k].clone(), true);
        proof {
            assert(views(files@.subrange(0, k + 1)) =~= views(files@.subrange(0, k as int)).push(files@[k as int]@));
            views(files@.subrange(0, k as int)).lemma_push_to_set_commute(files@[k as int]@);
            assert(views(out@).to_set() =~= views(old(out)@).to_set() + views(files@.subrange(0, k + 1)).to_set());
        }
        k = k + 1;
    }
    proof {
        assert(files@.subrange(0, files@.len() as int) =~= files@);
    }
}

/// Refuses an analysis with syntax errors unless partial analysis was
/// asked for; the refusal lists the files with errors, sorted.
pub fn validate_parse_errors(before: &Snapshot, after: &Snapshot, tests: &Snapshot, options: AnalysisOptions) -> (r: Result<(), AnalysisError>)
    ensures
        match r {
            Ok(()) => options.allow_parse_errors || error_file_set(*before, *after, *tests).is_empty(),
            Err(AnalysisError::ParseErrorsFound(files)) => !options.allow_parse_errors && strictly_sorted(
                views(files@),
                true,
            ) && views(files@).to_set() == error_file_set(*before, *after, *tests) && files@.len() > 0,
            Err(AnalysisError::Parse(_)) => false,
        },
{
    if options.allow_parse_errors {
        return Ok(());
    }
    let mut files: Vec<String> = Vec::new();
    proof {
        assert(views(files@) =~= Seq::<Seq<char>>::empty());
        assert(views(files@).to_set() =~= Set::<Seq<char>>::empty());
    }
    add_all(&mut files, &before.parse_error_files);
    add_all(&mut files, &after.parse_error_files);
    add_all(&mut files, &tests.parse_error_files);
    proof {
        assert(views(files@).to_set() =~= error_file_set(*before, *after, *tests));
    }
    if files.len() == 0 {
        proof {
            assert(views(files@).to_set() =~= Set::<Seq<char>>::empty());
        }
        return Ok(());
    }
    Err(AnalysisError::ParseErrorsFound(files))
}

/// The `(module, top-level name)` pairs of a set of symbols.
pub open spec fn index_set(symbols: Seq<Symbol>) -> Set<(Seq<char>, Seq<char>)> {
    Set::new(|e: (Seq<char>, Seq<char>)| exists|i: int| 0 <= i < symbols.len() && index_entry(#[trigger] symbols[i]) == e)
}

/// What the references of one side are matched against.
pub open spec fn side_of(references: Seq<Reference>, index_symbols: Seq<Symbol>, symbols: Seq<Symbol>) -> SideRefs {
    SideRefs { references, index: index_set(index_symbols), symbols }
}

/// What an analysis states: its sides parsed from the repository data,
/// and its changes the symbol diff of the two sides with reference facts,
/// test reference facts and review signals attached, by the contracts of
/// each step; no syntax errors unless partial analysis was asked for.
pub open spec fn analysis_ok(a: Analysis, repo: RepoData, base: Seq<char>, head: Seq<char>, options: AnalysisOptions) -> bool {
    let changed = changed_path_set(changed_views(a.changed_files@));
    &&& a.base@ == base
    &&& a.head@ == head
    &&& a.language@ == "python"@
    &&& changed_views(a.changed_files@) == changed_views(repo.changed_files@)
    &&& side_ok(a.before, a.references_before@, repo.base, false)
    &&& side_ok(a.after, a.references_after@, repo.head, false)
    &&& exists|tests: Snapshot, test_refs: Seq<Reference>, d: Seq<SymbolChange>, r1: Seq<SymbolChange>, r2: Seq<SymbolChange>|
        #![trigger side_ok(tests, test_refs, repo.head, true), diff_ok(d, a.before.symbols@, a.after.symbols@, a.changed_files@), refs_attached_ok(r1, d, side_of(a.references_before@, a.before.symbols@, a.before.symbols@), side_of(a.references_after@, a.after.symbols@, a.after.symbols@), changed), test_refs_attached_ok(r2, r1, side_of(test_refs, a.after.symbols@, tests.symbols@), changed)]
        {
            &&& side_ok(tests, test_refs, repo.head, true)
            &&& (!options.allow_parse_errors ==> error_file_set(a.before, a.after, tests).is_empty())
            &&& diff_ok(d, a.before.symbols@, a.after.symbols@, a.changed_files@)
            &&& refs_attached_ok(
                r1,
                d,
                side_of(a.references_before@, a.before.symbols@, a.before.symbols@),
                side_of(a.references_after@, a.after.symbols@, a.after.symbols@),
                changed,
            )
            &&& test_refs_attached_ok(r2, r1, side_of(test_refs, a.after.symbols@, tests.symbols@), changed)
            &&& test_facts_ok(a.test_facts, a.changed_files@, r2, tests)
            &&& signals_ok(a.symbol_changes@, r2, a.test_facts)
        }
}

/// The file of the first parse failure, in the order the analysis parses:
/// the base's production files, the head's production files, then the
/// head's test files, each in listing order.
pub open spec fn first_parse_failure(repo: RepoData) -> Option<Seq<char>> {
    let bf = repo.base.files@;
    let hf = repo.head.files@;
    match first_unparsed(bf, false, bf.len() as int) {
        Some(k) => Some(bf[k].path@),
        None => match first_unparsed(hf, false, hf.len() as int) {
            Some(k) => Some(hf[k].path@),
            None => match first_unparsed(hf, true, hf.len() as int) {
                Some(k) => Some(hf[k].path@),
                None => None,
            },
        },
    }
}

/// The files whose trees hold syntax errors: the base's and the head's
/// production files and the head's test files.
pub open spec fn syntax_error_files(repo: RepoData) -> Set<Seq<char>> {
    let bf = repo.base.files@;
    let hf = repo.head.files@;
    syntax_error_paths(bf, false, bf.len() as int) + syntax_error_paths(hf, false, hf.len() as int)
        + syntax_error_paths(hf, true, hf.len() as int)
}

/// The files named by a refusal for syntax errors: sorted, each once, and
/// exactly the files whose trees hold syntax errors.
pub open spec fn errors_found_ok(files: Seq<Seq<char>>, repo: RepoData) -> bool {
    &&& strictly_sorted(files, true)
    &&& files.to_set() == syntax_error_files(repo)
    &&& files.len() > 0
}

/// The phases an analysis records, in order.
pub open spec fn analysis_phases() -> Seq<Seq<char>> {
    seq![
        "before_snapshot"@,
        "after_snapshot"@,
        "test_snapshot"@,
        "parse_error_validation"@,
        "symbol_diff"@,
        "reference_facts"@,
        "test_reference_facts"@,
        "test_facts"@,
        "review_signals"@,
    ]
}

proof fn lemma_index(m: ModuleIndex, symbols: Seq<Symbol>)
    requires
        forall|e: (Seq<char>, Seq<char>)|
            m@.contains(e) <==> exists|i: int| 0 <= i < symbols.len() && index_entry(#[trigger] symbols[i]) == e,
    ensures
        m@ == index_set(symbols),
{
    assert(m@ =~= index_set(symbols));
}

/// Analyzes a comparison from the data Git gave for it.
pub fn analyze(repo: &RepoData, base: &str, head: &str, options: AnalysisOptions, timings: &mut TimingRecorder) -> (r: Result<Analysis, AnalysisError>)
    ensures
        match r {
            Ok(a) => analysis_ok(a, *repo, base@, head@, options) && final(timings).phase_names() == old(
                timings,
            ).phase_names() + analysis_phases(),
            Err(AnalysisError::Parse(e)) => first_parse_failure(*repo) == Some(e.file@)
                && e.reason == ParseError::TextTooLarge,
            Err(AnalysisError::ParseErrorsFound(files)) => first_parse_failure(*repo) is None
                && !options.allow_parse_errors && errors_found_ok(views(files@), *repo),
        },
        r is Err <==> (first_parse_failure(*repo) is Some || (!options.allow_parse_errors
            && !syntax_error_files(*repo).is_empty())),
{
    let mut changed_files: Vec<ChangedFile> = Vec::new();
    let mut k: usize = 0;
    while k < repo.changed_files.len()
        invariant
            0 <= k <= repo.changed_files@.len(),
            changed_files@.len() == k,
            forall|j: int| 0 <= j < k ==> (#[trigger] changed_files@[j])@ == repo.changed_files@[j]@,
        decreases repo.changed_files@.len() - k,
    {
        changed_files.push(repo.changed_files[k].copy());
        k = k + 1;
    }
    proof {
        assert(changed_views(changed_files@) =~= changed_views(repo.changed_files@));
    }
    let ghost names0 = timings.phase_names();
    let t = timings.begin();
    let (before, references_before) = match parse_side(&repo.base, false) {
        Ok(x) => x,
        Err(e) => {
            return Err(AnalysisError::Parse(e));
        },
    };
    timings.end("before_snapshot", &t);
    let t = timings.begin();
    let (after, references_after) = match parse_side(&repo.head, false) {
        Ok(x) => x,
        Err(e) => {
            return Err(AnalysisError::Parse(e));
        },
    };
    timings.end("after_snapshot", &t);
    let t = timings.begin();
    let (tests_after, test_references_after) = match parse_side(&repo.head, true) {
        Ok(x) => x,
        Err(e) => {
            return Err(AnalysisError::Parse(e));
        },
    };
    timings.end("test_snapshot", &t);
    let t = timings.begin();
    match validate_parse_errors(&before, &after, &tests_after, options) {
        Ok(()) => {},
        Err(e) => {
            proof {
                assert(error_file_set(before, after, tests_after) == syntax_error_files(*repo));
                if let AnalysisError::ParseErrorsFound(files) = &e {
                    assert(views(files@).to_set().contains(views(files@)[0]));
                }
            }
            return Err(e);
        },
    }
    timings.end("parse_error_validation", &t);
    let before_index = ModuleIndex::from_symbols(before.symbols.as_slice());
    let after_index = ModuleIndex::from_symbols(after.symbols.as_slice());
    proof {
        lemma_index(before_index, before.symbols@);
        lemma_index(after_index, after.symbols@);
    }
    let t = timings.begin();
    let diffed = diff_symbols(before.symbols.as_slice(), after.symbols.as_slice(), changed_files.as_slice());
    timings.end("symbol_diff", &t);
    let ghost d = diffed@;
    let t = timings.begin();
    let with_refs = attach_reference_facts(
        diffed,
        &ReferenceSnapshot {
            references: references_before.as_slice(),
            module_index: &before_index,
            symbols: before.symbols.as_slice(),
        },
        &ReferenceSnapshot {
            references: references_after.as_slice(),
            module_index: &after_index,
            symbols: after.symbols.as_slice(),
        },
        changed_files.as_slice(),
    );
    timings.end("reference_facts", &t);
    let ghost r1 = with_refs@;
    let t = timings.begin();
    let with_tests = attach_test_reference_facts(
        with_refs,
        &ReferenceSnapshot {
            references: test_references_after.as_slice(),
            module_index: &after_index,
            symbols: tests_after.symbols.as_slice(),
        },
        changed_files.as_slice(),
    );
    timings.end("test_reference_facts", &t);
    let ghost r2 = with_tests@;
    let t = timings.begin();
    let test_facts = derive_test_facts(changed_files.as_slice(), with_tests.as_slice(), &tests_after);
    timings.end("test_facts", &t);
    let t = timings.begin();
    let symbol_changes = attach_review_signals(with_tests, &test_facts);
    timings.end("review_signals", &t);
    let a = Analysis {
        base: owned(base),
        head: owned(head),
        language: owned("python"),
        changed_files,
        before,
        after,
        symbol_changes,
        references_before,
        references_after,
        test_facts,
    };
    proof {
        assert(timings.phase_names() =~= names0 + analysis_phases());
        let changed = changed_path_set(changed_views(a.changed_files@));
        assert(side_ok(tests_after, test_references_after@, repo.head, true));
        assert(diff_ok(d, a.before.symbols@, a.after.symbols@, a.changed_files@));
        assert(refs_attached_ok(
            r1,
            d,
            side_of(a.references_before@, a.before.symbols@, a.before.symbols@),
            side_of(a.references_after@, a.after.symbols@, a.after.symbols@),
            changed,
        ));
        assert(test_refs_attached_ok(r2, r1, side_of(test_references_after@, a.after.symbols@, tests_after.symbols@), changed));
        assert(test_facts_ok(a.test_facts, a.changed_files@, r2, tests_after));
        assert(signals_ok(a.symbol_changes@, r2, a.test_facts));
    }
    Ok(a)
}

} // verus!
