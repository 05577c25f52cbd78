//! One side of a comparison: the Python files Git lists at a ref, parsed
//! into symbols and references, with counts of what was considered,
//! skipped, parsed, and parsed with syntax errors.
use vstd::prelude::*;

use crate::analysis::facts::Snapshot;
use crate::language::{reference_views, Reference, ReferenceView, Symbol, SymbolView};
use crate::paths::{is_test_path, is_test_path_spec};
use crate::python::references::{extract_references, extract_references_spec};
use crate::python::symbols::{extract_symbols, extract_symbols_spec, symbol_views};
use crate::python::tree::{is_parse_of, parse_error_text, parse_file, parses, python_parse, ParseError, ParsedFile};
use crate::text::{concat3, views};

verus! {

/// One file as Git has it at a ref: its path, and its text unless Git has
/// no such file there.
#[derive(Debug)]
pub struct SourceFile {
    pub path: String,
    pub source: Option<String>,
}

/// The Python files of one side, in Git's listing order.
#[derive(Debug)]
pub struct SideFiles {
    pub git_ref: String,
    pub files: Vec<SourceFile>,
}

/// A file that could not be parsed, and why.
#[derive(Debug)]
pub struct FileParseError {
    pub file: String,
    pub reason: ParseError,
}

impl FileParseError {
    /// `failed to parse <file>: <reason>`.
    pub fn message(&self) -> (r: String)
        ensures
            r@ == "failed to parse "@ + self.file@ + ": "@ + parse_error_text(self.reason),
    {
        let reason = self.reason.message();
        let head = concat3("failed to parse ", self.file.as_str(), ": ");
        crate::text::concat2(head.as_str(), reason.as_str())
    }
}

/// Counts and contents of a snapshot being built.
pub struct SnapshotBuilder {
    pub git_ref: String,
    pub files_considered: usize,
    pub files_skipped: usize,
    pub files_parsed: usize,
    pub files_with_parse_errors: usize,
    pub parse_error_files: Vec<String>,
    pub symbols: Vec<Symbol>,
}

impl SnapshotBuilder {
    /// Nothing counted yet.
    pub fn new(git_ref: &str) -> (r: SnapshotBuilder)
        ensures
            r.git_ref@ == git_ref@,
            r.files_considered == 0 && r.files_skipped == 0 && r.files_parsed == 0
                && r.files_with_parse_errors == 0,
            r.parse_error_files@.len() == 0 && r.symbols@.len() == 0,
    {
        SnapshotBuilder {
            git_ref: crate::text::owned(git_ref),
            files_considered: 0,
            files_skipped: 0,
            files_parsed: 0,
            files_with_parse_errors: 0,
            parse_error_files: Vec::new(),
            symbols: Vec::new(),
        }
    }

    /// One more file considered.
    pub fn consider_file(&mut self)
        requires
            old(self).files_considered < usize::MAX,
        ensures
            final(self).files_considered == old(self).files_considered + 1,
            final(self).git_ref == old(self).git_ref,
            final(self).files_skipped == old(self).files_skipped,
            final(self).files_parsed == old(self).files_parsed,
            final(self).files_with_parse_errors == old(self).files_with_parse_errors,
            final(self).parse_error_files == old(self).parse_error_files,
            final(self).symbols == old(self).symbols,
    {
        self.files_considered = self.files_considered + 1;
    }

    /// One more file skipped.
    pub fn skip_file(&mut self)
        requires
            old(self).files_skipped < usize::MAX,
        ensures
            final(self).files_skipped == old(self).files_skipped + 1,
            final(self).git_ref == old(self).git_ref,
            final(self).files_considered == old(self).files_considered,
            final(self).files_parsed == old(self).files_parsed,
            final(self).files_with_parse_errors == old(self).files_with_parse_errors,
            final(self).parse_error_files == old(self).parse_error_files,
            final(self).symbols == old(self).symbols,
    {
        self.files_skipped = self.files_skipped + 1;
    }

    /// One more parsed file, with its symbols; a file with syntax errors is
    /// counted and listed.
    pub fn add_parsed_file(&mut self, parsed: &ParsedFile, symbols: Vec<Symbol>)
        requires
            old(self).files_parsed < usize::MAX,
            old(self).files_with_parse_errors < usize::MAX,
        ensures
            final(self).files_parsed == old(self).files_parsed + 1,
            final(self).files_with_parse_errors == old(self).files_with_parse_errors + if parsed.has_parse_errors {
                1int
            } else {
                0int
            },
            views(final(self).parse_error_files@) == views(old(self).parse_error_files@) + if parsed.has_parse_errors {
                seq![parsed.file@]
            } else {
                Seq::empty()
            },
            final(self).symbols@ == old(self).symbols@ + symbols@,
            final(self).git_ref == old(self).git_ref,
            final(self).files_considered == old(self).files_considered,
            final(self).files_skipped == old(self).files_skipped,
    {
        self.files_parsed = self.files_parsed + 1;
        let ghost before = views(self.parse_error_files@);
        if parsed.has_parse_errors {
            self.files_with_parse_errors = self.files_with_parse_errors + 1;
            self.parse_error_files.push(parsed.file.clone());
            proof {
                assert(views(self.parse_error_files@) =~= before + seq![parsed.file@]);
            }
        } else {
            proof {
                assert(views(self.parse_error_files@) =~= before + Seq::<Seq<char>>::empty());
            }
        }
        let mut added = symbols;
        self.symbols.append(&mut added);
    }

    /// The snapshot.
    pub fn finish(self) -> (r: Snapshot)
        ensures
            r.git_ref == self.git_ref,
            r.files_considered == self.files_considered,
            r.files_skipped == self.files_skipped,
            r.files_parsed == self.files_parsed,
            r.files_with_parse_errors == self.files_with_parse_errors,
            r.parse_error_files == self.parse_error_files,
            r.symbols == self.symbols,
    {
        Snapshot {
            git_ref: self.git_ref,
            files_considered: self.files_considered,
            files_skipped: self.files_skipped,
            files_parsed: self.files_parsed,
            files_with_parse_errors: self.files_with_parse_errors,
            parse_error_files: self.parse_error_files,
            symbols: self.symbols,
        }
    }
}

/// A file belongs to the snapshot: production snapshots keep non-test
/// paths, test snapshots keep test paths.
pub open spec fn kept(path: Seq<char>, tests: bool) -> bool {
    is_test_path_spec(path) == tests
}

/// The indices, among the first `n` files, of kept files with a text.
pub open spec fn parsed_indices(files: Seq<SourceFile>, tests: bool, n: int) -> Seq<int>
    decreases n,
{
    if n <= 0 {
        Seq::empty()
    } else {
        let prev = parsed_indices(files, tests, n - 1);
        if kept(files[n - 1].path@, tests) && files[n - 1].source is Some {
            prev.push(n - 1)
        } else {
            prev
        }
    }
}

/// The number of test paths among the first `n` files.
pub open spec fn test_path_count(files: Seq<SourceFile>, n: int) -> nat
    decreases n,
{
    if n <= 0 {
        0
    } else {
        test_path_count(files, n - 1) + if is_test_path_spec(files[n - 1].path@) {
            1nat
        } else {
            0nat
        }
    }
}

/// The symbols of a sequence of parsed files, in order.
pub open spec fn all_symbols(ps: Seq<ParsedFile>) -> Seq<SymbolView>
    decreases ps.len(),
{
    if ps.len() == 0 {
        Seq::empty()
    } else {
        all_symbols(ps.drop_last()) + extract_symbols_spec(ps.last())
    }
}

/// The references of a sequence of parsed files, in order.
pub open spec fn all_references(ps: Seq<ParsedFile>) -> Seq<ReferenceView>
    decreases ps.len(),
{
    if ps.len() == 0 {
        Seq::empty()
    } else {
        all_references(ps.drop_last()) + extract_references_spec(ps.last())
    }
}

/// The paths of the parsed files with syntax errors, in order.
pub open spec fn error_paths(ps: Seq<ParsedFile>) -> Seq<Seq<char>>
    decreases ps.len(),
{
    if ps.len() == 0 {
        Seq::empty()
    } else {
        error_paths(ps.drop_last()) + if ps.last().has_parse_errors {
            seq![ps.last().file@]
        } else {
            Seq::empty()
        }
    }
}

/// `ps` are the parses of the kept files with a text, in order.
pub open spec fn parses_of(ps: Seq<ParsedFile>, files: Seq<SourceFile>, idx: Seq<int>) -> bool {
    &&& ps.len() == idx.len()
    &&& forall|k: int|
        0 <= k < ps.len() ==> is_parse_of(
            #[trigger] ps[k],
            files[idx[k]].path@,
            files[idx[k]].source.unwrap()@,
        )
}

/// The index of the first file, among the first `n`, that the snapshot
/// would parse and whose text cannot be read (see `parses`).
pub open spec fn first_unparsed(files: Seq<SourceFile>, tests: bool, n: int) -> Option<int>
    decreases n,
{
    if n <= 0 {
        None
    } else {
        match first_unparsed(files, tests, n - 1) {
            Some(k) => Some(k),
            None => if kept(files[n - 1].path@, tests) && files[n - 1].source is Some && !parses(
                files[n - 1].source.unwrap()@,
            ) {
                Some(n - 1)
            } else {
                None
            },
        }
    }
}

/// The paths, among the first `n` files, that the snapshot parses and whose
/// tree holds a syntax error.
pub open spec fn syntax_error_paths(files: Seq<SourceFile>, tests: bool, n: int) -> Set<Seq<char>>
    decreases n,
{
    if n <= 0 {
        Set::empty()
    } else {
        let prev = syntax_error_paths(files, tests, n - 1);
        if kept(files[n - 1].path@, tests) && files[n - 1].source is Some && python_parse(
            files[n - 1].source.unwrap()@,
        ).0 {
            prev.insert(files[n - 1].path@)
        } else {
            prev
        }
    }
}

/// What a parsed side states: its counts, and its symbols, references and
/// error files as those of the trees parsed from its kept files.
pub open spec fn side_ok(s: Snapshot, refs: Seq<Reference>, side: SideFiles, tests: bool) -> bool {
    let files = side.files@;
    let idx = parsed_indices(files, tests, files.len() as int);
    &&& s.git_ref@ == side.git_ref@
    &&& s.files_considered == if tests {
        test_path_count(files, files.len() as int)
    } else {
        files.len() as nat
    }
    &&& s.files_skipped == if tests {
        0
    } else {
        test_path_count(files, files.len() as int)
    }
    &&& s.files_parsed == idx.len()
    &&& exists|ps: Seq<ParsedFile>|
        #![trigger parses_of(ps, files, idx)]
        parses_of(ps, files, idx) && symbol_views(s.symbols@) == all_symbols(ps) && reference_views(refs)
            == all_references(ps) && views(s.parse_error_files@) == error_paths(ps)
            && s.files_with_parse_errors == error_paths(ps).len()
    &&& views(s.parse_error_files@).to_set() == syntax_error_paths(files, tests, files.len() as int)
}

/// Parses one side: for a production snapshot every listed file is
/// considered and test files are skipped; for a test snapshot only test
/// files are considered.  Files Git has no text for are not parsed.
pub fn parse_side(side: &SideFiles, tests: bool) -> (r: Result<(Snapshot, Vec<Reference>), FileParseError>)
    ensures
        r is Ok <==> first_unparsed(side.files@, tests, side.files@.len() as int) is None,
        match r {
            Ok((s, refs)) => side_ok(s, refs@, *side, tests),
            Err(e) => match first_unparsed(side.files@, tests, side.files@.len() as int) {
                Some(k) => side.files@[k].path@ == e.file@ && e.reason == ParseError::TextTooLarge,
                None => false,
            },
        },
{
    let files = &side.files;
    let ghost fv = files@;
    let mut builder = SnapshotBuilder::new(side.git_ref.as_str());
    let mut references: Vec<Reference> = Vec::new();
    let ghost mut ps: Seq<ParsedFile> = Seq::empty();
    let mut tests_seen: usize = 0;
    let mut i: usize = 0;
    while i < files.len()
        invariant
            0 <= i <= files@.len(),
            fv == files@,
            fv == side.files@,
            builder.git_ref@ == side.git_ref@,
            tests_seen == test_path_count(fv, i as int),
            tests_seen <= i,
            builder.files_considered == if tests {
                tests_seen as nat
            } else {
                i as nat
            },
            builder.files_skipped == if tests {
                0
            } else {
                tests_seen as nat
            },
            builder.files_parsed == parsed_indices(fv, tests, i as int).len(),
            builder.files_parsed <= i,
            parses_of(ps, fv, parsed_indices(fv, tests, i as int)),
            symbol_views(builder.symbols@) == all_symbols(ps),
            reference_views(references@) == all_references(ps),
            views(builder.parse_error_files@) == error_paths(ps),
            builder.files_with_parse_errors == error_paths(ps).len(),
            error_paths(ps).len() <= ps.len(),
            first_unparsed(fv, tests, i as int) is None,
            error_paths(ps).to_set() == syntax_error_paths(fv, tests, i as int),
        decreases files@.len() - i,
    {
        let f = &files[i];
        let is_test = is_test_path(f.path.as_str());
        proof {
            assert(fv[i as int] == *f);
        }
        if is_test {
            tests_seen = tests_seen + 1;
        }
        if is_test != tests {
            if !tests {
                builder.consider_file();
                builder.skip_file();
            }
            proof {
                assert(parsed_indices(fv, tests, i + 1) == parsed_indices(fv, tests, i as int));
                assert(first_unparsed(fv, tests, i + 1) is None);
                assert(syntax_error_paths(fv, tests, i + 1) == syntax_error_paths(fv, tests, i as int));
            }
            i = i + 1;
            continue;
        }
        builder.consider_file();
        match &f.source {
            Some(source) => {
                let parsed = match parse_file(f.path.clone(), source.clone()) {
                    Ok(p) => p,
                    Err(reason) => {
                        let file = f.path.clone();
                        proof {
                            assert(side.files@[i as int].path@ == file@);
                            assert(first_unparsed(fv, tests, i + 1) == Some(i as int));
                            lemma_first_unparsed_stays(fv, tests, i + 1, fv.len() as int);
                        }
                        return Err(FileParseError { file, reason });
                    },
                };
                let symbols = extract_symbols(&parsed);
                let mut refs = extract_references(&parsed);
                let ghost before_refs = reference_views(references@);
                let ghost added = refs@;
                references.append(&mut refs);
                let ghost old_syms = symbol_views(builder.symbols@);
                let ghost sv = symbol_views(symbols@);
                builder.add_parsed_file(&parsed, symbols);
                proof {
                    let old_ps = ps;
                    ps = ps.push(parsed);
                    assert(ps.drop_last() =~= old_ps);
                    assert(symbol_views(builder.symbols@) =~= old_syms + sv);
                    assert(reference_views(references@) =~= before_refs + reference_views(added));
                    assert(parsed_indices(fv, tests, i + 1) == parsed_indices(fv, tests, i as int).push(i as int));
                    assert forall|k: int| 0 <= k < ps.len() implies {
                        let idx = parsed_indices(fv, tests, i + 1);
                        is_parse_of(#[trigger] ps[k], fv[idx[k]].path@, fv[idx[k]].source.unwrap()@)
                    } by {
                        if k < old_ps.len() {
                            assert(ps[k] == old_ps[k]);
                        }
                    }
                    assert(first_unparsed(fv, tests, i + 1) is None);
                    assert(error_paths(ps) == error_paths(old_ps) + if parsed.has_parse_errors {
                        seq![parsed.file@]
                    } else {
                        Seq::<Seq<char>>::empty()
                    });
                    if parsed.has_parse_errors {
                        error_paths(old_ps).lemma_push_to_set_commute(parsed.file@);
                        assert(error_paths(old_ps) + seq![parsed.file@] =~= error_paths(old_ps).push(parsed.file@));
                    } else {
                        assert(error_paths(old_ps) + Seq::<Seq<char>>::empty() =~= error_paths(old_ps));
                    }
                    assert(error_paths(ps).to_set() =~= syntax_error_paths(fv, tests, i + 1));
                }
            },
            None => {
                proof {
                    assert(parsed_indices(fv, tests, i + 1) == parsed_indices(fv, tests, i as int));
                    assert(first_unparsed(fv, tests, i + 1) is None);
                    assert(syntax_error_paths(fv, tests, i + 1) == syntax_error_paths(fv, tests, i as int));
                }
            },
        }
        i = i + 1;
    }
    let snapshot = builder.finish();
    proof {
        assert(parses_of(ps, fv, parsed_indices(fv, tests, fv.len() as int)));
    }
    Ok((snapshot, references))
}

/// Once a file fails to parse, it stays the first that does.
proof fn lemma_first_unparsed_stays(files: Seq<SourceFile>, tests: bool, n: int, m: int)
    requires
        0 < n <= m,
        first_unparsed(files, tests, n) is Some,
    ensures
        first_unparsed(files, tests, m) == first_unparsed(files, tests, n),
    decreases m - n,
{
    if n < m {
        lemma_first_unparsed_stays(files, tests, n, m - 1);
    }
}

} // verus!
