//! Test movement facts: which test files changed, and which changed
//! production files have a nearby test file among them (for now
//! `tests/test_features.py` is nearby `features.py`).
use vstd::prelude::*;

use crate::analysis::diff::changed_views;
use crate::analysis::facts::{Snapshot, SymbolChange, TestFacts};
use crate::analysis::references::change_target;
use crate::git::{ChangedFile, ChangedFileView};
use crate::paths::{file_name, file_name_of, file_stem, is_test_path, is_test_path_spec, stem_of_name};
use crate::text::{
    chars_of, contains_str, ends_with, has_prefix, has_suffix, insert_sorted, lemma_push_filter,
    starts_with, strictly_sorted, substring, views,
};

verus! {

/// The production stem a test file is nearby: its `.py` file name without
/// the extension and without a `test_` prefix (or else a `_test` suffix);
/// none for other files or an empty stem.
pub open spec fn nearby_stem_spec(p: Seq<char>) -> Option<Seq<char>> {
    let name = file_name_of(p);
    if !has_suffix(name, ".py"@) {
        None
    } else {
        let stem = name.subrange(0, name.len() - 3);
        let s = if has_prefix(stem, "test_"@) {
            stem.subrange(5, stem.len() as int)
        } else if has_suffix(stem, "_test"@) {
            stem.subrange(0, stem.len() - 5)
        } else {
            stem
        };
        if s.len() == 0 {
            None
        } else {
            Some(s)
        }
    }
}

/// The changed paths that are test paths.
pub open spec fn changed_test_set(changed: Seq<ChangedFileView>) -> Set<Seq<char>> {
    Set::new(
        |p: Seq<char>|
            exists|i: int|
                0 <= i < changed.len() && (#[trigger] changed[i]).path == p && is_test_path_spec(p),
    )
}

/// The production stems of the changed test files.
pub open spec fn changed_test_modules(changed: Seq<ChangedFileView>) -> Set<Seq<char>> {
    Set::new(
        |s: Seq<char>|
            exists|p: Seq<char>| #[trigger] changed_test_set(changed).contains(p) && nearby_stem_spec(p) == Some(s),
    )
}

/// The files of the changed symbols that are not test paths.
pub open spec fn changed_production_set(changes: Seq<SymbolChange>) -> Set<Seq<char>> {
    Set::new(
        |p: Seq<char>|
            exists|i: int|
                0 <= i < changes.len() && match change_target(#[trigger] changes[i]) {
                    Some(s) => s.file@ == p,
                    None => false,
                } && !is_test_path_spec(p),
    )
}

/// The predicate "a changed test file is nearby" (or, with `near` false,
/// "none is").
pub open spec fn nearby_in(modules: Set<Seq<char>>, near: bool) -> spec_fn(Seq<char>) -> bool {
    |p: Seq<char>| modules.contains(stem_of_name(file_name_of(p))) == near
}

/// The production stem a test file is nearby, if any.
pub fn nearby_production_stem(path: &str) -> (r: Option<String>)
    ensures
        match r {
            Some(s) => nearby_stem_spec(path@) == Some(s@),
            None => nearby_stem_spec(path@) is None,
        },
{
    let name = file_name(path);
    if !ends_with(name.as_str(), ".py") {
        return None;
    }
    let v = chars_of(name.as_str());
    proof {
        reveal_strlit(".py");
    }
    let stem = substring(v.as_slice(), 0, v.len() - 3);
    let sv = chars_of(stem.as_str());
    let s = if starts_with(stem.as_str(), "test_") {
        proof {
            reveal_strlit("test_");
        }
        substring(sv.as_slice(), 5, sv.len())
    } else if ends_with(stem.as_str(), "_test") {
        proof {
            reveal_strlit("_test");
        }
        substring(sv.as_slice(), 0, sv.len() - 5)
    } else {
        stem
    };
    if chars_of(s.as_str()).len() == 0 {
        None
    } else {
        Some(s)
    }
}

/// What `derive_test_facts` states of its result.
pub open spec fn test_facts_ok(r: TestFacts, changed_files: Seq<ChangedFile>, symbol_changes: Seq<SymbolChange>, test_snapshot: Snapshot) -> bool {
    &&& strictly_sorted(views(r.changed_test_files@), true)
    &&& views(r.changed_test_files@).to_set() == changed_test_set(changed_views(changed_files))
    &&& r.test_files_parsed == test_snapshot.files_parsed
    &&& r.test_files_with_parse_errors == test_snapshot.files_with_parse_errors
    &&& r.test_parse_error_files@ == test_snapshot.parse_error_files@
    &&& strictly_sorted(views(r.production_files_with_nearby_test_changes@), true)
    &&& views(r.production_files_with_nearby_test_changes@).to_set() == changed_production_set(
        symbol_changes,
    ).filter(nearby_in(changed_test_modules(changed_views(changed_files)), true))
    &&& strictly_sorted(views(r.production_files_without_nearby_test_changes@), true)
    &&& views(r.production_files_without_nearby_test_changes@).to_set() == changed_production_set(
        symbol_changes,
    ).filter(nearby_in(changed_test_modules(changed_views(changed_files)), false))
}

/// Test movement facts of a comparison: the changed test files, the parse
/// counts of the head's test snapshot, and the changed production files
/// split by whether a nearby test file changed.  All file lists are sorted
/// paths, each once.
pub fn derive_test_facts(
    changed_files: &[ChangedFile],
    symbol_changes: &[SymbolChange],
    test_snapshot: &Snapshot,
) -> (r: TestFacts)
    ensures
        test_facts_ok(r, changed_files@, symbol_changes@, *test_snapshot),
{
    let ghost cv = changed_views(changed_files@);
    let mut tests: Vec<String> = Vec::new();
    let mut modules: Vec<String> = Vec::new();
    let mut i: usize = 0;
    while i < changed_files.len()
        invariant
            0 <= i <= changed_files.len(),
            cv == changed_views(changed_files@),
            strictly_sorted(views(tests@), true),
            views(tests@).to_set() == changed_test_set(cv.subrange(0, i as int)),
            strictly_sorted(views(modules@), false),
            views(modules@).to_set() == changed_test_modules(cv.subrange(0, i as int)),
        decreases changed_files.len() - i,
    {
        let f = &changed_files[i];
        let ghost pre = cv.subrange(0, i as int);
        let ghost post = cv.subrange(0, i + 1);
        let ghost t0 = views(tests@).to_set();
        let ghost m0 = views(modules@).to_set();
        proof {
            assert(post =~= pre.push(f@));
        }
        if is_test_path(f.path.as_str()) {
            insert_sorted(&mut tests, f.path.clone(), true);
            match nearby_production_stem(f.path.as_str()) {
                Some(s) => {
                    insert_sorted(&mut modules, s, false);
                },
                None => {},
            }
        }
        proof {
            assert(changed_test_set(post) =~= if is_test_path_spec(f.path@) {
                changed_test_set(pre).insert(f.path@)
            } else {
                changed_test_set(pre)
            }) by {
                assert forall|p: Seq<char>| changed_test_set(post).contains(p) implies (if is_test_path_spec(f.path@) {
                    changed_test_set(pre).insert(f.path@)
                } else {
                    changed_test_set(pre)
                }).contains(p) by {
                    let k = choose|k: int| 0 <= k < post.len() && (#[trigger] post[k]).path == p && is_test_path_spec(p);
                    if k < i {
                        assert(pre[k] == post[k]);
                    }
                }
                assert forall|p: Seq<char>| changed_test_set(pre).contains(p) implies changed_test_set(post).contains(p) by {
                    let k = choose|k: int| 0 <= k < pre.len() && (#[trigger] pre[k]).path == p && is_test_path_spec(p);
                    assert(post[k] == pre[k]);
                }
                if is_test_path_spec(f.path@) {
                    assert(post[i as int].path == f.path@);
                }
            }
            assert(views(tests@).to_set() =~= changed_test_set(post));
            assert(views(modules@).to_set() =~= changed_test_modules(post)) by {
                assert forall|s: Seq<char>| changed_test_modules(post).contains(s) implies views(modules@).to_set().contains(s) by {
                    let p = choose|p: Seq<char>| #[trigger] changed_test_set(post).contains(p) && nearby_stem_spec(p) == Some(s);
                    if p != f.path@ || !is_test_path_spec(f.path@) {
                        assert(changed_test_set(pre).contains(p));
                        assert(changed_test_modules(pre).contains(s));
                    }
                }
                assert forall|s: Seq<char>| views(modules@).to_set().contains(s) implies changed_test_modules(post).contains(s) by {
                    if m0.contains(s) {
                        let p = choose|p: Seq<char>| #[trigger] changed_test_set(pre).contains(p) && nearby_stem_spec(p) == Some(s);
                        assert(changed_test_set(post).contains(p));
                    } else {
                        assert(changed_test_set(post).contains(f.path@));
                    }
                }
            }
        }
        i = i + 1;
    }
    proof {
        assert(cv.subrange(0, cv.len() as int) =~= cv);
    }
    let ghost mods = changed_test_modules(cv);
    let mut production: Vec<String> = Vec::new();
    let mut j: usize = 0;
    while j < symbol_changes.len()
        invariant
            0 <= j <= symbol_changes.len(),
            strictly_sorted(views(production@), true),
            views(production@).to_set() == changed_production_set(symbol_changes@.subrange(0, j as int)),
        decreases symbol_changes.len() - j,
    {
        let c = &symbol_changes[j];
        let ghost pre = symbol_changes@.subrange(0, j as int);
        let ghost post = symbol_changes@.subrange(0, j + 1);
        let ghost p0 = views(production@).to_set();
        let target_file: Option<&String> = match &c.after {
            Some(s) => Some(&s.file),
            None => match &c.before {
                Some(s) => Some(&s.file),
                None => None,
            },
        };
        match target_file {
            Some(f) => {
                if !is_test_path(f.as_str()) {
                    insert_sorted(&mut production, f.clone(), true);
                }
            },
            None => {},
        }
        proof {
            assert(post =~= pre.push(*c));
            assert(views(production@).to_set() =~= changed_production_set(post)) by {
                assert forall|p: Seq<char>| changed_production_set(post).contains(p) implies views(production@).to_set().contains(p) by {
                    let k = choose|k: int|
                        0 <= k < post.len() && match change_target(#[trigger] post[k]) {
                            Some(s) => s.file@ == p,
                            None => false,
                        } && !is_test_path_spec(p);
                    if k < j {
                        assert(pre[k] == post[k]);
                        assert(changed_production_set(pre).contains(p));
                    }
                }
                assert forall|p: Seq<char>| views(production@).to_set().contains(p) implies changed_production_set(post).contains(p) by {
                    if p0.contains(p) {
                        let k = choose|k: int|
                            0 <= k < pre.len() && match change_target(#[trigger] pre[k]) {
                                Some(s) => s.file@ == p,
                                None => false,
                            } && !is_test_path_spec(p);
                        assert(post[k] == pre[k]);
                    } else {
                        assert(post[j as int] == *c);
                    }
                }
            }
        }
        j = j + 1;
    }
    proof {
        assert(symbol_changes@.subrange(0, symbol_changes@.len() as int) =~= symbol_changes@);
    }
    let ghost all = views(production@);
    let ghost near = nearby_in(mods, true);
    let ghost far = nearby_in(mods, false);
    let mut with_nearby: Vec<String> = Vec::new();
    let mut without_nearby: Vec<String> = Vec::new();
    let mut k: usize = 0;
    while k < production.len()
        invariant
            0 <= k <= production.len(),
            all == views(production@),
            views(modules@).to_set() == mods,
            near == nearby_in(mods, true),
            far == nearby_in(mods, false),
            views(with_nearby@) == all.subrange(0, k as int).filter(near),
            views(without_nearby@) == all.subrange(0, k as int).filter(far),
        decreases production.len() - k,
    {
        proof {
            assert(all.subrange(0, k + 1) =~= all.subrange(0, k as int).push(all[k as int]));
            lemma_push_filter(all.subrange(0, k as int), near, all[k as int]);
            lemma_push_filter(all.subrange(0, k as int), far, all[k as int]);
        }
        let stem = file_stem(production[k].as_str());
        let found = contains_str(&modules, stem.as_str());
        proof {
            assert(views(modules@).contains(stem@) == mods.contains(stem@));
            assert(all[k as int] == production@[k as int]@);
        }
        if found {
            let ghost before = views(with_nearby@);
            with_nearby.push(production[k].clone());
            proof {
                assert(views(with_nearby@) =~= before.push(all[k as int]));
            }
        } else {
            let ghost before = views(without_nearby@);
            without_nearby.push(production[k].clone());
            proof {
                assert(views(without_nearby@) =~= before.push(all[k as int]));
            }
        }
        k = k + 1;
    }
    proof {
        assert(all.subrange(0, all.len() as int) =~= all);
        crate::text::lemma_filter_sorted(all, near, true);
        crate::text::lemma_filter_sorted(all, far, true);
    }
    let mut parse_error_files: Vec<String> = Vec::new();
    let mut e: usize = 0;
    while e < test_snapshot.parse_error_files.len()
        invariant
            0 <= e <= test_snapshot.parse_error_files.len(),
            parse_error_files@ == test_snapshot.parse_error_files@.subrange(0, e as int),
        decreases test_snapshot.parse_error_files.len() - e,
    {
        parse_error_files.push(test_snapshot.parse_error_files[e].clone());
        e = e + 1;
        proof {
            assert(parse_error_files@ =~= test_snapshot.parse_error_files@.subrange(0, e as int));
        }
    }
    proof {
        assert(parse_error_files@ =~= test_snapshot.parse_error_files@);
    }
    TestFacts {
        changed_test_files: tests,
        test_files_parsed: test_snapshot.files_parsed,
        test_files_with_parse_errors: test_snapshot.files_with_parse_errors,
        test_parse_error_files: parse_error_files,
        production_files_with_nearby_test_changes: with_nearby,
        production_files_without_nearby_test_changes: without_nearby,
    }
}


/// Every changed production file is listed exactly once by the test facts:
/// either among the files with a nearby changed test file or among those
/// without one.
pub proof fn lemma_production_files_split(r: TestFacts, changed_files: Seq<ChangedFile>, symbol_changes: Seq<SymbolChange>, test_snapshot: Snapshot)
    requires
        test_facts_ok(r, changed_files, symbol_changes, test_snapshot),
    ensures
        views(r.production_files_with_nearby_test_changes@).to_set() + views(
            r.production_files_without_nearby_test_changes@,
        ).to_set() == changed_production_set(symbol_changes),
        views(r.production_files_with_nearby_test_changes@).to_set().disjoint(
            views(r.production_files_without_nearby_test_changes@).to_set(),
        ),
{
    let all = changed_production_set(symbol_changes);
    let modules = changed_test_modules(changed_views(changed_files));
    assert(all.filter(nearby_in(modules, true)) + all.filter(nearby_in(modules, false)) =~= all);
}

} // verus!
