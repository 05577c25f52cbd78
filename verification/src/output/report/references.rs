//! Callers and tests of a report item: the call sites that reference a
//! changed symbol, grouped by caller, counted, and previewed up to a limit.
use vstd::prelude::*;

use crate::analysis::facts::{MatchedReference, ReviewSignal, SymbolChange, SymbolReferenceFacts};
use crate::analysis::references::{matched_views, MatchedView};
use crate::language::ReferenceKind;
use crate::output::report::ReportVerbosity;
use crate::python::symbols::{inc, sat_inc};
use crate::text::{concat2, concat3, decimal, decimal_spec, lex_lt, owned, str_order, views};

verus! {

/// How a call site is named: `file::caller`, or `file:line` outside any
/// definition.
pub open spec fn caller_label_spec(m: MatchedView) -> Seq<char> {
    match m.caller_symbol {
        Some(s) => m.file + "::"@ + s,
        None => m.file + ":"@ + decimal_spec(m.line as nat),
    }
}

/// A call or attribute-call reference in a changed (or unchanged) file.
pub open spec fn relevant(m: MatchedView, changed_file: bool) -> bool {
    m.changed_file == changed_file && (m.kind == ReferenceKind::Call || m.kind == ReferenceKind::Attribute)
}

/// The caller labels of the relevant references among `ms`, in order.
pub open spec fn caller_labels_of(ms: Seq<MatchedView>, changed_file: bool) -> Seq<Seq<char>>
    decreases ms.len(),
{
    if ms.len() == 0 {
        Seq::empty()
    } else {
        let prev = caller_labels_of(ms.drop_last(), changed_file);
        if relevant(ms.last(), changed_file) {
            prev.push(caller_label_spec(ms.last()))
        } else {
            prev
        }
    }
}

/// A sorted list of labels with counts, with one more occurrence of `l`.
pub open spec fn insert_count(g: Seq<(Seq<char>, usize)>, l: Seq<char>) -> Seq<(Seq<char>, usize)>
    decreases g.len(),
{
    if g.len() == 0 {
        seq![(l, 1usize)]
    } else if g.last().0 == l {
        g.drop_last().push((l, sat_inc(g.last().1)))
    } else if lex_lt(g.last().0, l, false) {
        g.push((l, 1usize))
    } else {
        insert_count(g.drop_last(), l).push(g.last())
    }
}

/// The distinct labels in order with their number of occurrences.
pub open spec fn group_counts(labels: Seq<Seq<char>>) -> Seq<(Seq<char>, usize)>
    decreases labels.len(),
{
    if labels.len() == 0 {
        Seq::empty()
    } else {
        insert_count(group_counts(labels.drop_last()), labels.last())
    }
}

/// A caller label with its number of call sites when above one.
pub open spec fn count_label_spec(l: Seq<char>, c: usize) -> Seq<char> {
    if c == 1 {
        l
    } else {
        l + " ("@ + decimal_spec(c as nat) + " callsites)"@
    }
}

/// At most `limit` labels, and how many more there were.
pub open spec fn limit_labels(ls: Seq<Seq<char>>, limit: usize) -> Seq<Seq<char>> {
    if ls.len() > limit {
        ls.subrange(0, limit as int).push("+"@ + decimal_spec((ls.len() - limit) as nat) + " more"@)
    } else {
        ls
    }
}

/// The preview limit of a verbosity.
pub open spec fn preview_limit(verbosity: ReportVerbosity, caller_preview_limit: usize) -> usize {
    if verbosity == ReportVerbosity::Full {
        usize::MAX
    } else {
        caller_preview_limit
    }
}

/// The caller labels of a set of reference facts: the relevant references
/// grouped by caller label in label order, each with its count, previewed
/// up to the verbosity's limit.
pub open spec fn reference_labels_spec(ms: Seq<MatchedView>, changed_file: bool, verbosity: ReportVerbosity, caller_preview_limit: usize) -> Seq<Seq<char>> {
    let g = group_counts(caller_labels_of(ms, changed_file));
    limit_labels(
        g.map_values(|e: (Seq<char>, usize)| count_label_spec(e.0, e.1)),
        preview_limit(verbosity, caller_preview_limit),
    )
}

/// How a call site is named.
pub fn caller_label(m: &MatchedReference) -> (r: String)
    ensures
        r@ == caller_label_spec(m@),
{
    match &m.caller_symbol {
        Some(s) => concat3(m.file.as_str(), "::", s.as_str()),
        None => {
            let line = decimal(m.line);
            concat3(m.file.as_str(), ":", line.as_str())
        },
    }
}

/// A caller label with its count.
pub fn caller_count_label(caller: String, count: usize) -> (r: String)
    ensures
        r@ == count_label_spec(caller@, count),
{
    if count == 1 {
        caller
    } else {
        let n = decimal(count);
        let head = concat3(caller.as_str(), " (", n.as_str());
        concat2(head.as_str(), " callsites)")
    }
}

fn insert_counted(g: &mut Vec<(String, usize)>, l: String)
    ensures
        final(g)@.map_values(|e: (String, usize)| (e.0@, e.1)) == insert_count(
            old(g)@.map_values(|e: (String, usize)| (e.0@, e.1)),
            l@,
        ),
    decreases old(g)@.len(),
{
    let ghost gv = old(g)@.map_values(|e: (String, usize)| (e.0@, e.1));
    if g.len() == 0 {
        g.push((l, 1));
        proof {
            assert(final(g)@.map_values(|e: (String, usize)| (e.0@, e.1)) =~= seq![(l@, 1usize)]);
        }
        return ;
    }
    let n = g.len();
    let c = str_order(g[n - 1].0.as_str(), l.as_str(), false);
    if c == 0 {
        let (last, count) = g.pop().unwrap();
        g.push((last, inc(count)));
        proof {
            assert(gv.last().0 == l@);
            assert(final(g)@.map_values(|e: (String, usize)| (e.0@, e.1)) =~= gv.drop_last().push(
                (l@, sat_inc(gv.last().1)),
            ));
        }
        return ;
    }
    if c < 0 {
        g.push((l, 1));
        proof {
            assert(final(g)@.map_values(|e: (String, usize)| (e.0@, e.1)) =~= gv.push((l@, 1usize)));
        }
        return ;
    }
    let last = g.pop().unwrap();
    proof {
        assert(g@.map_values(|e: (String, usize)| (e.0@, e.1)) =~= gv.drop_last());
    }
    insert_counted(g, l);
    let ghost mid = g@.map_values(|e: (String, usize)| (e.0@, e.1));
    g.push(last);
    proof {
        assert(final(g)@.map_values(|e: (String, usize)| (e.0@, e.1)) =~= mid.push(gv.last()));
    }
}

/// The caller labels of a set of reference facts.
pub fn reference_labels(references: &SymbolReferenceFacts, changed_file: bool, verbosity: ReportVerbosity, caller_preview_limit: usize) -> (r: Vec<String>)
    ensures
        views(r@) == reference_labels_spec(
            matched_views(references.matched_references@),
            changed_file,
            verbosity,
            caller_preview_limit,
        ),
{
    let ms = &references.matched_references;
    let ghost mv = matched_views(ms@);
    let mut g: Vec<(String, usize)> = Vec::new();
    let mut k: usize = 0;
    while k < ms.len()
        invariant
            0 <= k <= ms@.len(),
            mv == matched_views(ms@),
            g@.map_values(|e: (String, usize)| (e.0@, e.1)) == group_counts(
                caller_labels_of(mv.subrange(0, k as int), changed_file),
            ),
        decreases ms@.len() - k,
    {
        let m = &ms[k];
        proof {
            assert(mv.subrange(0, k + 1).drop_last() =~= mv.subrange(0, k as int));
            assert(mv.subrange(0, k + 1).last() == m@);
        }
        let is_call = match m.kind {
            ReferenceKind::Call => true,
            ReferenceKind::Attribute => true,
            _ => false,
        };
        let ghost ls = caller_labels_of(mv.subrange(0, k as int), changed_file);
        if m.changed_file == changed_file && is_call {
            let label = caller_label(m);
            insert_counted(&mut g, label);
            proof {
                assert(caller_labels_of(mv.subrange(0, k + 1), changed_file) == ls.push(caller_label_spec(m@)));
                assert(ls.push(caller_label_spec(m@)).drop_last() =~= ls);
                assert(group_counts(ls.push(caller_label_spec(m@))) == insert_count(group_counts(ls), caller_label_spec(m@)));
            }
        } else {
            proof {
                assert(caller_labels_of(mv.subrange(0, k + 1), changed_file) == ls);
            }
        }
        k = k + 1;
    }
    proof {
        assert(mv.subrange(0, mv.len() as int) =~= mv);
    }
    let ghost gv = g@.map_values(|e: (String, usize)| (e.0@, e.1));
    let limit: usize = match verbosity {
        ReportVerbosity::Full => usize::MAX,
        _ => caller_preview_limit,
    };
    let total = g.len();
    let mut labels: Vec<String> = Vec::new();
    let mut j: usize = 0;
    while j < total && j < limit
        invariant
            0 <= j <= total,
            j <= limit,
            total == g@.len(),
            gv == g@.map_values(|e: (String, usize)| (e.0@, e.1)),
            views(labels@) == gv.map_values(|e: (Seq<char>, usize)| count_label_spec(e.0, e.1)).subrange(
                0,
                j as int,
            ),
        decreases total - j,
    {
        let label = caller_count_label(g[j].0.clone(), g[j].1);
        let ghost before = views(labels@);
        labels.push(label);
        proof {
            assert(views(labels@) =~= before.push(label@));
            assert(gv[j as int] == (g@[j as int].0@, g@[j as int].1));
        }
        j = j + 1;
    }
    let ghost all = gv.map_values(|e: (Seq<char>, usize)| count_label_spec(e.0, e.1));
    proof {
        assert(all.len() == total);
        assert(limit == preview_limit(verbosity, caller_preview_limit));
        assert(gv == group_counts(caller_labels_of(matched_views(references.matched_references@), changed_file)));
    }
    if total > limit {
        let more = decimal(total - limit);
        let tail = concat3("+", more.as_str(), " more");
        let ghost before = views(labels@);
        labels.push(tail);
        proof {
            assert(j == limit);
            assert(views(labels@) =~= before.push(tail@));
            assert(views(labels@) =~= limit_labels(all, limit));
        }
    } else {
        proof {
            assert(j == total);
            assert(all.subrange(0, total as int) =~= all);
            assert(views(labels@) =~= limit_labels(all, limit));
        }
    }
    labels
}

/// The caller labels of a change's head-side references in changed (or
/// unchanged) files.
pub fn caller_labels(change: &SymbolChange, changed_file: bool, verbosity: ReportVerbosity, caller_preview_limit: usize) -> (r: Vec<String>)
    ensures
        views(r@) == reference_labels_spec(
            matched_views(change.references_after.matched_references@),
            changed_file,
            verbosity,
            caller_preview_limit,
        ),
{
    reference_labels(&change.references_after, changed_file, verbosity, caller_preview_limit)
}

/// The test part of a report item: the labels of changed and unchanged
/// test callers, and a note when there are none while the implementation
/// changed without test movement.
pub open spec fn test_references_ok(r: (Vec<String>, Vec<String>, Option<String>), c: SymbolChange, verbosity: ReportVerbosity, caller_preview_limit: usize) -> bool {
    let ms = matched_views(c.test_references_after.matched_references@);
    &&& views(r.0@) == reference_labels_spec(ms, true, verbosity, caller_preview_limit)
    &&& views(r.1@) == reference_labels_spec(ms, false, verbosity, caller_preview_limit)
    &&& (r.0@.len() == 0 && r.1@.len() == 0 && c.review_signals@.contains(
        ReviewSignal::ImplementationChangedWithoutTestMovement,
    ) ==> r.2 is Some && r.2.unwrap()@ == "no direct test references found"@)
    &&& (!(r.0@.len() == 0 && r.1@.len() == 0 && c.review_signals@.contains(
        ReviewSignal::ImplementationChangedWithoutTestMovement,
    )) ==> r.2 is None)
}

/// The test part of a report item.
pub fn test_references(change: &SymbolChange, verbosity: ReportVerbosity, caller_preview_limit: usize) -> (r: (Vec<String>, Vec<String>, Option<String>))
    ensures
        test_references_ok(r, *change, verbosity, caller_preview_limit),
{
    let changed = reference_labels(&change.test_references_after, true, verbosity, caller_preview_limit);
    let unchanged = reference_labels(&change.test_references_after, false, verbosity, caller_preview_limit);
    let mut untested = false;
    let mut i: usize = 0;
    while i < change.review_signals.len()
        invariant
            0 <= i <= change.review_signals@.len(),
            untested == exists|j: int| 0 <= j < i && change.review_signals@[j] == ReviewSignal::ImplementationChangedWithoutTestMovement,
        decreases change.review_signals@.len() - i,
    {
        if change.review_signals[i] == ReviewSignal::ImplementationChangedWithoutTestMovement {
            untested = true;
        }
        i = i + 1;
    }
    proof {
        if untested {
            let j = choose|j: int| 0 <= j < i && change.review_signals@[j] == ReviewSignal::ImplementationChangedWithoutTestMovement;
            assert(change.review_signals@.contains(ReviewSignal::ImplementationChangedWithoutTestMovement));
        } else {
            assert(!change.review_signals@.contains(ReviewSignal::ImplementationChangedWithoutTestMovement));
        }
    }
    let tests = if changed.len() == 0 && unchanged.len() == 0 && untested {
        Some(owned("no direct test references found"))
    } else {
        None
    };
    (changed, unchanged, tests)
}

} // verus!
