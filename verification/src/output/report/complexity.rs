//! The complexity part of a report item: the structural metrics that moved
//! by the reporting threshold, or the nonzero metrics of an added or deleted
//! symbol.
use vstd::prelude::*;

use crate::analysis::facts::{ChangeKind, ComplexityDelta, SymbolChange, REVIEW_COMPLEXITY_DELTA_THRESHOLD};
use crate::analysis::diff::complexity_delta_spec;
use crate::language::{ComplexityMetrics, SymbolView};
use crate::output::report::{ComplexityMetricReport, ComplexityReport};
use crate::text::owned;

verus! {

/// The abstract value of a metric report.
pub struct MetricView {
    pub name: Seq<char>,
    pub before: Option<usize>,
    pub after: Option<usize>,
}

impl View for ComplexityMetricReport {
    type V = MetricView;

    open spec fn view(&self) -> MetricView {
        MetricView { name: self.name@, before: self.before, after: self.after }
    }
}

/// The abstract values of metric reports.
pub open spec fn metric_views(s: Seq<ComplexityMetricReport>) -> Seq<MetricView> {
    Seq::new(s.len(), |k: int| s[k]@)
}

/// The seven structural metrics of two counts, named, in report order.
pub open spec fn metric_values(b: ComplexityMetrics, a: ComplexityMetrics) -> Seq<(Seq<char>, usize, usize)> {
    seq![
        ("branches"@, b.branch_count, a.branch_count),
        ("loops"@, b.loop_count, a.loop_count),
        ("bool_ops"@, b.boolean_operator_count, a.boolean_operator_count),
        ("exceptions"@, b.exception_handler_count, a.exception_handler_count),
        ("match"@, b.match_count, a.match_count),
        ("with"@, b.with_count, a.with_count),
        ("nesting"@, b.max_nesting_depth, a.max_nesting_depth),
    ]
}

/// The metrics of `values[k..]` that moved by the threshold.
pub open spec fn moved_from(values: Seq<(Seq<char>, usize, usize)>, k: int) -> Seq<MetricView>
    decreases values.len() - k,
{
    if k < 0 || k >= values.len() {
        Seq::empty()
    } else {
        let (n, b, a) = values[k];
        (if a - b >= REVIEW_COMPLEXITY_DELTA_THRESHOLD || b - a >= REVIEW_COMPLEXITY_DELTA_THRESHOLD {
            seq![MetricView { name: n, before: Some(b), after: Some(a) }]
        } else {
            Seq::empty()
        }) + moved_from(values, k + 1)
    }
}

/// The nonzero metrics of `values[k..]`.
pub open spec fn nonzero_from(values: Seq<(Seq<char>, usize, usize)>, k: int) -> Seq<MetricView>
    decreases values.len() - k,
{
    if k < 0 || k >= values.len() {
        Seq::empty()
    } else {
        let (n, v, _) = values[k];
        (if v > 0 {
            seq![MetricView { name: n, before: None, after: Some(v) }]
        } else {
            Seq::empty()
        }) + nonzero_from(values, k + 1)
    }
}

/// A metric that grew (missing values count as zero).
pub open spec fn grew(m: MetricView) -> bool {
    m.after.unwrap_or(0) > m.before.unwrap_or(0)
}

/// A metric that shrank.
pub open spec fn shrank(m: MetricView) -> bool {
    m.after.unwrap_or(0) < m.before.unwrap_or(0)
}

/// The direction of the moved metrics.
pub open spec fn direction_spec(ms: Seq<MetricView>) -> Seq<char> {
    let up = exists|k: int| 0 <= k < ms.len() && grew(#[trigger] ms[k]);
    let down = exists|k: int| 0 <= k < ms.len() && shrank(#[trigger] ms[k]);
    if up && !down {
        "increased"@
    } else if !up && down {
        "decreased"@
    } else {
        "changed"@
    }
}

/// The complexity report of a change: the moved metrics with their
/// direction; else, for an added or deleted symbol, its nonzero metrics.
pub open spec fn complexity_report_ok(r: Option<ComplexityReport>, c: SymbolChange) -> bool {
    let moved: Seq<MetricView> = match c.complexity_delta {
        Some(d) => moved_from(metric_values(d.before, d.after), 0),
        None => Seq::empty(),
    };
    if moved.len() > 0 {
        r is Some && r.unwrap().status@ == direction_spec(moved) && metric_views(r.unwrap().metrics@) == moved
    } else if c.kinds@.contains(ChangeKind::Added) {
        match c.after {
            Some(s) => r is Some && r.unwrap().status@ == "new"@ && metric_views(r.unwrap().metrics@)
                == nonzero_from(metric_values(s.complexity, s.complexity), 0),
            None => r is None,
        }
    } else if c.kinds@.contains(ChangeKind::Deleted) {
        match c.before {
            Some(s) => r is Some && r.unwrap().status@ == "deleted"@ && metric_views(r.unwrap().metrics@)
                == nonzero_from(metric_values(s.complexity, s.complexity), 0),
            None => r is None,
        }
    } else {
        r is None
    }
}

/// The seven structural metrics of two counts, named, in report order.
pub fn complexity_metric_values(b: &ComplexityMetrics, a: &ComplexityMetrics) -> (r: Vec<(&'static str, usize, usize)>)
    ensures
        r@.len() == 7,
        forall|k: int| 0 <= k < 7 ==> ((#[trigger] r@[k]).0@, r@[k].1, r@[k].2) == metric_values(*b, *a)[k],
{
    let mut r: Vec<(&'static str, usize, usize)> = Vec::new();
    r.push(("branches", b.branch_count, a.branch_count));
    r.push(("loops", b.loop_count, a.loop_count));
    r.push(("bool_ops", b.boolean_operator_count, a.boolean_operator_count));
    r.push(("exceptions", b.exception_handler_count, a.exception_handler_count));
    r.push(("match", b.match_count, a.match_count));
    r.push(("with", b.with_count, a.with_count));
    r.push(("nesting", b.max_nesting_depth, a.max_nesting_depth));
    r
}

/// The metrics that moved by the threshold.
pub fn changed_complexity_metrics(d: &ComplexityDelta) -> (r: Vec<ComplexityMetricReport>)
    ensures
        metric_views(r@) == moved_from(metric_values(d.before, d.after), 0),
{
    let values = complexity_metric_values(&d.before, &d.after);
    let ghost vs = metric_values(d.before, d.after);
    let mut r: Vec<ComplexityMetricReport> = Vec::new();
    let mut k: usize = 0;
    while k < values.len()
        invariant
            0 <= k <= values@.len(),
            values@.len() == 7,
            vs == metric_values(d.before, d.after),
            forall|j: int| 0 <= j < 7 ==> ((#[trigger] values@[j]).0@, values@[j].1, values@[j].2) == vs[j],
            metric_views(r@) + moved_from(vs, k as int) == moved_from(vs, 0),
        decreases values@.len() - k,
    {
        let (n, b, a) = values[k];
        let ghost before = metric_views(r@);
        let moved = (a >= b && a - b >= 2) || (b >= a && b - a >= 2);
        if moved {
            r.push(ComplexityMetricReport { name: owned(n), before: Some(b), after: Some(a) });
        }
        proof {
            assert(vs[k as int] == (n@, b, a));
            let mid: Seq<MetricView> = if a - b >= REVIEW_COMPLEXITY_DELTA_THRESHOLD || b - a
                >= REVIEW_COMPLEXITY_DELTA_THRESHOLD {
                seq![MetricView { name: n@, before: Some(b), after: Some(a) }]
            } else {
                Seq::empty()
            };
            assert(metric_views(r@) =~= before + mid);
            assert(before + (mid + moved_from(vs, k + 1)) =~= metric_views(r@) + moved_from(vs, k + 1));
        }
        k = k + 1;
    }
    proof {
        assert(metric_views(r@) + moved_from(vs, k as int) =~= metric_views(r@));
    }
    r
}

/// The nonzero metrics of one set of counts.
pub fn complexity_snapshot(m: &ComplexityMetrics) -> (r: Vec<ComplexityMetricReport>)
    ensures
        metric_views(r@) == nonzero_from(metric_values(*m, *m), 0),
{
    let values = complexity_metric_values(m, m);
    let ghost vs = metric_values(*m, *m);
    let mut r: Vec<ComplexityMetricReport> = Vec::new();
    let mut k: usize = 0;
    while k < values.len()
        invariant
            0 <= k <= values@.len(),
            values@.len() == 7,
            vs == metric_values(*m, *m),
            forall|j: int| 0 <= j < 7 ==> ((#[trigger] values@[j]).0@, values@[j].1, values@[j].2) == vs[j],
            metric_views(r@) + nonzero_from(vs, k as int) == nonzero_from(vs, 0),
        decreases values@.len() - k,
    {
        let (n, v, _) = values[k];
        let ghost before = metric_views(r@);
        if v > 0 {
            r.push(ComplexityMetricReport { name: owned(n), before: None, after: Some(v) });
        }
        proof {
            let mid: Seq<MetricView> = if v > 0 {
                seq![MetricView { name: n@, before: None, after: Some(v) }]
            } else {
                Seq::empty()
            };
            assert(metric_views(r@) =~= before + mid);
            assert(before + (mid + nonzero_from(vs, k + 1)) =~= metric_views(r@) + nonzero_from(vs, k + 1));
        }
        k = k + 1;
    }
    proof {
        assert(metric_views(r@) + nonzero_from(vs, k as int) =~= metric_views(r@));
    }
    r
}

/// The direction in which the given metrics moved.
pub fn complexity_direction(ms: &Vec<ComplexityMetricReport>) -> (r: &'static str)
    ensures
        r@ == direction_spec(metric_views(ms@)),
{
    let ghost mv = metric_views(ms@);
    let mut up = false;
    let mut down = false;
    let mut k: usize = 0;
    while k < ms.len()
        invariant
            0 <= k <= ms@.len(),
            mv == metric_views(ms@),
            up == exists|j: int| 0 <= j < k && grew(#[trigger] mv[j]),
            down == exists|j: int| 0 <= j < k && shrank(#[trigger] mv[j]),
        decreases ms@.len() - k,
    {
        let b = match ms[k].before {
            Some(x) => x,
            None => 0,
        };
        let a = match ms[k].after {
            Some(x) => x,
            None => 0,
        };
        proof {
            assert(mv[k as int] == ms@[k as int]@);
        }
        if a > b {
            up = true;
        }
        if a < b {
            down = true;
        }
        k = k + 1;
    }
    if up && !down {
        "increased"
    } else if !up && down {
        "decreased"
    } else {
        "changed"
    }
}

fn has_kind(kinds: &Vec<ChangeKind>, kind: ChangeKind) -> (r: bool)
    ensures
        r == kinds@.contains(kind),
{
    let mut i: usize = 0;
    while i < kinds.len()
        invariant
            0 <= i <= kinds.len(),
            forall|j: int| 0 <= j < i ==> kinds@[j] != kind,
        decreases kinds.len() - i,
    {
        if kinds[i] == kind {
            proof {
                assert(kinds@[i as int] == kind);
            }
            return true;
        }
        i = i + 1;
    }
    false
}

/// The complexity report of a change.
pub fn complexity_report(change: &SymbolChange) -> (r: Option<ComplexityReport>)
    ensures
        complexity_report_ok(r, *change),
{
    match &change.complexity_delta {
        Some(d) => {
            let metrics = changed_complexity_metrics(d);
            if metrics.len() > 0 {
                let status = complexity_direction(&metrics);
                return Some(ComplexityReport { status: owned(status), metrics });
            }
        },
        None => {},
    }
    if has_kind(&change.kinds, ChangeKind::Added) {
        return match &change.after {
            Some(s) => Some(ComplexityReport { status: owned("new"), metrics: complexity_snapshot(&s.complexity) }),
            None => None,
        };
    }
    if has_kind(&change.kinds, ChangeKind::Deleted) {
        return match &change.before {
            Some(s) => Some(
                ComplexityReport { status: owned("deleted"), metrics: complexity_snapshot(&s.complexity) },
            ),
            None => None,
        };
    }
    None
}


/// Among the metrics of `values[k..]` that moved by the threshold, one grew
/// exactly when one of those metrics rose by the threshold.
proof fn lemma_moved_grew(values: Seq<(Seq<char>, usize, usize)>, k: int)
    requires
        0 <= k <= values.len(),
    ensures
        (exists|j: int| 0 <= j < moved_from(values, k).len() && grew(#[trigger] moved_from(values, k)[j]))
            <==> (exists|i: int| k <= i < values.len() && #[trigger] values[i].2 - values[i].1 >= REVIEW_COMPLEXITY_DELTA_THRESHOLD),
    decreases values.len() - k,
{
    if k < values.len() {
        lemma_moved_grew(values, k + 1);
        let (n, b, a) = values[k];
        let rest = moved_from(values, k + 1);
        let all = moved_from(values, k);
        let moved = a - b >= REVIEW_COMPLEXITY_DELTA_THRESHOLD || b - a >= REVIEW_COMPLEXITY_DELTA_THRESHOLD;
        let head: Seq<MetricView> = if moved {
            seq![MetricView { name: n, before: Some(b), after: Some(a) }]
        } else {
            Seq::empty()
        };
        assert(all == head + rest);
        if exists|j: int| 0 <= j < all.len() && grew(#[trigger] all[j]) {
            let j = choose|j: int| 0 <= j < all.len() && grew(#[trigger] all[j]);
            if j < head.len() {
                assert(all[j] == head[j]);
                assert(values[k].2 - values[k].1 >= REVIEW_COMPLEXITY_DELTA_THRESHOLD);
            } else {
                assert(all[j] == rest[j - head.len()]);
                assert(grew(rest[j - head.len()]));
            }
        }
        if exists|i: int| k <= i < values.len() && #[trigger] values[i].2 - values[i].1 >= REVIEW_COMPLEXITY_DELTA_THRESHOLD {
            let i = choose|i: int| k <= i < values.len() && #[trigger] values[i].2 - values[i].1 >= REVIEW_COMPLEXITY_DELTA_THRESHOLD;
            if i == k {
                assert(all[0] == head[0]);
                assert(grew(all[0]));
            } else {
                assert(values[i].2 - values[i].1 >= REVIEW_COMPLEXITY_DELTA_THRESHOLD);
                let j = choose|j: int| 0 <= j < rest.len() && grew(#[trigger] rest[j]);
                assert(all[j + head.len()] == rest[j]);
                assert(grew(all[j + head.len()]));
            }
        }
    }
}

/// The complexity signal and the report's complexity part use one
/// threshold: a symbol on both sides is marked as having grown in
/// complexity exactly when its report lists a structural metric that grew.
pub proof fn lemma_complexity_threshold_shared(before: SymbolView, after: SymbolView)
    requires
        complexity_delta_spec(Some(before), Some(after)) is Some,
    ensures
        ({
            let d = complexity_delta_spec(Some(before), Some(after)).unwrap();
            let moved = moved_from(metric_values(d.before, d.after), 0);
            d.reportable_increase() <==> exists|j: int| 0 <= j < moved.len() && grew(#[trigger] moved[j])
        }),
{
    let d = complexity_delta_spec(Some(before), Some(after)).unwrap();
    let values = metric_values(d.before, d.after);
    lemma_moved_grew(values, 0);
    assert forall|i: int| 0 <= i < 7 implies (#[trigger] d.structural()[i] >= REVIEW_COMPLEXITY_DELTA_THRESHOLD
        <==> values[i].2 - values[i].1 >= REVIEW_COMPLEXITY_DELTA_THRESHOLD) by {
        assert(values.len() == 7);
    }
    if d.reportable_increase() {
        let i = choose|i: int| 0 <= i < 7 && d.structural()[i] >= REVIEW_COMPLEXITY_DELTA_THRESHOLD;
        assert(values[i].2 - values[i].1 >= REVIEW_COMPLEXITY_DELTA_THRESHOLD);
    }
    if exists|i: int| 0 <= i < values.len() && #[trigger] values[i].2 - values[i].1 >= REVIEW_COMPLEXITY_DELTA_THRESHOLD {
        let i = choose|i: int| 0 <= i < values.len() && #[trigger] values[i].2 - values[i].1 >= REVIEW_COMPLEXITY_DELTA_THRESHOLD;
        assert(d.structural()[i] >= REVIEW_COMPLEXITY_DELTA_THRESHOLD);
    }
}

} // verus!
