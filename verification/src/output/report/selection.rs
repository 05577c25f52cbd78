//! Which changes the report shows, and what it says of those it leaves out.
use vstd::prelude::*;

use crate::analysis::facts::{Analysis, ReviewSignal, SymbolChange};
use crate::output::report::{Omitted, ReportLimit, ReportVerbosity};
use crate::text::{concat2, concat3, decimal, decimal_spec, owned};

verus! {

/// A change carries a signal other than "path changed only".
pub open spec fn signal_bearing(c: SymbolChange) -> bool {
    exists|k: int| 0 <= k < c.review_signals@.len() && c.review_signals@[k] != ReviewSignal::PathChangedOnly
}

/// The indices of the signal-bearing changes among the first `n`.
pub open spec fn signal_bearing_indices(cs: Seq<SymbolChange>, n: int) -> Seq<int>
    decreases n,
{
    if n <= 0 {
        Seq::empty()
    } else {
        let prev = signal_bearing_indices(cs, n - 1);
        if signal_bearing(cs[n - 1]) {
            prev.push(n - 1)
        } else {
            prev
        }
    }
}

/// The indices of the changes a report shows: all of them in a full
/// report, else the signal-bearing ones up to the limit.
pub open spec fn selection_spec(cs: Seq<SymbolChange>, verbosity: ReportVerbosity, limit: ReportLimit) -> Seq<int> {
    let sb = signal_bearing_indices(cs, cs.len() as int);
    if verbosity == ReportVerbosity::Full {
        Seq::new(cs.len(), |i: int| i)
    } else {
        match limit {
            ReportLimit::Limited(l) => if sb.len() > l {
                sb.subrange(0, l as int)
            } else {
                sb
            },
            ReportLimit::All => sb,
        }
    }
}

/// The changes a report shows, as indices, and how many changes carry a
/// signal.
#[derive(Debug)]
pub struct InspectSelection {
    pub changes: Vec<usize>,
    pub total_signal_bearing: usize,
}

/// Whether a change carries a signal other than "path changed only".
pub fn has_inspect_signal(change: &SymbolChange) -> (r: bool)
    ensures
        r == signal_bearing(*change),
{
    let mut i: usize = 0;
    while i < change.review_signals.len()
        invariant
            0 <= i <= change.review_signals@.len(),
            forall|j: int| 0 <= j < i ==> change.review_signals@[j] == ReviewSignal::PathChangedOnly,
        decreases change.review_signals@.len() - i,
    {
        if change.review_signals[i] != ReviewSignal::PathChangedOnly {
            return true;
        }
        i = i + 1;
    }
    false
}

/// The changes a report shows.
pub fn inspect_selection(analysis: &Analysis, verbosity: ReportVerbosity, limit: ReportLimit) -> (r: InspectSelection)
    ensures
        r.changes@.map_values(|i: usize| i as int) == selection_spec(analysis.symbol_changes@, verbosity, limit),
        r.total_signal_bearing == signal_bearing_indices(
            analysis.symbol_changes@,
            analysis.symbol_changes@.len() as int,
        ).len(),
{
    let cs = &analysis.symbol_changes;
    let mut sb: Vec<usize> = Vec::new();
    let mut all: Vec<usize> = Vec::new();
    let mut k: usize = 0;
    while k < cs.len()
        invariant
            0 <= k <= cs@.len(),
            sb@.map_values(|i: usize| i as int) == signal_bearing_indices(cs@, k as int),
            all@.len() == k,
            forall|j: int| 0 <= j < k ==> all@[j] == j,
            sb@.len() <= k,
        decreases cs@.len() - k,
    {
        if has_inspect_signal(&cs[k]) {
            sb.push(k);
        }
        all.push(k);
        k = k + 1;
        proof {
            assert(sb@.map_values(|i: usize| i as int) =~= signal_bearing_indices(cs@, k as int));
        }
    }
    let total = sb.len();
    let changes = if verbosity == ReportVerbosity::Full {
        proof {
            assert(all@.map_values(|i: usize| i as int) =~= Seq::new(cs@.len(), |i: int| i));
        }
        all
    } else {
        match limit {
            ReportLimit::Limited(l) => {
                if sb.len() > l {
                    let mut taken: Vec<usize> = Vec::new();
                    let mut j: usize = 0;
                    while j < l
                        invariant
                            0 <= j <= l < sb@.len(),
                            taken@ == sb@.subrange(0, j as int),
                        decreases l - j,
                    {
                        taken.push(sb[j]);
                        j = j + 1;
                        proof {
                            assert(taken@ =~= sb@.subrange(0, j as int));
                        }
                    }
                    proof {
                        assert(taken@.map_values(|i: usize| i as int) =~= sb@.map_values(|i: usize| i as int).subrange(0, l as int));
                    }
                    taken
                } else {
                    sb
                }
            },
            ReportLimit::All => sb,
        }
    };
    InspectSelection { changes, total_signal_bearing: total }
}

/// `a - b`, or zero.
pub open spec fn sat_sub(a: usize, b: usize) -> usize {
    if a >= b {
        (a - b) as usize
    } else {
        0
    }
}

/// What the report says of the changes it leaves out: how many, how many
/// of them carry a signal, how many do not, and how to see them.
pub open spec fn omitted_spec(total: usize, total_sb: usize, displayed: usize, displayed_sb: usize) -> Option<(usize, usize, usize, Seq<char>)> {
    if displayed >= total {
        None
    } else {
        let hidden = sat_sub(total_sb, displayed_sb);
        let low = sat_sub(sat_sub(total, total_sb), sat_sub(displayed, displayed_sb));
        if hidden + low == 0 {
            None
        } else {
            let hint = if hidden == 0 {
                "use --format json --verbosity full for full details"@
            } else if low == 0 {
                "use --limit "@ + decimal_spec(total_sb as nat) + " to show all high-signal items"@
            } else {
                "use --limit "@ + decimal_spec(total_sb as nat) + " to show all high-signal items, --verbosity full for "@
                    + decimal_spec(low as nat) + " low-signal facts"@
            };
            Some(((hidden + low) as usize, hidden, low, hint))
        }
    }
}

/// What the report says of the changes it leaves out.
pub fn omitted(total: usize, total_sb: usize, displayed: usize, displayed_sb: usize) -> (r: Option<Omitted>)
    ensures
        match omitted_spec(total, total_sb, displayed, displayed_sb) {
            Some((n, h, l, hint)) => r is Some && r.unwrap().symbol_changes == n && r.unwrap().high_signal
                == h && r.unwrap().low_signal == l && r.unwrap().hint@ == hint,
            None => r is None,
        },
{
    if displayed >= total {
        return None;
    }
    let hidden = total_sb.saturating_sub(displayed_sb);
    let total_low = total.saturating_sub(total_sb);
    let displayed_low = displayed.saturating_sub(displayed_sb);
    let low = total_low.saturating_sub(displayed_low);
    assert(hidden + low <= usize::MAX);
    let count = hidden + low;
    if count == 0 {
        return None;
    }
    let hint = if hidden == 0 {
        owned("use --format json --verbosity full for full details")
    } else if low == 0 {
        let n = decimal(total_sb);
        concat3("use --limit ", n.as_str(), " to show all high-signal items")
    } else {
        let n = decimal(total_sb);
        let l = decimal(low);
        let head = concat3("use --limit ", n.as_str(), " to show all high-signal items, --verbosity full for ");
        concat3(head.as_str(), l.as_str(), " low-signal facts")
    };
    Some(Omitted { symbol_changes: count, high_signal: hidden, low_signal: low, hint })
}

} // verus!
