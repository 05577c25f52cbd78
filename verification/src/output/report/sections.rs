//! Assembling the report: the selected changes become items, the methods of
//! an added or deleted class are shown under it, and what is left out is
//! counted.
use vstd::prelude::*;

use crate::analysis::facts::{Analysis, ChangeKind, SymbolChange};
use crate::analysis::references::matched_views;
use crate::language::{short_name, short_name_of, SymbolKind};
use crate::output::report::complexity::{complexity_report, complexity_report_ok};
use crate::output::report::labels::{
    change_labels, change_labels_spec, signature_report, signature_report_ok, verbose_facts,
    verbose_facts_ok,
};
use crate::output::report::references::{
    caller_labels, reference_labels_spec, test_references, test_references_ok,
};
use crate::output::report::selection::{
    has_inspect_signal, inspect_selection, omitted, omitted_spec, selection_spec, signal_bearing,
    signal_bearing_indices,
};
use crate::output::report::{
    InspectItem, InspectMember, ParseErrors, Report, ReportLimit, ReportScope, ReportVerbosity,
};
use crate::text::{concat3, contains_str, has_prefix, owned, starts_with, views};

verus! {

/// The report key of a change: `file::qualified_name`.
pub open spec fn key_spec(c: SymbolChange) -> Seq<char> {
    c.id.file@ + "::"@ + c.id.qualified_name@
}

/// The name of `candidate` below `parent`: what follows `parent.`.
pub open spec fn child_name_spec(parent: Seq<char>, candidate: Seq<char>) -> Option<Seq<char>> {
    if has_prefix(candidate, parent + "."@) {
        Some(candidate.subrange(parent.len() as int + 1, candidate.len() as int))
    } else {
        None
    }
}

/// An added or deleted class, whose changed methods are grouped under it.
pub open spec fn grouping_class(c: SymbolChange) -> bool {
    c.symbol_facts.kind == SymbolKind::Class && (c.kinds@.contains(ChangeKind::Added) || c.kinds@.contains(
        ChangeKind::Deleted,
    ))
}

/// `candidate` is a method of `parent` in the same file, added with an
/// added class or deleted with a deleted one.
pub open spec fn grouped_member(parent: SymbolChange, candidate: SymbolChange) -> bool {
    &&& parent.id.file@ == candidate.id.file@
    &&& candidate.symbol_facts.kind == SymbolKind::Method
    &&& if parent.kinds@.contains(ChangeKind::Added) {
        candidate.kinds@.contains(ChangeKind::Added)
    } else if parent.kinds@.contains(ChangeKind::Deleted) {
        candidate.kinds@.contains(ChangeKind::Deleted)
    } else {
        false
    }
    &&& child_name_spec(parent.id.qualified_name@, candidate.id.qualified_name@) is Some
}

/// Some selected grouping class has `c` as a member.
pub open spec fn member_of_selected(cs: Seq<SymbolChange>, sel: Seq<int>, c: SymbolChange) -> bool {
    exists|t: int|
        0 <= t < sel.len() && grouping_class(cs[#[trigger] sel[t]]) && grouped_member(cs[sel[t]], c)
}

/// The indices, among the first `n` changes, of the members of selected
/// grouping classes.
pub open spec fn member_indices(cs: Seq<SymbolChange>, sel: Seq<int>, n: int) -> Seq<int>
    decreases n,
{
    if n <= 0 {
        Seq::empty()
    } else {
        let prev = member_indices(cs, sel, n - 1);
        if member_of_selected(cs, sel, cs[n - 1]) {
            prev.push(n - 1)
        } else {
            prev
        }
    }
}

/// The members among `ms[k..]` of `parent`.
pub open spec fn members_of(cs: Seq<SymbolChange>, ms: Seq<int>, parent: SymbolChange, k: int) -> Seq<int>
    decreases ms.len() - k,
{
    if k < 0 || k >= ms.len() {
        Seq::empty()
    } else {
        (if grouped_member(parent, cs[ms[k]]) {
            seq![ms[k]]
        } else {
            Seq::empty()
        }) + members_of(cs, ms, parent, k + 1)
    }
}

/// Where grouping stands: the keys shown so far (each once), how many of
/// them carry a signal, and the items planned (change index and member
/// indices).
pub struct PlanState {
    pub keys: Seq<Seq<char>>,
    pub sb: nat,
    pub plan: Seq<(int, Seq<int>)>,
}

/// The state after showing change `c`.
pub open spec fn add_key(st: PlanState, c: SymbolChange) -> PlanState {
    if st.keys.contains(key_spec(c)) {
        st
    } else {
        PlanState {
            keys: st.keys.push(key_spec(c)),
            sb: if signal_bearing(c) {
                st.sb + 1
            } else {
                st.sb
            },
            ..st
        }
    }
}

/// The state after showing the members `ms[k..]`.
pub open spec fn add_members(cs: Seq<SymbolChange>, st: PlanState, ms: Seq<int>, k: int) -> PlanState
    decreases ms.len() - k,
{
    if k < 0 || k >= ms.len() {
        st
    } else {
        add_members(cs, add_key(st, cs[ms[k]]), ms, k + 1)
    }
}

/// Some member's key is the key of `c`.
pub open spec fn is_member_key(cs: Seq<SymbolChange>, members: Seq<int>, c: SymbolChange) -> bool {
    exists|m: int| 0 <= m < members.len() && key_spec(cs[#[trigger] members[m]]) == key_spec(c)
}

/// The grouping of the selected changes `sel[t..]`: members are shown
/// under their class and not as items of their own.
pub open spec fn plan_fold(cs: Seq<SymbolChange>, sel: Seq<int>, members: Seq<int>, t: int, st: PlanState) -> PlanState
    decreases sel.len() - t,
{
    if t < 0 || t >= sel.len() {
        st
    } else {
        let c = cs[sel[t]];
        if is_member_key(cs, members, c) {
            plan_fold(cs, sel, members, t + 1, st)
        } else {
            let ms = members_of(cs, members, c, 0);
            let st2 = add_members(cs, add_key(st, c), ms, 0);
            plan_fold(cs, sel, members, t + 1, PlanState { plan: st2.plan.push((sel[t], ms)), ..st2 })
        }
    }
}

/// The grouping of a selection.
pub open spec fn grouping_spec(cs: Seq<SymbolChange>, sel: Seq<int>, verbosity: ReportVerbosity) -> PlanState {
    if verbosity == ReportVerbosity::Full {
        PlanState {
            keys: Seq::new(sel.len(), |t: int| key_spec(cs[sel[t]])),
            sb: sel.filter(|i: int| signal_bearing(cs[i])).len(),
            plan: Seq::new(sel.len(), |t: int| (sel[t], Seq::<int>::empty())),
        }
    } else {
        plan_fold(
            cs,
            sel,
            member_indices(cs, sel, cs.len() as int),
            0,
            PlanState { keys: Seq::empty(), sb: 0, plan: Seq::empty() },
        )
    }
}

/// Everything an item of the report states of its change.
pub open spec fn inspect_item_ok(item: InspectItem, c: SymbolChange, verbosity: ReportVerbosity, caller_preview_limit: usize) -> bool {
    &&& item.symbol@ == key_spec(c)
    &&& views(item.changes@) == change_labels_spec(c)
    &&& signature_report_ok(item.signature, c)
    &&& complexity_report_ok(item.complexity, c)
    &&& test_references_ok((item.changed_tests, item.unchanged_tests, item.tests), c, verbosity, caller_preview_limit)
    &&& views(item.unchanged_callers@) == reference_labels_spec(
        matched_views(c.references_after.matched_references@),
        false,
        verbosity,
        caller_preview_limit,
    )
    &&& views(item.changed_callers@) == reference_labels_spec(
        matched_views(c.references_after.matched_references@),
        true,
        verbosity,
        caller_preview_limit,
    )
    &&& (verbosity != ReportVerbosity::Normal ==> item.facts is Some && verbose_facts_ok(item.facts.unwrap(), c))
    &&& (verbosity == ReportVerbosity::Normal ==> item.facts is None)
}

/// Everything a member line states of its method.
pub open spec fn member_ok(m: InspectMember, parent: SymbolChange, member: SymbolChange, verbosity: ReportVerbosity) -> bool {
    &&& m.name@ == match child_name_spec(parent.id.qualified_name@, member.id.qualified_name@) {
        Some(n) => n,
        None => short_name_of(member.id.qualified_name@),
    }
    &&& views(m.changes@) == change_labels_spec(member)
    &&& complexity_report_ok(m.complexity, member)
    &&& (verbosity != ReportVerbosity::Normal ==> m.facts is Some && verbose_facts_ok(m.facts.unwrap(), member))
    &&& (verbosity == ReportVerbosity::Normal ==> m.facts is None)
}

/// An item with its members, as planned.
pub open spec fn planned_item_ok(item: InspectItem, cs: Seq<SymbolChange>, p: (int, Seq<int>), verbosity: ReportVerbosity, caller_preview_limit: usize) -> bool {
    &&& 0 <= p.0 < cs.len()
    &&& inspect_item_ok(item, cs[p.0], verbosity, caller_preview_limit)
    &&& item.members@.len() == p.1.len()
    &&& forall|j: int|
        0 <= j < p.1.len() ==> 0 <= p.1[j] < cs.len() && member_ok(
            #[trigger] item.members@[j],
            cs[p.0],
            cs[p.1[j]],
            verbosity,
        )
}

/// The name of `candidate` below `parent`.
pub fn child_name(parent: &str, candidate: &str) -> (r: Option<String>)
    ensures
        match r {
            Some(n) => child_name_spec(parent@, candidate@) == Some(n@),
            None => child_name_spec(parent@, candidate@) is None,
        },
{
    let prefix = crate::text::concat2(parent, ".");
    if !starts_with(candidate, prefix.as_str()) {
        return None;
    }
    let cv = crate::text::chars_of(candidate);
    let pv = crate::text::chars_of(prefix.as_str());
    proof {
        reveal_strlit(".");
        assert(pv@.len() == parent@.len() + 1);
    }
    Some(crate::text::substring(cv.as_slice(), pv.len(), cv.len()))
}

/// The report key of a change.
pub fn change_key(change: &SymbolChange) -> (r: String)
    ensures
        r@ == key_spec(*change),
{
    concat3(change.id.file.as_str(), "::", change.id.qualified_name.as_str())
}

fn has_kind(kinds: &Vec<ChangeKind>, kind: ChangeKind) -> (r: bool)
    ensures
        r == kinds@.contains(kind),
{
    let mut i: usize = 0;
    while i < kinds.len()
        invariant
            0 <= i <= kinds.len(),
            forall|j: int| 0 <= j < i ==> kinds@[j] != kind,
        decreases kinds.len() - i,
    {
        if kinds[i] == kind {
            proof {
                assert(kinds@[i as int] == kind);
            }
            return true;
        }
        i = i + 1;
    }
    false
}

/// Whether a change is an added or deleted class.
pub fn is_grouping_class(change: &SymbolChange) -> (r: bool)
    ensures
        r == grouping_class(*change),
{
    change.symbol_facts.kind == SymbolKind::Class && (has_kind(&change.kinds, ChangeKind::Added)
        || has_kind(&change.kinds, ChangeKind::Deleted))
}

/// Whether `candidate` is grouped under `parent`.
pub fn is_grouped_member(parent: &SymbolChange, candidate: &SymbolChange) -> (r: bool)
    ensures
        r == grouped_member(*parent, *candidate),
{
    if !crate::text::str_eq(parent.id.file.as_str(), candidate.id.file.as_str())
        || candidate.symbol_facts.kind != SymbolKind::Method {
        return false;
    }
    let expected = if has_kind(&parent.kinds, ChangeKind::Added) {
        ChangeKind::Added
    } else if has_kind(&parent.kinds, ChangeKind::Deleted) {
        ChangeKind::Deleted
    } else {
        return false;
    };
    has_kind(&candidate.kinds, expected) && child_name(
        parent.id.qualified_name.as_str(),
        candidate.id.qualified_name.as_str(),
    ).is_some()
}

/// The indices of the members of the selected grouping classes.
pub fn grouped_member_changes(analysis: &Analysis, selected: &Vec<usize>) -> (r: Vec<usize>)
    requires
        forall|t: int| 0 <= t < selected@.len() ==> #[trigger] selected@[t] < analysis.symbol_changes@.len(),
    ensures
        r@.map_values(|i: usize| i as int) == member_indices(
            analysis.symbol_changes@,
            selected@.map_values(|i: usize| i as int),
            analysis.symbol_changes@.len() as int,
        ),
        forall|j: int| 0 <= j < r@.len() ==> #[trigger] r@[j] < analysis.symbol_changes@.len(),
{
    let cs = &analysis.symbol_changes;
    let ghost sel = selected@.map_values(|i: usize| i as int);
    let mut r: Vec<usize> = Vec::new();
    let mut k: usize = 0;
    while k < cs.len()
        invariant
            0 <= k <= cs@.len(),
            sel == selected@.map_values(|i: usize| i as int),
            forall|t: int| 0 <= t < selected@.len() ==> #[trigger] selected@[t] < cs@.len(),
            r@.map_values(|i: usize| i as int) == member_indices(cs@, sel, k as int),
            forall|j: int| 0 <= j < r@.len() ==> #[trigger] r@[j] < k,
        decreases cs@.len() - k,
    {
        let mut found = false;
        let mut t: usize = 0;
        while t < selected.len() && !found
            invariant
                0 <= t <= selected@.len(),
                k < cs@.len(),
                sel == selected@.map_values(|i: usize| i as int),
                forall|u: int| 0 <= u < selected@.len() ==> #[trigger] selected@[u] < cs@.len(),
                found ==> member_of_selected(cs@, sel, cs@[k as int]),
                !found ==> forall|u: int|
                    0 <= u < t ==> !(grouping_class(cs@[#[trigger] sel[u]]) && grouped_member(
                        cs@[sel[u]],
                        cs@[k as int],
                    )),
            decreases selected@.len() - t,
        {
            let p = &cs[selected[t]];
            if is_grouping_class(p) && is_grouped_member(p, &cs[k]) {
                found = true;
                proof {
                    assert(sel[t as int] == selected@[t as int]);
                }
            }
            t = t + 1;
        }
        proof {
            if !found {
                assert(!member_of_selected(cs@, sel, cs@[k as int]));
            }
        }
        if found {
            r.push(k);
        }
        k = k + 1;
        proof {
            assert(r@.map_values(|i: usize| i as int) =~= member_indices(cs@, sel, k as int));
        }
    }
    r
}


/// The item of a change.
pub fn inspect_item(change: &SymbolChange, members: Vec<InspectMember>, verbosity: ReportVerbosity, caller_preview_limit: usize) -> (r: InspectItem)
    ensures
        inspect_item_ok(r, *change, verbosity, caller_preview_limit),
        r.members == members,
{
    let (changed_tests, unchanged_tests, tests) = test_references(change, verbosity, caller_preview_limit);
    InspectItem {
        symbol: change_key(change),
        changes: change_labels(change),
        members,
        signature: signature_report(change),
        complexity: complexity_report(change),
        changed_tests,
        unchanged_tests,
        tests,
        unchanged_callers: caller_labels(change, false, verbosity, caller_preview_limit),
        changed_callers: caller_labels(change, true, verbosity, caller_preview_limit),
        facts: if verbosity != ReportVerbosity::Normal {
            Some(verbose_facts(change))
        } else {
            None
        },
    }
}

/// The member line of a method under its class.
pub fn inspect_member(parent: &SymbolChange, member: &SymbolChange, verbosity: ReportVerbosity) -> (r: InspectMember)
    ensures
        member_ok(r, *parent, *member, verbosity),
{
    let name = match child_name(parent.id.qualified_name.as_str(), member.id.qualified_name.as_str()) {
        Some(n) => n,
        None => short_name(member.id.qualified_name.as_str()),
    };
    InspectMember {
        name,
        changes: change_labels(member),
        complexity: complexity_report(member),
        facts: if verbosity != ReportVerbosity::Normal {
            Some(verbose_facts(member))
        } else {
            None
        },
    }
}

/// The items of a report and how many changes and signal-bearing changes
/// they show.
#[derive(Debug)]
pub struct GroupedInspect {
    pub items: Vec<InspectItem>,
    pub displayed_changes: usize,
    pub displayed_signal_bearing: usize,
}

fn members_for(cs: &Vec<SymbolChange>, members: &Vec<usize>, parent: &SymbolChange) -> (r: Vec<usize>)
    requires
        forall|j: int| 0 <= j < members@.len() ==> #[trigger] members@[j] < cs@.len(),
    ensures
        r@.map_values(|i: usize| i as int) == members_of(cs@, members@.map_values(|i: usize| i as int), *parent, 0),
        forall|j: int| 0 <= j < r@.len() ==> #[trigger] r@[j] < cs@.len(),
{
    let ghost mv = members@.map_values(|i: usize| i as int);
    let mut r: Vec<usize> = Vec::new();
    let mut k: usize = 0;
    while k < members.len()
        invariant
            0 <= k <= members@.len(),
            mv == members@.map_values(|i: usize| i as int),
            forall|j: int| 0 <= j < members@.len() ==> #[trigger] members@[j] < cs@.len(),
            forall|j: int| 0 <= j < r@.len() ==> #[trigger] r@[j] < cs@.len(),
            r@.map_values(|i: usize| i as int) + members_of(cs@, mv, *parent, k as int) == members_of(cs@, mv, *parent, 0),
        decreases members@.len() - k,
    {
        let m = members[k];
        let ghost before = r@.map_values(|i: usize| i as int);
        if is_grouped_member(parent, &cs[m]) {
            r.push(m);
        }
        proof {
            let mid: Seq<int> = if grouped_member(*parent, cs@[mv[k as int]]) {
                seq![mv[k as int]]
            } else {
                Seq::empty()
            };
            assert(r@.map_values(|i: usize| i as int) =~= before + mid);
            assert(before + (mid + members_of(cs@, mv, *parent, k + 1)) =~= r@.map_values(|i: usize| i as int)
                + members_of(cs@, mv, *parent, k + 1));
        }
        k = k + 1;
    }
    proof {
        assert(r@.map_values(|i: usize| i as int) + members_of(cs@, mv, *parent, k as int) =~= r@.map_values(|i: usize| i as int));
    }
    r
}

fn add_key_exec(keys: &mut Vec<String>, sb: &mut usize, c: &SymbolChange, Ghost(plan): Ghost<Seq<(int, Seq<int>)>>)
    requires
        *old(sb) <= old(keys)@.len(),
    ensures
        (PlanState { keys: views(final(keys)@), sb: *final(sb) as nat, plan }) == add_key(
            PlanState { keys: views(old(keys)@), sb: *old(sb) as nat, plan },
            *c,
        ),
        *final(sb) <= final(keys)@.len(),
{
    let key = change_key(c);
    if !contains_str(keys, key.as_str()) {
        let ghost before = views(keys@);
        keys.push(key);
        let n = keys.len();
        proof {
            assert(views(keys@) =~= before.push(key_spec(*c)));
        }
        if has_inspect_signal(c) {
            *sb = *sb + 1;
        }
    }
}

/// The items of a report: in a full report every selected change on its
/// own; otherwise the selected changes in order, each added or deleted
/// class with its added or deleted methods under it, and those methods not
/// again on their own.
pub fn grouped_inspect_items(analysis: &Analysis, selected: &Vec<usize>, verbosity: ReportVerbosity, caller_preview_limit: usize) -> (r: GroupedInspect)
    requires
        forall|t: int| 0 <= t < selected@.len() ==> #[trigger] selected@[t] < analysis.symbol_changes@.len(),
    ensures
        ({
            let g = grouping_spec(
                analysis.symbol_changes@,
                selected@.map_values(|i: usize| i as int),
                verbosity,
            );
            &&& r.items@.len() == g.plan.len()
            &&& forall|k: int|
                0 <= k < r.items@.len() ==> planned_item_ok(
                    #[trigger] r.items@[k],
                    analysis.symbol_changes@,
                    g.plan[k],
                    verbosity,
                    caller_preview_limit,
                )
            &&& r.displayed_changes == g.keys.len()
            &&& r.displayed_signal_bearing == g.sb
        }),
{
    let cs = &analysis.symbol_changes;
    let ghost sel = selected@.map_values(|i: usize| i as int);
    if verbosity == ReportVerbosity::Full {
        let ghost g = grouping_spec(cs@, sel, verbosity);
        let mut items: Vec<InspectItem> = Vec::new();
        let mut sb: usize = 0;
        let mut t: usize = 0;
        while t < selected.len()
            invariant
                0 <= t <= selected@.len(),
                sel == selected@.map_values(|i: usize| i as int),
                g == grouping_spec(cs@, sel, verbosity),
                verbosity == ReportVerbosity::Full,
                forall|u: int| 0 <= u < selected@.len() ==> #[trigger] selected@[u] < cs@.len(),
                items@.len() == t,
                sb <= t,
                sb == sel.subrange(0, t as int).filter(|i: int| signal_bearing(cs@[i])).len(),
                forall|k: int|
                    0 <= k < t ==> planned_item_ok(#[trigger] items@[k], cs@, g.plan[k], verbosity, caller_preview_limit),
            decreases selected@.len() - t,
        {
            let c = &cs[selected[t]];
            let item = inspect_item(c, Vec::new(), verbosity, caller_preview_limit);
            let ghost before = items@;
            items.push(item);
            proof {
                assert(g.plan[t as int] == (sel[t as int], Seq::<int>::empty()));
                assert forall|k: int| 0 <= k < t + 1 implies planned_item_ok(
                    #[trigger] items@[k],
                    cs@,
                    g.plan[k],
                    verbosity,
                    caller_preview_limit,
                ) by {
                    if k < t {
                        assert(items@[k] == before[k]);
                    }
                }
                assert(sel.subrange(0, t + 1) =~= sel.subrange(0, t as int).push(sel[t as int]));
                crate::text::lemma_push_filter(sel.subrange(0, t as int), |i: int| signal_bearing(cs@[i]), sel[t as int]);
            }
            if has_inspect_signal(c) {
                sb = sb + 1;
            }
            t = t + 1;
        }
        proof {
            assert(sel.subrange(0, sel.len() as int) =~= sel);
        }
        return GroupedInspect { items, displayed_changes: selected.len(), displayed_signal_bearing: sb };
    }
    let members = grouped_member_changes(analysis, selected);
    let ghost mv = members@.map_values(|i: usize| i as int);
    let mut member_keys: Vec<String> = Vec::new();
    let mut j: usize = 0;
    while j < members.len()
        invariant
            0 <= j <= members@.len(),
            member_keys@.len() == j,
            forall|u: int| 0 <= u < j ==> (#[trigger] member_keys@[u])@ == key_spec(cs@[members@[u] as int]),
            forall|u: int| 0 <= u < members@.len() ==> #[trigger] members@[u] < cs@.len(),
        decreases members@.len() - j,
    {
        member_keys.push(change_key(&cs[members[j]]));
        j = j + 1;
    }
    let ghost final_state = grouping_spec(cs@, sel, verbosity);
    let mut keys: Vec<String> = Vec::new();
    let mut sb: usize = 0;
    let mut items: Vec<InspectItem> = Vec::new();
    let ghost mut plan: Seq<(int, Seq<int>)> = Seq::empty();
    let mut t: usize = 0;
    proof {
        assert(views(keys@) =~= Seq::<Seq<char>>::empty());
    }
    while t < selected.len()
        invariant
            0 <= t <= selected@.len(),
            sel == selected@.map_values(|i: usize| i as int),
            mv == members@.map_values(|i: usize| i as int),
            mv == member_indices(cs@, sel, cs@.len() as int),
            verbosity != ReportVerbosity::Full,
            final_state == grouping_spec(cs@, sel, verbosity),
            forall|u: int| 0 <= u < selected@.len() ==> #[trigger] selected@[u] < cs@.len(),
            forall|u: int| 0 <= u < members@.len() ==> #[trigger] members@[u] < cs@.len(),
            member_keys@.len() == members@.len(),
            forall|u: int| 0 <= u < members@.len() ==> (#[trigger] member_keys@[u])@ == key_spec(cs@[members@[u] as int]),
            sb <= keys@.len(),
            plan_fold(cs@, sel, mv, t as int, PlanState { keys: views(keys@), sb: sb as nat, plan }) == final_state,
            items@.len() == plan.len(),
            forall|k: int|
                0 <= k < items@.len() ==> planned_item_ok(#[trigger] items@[k], cs@, plan[k], verbosity, caller_preview_limit),
        decreases selected@.len() - t,
    {
        let ci = selected[t];
        let c = &cs[ci];
        let key = change_key(c);
        let is_member = contains_str(&member_keys, key.as_str());
        proof {
            assert(sel[t as int] == ci as int);
            if is_member {
                let u = choose|u: int| 0 <= u < views(member_keys@).len() && views(member_keys@)[u] == key@;
                assert(key_spec(cs@[mv[u]]) == key_spec(*c));
                assert(is_member_key(cs@, mv, *c));
            } else {
                assert forall|u: int| 0 <= u < mv.len() implies key_spec(cs@[#[trigger] mv[u]]) != key_spec(*c) by {
                    assert(views(member_keys@)[u] == member_keys@[u]@);
                }
            }
        }
        if is_member {
            t = t + 1;
            continue;
        }
        let ghost st0 = PlanState { keys: views(keys@), sb: sb as nat, plan };
        add_key_exec(&mut keys, &mut sb, c, Ghost(plan));
        let ms = members_for(cs, &members, c);
        let ghost msv = ms@.map_values(|i: usize| i as int);
        let mut member_items: Vec<InspectMember> = Vec::new();
        let mut q: usize = 0;
        while q < ms.len()
            invariant
                0 <= q <= ms@.len(),
                msv == ms@.map_values(|i: usize| i as int),
                forall|u: int| 0 <= u < ms@.len() ==> #[trigger] ms@[u] < cs@.len(),
                sb <= keys@.len(),
                add_members(cs@, add_key(st0, *c), msv, 0) == add_members(
                    cs@,
                    PlanState { keys: views(keys@), sb: sb as nat, plan },
                    msv,
                    q as int,
                ),
                member_items@.len() == q,
                forall|u: int| 0 <= u < q ==> member_ok(#[trigger] member_items@[u], *c, cs@[msv[u]], verbosity),
            decreases ms@.len() - q,
        {
            let m = &cs[ms[q]];
            add_key_exec(&mut keys, &mut sb, m, Ghost(plan));
            member_items.push(inspect_member(c, m, verbosity));
            q = q + 1;
        }
        let item = inspect_item(c, member_items, verbosity, caller_preview_limit);
        let ghost before_items = items@;
        items.push(item);
        proof {
            let st2 = add_members(cs@, add_key(st0, *c), msv, 0);
            assert(PlanState { keys: views(keys@), sb: sb as nat, plan } == st2);
            plan = plan.push((ci as int, msv));
            assert forall|k: int| 0 <= k < items@.len() implies planned_item_ok(
                #[trigger] items@[k],
                cs@,
                plan[k],
                verbosity,
                caller_preview_limit,
            ) by {
                if k < before_items.len() {
                    assert(items@[k] == before_items[k]);
                }
            }
        }
        t = t + 1;
    }
    GroupedInspect { items, displayed_changes: keys.len(), displayed_signal_bearing: sb }
}

/// The number of parsed files with syntax errors over all snapshots,
/// saturating.
pub open spec fn parse_error_total(a: Analysis) -> usize {
    let s1 = a.before.files_with_parse_errors + a.after.files_with_parse_errors;
    let s1c: usize = if s1 > usize::MAX {
        usize::MAX
    } else {
        s1 as usize
    };
    let s2 = s1c + a.test_facts.test_files_with_parse_errors;
    if s2 > usize::MAX {
        usize::MAX
    } else {
        s2 as usize
    }
}

/// The number of parsed files with syntax errors.
pub fn parse_error_count(analysis: &Analysis) -> (r: usize)
    ensures
        r == parse_error_total(*analysis),
{
    analysis.before.files_with_parse_errors.saturating_add(analysis.after.files_with_parse_errors).saturating_add(
        analysis.test_facts.test_files_with_parse_errors,
    )
}

/// The note of a report without symbol changes.
pub open spec fn empty_note() -> Seq<char> {
    "No Python file changes inside sniffdiff's symbol model were detected."@
}

/// Everything `build_report` states of its report.
pub open spec fn report_ok(r: Report, a: Analysis, verbosity: ReportVerbosity, limit: ReportLimit, caller_preview_limit: usize) -> bool {
    let cs = a.symbol_changes@;
    let sel = selection_spec(cs, verbosity, limit);
    let g = grouping_spec(cs, sel, verbosity);
    let total_sb = signal_bearing_indices(cs, cs.len() as int).len();
    &&& r.schema_version == 1
    &&& r.verbosity == verbosity
    &&& r.scope.changed_files == a.changed_files@.len()
    &&& r.scope.changed_symbols == cs.len()
    &&& r.scope.changed_test_files == a.test_facts.changed_test_files@.len()
    &&& (parse_error_total(a) > 0 ==> r.parse_errors is Some && r.parse_errors.unwrap().files == parse_error_total(a))
    &&& (parse_error_total(a) == 0 ==> r.parse_errors is None)
    &&& (cs.len() == 0 ==> r.note is Some && r.note.unwrap()@ == empty_note())
    &&& (cs.len() > 0 ==> r.note is None)
    &&& r.inspect@.len() == g.plan.len()
    &&& (forall|k: int|
        0 <= k < r.inspect@.len() ==> planned_item_ok(#[trigger] r.inspect@[k], cs, g.plan[k], verbosity, caller_preview_limit))
    &&& match omitted_spec(cs.len() as usize, total_sb as usize, g.keys.len() as usize, g.sb as usize) {
        Some((n, h, l, hint)) => r.omitted is Some && r.omitted.unwrap().symbol_changes == n
            && r.omitted.unwrap().high_signal == h && r.omitted.unwrap().low_signal == l
            && r.omitted.unwrap().hint@ == hint,
        None => r.omitted is None,
    }
}

/// The review report of an analysis.
pub fn build_report(analysis: &Analysis, verbosity: ReportVerbosity, limit: ReportLimit, caller_preview_limit: usize) -> (r: Report)
    ensures
        report_ok(r, *analysis, verbosity, limit, caller_preview_limit),
{
    let selection = inspect_selection(analysis, verbosity, limit);
    proof {
        lemma_selection_in_range(analysis.symbol_changes@, verbosity, limit);
        assert forall|t: int| 0 <= t < selection.changes@.len() implies #[trigger] selection.changes@[t]
            < analysis.symbol_changes@.len() by {
            assert(selection.changes@.map_values(|i: usize| i as int)[t] == selection.changes@[t] as int);
        }
    }
    let parse_errors = parse_error_count(analysis);
    let grouped = grouped_inspect_items(analysis, &selection.changes, verbosity, caller_preview_limit);
    let omitted = omitted(
        analysis.symbol_changes.len(),
        selection.total_signal_bearing,
        grouped.displayed_changes,
        grouped.displayed_signal_bearing,
    );
    Report {
        schema_version: 1,
        verbosity,
        scope: ReportScope {
            changed_files: analysis.changed_files.len(),
            changed_symbols: analysis.symbol_changes.len(),
            changed_test_files: analysis.test_facts.changed_test_files.len(),
        },
        parse_errors: if parse_errors > 0 {
            Some(ParseErrors { files: parse_errors })
        } else {
            None
        },
        note: if analysis.symbol_changes.len() == 0 {
            Some(owned("No Python file changes inside sniffdiff's symbol model were detected."))
        } else {
            None
        },
        inspect: grouped.items,
        omitted,
    }
}

/// Signal-bearing indices are indices of changes.
pub proof fn lemma_indices_in_range(cs: Seq<SymbolChange>, n: int)
    requires
        0 <= n <= cs.len(),
    ensures
        forall|k: int|
            0 <= k < signal_bearing_indices(cs, n).len() ==> 0 <= #[trigger] signal_bearing_indices(cs, n)[k] < n,
    decreases n,
{
    if n > 0 {
        lemma_indices_in_range(cs, n - 1);
        let prev = signal_bearing_indices(cs, n - 1);
        let now = signal_bearing_indices(cs, n);
        assert forall|k: int| 0 <= k < now.len() implies 0 <= #[trigger] now[k] < n by {
            if signal_bearing(cs[n - 1]) {
                assert(now == prev.push(n - 1));
                if k < prev.len() {
                    assert(now[k] == prev[k]);
                }
            } else {
                assert(now == prev);
            }
        }
    }
}

/// The selected indices are indices of changes.
pub proof fn lemma_selection_in_range(cs: Seq<SymbolChange>, verbosity: ReportVerbosity, limit: ReportLimit)
    ensures
        forall|t: int|
            0 <= t < selection_spec(cs, verbosity, limit).len() ==> 0 <= #[trigger] selection_spec(
                cs,
                verbosity,
                limit,
            )[t] < cs.len(),
{
    lemma_indices_in_range(cs, cs.len() as int);
    let sb = signal_bearing_indices(cs, cs.len() as int);
    let s = selection_spec(cs, verbosity, limit);
    assert forall|t: int| 0 <= t < s.len() implies 0 <= #[trigger] s[t] < cs.len() by {
        if verbosity != ReportVerbosity::Full {
            match limit {
                ReportLimit::Limited(l) => {
                    if sb.len() > l {
                        assert(s[t] == sb[t]);
                    }
                },
                ReportLimit::All => {},
            }
        }
    }
}

} // verus!
