//! Review signals: factual labels derived from the raw facts of a change,
//! and the review order they give the changes.  They are not a score.
use vstd::prelude::*;

use crate::analysis::diff::{key_lt, key_order, lemma_key_irreflexive, lemma_key_transitive};
use crate::analysis::facts::{
    ChangeKind, ReviewSignal, SymbolChange, SymbolVisibility, TestFacts,
};
use crate::analysis::references::change_target;
use crate::text::{contains_str, views};

verus! {

/// `[s]` when `b` holds, else nothing.
pub open spec fn signal_if(b: bool, s: ReviewSignal) -> Seq<ReviewSignal> {
    if b {
        seq![s]
    } else {
        seq![]
    }
}

/// The signature change touches annotations.
pub open spec fn annotations_changed(c: SymbolChange) -> bool {
    match c.signature_change {
        Some(f) => f.type_annotation_change(),
        None => false,
    }
}

/// The file of a change lies among `files`.
pub open spec fn file_among(c: SymbolChange, files: Set<Seq<char>>) -> bool {
    match change_target(c) {
        Some(s) => files.contains(s.file@),
        None => false,
    }
}

/// The signals of a change, in this order: public symbol added, public
/// symbol deleted, public signature changed, type
/// annotations changed, signature changed while unchanged files still call
/// it, complexity increased (some structural metric up by the threshold),
/// body changed in a production file without nearby test movement, and
/// only the path changed.
pub open spec fn signals_spec(c: SymbolChange, without_tests: Set<Seq<char>>) -> Seq<ReviewSignal> {
    let public = c.symbol_facts.visibility == SymbolVisibility::Public;
    let sig = c.kinds@.contains(ChangeKind::SignatureChanged);
    signal_if(public && c.kinds@.contains(ChangeKind::Added), ReviewSignal::PublicSymbolAdded)
        + signal_if(public && c.kinds@.contains(ChangeKind::Deleted), ReviewSignal::PublicSymbolDeleted)
        + signal_if(public && sig, ReviewSignal::PublicSignatureChanged)
        + signal_if(sig && annotations_changed(c), ReviewSignal::TypeAnnotationsChanged)
        + signal_if(
        sig && c.references_after.unchanged_files@.len() > 0,
        ReviewSignal::SignatureChangedWithUnchangedCallers,
    ) + signal_if(
        match c.complexity_delta {
            Some(d) => d.reportable_increase(),
            None => false,
        },
        ReviewSignal::ComplexityIncreased,
    ) + signal_if(
        c.kinds@.contains(ChangeKind::BodyChanged) && file_among(c, without_tests),
        ReviewSignal::ImplementationChangedWithoutTestMovement,
    ) + signal_if(c.kinds@ == seq![ChangeKind::PathChanged], ReviewSignal::PathChangedOnly)
}

/// The review weight of one signal.
pub open spec fn weight_of(s: ReviewSignal) -> nat {
    match s {
        ReviewSignal::SignatureChangedWithUnchangedCallers => 50,
        ReviewSignal::PublicSignatureChanged => 30,
        ReviewSignal::PublicSymbolDeleted => 25,
        ReviewSignal::ComplexityIncreased => 20,
        ReviewSignal::ImplementationChangedWithoutTestMovement => 15,
        ReviewSignal::TypeAnnotationsChanged => 10,
        ReviewSignal::PublicSymbolAdded => 5,
        ReviewSignal::PathChangedOnly => 1,
    }
}

/// The review weight of a change: the sum of its signals' weights.
pub open spec fn weight_spec(s: Seq<ReviewSignal>) -> nat
    decreases s.len(),
{
    if s.len() == 0 {
        0
    } else {
        weight_spec(s.drop_last()) + weight_of(s.last())
    }
}

/// The comparison key of a change.
pub open spec fn change_key(c: SymbolChange) -> (Seq<char>, Seq<char>) {
    (c.id.file@, c.id.qualified_name@)
}

/// `a` comes before `b` in review order: heavier first, then by key.
pub open spec fn review_lt(a: SymbolChange, b: SymbolChange) -> bool {
    weight_spec(a.review_signals@) > weight_spec(b.review_signals@) || (weight_spec(
        a.review_signals@,
    ) == weight_spec(b.review_signals@) && key_lt(change_key(a), change_key(b)))
}

/// Review order is transitive.
pub proof fn lemma_review_transitive(a: SymbolChange, b: SymbolChange, c: SymbolChange)
    requires
        review_lt(a, b),
        review_lt(b, c),
    ensures
        review_lt(a, c),
{
    if weight_spec(a.review_signals@) == weight_spec(b.review_signals@) && weight_spec(
        b.review_signals@,
    ) == weight_spec(c.review_signals@) {
        lemma_key_transitive(change_key(a), change_key(b), change_key(c));
    }
}

/// Every field but the signals is kept.
pub open spec fn same_but_signals(a: SymbolChange, b: SymbolChange) -> bool {
    &&& a.id == b.id
    &&& a.kinds == b.kinds
    &&& a.before == b.before
    &&& a.after == b.after
    &&& a.symbol_facts == b.symbol_facts
    &&& a.signature_change == b.signature_change
    &&& a.complexity_delta == b.complexity_delta
    &&& a.references_before == b.references_before
    &&& a.references_after == b.references_after
    &&& a.test_references_after == b.test_references_after
    &&& a.reference_delta == b.reference_delta
}

/// `perm` is a permutation of `0..n`.
pub open spec fn is_permutation(perm: Seq<int>, n: int) -> bool {
    &&& perm.len() == n
    &&& forall|i: int| 0 <= i < n ==> 0 <= #[trigger] perm[i] < n
    &&& forall|i: int, j: int| 0 <= i < j < n ==> #[trigger] perm[i] != #[trigger] perm[j]
}

/// Whether a change carries a kind.
fn has_kind(kinds: &Vec<ChangeKind>, kind: ChangeKind) -> (r: bool)
    ensures
        r == kinds@.contains(kind),
{
    let mut i: usize = 0;
    while i < kinds.len()
        invariant
            0 <= i <= kinds.len(),
            forall|j: int| 0 <= j < i ==> kinds@[j] != kind,
        decreases kinds.len() - i,
    {
        if kinds[i] == kind {
            proof {
                assert(kinds@[i as int] == kind);
            }
            return true;
        }
        i = i + 1;
    }
    false
}

/// The review signals of one change.
#[verifier::rlimit(50)]
pub fn review_signals(change: &SymbolChange, without_tests: &Vec<String>) -> (r: Vec<ReviewSignal>)
    ensures
        r@ == signals_spec(*change, views(without_tests@).to_set()),
{
    let public = change.symbol_facts.visibility == SymbolVisibility::Public;
    let sig = has_kind(&change.kinds, ChangeKind::SignatureChanged);
    let annotations = match &change.signature_change {
        Some(f) => f.has_type_annotation_change(),
        None => false,
    };
    let ghost without = views(without_tests@).to_set();
    let ghost c = *change;
    let ghost pub_ = c.symbol_facts.visibility == SymbolVisibility::Public;
    let ghost s1 = signal_if(pub_ && c.kinds@.contains(ChangeKind::Added), ReviewSignal::PublicSymbolAdded);
    let ghost s2 = signal_if(pub_ && c.kinds@.contains(ChangeKind::Deleted), ReviewSignal::PublicSymbolDeleted);
    let ghost s3 = signal_if(pub_ && c.kinds@.contains(ChangeKind::SignatureChanged), ReviewSignal::PublicSignatureChanged);
    let ghost s4 = signal_if(c.kinds@.contains(ChangeKind::SignatureChanged) && annotations_changed(c), ReviewSignal::TypeAnnotationsChanged);
    let ghost s5 = signal_if(
        c.kinds@.contains(ChangeKind::SignatureChanged) && c.references_after.unchanged_files@.len() > 0,
        ReviewSignal::SignatureChangedWithUnchangedCallers,
    );
    let ghost s6 = signal_if(
        match c.complexity_delta {
            Some(d) => d.reportable_increase(),
            None => false,
        },
        ReviewSignal::ComplexityIncreased,
    );
    let ghost s7 = signal_if(
        c.kinds@.contains(ChangeKind::BodyChanged) && file_among(c, without),
        ReviewSignal::ImplementationChangedWithoutTestMovement,
    );
    let ghost s8 = signal_if(c.kinds@ == seq![ChangeKind::PathChanged], ReviewSignal::PathChangedOnly);
    proof {
        assert(signals_spec(c, without) == s1 + s2 + s3 + s4 + s5 + s6 + s7 + s8);
    }
    let mut r: Vec<ReviewSignal> = Vec::new();
    if public && has_kind(&change.kinds, ChangeKind::Added) {
        r.push(ReviewSignal::PublicSymbolAdded);
    }
    proof { assert(r@ =~= s1); }
    if public && has_kind(&change.kinds, ChangeKind::Deleted) {
        r.push(ReviewSignal::PublicSymbolDeleted);
    }
    proof { assert(r@ =~= s1 + s2); }
    if public && sig {
        r.push(ReviewSignal::PublicSignatureChanged);
    }
    proof { assert(r@ =~= s1 + s2 + s3); }
    if sig && annotations {
        r.push(ReviewSignal::TypeAnnotationsChanged);
    }
    proof { assert(r@ =~= s1 + s2 + s3 + s4); }
    if sig && change.references_after.unchanged_files.len() > 0 {
        r.push(ReviewSignal::SignatureChangedWithUnchangedCallers);
    }
    proof { assert(r@ =~= s1 + s2 + s3 + s4 + s5); }
    let increased = match &change.complexity_delta {
        Some(d) => d.has_reportable_structural_increase(),
        None => false,
    };
    if increased {
        r.push(ReviewSignal::ComplexityIncreased);
    }
    proof { assert(r@ =~= s1 + s2 + s3 + s4 + s5 + s6); }
    let target_file: Option<&String> = match &change.after {
        Some(s) => Some(&s.file),
        None => match &change.before {
            Some(s) => Some(&s.file),
            None => None,
        },
    };
    let untested = match target_file {
        Some(f) => contains_str(without_tests, f.as_str()),
        None => false,
    };
    proof {
        match change_target(*change) {
            Some(s) => {
                assert(views(without_tests@).contains(s.file@) == views(without_tests@).to_set().contains(s.file@));
            },
            None => {},
        }
    }
    if has_kind(&change.kinds, ChangeKind::BodyChanged) && untested {
        r.push(ReviewSignal::ImplementationChangedWithoutTestMovement);
    }
    proof { assert(r@ =~= s1 + s2 + s3 + s4 + s5 + s6 + s7); }
    let path_only = change.kinds.len() == 1 && change.kinds[0] == ChangeKind::PathChanged;
    proof {
        assert(c.kinds@ == seq![ChangeKind::PathChanged] <==> path_only) by {
            if path_only {
                assert(c.kinds@ =~= seq![ChangeKind::PathChanged]);
            }
        }
    }
    if path_only {
        r.push(ReviewSignal::PathChangedOnly);
    }
    proof { assert(r@ =~= s1 + s2 + s3 + s4 + s5 + s6 + s7 + s8); }
    r
}

/// A signal weighs at most 50, so a list weighs at most 50 per signal.
proof fn lemma_weight_bound(s: Seq<ReviewSignal>)
    ensures
        weight_spec(s) <= 50 * s.len(),
    decreases s.len(),
{
    if s.len() > 0 {
        lemma_weight_bound(s.drop_last());
    }
}

/// A prefix weighs no more than the whole list.
proof fn lemma_weight_prefix(s: Seq<ReviewSignal>, i: int)
    requires
        0 <= i <= s.len(),
    ensures
        weight_spec(s.subrange(0, i)) <= weight_spec(s),
    decreases s.len() - i,
{
    if i < s.len() {
        lemma_weight_prefix(s, i + 1);
        assert(s.subrange(0, i + 1).drop_last() =~= s.subrange(0, i));
    } else {
        assert(s.subrange(0, i) =~= s);
    }
}

/// The review weight of a list of signals (its sum must fit a `usize`).
pub fn signal_weight(signals: &Vec<ReviewSignal>) -> (r: usize)
    requires
        weight_spec(signals@) <= usize::MAX,
    ensures
        r == weight_spec(signals@),
{
    let mut total: usize = 0;
    let mut i: usize = 0;
    while i < signals.len()
        invariant
            0 <= i <= signals.len(),
            weight_spec(signals@) <= usize::MAX,
            total == weight_spec(signals@.subrange(0, i as int)),
        decreases signals.len() - i,
    {
        proof {
            assert(signals@.subrange(0, i + 1).drop_last() =~= signals@.subrange(0, i as int));
            lemma_weight_prefix(signals@, i + 1);
        }
        let w: usize = match signals[i] {
            ReviewSignal::SignatureChangedWithUnchangedCallers => 50,
            ReviewSignal::PublicSignatureChanged => 30,
            ReviewSignal::PublicSymbolDeleted => 25,
            ReviewSignal::ComplexityIncreased => 20,
            ReviewSignal::ImplementationChangedWithoutTestMovement => 15,
            ReviewSignal::TypeAnnotationsChanged => 10,
            ReviewSignal::PublicSymbolAdded => 5,
            ReviewSignal::PathChangedOnly => 1,
        };
        total = total + w;
        i = i + 1;
    }
    proof {
        assert(signals@.subrange(0, signals@.len() as int) =~= signals@);
    }
    total
}

/// Whether change `a` (of weight `wa`) comes before change `b` (of weight
/// `wb`) in review order.
fn review_before(a: &SymbolChange, wa: usize, b: &SymbolChange, wb: usize) -> (r: bool)
    requires
        wa == weight_spec(a.review_signals@),
        wb == weight_spec(b.review_signals@),
    ensures
        r == review_lt(*a, *b),
{
    if wa != wb {
        return wa > wb;
    }
    key_order(
        a.id.file.as_str(),
        a.id.qualified_name.as_str(),
        b.id.file.as_str(),
        b.id.qualified_name.as_str(),
    ) < 0
}

/// What `attach_review_signals` states of its result: a permutation of
/// `orig` in which every change carries the signals of `signals_spec` and
/// keeps every other field, in review order.
pub open spec fn signals_ok(r: Seq<SymbolChange>, orig: Seq<SymbolChange>, test_facts: TestFacts) -> bool {
    &&& r.len() == orig.len()
    &&& exists|perm: Seq<int>|
        is_permutation(perm, r.len() as int) && forall|i: int|
            0 <= i < r.len() ==> {
                let c = #[trigger] r[i];
                let o = orig[perm[i]];
                &&& same_but_signals(c, o)
                &&& c.review_signals@ == signals_spec(
                    o,
                    views(test_facts.production_files_without_nearby_test_changes@).to_set(),
                )
            }
    &&& forall|i: int, j: int| 0 <= i < j < r.len() ==> !review_lt(#[trigger] r[j], #[trigger] r[i])
}

/// Attaches its review signals to every change and orders the changes for
/// review: heavier signals first, then by file and qualified name.  The
/// result is a permutation of the input in which every change carries the
/// signals of `signals_spec` and keeps every other field.
pub fn attach_review_signals(symbol_changes: Vec<SymbolChange>, test_facts: &TestFacts) -> (r: Vec<
    SymbolChange,
>)
    ensures
        signals_ok(r@, symbol_changes@, *test_facts),
{
    let ghost without = views(test_facts.production_files_without_nearby_test_changes@).to_set();
    let ghost orig = symbol_changes@;
    let n = symbol_changes.len();
    let mut rest = symbol_changes;
    let mut r: Vec<SymbolChange> = Vec::new();
    let mut weights: Vec<usize> = Vec::new();
    let ghost mut perm: Seq<int> = Seq::empty();
    let mut k: usize = 0;
    while rest.len() > 0
        invariant
            without == views(test_facts.production_files_without_nearby_test_changes@).to_set(),
            k + rest@.len() == orig.len(),
            orig.len() == n,
            rest@ == orig.subrange(k as int, orig.len() as int),
            r@.len() == k,
            weights@.len() == k,
            is_permutation(perm, k as int),
            forall|i: int| 0 <= i < k ==> #[trigger] weights@[i] == weight_spec(r@[i].review_signals@),
            forall|i: int|
                0 <= i < k ==> {
                    let c = #[trigger] r@[i];
                    let o = orig[perm[i]];
                    &&& same_but_signals(c, o)
                    &&& c.review_signals@ == signals_spec(o, without)
                },
            forall|i: int, j: int| 0 <= i < j < k ==> !review_lt(#[trigger] r@[j], #[trigger] r@[i]),
        decreases rest@.len(),
    {
        let change = rest.remove(0);
        proof {
            assert(change == orig[k as int]);
        }
        let signals = review_signals(&change, &test_facts.production_files_without_nearby_test_changes);
        proof {
            lemma_weight_bound(signals@);
        }
        let w = signal_weight(&signals);
        let updated = SymbolChange {
            id: change.id,
            kinds: change.kinds,
            before: change.before,
            after: change.after,
            symbol_facts: change.symbol_facts,
            signature_change: change.signature_change,
            complexity_delta: change.complexity_delta,
            references_before: change.references_before,
            references_after: change.references_after,
            test_references_after: change.test_references_after,
            reference_delta: change.reference_delta,
            review_signals: signals,
        };
        let mut pos: usize = 0;
        while pos < r.len()
            invariant
                0 <= pos <= r@.len(),
                r@.len() == k,
                weights@.len() == k,
                w == weight_spec(updated.review_signals@),
                forall|i: int| 0 <= i < k ==> #[trigger] weights@[i] == weight_spec(r@[i].review_signals@),
                forall|i: int| 0 <= i < pos ==> !review_lt(updated, #[trigger] r@[i]),
            ensures
                0 <= pos <= r@.len(),
                forall|i: int| 0 <= i < pos ==> !review_lt(updated, #[trigger] r@[i]),
                pos < r@.len() ==> review_lt(updated, r@[pos as int]),
            decreases r@.len() - pos,
        {
            if review_before(&updated, w, &r[pos], weights[pos]) {
                break;
            }
            pos = pos + 1;
        }
        let ghost old_r = r@;
        let ghost old_perm = perm;
        let ghost item = updated;
        r.insert(pos, updated);
        weights.insert(pos, w);
        proof {
            perm = old_perm.insert(pos as int, k as int);
            assert(r@ == old_r.insert(pos as int, item));
            assert forall|i: int| 0 <= i < k + 1 implies #[trigger] weights@[i] == weight_spec(
                r@[i].review_signals@,
            ) by {
                if i < pos {
                    assert(r@[i] == old_r[i]);
                } else if i > pos {
                    assert(r@[i] == old_r[i - 1]);
                }
            }
            assert forall|i: int| 0 <= i < k + 1 implies 0 <= #[trigger] perm[i] < k + 1 by {
                if i < pos {
                    assert(perm[i] == old_perm[i]);
                } else if i > pos {
                    assert(perm[i] == old_perm[i - 1]);
                }
            }
            assert forall|i: int, j: int| 0 <= i < j < k + 1 implies #[trigger] perm[i]
                != #[trigger] perm[j] by {
                if j < pos {
                    assert(perm[i] == old_perm[i] && perm[j] == old_perm[j]);
                } else if j == pos {
                    assert(perm[i] == old_perm[i]);
                } else if i < pos {
                    assert(perm[i] == old_perm[i] && perm[j] == old_perm[j - 1]);
                } else if i == pos {
                    assert(perm[j] == old_perm[j - 1]);
                } else {
                    assert(perm[i] == old_perm[i - 1] && perm[j] == old_perm[j - 1]);
                }
            }
            assert forall|i: int| 0 <= i < k + 1 implies {
                let c = #[trigger] r@[i];
                let o = orig[perm[i]];
                &&& same_but_signals(c, o)
                &&& c.review_signals@ == signals_spec(o, without)
            } by {
                if i < pos {
                    assert(r@[i] == old_r[i] && perm[i] == old_perm[i]);
                } else if i > pos {
                    assert(r@[i] == old_r[i - 1] && perm[i] == old_perm[i - 1]);
                } else {
                    assert(perm[i] == k);
                }
            }
            assert forall|i: int, j: int| 0 <= i < j < k + 1 implies !review_lt(
                #[trigger] r@[j],
                #[trigger] r@[i],
            ) by {
                if j < pos {
                    assert(r@[i] == old_r[i] && r@[j] == old_r[j]);
                } else if j == pos {
                    assert(r@[i] == old_r[i]);
                } else if i < pos {
                    assert(r@[i] == old_r[i] && r@[j] == old_r[j - 1]);
                } else if i == pos {
                    assert(r@[j] == old_r[j - 1]);
                    if review_lt(r@[j], item) {
                        if j - 1 > pos {
                            assert(!review_lt(old_r[j - 1], old_r[pos as int]));
                        }
                        lemma_review_transitive(old_r[j - 1], item, old_r[pos as int]);
                        if j - 1 == pos {
                            lemma_key_irreflexive(change_key(old_r[pos as int]));
                        }
                    }
                } else {
                    assert(r@[i] == old_r[i - 1] && r@[j] == old_r[j - 1]);
                }
            }
            assert(rest@ =~= orig.subrange(k + 1, orig.len() as int));
        }
        k = k + 1;
    }
    r
}

} // verus!
