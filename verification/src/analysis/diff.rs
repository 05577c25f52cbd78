//! The exact-key symbol diff: symbols of both sides are joined on
//! `file + qualified_name` (with Git-reported renames applied to the before
//! side), and every key whose symbol differs becomes a symbol change.
use vstd::prelude::*;

use crate::analysis::facts::{
    ChangeKind, ComplexityDelta, SignatureChangeFacts, SymbolChange, SymbolFacts, SymbolId,
    SymbolReferenceDelta, SymbolReferenceFacts, SymbolVisibility,
};
use crate::git::{ChangedFile, ChangedFileView, FileStatus, StatusView};
use crate::language::{
    opt_view, ComplexityMetrics, FunctionSignatureFacts, ParameterFacts, ParameterView,
    SignatureView, Symbol, SymbolView,
};
use crate::paths::{module_path_base, module_path_base_of};
use crate::text::{
    chars_of, has_prefix, has_suffix, insert_sorted, lemma_filter_sorted, lemma_lex_asymmetric,
    lemma_lex_irreflexive, lemma_lex_transitive, lex_lt, split_chars, split_spec, str_eq,
    str_order, strictly_sorted, views,
};

verus! {

/// The abstract values of a sequence of symbols.
pub open spec fn sym_views(s: Seq<Symbol>) -> Seq<SymbolView> {
    Seq::new(s.len(), |i: int| s[i]@)
}

/// The abstract values of a sequence of changed files.
pub open spec fn changed_views(s: Seq<ChangedFile>) -> Seq<ChangedFileView> {
    Seq::new(s.len(), |i: int| s[i]@)
}

/// The abstract value of an optional symbol.
pub open spec fn opt_sym(o: Option<Symbol>) -> Option<SymbolView> {
    match o {
        Some(s) => Some(s@),
        None => None,
    }
}

/// The new path of the last Git rename whose old path is `p`.
pub open spec fn renamed_target(changed: Seq<ChangedFileView>, p: Seq<char>) -> Option<Seq<char>>
    decreases changed.len(),
{
    if changed.len() == 0 {
        None
    } else if changed.last().status matches StatusView::Renamed(old) && old == p {
        Some(changed.last().path)
    } else {
        renamed_target(changed.drop_last(), p)
    }
}

/// The file under which a before-side symbol is compared.
pub open spec fn before_file(changed: Seq<ChangedFileView>, p: Seq<char>) -> Seq<char> {
    match renamed_target(changed, p) {
        Some(n) => n,
        None => p,
    }
}

/// The comparison key of a before-side symbol.
pub open spec fn before_key(changed: Seq<ChangedFileView>, s: SymbolView) -> (Seq<char>, Seq<char>) {
    (before_file(changed, s.file), s.qualified_name)
}

/// The comparison key of an after-side symbol.
pub open spec fn after_key(s: SymbolView) -> (Seq<char>, Seq<char>) {
    (s.file, s.qualified_name)
}

/// The last before-side symbol with the given key (later definitions win).
pub open spec fn last_before(changed: Seq<ChangedFileView>, syms: Seq<SymbolView>, key: (Seq<char>, Seq<char>)) -> Option<SymbolView>
    decreases syms.len(),
{
    if syms.len() == 0 {
        None
    } else if before_key(changed, syms.last()) == key {
        Some(syms.last())
    } else {
        last_before(changed, syms.drop_last(), key)
    }
}

/// The last after-side symbol with the given key (later definitions win).
pub open spec fn last_after(syms: Seq<SymbolView>, key: (Seq<char>, Seq<char>)) -> Option<SymbolView>
    decreases syms.len(),
{
    if syms.len() == 0 {
        None
    } else if after_key(syms.last()) == key {
        Some(syms.last())
    } else {
        last_after(syms.drop_last(), key)
    }
}

/// The order of comparison keys: by path (component-wise), then by name.
pub open spec fn key_lt(a: (Seq<char>, Seq<char>), b: (Seq<char>, Seq<char>)) -> bool {
    lex_lt(a.0, b.0, true) || (a.0 == b.0 && lex_lt(a.1, b.1, false))
}

/// The signatures of two sides differ: their text differs and, where both
/// sides have structured facts, so do the facts (a change of layout or
/// formatting alone does not count).
pub open spec fn signature_differs(b: SymbolView, a: SymbolView) -> bool {
    b.signature != a.signature && match (b.signature_facts, a.signature_facts) {
        (Some(x), Some(y)) => x != y,
        _ => true,
    }
}

/// The change labels of a key: added, deleted, or the facts that differ.
pub open spec fn kinds_spec(id_file: Seq<char>, b: Option<SymbolView>, a: Option<SymbolView>) -> Seq<ChangeKind> {
    match (b, a) {
        (None, Some(_)) => seq![ChangeKind::Added],
        (Some(_), None) => seq![ChangeKind::Deleted],
        (Some(b), Some(a)) => {
            let p: Seq<ChangeKind> = if b.file != id_file || b.file != a.file {
                seq![ChangeKind::PathChanged]
            } else {
                seq![]
            };
            let h: Seq<ChangeKind> = if b.body_hash != a.body_hash {
                seq![ChangeKind::BodyChanged]
            } else {
                seq![]
            };
            let g: Seq<ChangeKind> = if signature_differs(b, a) {
                seq![ChangeKind::SignatureChanged]
            } else {
                seq![]
            };
            p + h + g
        },
        (None, None) => seq![],
    }
}

/// A dunder name such as `__init__`.
pub open spec fn is_dunder(c: Seq<char>) -> bool {
    c.len() >= 4 && has_prefix(c, "__"@) && has_suffix(c, "__"@)
}

/// A name component that marks privacy: it starts with `_` and is not a
/// dunder.
pub open spec fn private_component(c: Seq<char>) -> bool {
    c.len() > 0 && c[0] == '_' && !is_dunder(c)
}

/// Some component of the split sequence is private.
pub open spec fn any_private(parts: Seq<Seq<char>>) -> bool {
    exists|i: int| 0 <= i < parts.len() && private_component(#[trigger] parts[i])
}

/// Visibility of a symbol: private when a dotted component of its qualified
/// name is private; internal when a component of its module path (directories
/// and file stem) is private; public otherwise.
pub open spec fn visibility_spec(s: SymbolView) -> SymbolVisibility {
    if any_private(split_spec(s.qualified_name, '.')) {
        SymbolVisibility::Private
    } else if any_private(split_spec(module_path_base_of(s.file), '/')) {
        SymbolVisibility::Internal
    } else {
        SymbolVisibility::Public
    }
}

/// Kind and visibility of the symbol that a change describes (the after
/// side when present).
pub open spec fn symbol_facts_spec(b: Option<SymbolView>, a: Option<SymbolView>) -> SymbolFacts {
    let s = match a {
        Some(a) => a,
        None => b.unwrap(),
    };
    SymbolFacts { kind: s.kind, visibility: visibility_spec(s) }
}

/// `after − before`, saturated to the range of `isize`.
pub open spec fn delta_spec(before: usize, after: usize) -> isize {
    let d = after - before;
    if d > isize::MAX {
        isize::MAX
    } else if d < isize::MIN {
        isize::MIN
    } else {
        d as isize
    }
}

/// The complexity delta of a symbol present on both sides with different
/// metrics.
pub open spec fn complexity_delta_spec(b: Option<SymbolView>, a: Option<SymbolView>) -> Option<ComplexityDelta> {
    match (b, a) {
        (Some(b), Some(a)) => if b.complexity == a.complexity {
            None
        } else {
            let x = b.complexity;
            let y = a.complexity;
            Some(
                ComplexityDelta {
                    before: x,
                    after: y,
                    length_lines_delta: delta_spec(x.length_lines, y.length_lines),
                    branch_count_delta: delta_spec(x.branch_count, y.branch_count),
                    loop_count_delta: delta_spec(x.loop_count, y.loop_count),
                    boolean_operator_count_delta: delta_spec(
                        x.boolean_operator_count,
                        y.boolean_operator_count,
                    ),
                    exception_handler_count_delta: delta_spec(
                        x.exception_handler_count,
                        y.exception_handler_count,
                    ),
                    match_count_delta: delta_spec(x.match_count, y.match_count),
                    with_count_delta: delta_spec(x.with_count, y.with_count),
                    max_nesting_depth_delta: delta_spec(x.max_nesting_depth, y.max_nesting_depth),
                },
            )
        },
        _ => None,
    }
}

/// The parameter names of a signature, in order.
pub open spec fn param_names(s: SignatureView) -> Seq<Seq<char>> {
    Seq::new(s.parameters.len(), |i: int| s.parameters[i].name)
}

/// The last parameter with the given name.
pub open spec fn last_param(ps: Seq<ParameterView>, n: Seq<char>) -> Option<ParameterView>
    decreases ps.len(),
{
    if ps.len() == 0 {
        None
    } else if ps.last().name == n {
        Some(ps.last())
    } else {
        last_param(ps.drop_last(), n)
    }
}

/// A name present in both signatures.
pub open spec fn shared(b: SignatureView, a: SignatureView, n: Seq<char>) -> bool {
    param_names(b).contains(n) && param_names(a).contains(n)
}

/// The names of `s`'s parameters that `other` also has, in `s`'s order.
pub open spec fn shared_order(s: SignatureView, other: SignatureView) -> Seq<Seq<char>> {
    param_names(s).filter(|n: Seq<char>| param_names(other).contains(n))
}

/// `names` is strictly sorted and holds exactly the names satisfying `p`.
pub open spec fn sorted_set_of(names: Seq<Seq<char>>, p: spec_fn(Seq<char>) -> bool) -> bool {
    &&& strictly_sorted(names, false)
    &&& forall|n: Seq<char>| #[trigger] names.contains(n) <==> p(n)
}

/// What the comparison of two signatures reports.
pub open spec fn compare_ok(f: SignatureChangeFacts, b: SignatureView, a: SignatureView) -> bool {
    &&& sorted_set_of(
        views(f.parameters_added@),
        |n: Seq<char>| param_names(a).contains(n) && !param_names(b).contains(n),
    )
    &&& sorted_set_of(
        views(f.parameters_removed@),
        |n: Seq<char>| param_names(b).contains(n) && !param_names(a).contains(n),
    )
    &&& sorted_set_of(
        views(f.parameter_kind_changed@),
        |n: Seq<char>|
            shared(b, a, n) && last_param(b.parameters, n).unwrap().kind != last_param(
                a.parameters,
                n,
            ).unwrap().kind,
    )
    &&& sorted_set_of(
        views(f.parameter_default_changed@),
        |n: Seq<char>|
            shared(b, a, n) && (last_param(b.parameters, n).unwrap().has_default != last_param(
                a.parameters,
                n,
            ).unwrap().has_default || last_param(b.parameters, n).unwrap().default_value
                != last_param(a.parameters, n).unwrap().default_value),
    )
    &&& sorted_set_of(
        views(f.parameter_annotation_changed@),
        |n: Seq<char>|
            shared(b, a, n) && last_param(b.parameters, n).unwrap().annotation != last_param(
                a.parameters,
                n,
            ).unwrap().annotation,
    )
    &&& f.parameters_reordered == (shared_order(b, a) != shared_order(a, b))
    &&& f.return_annotation_changed == (b.return_annotation != a.return_annotation)
    &&& f.async_changed == (b.is_async != a.is_async)
}

/// The comparison reports nothing.
pub open spec fn compare_is_empty(f: SignatureChangeFacts) -> bool {
    &&& f.parameters_added@.len() == 0
    &&& f.parameters_removed@.len() == 0
    &&& !f.parameters_reordered
    &&& f.parameter_kind_changed@.len() == 0
    &&& f.parameter_default_changed@.len() == 0
    &&& f.parameter_annotation_changed@.len() == 0
    &&& !f.return_annotation_changed
    &&& !f.async_changed
}

/// Signature facts of a change: present when both sides carry structured
/// signature facts and their comparison reports something.
pub open spec fn signature_change_ok(o: Option<SignatureChangeFacts>, b: Option<SymbolView>, a: Option<SymbolView>) -> bool {
    match (b, a) {
        (Some(b), Some(a)) => match (b.signature_facts, a.signature_facts) {
            (Some(bs), Some(as_)) => match o {
                Some(f) => compare_ok(f, bs, as_) && !compare_is_empty(f),
                None => forall|f: SignatureChangeFacts| compare_ok(f, bs, as_) ==> compare_is_empty(f),
            },
            _ => o is None,
        },
        _ => o is None,
    }
}

/// Everything `diff_symbols` states about one emitted change.
pub open spec fn change_ok(c: SymbolChange, before: Seq<SymbolView>, after: Seq<SymbolView>, changed: Seq<ChangedFileView>) -> bool {
    let key = (c.id.file@, c.id.qualified_name@);
    let b = last_before(changed, before, key);
    let a = last_after(after, key);
    &&& c.kinds@ == kinds_spec(c.id.file@, b, a)
    &&& c.kinds@.len() > 0
    &&& opt_sym(c.before) == b
    &&& opt_sym(c.after) == a
    &&& c.symbol_facts == symbol_facts_spec(b, a)
    &&& signature_change_ok(c.signature_change, b, a)
    &&& c.complexity_delta == complexity_delta_spec(b, a)
    &&& c.references_before.count == 0 && c.references_before.files@.len() == 0
    &&& c.references_after.count == 0 && c.references_after.files@.len() == 0
    &&& c.references_after.matched_references@.len() == 0
    &&& c.test_references_after.count == 0 && c.test_references_after.matched_references@.len() == 0
    &&& c.review_signals@.len() == 0
}

/// A key that some symbol of either side has.
pub open spec fn is_key(before: Seq<SymbolView>, after: Seq<SymbolView>, changed: Seq<ChangedFileView>, key: (Seq<char>, Seq<char>)) -> bool {
    (exists|i: int| 0 <= i < before.len() && before_key(changed, #[trigger] before[i]) == key) || (
    exists|i: int| 0 <= i < after.len() && after_key(#[trigger] after[i]) == key)
}

/// The keys of a sequence of changes.
pub open spec fn change_keys(cs: Seq<SymbolChange>) -> Seq<(Seq<char>, Seq<char>)> {
    Seq::new(cs.len(), |i: int| (cs[i].id.file@, cs[i].id.qualified_name@))
}

/// Keys strictly increasing.
pub open spec fn keys_sorted(k: Seq<(Seq<char>, Seq<char>)>) -> bool {
    forall|i: int, j: int| 0 <= i < j < k.len() ==> key_lt(#[trigger] k[i], #[trigger] k[j])
}

pub proof fn lemma_key_transitive(a: (Seq<char>, Seq<char>), b: (Seq<char>, Seq<char>), c: (Seq<char>, Seq<char>))
    requires
        key_lt(a, b),
        key_lt(b, c),
    ensures
        key_lt(a, c),
{
    if lex_lt(a.0, b.0, true) && lex_lt(b.0, c.0, true) {
        lemma_lex_transitive(a.0, b.0, c.0, true);
    } else if lex_lt(a.1, b.1, false) && a.0 == b.0 && b.0 == c.0 && lex_lt(b.1, c.1, false) {
        lemma_lex_transitive(a.1, b.1, c.1, false);
    }
}

pub proof fn lemma_key_irreflexive(a: (Seq<char>, Seq<char>))
    ensures
        !key_lt(a, a),
{
    lemma_lex_irreflexive(a.0, true);
    lemma_lex_irreflexive(a.1, false);
}

/// Three-way comparison of two keys.
pub fn key_order(af: &str, an: &str, bf: &str, bn: &str) -> (r: i8)
    ensures
        r < 0 <==> key_lt((af@, an@), (bf@, bn@)),
        r == 0 <==> (af@, an@) == (bf@, bn@),
        r > 0 <==> key_lt((bf@, bn@), (af@, an@)),
{
    let c = str_order(af, bf, true);
    if c != 0 {
        proof {
            if c < 0 {
                lemma_lex_asymmetric(af@, bf@, true);
            } else {
                lemma_lex_asymmetric(bf@, af@, true);
            }
        }
        return c;
    }
    let d = str_order(an, bn, false);
    proof {
        lemma_lex_irreflexive(af@, true);
    }
    d
}

/// The Git-reported renames as `(old path, new path)` pairs, in order.
pub fn renamed_paths(changed: &[ChangedFile]) -> (r: Vec<(String, String)>)
    ensures
        forall|p: Seq<char>| #[trigger] renamed_target(changed_views(changed@), p) == pair_lookup(r@, p),
{
    let mut r: Vec<(String, String)> = Vec::new();
    let mut i: usize = 0;
    while i < changed.len()
        invariant
            0 <= i <= changed.len(),
            forall|p: Seq<char>|
                #[trigger] renamed_target(changed_views(changed@).subrange(0, i as int), p)
                    == pair_lookup(r@, p),
        decreases changed.len() - i,
    {
        let ghost before = r@;
        let ghost cv = changed_views(changed@);
        proof {
            assert(cv.subrange(0, i + 1).drop_last() =~= cv.subrange(0, i as int));
            assert(cv.subrange(0, i + 1).last() == changed@[i as int]@);
        }
        match &changed[i].status {
            FileStatus::Renamed { old_path } => {
                r.push((old_path.clone(), changed[i].path.clone()));
                proof {
                    assert(r@.drop_last() =~= before);
                    assert forall|p: Seq<char>| #[trigger] renamed_target(
                        cv.subrange(0, i + 1),
                        p,
                    ) == pair_lookup(r@, p) by {
                        assert(renamed_target(cv.subrange(0, i + 1), p) == renamed_target(
                            cv.subrange(0, i as int),
                            p,
                        ) || renamed_target(cv.subrange(0, i + 1), p) == Some(
                            changed@[i as int]@.path,
                        ));
                    }
                }
            },
            _ => {
                proof {
                    assert forall|p: Seq<char>| #[trigger] renamed_target(
                        cv.subrange(0, i + 1),
                        p,
                    ) == pair_lookup(r@, p) by {
                        assert(renamed_target(cv.subrange(0, i + 1), p) == renamed_target(
                            cv.subrange(0, i as int),
                            p,
                        ));
                    }
                }
            },
        }
        i = i + 1;
    }
    proof {
        assert(changed_views(changed@).subrange(0, changed@.len() as int) =~= changed_views(
            changed@,
        ));
    }
    r
}

/// Lookup in rename pairs: the new path of the last pair with old path `p`.
pub open spec fn pair_lookup(pairs: Seq<(String, String)>, p: Seq<char>) -> Option<Seq<char>>
    decreases pairs.len(),
{
    if pairs.len() == 0 {
        None
    } else if pairs.last().0@ == p {
        Some(pairs.last().1@)
    } else {
        pair_lookup(pairs.drop_last(), p)
    }
}

/// The comparison file of a before-side symbol.
fn compared_file(pairs: &Vec<(String, String)>, file: &str) -> (r: String)
    ensures
        r@ == match pair_lookup(pairs@, file@) {
            Some(n) => n,
            None => file@,
        },
{
    let mut i = pairs.len();
    proof {
        assert(pairs@.subrange(0, pairs@.len() as int) =~= pairs@);
    }
    while i > 0
        invariant
            0 <= i <= pairs.len(),
            pair_lookup(pairs@, file@) == pair_lookup(pairs@.subrange(0, i as int), file@),
        decreases i,
    {
        proof {
            assert(pairs@.subrange(0, i as int).drop_last() =~= pairs@.subrange(0, i - 1));
        }
        if str_eq(pairs[i - 1].0.as_str(), file) {
            return pairs[i - 1].1.clone();
        }
        i = i - 1;
    }
    owned_str(file)
}

fn owned_str(s: &str) -> (r: String)
    ensures
        r@ == s@,
{
    crate::text::owned(s)
}

/// The index of the last symbol in `syms` with the given key, comparing the
/// before side through the renames.
fn find_last_key(syms: &[Symbol], pairs: &Vec<(String, String)>, before_side: bool, file: &str, name: &str, Ghost(changed): Ghost<Seq<ChangedFileView>>) -> (r: Option<usize>)
    requires
        forall|p: Seq<char>| #[trigger] renamed_target(changed, p) == pair_lookup(pairs@, p),
    ensures
        before_side ==> match r {
            Some(i) => i < syms.len() && last_before(changed, sym_views(syms@), (file@, name@))
                == Some(syms@[i as int]@),
            None => last_before(changed, sym_views(syms@), (file@, name@)) is None,
        },
        !before_side ==> match r {
            Some(i) => i < syms.len() && last_after(sym_views(syms@), (file@, name@)) == Some(
                syms@[i as int]@,
            ),
            None => last_after(sym_views(syms@), (file@, name@)) is None,
        },
{
    let ghost key = (file@, name@);
    let mut i = syms.len();
    proof {
        assert(sym_views(syms@).subrange(0, syms@.len() as int) =~= sym_views(syms@));
    }
    while i > 0
        invariant
            0 <= i <= syms.len(),
            key == (file@, name@),
            forall|p: Seq<char>| #[trigger] renamed_target(changed, p) == pair_lookup(pairs@, p),
            before_side ==> last_before(changed, sym_views(syms@), key) == last_before(
                changed,
                sym_views(syms@).subrange(0, i as int),
                key,
            ),
            !before_side ==> last_after(sym_views(syms@), key) == last_after(
                sym_views(syms@).subrange(0, i as int),
                key,
            ),
        decreases i,
    {
        let ghost sub = sym_views(syms@).subrange(0, i as int);
        proof {
            assert(sub.drop_last() =~= sym_views(syms@).subrange(0, i - 1));
            assert(sub.last() == syms@[i - 1]@);
        }
        let s = &syms[i - 1];
        let f = if before_side {
            compared_file(pairs, s.file.as_str())
        } else {
            s.file.clone()
        };
        let same = str_eq(f.as_str(), file) && str_eq(s.qualified_name.as_str(), name);
        proof {
            if before_side {
                assert(renamed_target(changed, s.file@) == pair_lookup(pairs@, s.file@));
                assert(f@ == before_file(changed, s.file@));
                assert(before_key(changed, sub.last()) == (f@, s.qualified_name@));
            } else {
                assert(f@ == s.file@);
                assert(after_key(sub.last()) == (f@, s.qualified_name@));
            }
            assert(same == ((f@, s.qualified_name@) == key));
        }
        if same {
            return Some(i - 1);
        }
        i = i - 1;
    }
    proof {
        assert(sym_views(syms@).subrange(0, 0) =~= Seq::<SymbolView>::empty());
    }
    None
}


/// The abstract value of a borrowed optional symbol.
pub open spec fn opt_ref_sym(o: Option<&Symbol>) -> Option<SymbolView> {
    match o {
        Some(s) => Some(s@),
        None => None,
    }
}

/// Whether two parameters have the same facts.
fn same_parameter(x: &ParameterFacts, y: &ParameterFacts) -> (r: bool)
    ensures
        r == (x@ == y@),
{
    str_eq(x.name.as_str(), y.name.as_str()) && x.kind == y.kind && x.has_default == y.has_default
        && opt_str_eq(&x.default_value, &y.default_value) && opt_str_eq(&x.annotation, &y.annotation)
}

/// Whether two signatures have the same structured facts.
fn same_signature_facts(x: &FunctionSignatureFacts, y: &FunctionSignatureFacts) -> (r: bool)
    ensures
        r == (x@ == y@),
{
    if x.is_async != y.is_async || !opt_str_eq(&x.return_annotation, &y.return_annotation)
        || x.parameters.len() != y.parameters.len() {
        proof {
            if x.parameters.len() != y.parameters.len() {
                assert(x@.parameters.len() != y@.parameters.len());
            }
        }
        return false;
    }
    let mut k: usize = 0;
    while k < x.parameters.len()
        invariant
            x.parameters@.len() == y.parameters@.len(),
            0 <= k <= x.parameters@.len(),
            forall|j: int| 0 <= j < k ==> x@.parameters[j] == y@.parameters[j],
        decreases x.parameters@.len() - k,
    {
        if !same_parameter(&x.parameters[k], &y.parameters[k]) {
            assert(x@.parameters[k as int] != y@.parameters[k as int]);
            return false;
        }
        k = k + 1;
    }
    assert(x@.parameters =~= y@.parameters);
    true
}

/// Whether the signatures of two sides differ.
fn signatures_differ(b: &Symbol, a: &Symbol) -> (r: bool)
    ensures
        r == signature_differs(b@, a@),
{
    if str_eq(b.signature.as_str(), a.signature.as_str()) {
        return false;
    }
    match (&b.signature_facts, &a.signature_facts) {
        (Some(x), Some(y)) => !same_signature_facts(x, y),
        _ => true,
    }
}

/// The change labels of a key.
pub fn change_kinds(id_file: &str, before: Option<&Symbol>, after: Option<&Symbol>) -> (r: Vec<ChangeKind>)
    ensures
        r@ == kinds_spec(id_file@, opt_ref_sym(before), opt_ref_sym(after)),
{
    let mut kinds: Vec<ChangeKind> = Vec::new();
    match (before, after) {
        (None, Some(_)) => {
            kinds.push(ChangeKind::Added);
        },
        (Some(_), None) => {
            kinds.push(ChangeKind::Deleted);
        },
        (Some(b), Some(a)) => {
            if !str_eq(b.file.as_str(), id_file) || !str_eq(b.file.as_str(), a.file.as_str()) {
                kinds.push(ChangeKind::PathChanged);
            }
            let ghost k1 = kinds@;
            if !str_eq(b.body_hash.as_str(), a.body_hash.as_str()) {
                kinds.push(ChangeKind::BodyChanged);
            }
            let ghost k2 = kinds@;
            if signatures_differ(b, a) {
                kinds.push(ChangeKind::SignatureChanged);
            }
            proof {
                let p: Seq<ChangeKind> = if b.file@ != id_file@ || b.file@ != a.file@ {
                    seq![ChangeKind::PathChanged]
                } else {
                    seq![]
                };
                let h: Seq<ChangeKind> = if b.body_hash@ != a.body_hash@ {
                    seq![ChangeKind::BodyChanged]
                } else {
                    seq![]
                };
                let g: Seq<ChangeKind> = if signature_differs(b@, a@) {
                    seq![ChangeKind::SignatureChanged]
                } else {
                    seq![]
                };
                assert(k1 =~= p);
                assert(k2 =~= p + h);
                assert(kinds@ =~= p + h + g);
            }
        },
        (None, None) => {},
    }
    proof {
        if before is None && after is Some {
            assert(kinds@ =~= seq![ChangeKind::Added]);
        }
        if before is Some && after is None {
            assert(kinds@ =~= seq![ChangeKind::Deleted]);
        }
        if before is None && after is None {
            assert(kinds@ =~= Seq::<ChangeKind>::empty());
        }
    }
    kinds
}

/// Whether a name component marks privacy.
pub fn is_private_component(c: &str) -> (r: bool)
    ensures
        r == private_component(c@),
{
    let v = chars_of(c);
    if v.len() == 0 || v[0] != '_' {
        return false;
    }
    let dunder = v.len() >= 4 && crate::text::starts_with(c, "__") && crate::text::ends_with(c, "__");
    !dunder
}

/// Whether some piece is a private component.
fn any_private_piece(parts: &Vec<String>) -> (r: bool)
    ensures
        r == any_private(views(parts@)),
{
    let mut i: usize = 0;
    while i < parts.len()
        invariant
            0 <= i <= parts.len(),
            forall|j: int| 0 <= j < i ==> !private_component(#[trigger] views(parts@)[j]),
        decreases parts.len() - i,
    {
        if is_private_component(parts[i].as_str()) {
            proof {
                assert(private_component(views(parts@)[i as int]));
            }
            return true;
        }
        i = i + 1;
    }
    false
}

/// The heuristic visibility of a symbol.
pub fn visibility(symbol: &Symbol) -> (r: SymbolVisibility)
    ensures
        r == visibility_spec(symbol@),
{
    let qn = chars_of(symbol.qualified_name.as_str());
    let name_parts = split_chars(qn.as_slice(), '.');
    if any_private_piece(&name_parts) {
        return SymbolVisibility::Private;
    }
    let base = module_path_base(symbol.file.as_str());
    let bv = chars_of(base.as_str());
    let path_parts = split_chars(bv.as_slice(), '/');
    if any_private_piece(&path_parts) {
        return SymbolVisibility::Internal;
    }
    SymbolVisibility::Public
}

/// Kind and visibility of the symbol a change describes.
pub fn symbol_facts(before: Option<&Symbol>, after: Option<&Symbol>) -> (r: SymbolFacts)
    requires
        before is Some || after is Some,
    ensures
        r == symbol_facts_spec(opt_ref_sym(before), opt_ref_sym(after)),
{
    let symbol = match after {
        Some(a) => a,
        None => before.unwrap(),
    };
    SymbolFacts { kind: symbol.kind, visibility: visibility(symbol) }
}

/// `after − before`, saturated to `isize`.
pub fn delta(before: usize, after: usize) -> (r: isize)
    ensures
        r == delta_spec(before, after),
{
    if after >= before {
        let d = after - before;
        if d > isize::MAX as usize {
            isize::MAX
        } else {
            d as isize
        }
    } else {
        let d = before - after;
        if d > isize::MAX as usize {
            isize::MIN
        } else {
            -(d as isize)
        }
    }
}

/// The complexity delta of a symbol present on both sides.
pub fn complexity_delta(before: Option<&Symbol>, after: Option<&Symbol>) -> (r: Option<ComplexityDelta>)
    ensures
        r == complexity_delta_spec(opt_ref_sym(before), opt_ref_sym(after)),
{
    let (b, a) = match (before, after) {
        (Some(b), Some(a)) => (b, a),
        _ => {
            return None;
        },
    };
    let x = b.complexity;
    let y = a.complexity;
    if x == y {
        return None;
    }
    Some(
        ComplexityDelta {
            before: x,
            after: y,
            length_lines_delta: delta(x.length_lines, y.length_lines),
            branch_count_delta: delta(x.branch_count, y.branch_count),
            loop_count_delta: delta(x.loop_count, y.loop_count),
            boolean_operator_count_delta: delta(
                x.boolean_operator_count,
                y.boolean_operator_count,
            ),
            exception_handler_count_delta: delta(
                x.exception_handler_count,
                y.exception_handler_count,
            ),
            match_count_delta: delta(x.match_count, y.match_count),
            with_count_delta: delta(x.with_count, y.with_count),
            max_nesting_depth_delta: delta(x.max_nesting_depth, y.max_nesting_depth),
        },
    )
}


/// Whether two optional strings are equal.
pub fn opt_str_eq(a: &Option<String>, b: &Option<String>) -> (r: bool)
    ensures
        r == (opt_view(*a) == opt_view(*b)),
{
    match (a, b) {
        (Some(x), Some(y)) => str_eq(x.as_str(), y.as_str()),
        (None, None) => true,
        _ => false,
    }
}

/// Whether a signature has a parameter with the given name.
fn has_param(sig: &FunctionSignatureFacts, name: &str) -> (r: bool)
    ensures
        r == param_names(sig@).contains(name@),
{
    let mut i: usize = 0;
    while i < sig.parameters.len()
        invariant
            0 <= i <= sig.parameters.len(),
            forall|j: int| 0 <= j < i ==> param_names(sig@)[j] != name@,
        decreases sig.parameters.len() - i,
    {
        if str_eq(sig.parameters[i].name.as_str(), name) {
            proof {
                assert(param_names(sig@)[i as int] == name@);
            }
            return true;
        }
        i = i + 1;
    }
    false
}

/// The index of the last parameter with the given name.
fn last_param_index(sig: &FunctionSignatureFacts, name: &str) -> (r: Option<usize>)
    ensures
        match r {
            Some(i) => i < sig.parameters@.len() && last_param(sig@.parameters, name@) == Some(
                sig.parameters@[i as int]@,
            ),
            None => last_param(sig@.parameters, name@) is None,
        },
{
    let ghost ps = sig@.parameters;
    let mut i = sig.parameters.len();
    proof {
        assert(ps.subrange(0, ps.len() as int) =~= ps);
    }
    while i > 0
        invariant
            0 <= i <= sig.parameters.len(),
            ps == sig@.parameters,
            last_param(ps, name@) == last_param(ps.subrange(0, i as int), name@),
        decreases i,
    {
        proof {
            assert(ps.subrange(0, i as int).drop_last() =~= ps.subrange(0, i - 1));
            assert(ps.subrange(0, i as int).last() == sig.parameters@[i - 1]@);
        }
        if str_eq(sig.parameters[i - 1].name.as_str(), name) {
            return Some(i - 1);
        }
        i = i - 1;
    }
    None
}

/// The names of `from`'s parameters whose presence in `other` is `present`,
/// sorted and without repeats.
fn sorted_names(from: &FunctionSignatureFacts, other: &FunctionSignatureFacts, present: bool) -> (r: Vec<String>)
    ensures
        strictly_sorted(views(r@), false),
        forall|n: Seq<char>|
            #[trigger] views(r@).contains(n) <==> (param_names(from@).contains(n) && param_names(
                other@,
            ).contains(n) == present),
{
    let mut r: Vec<String> = Vec::new();
    let mut i: usize = 0;
    while i < from.parameters.len()
        invariant
            0 <= i <= from.parameters.len(),
            strictly_sorted(views(r@), false),
            forall|n: Seq<char>|
                #[trigger] views(r@).contains(n) <==> (exists|k: int|
                    0 <= k < i && param_names(from@)[k] == n) && param_names(other@).contains(n)
                    == present,
        decreases from.parameters.len() - i,
    {
        let name = &from.parameters[i].name;
        let ghost before = views(r@);
        proof {
            assert(param_names(from@)[i as int] == name@);
        }
        if has_param(other, name.as_str()) == present {
            insert_sorted(&mut r, name.clone(), false);
            proof {
                assert forall|n: Seq<char>| #[trigger] views(r@).contains(n) <==> (exists|k: int|
                    0 <= k < i + 1 && param_names(from@)[k] == n) && param_names(other@).contains(
                    n,
                ) == present by {
                    assert(views(r@).to_set().contains(n) == views(r@).contains(n));
                    assert(before.to_set().contains(n) == before.contains(n));
                    if n == name@ {
                        assert(param_names(from@)[i as int] == n);
                    } else if (exists|k: int| 0 <= k < i + 1 && param_names(from@)[k] == n) {
                        let k = choose|k: int| 0 <= k < i + 1 && param_names(from@)[k] == n;
                        assert(k < i);
                    }
                }
            }
        } else {
            proof {
                assert forall|n: Seq<char>| #[trigger] views(r@).contains(n) <==> (exists|k: int|
                    0 <= k < i + 1 && param_names(from@)[k] == n) && param_names(other@).contains(
                    n,
                ) == present by {
                    if (exists|k: int| 0 <= k < i + 1 && param_names(from@)[k] == n) && param_names(
                        other@,
                    ).contains(n) == present {
                        let k = choose|k: int| 0 <= k < i + 1 && param_names(from@)[k] == n;
                        if k == i {
                            assert(n == name@);
                        }
                    }
                }
            }
        }
        i = i + 1;
    }
    proof {
        assert forall|n: Seq<char>| #[trigger] views(r@).contains(n) <==> (param_names(
            from@,
        ).contains(n) && param_names(other@).contains(n) == present) by {
            if param_names(from@).contains(n) {
                let k = choose|k: int| 0 <= k < param_names(from@).len() && param_names(from@)[k] == n;
                assert(0 <= k < from.parameters.len());
            }
        }
    }
    r
}

/// Which per-parameter fact is compared.
pub enum ParamFact {
    Kind,
    Default,
    Annotation,
}

/// The fact differs between the two parameters.
pub open spec fn fact_differs(which: ParamFact, x: ParameterView, y: ParameterView) -> bool {
    match which {
        ParamFact::Kind => x.kind != y.kind,
        ParamFact::Default => x.has_default != y.has_default || x.default_value != y.default_value,
        ParamFact::Annotation => x.annotation != y.annotation,
    }
}

/// The shared names (sorted) whose last parameters differ in the fact.
fn names_with_changed_fact(before: &FunctionSignatureFacts, after: &FunctionSignatureFacts, shared_names: &Vec<String>, which: ParamFact) -> (r: Vec<String>)
    requires
        strictly_sorted(views(shared_names@), false),
        forall|n: Seq<char>| #[trigger] views(shared_names@).contains(n) <==> shared(before@, after@, n),
    ensures
        sorted_set_of(
            views(r@),
            |n: Seq<char>|
                shared(before@, after@, n) && fact_differs(
                    which,
                    last_param(before@.parameters, n).unwrap(),
                    last_param(after@.parameters, n).unwrap(),
                ),
        ),
{
    let ghost pred = |n: Seq<char>|
        fact_differs(
            which,
            last_param(before@.parameters, n).unwrap(),
            last_param(after@.parameters, n).unwrap(),
        );
    let ghost sv = views(shared_names@);
    let mut r: Vec<String> = Vec::new();
    let mut i: usize = 0;
    while i < shared_names.len()
        invariant
            0 <= i <= shared_names.len(),
            sv == views(shared_names@),
            forall|n: Seq<char>| #[trigger] sv.contains(n) <==> shared(before@, after@, n),
            views(r@) == sv.subrange(0, i as int).filter(pred),
            pred == (|n: Seq<char>|
                fact_differs(
                    which,
                    last_param(before@.parameters, n).unwrap(),
                    last_param(after@.parameters, n).unwrap(),
                )),
        decreases shared_names.len() - i,
    {
        let name = &shared_names[i];
        proof {
            assert(sv[i as int] == name@);
            assert(sv.contains(name@));
            assert(sv.subrange(0, i + 1) =~= sv.subrange(0, i as int).push(sv[i as int]));
            crate::text::lemma_push_filter(sv.subrange(0, i as int), pred, sv[i as int]);
        }
        let bi = last_param_index(before, name.as_str());
        let ai = last_param_index(after, name.as_str());
        proof {
            assert(param_names(before@).contains(name@));
            let k = choose|k: int| 0 <= k < param_names(before@).len() && param_names(before@)[k] == name@;
            lemma_last_param_exists(before@.parameters, name@, k);
            let k2 = choose|k: int| 0 <= k < param_names(after@).len() && param_names(after@)[k] == name@;
            lemma_last_param_exists(after@.parameters, name@, k2);
        }
        let bp = &before.parameters[bi.unwrap()];
        let ap = &after.parameters[ai.unwrap()];
        let differs = match which {
            ParamFact::Kind => bp.kind != ap.kind,
            ParamFact::Default => bp.has_default != ap.has_default || !opt_str_eq(
                &bp.default_value,
                &ap.default_value,
            ),
            ParamFact::Annotation => !opt_str_eq(&bp.annotation, &ap.annotation),
        };
        proof {
            assert(differs == pred(name@));
        }
        if differs {
            let ghost old_r = views(r@);
            r.push(name.clone());
            proof {
                assert(views(r@) =~= old_r.push(name@));
            }
        }
        i = i + 1;
    }
    proof {
        assert(sv.subrange(0, sv.len() as int) =~= sv);
        lemma_filter_sorted(sv, pred, false);
        assert forall|n: Seq<char>| #[trigger] views(r@).contains(n) <==> (shared(
            before@,
            after@,
            n,
        ) && pred(n)) by {
            assert(views(r@).to_set().contains(n) == views(r@).contains(n));
            assert(sv.to_set().contains(n) == sv.contains(n));
        }
    }
    r
}

/// A parameter with the given name exists, so the last one does.
proof fn lemma_last_param_exists(ps: Seq<ParameterView>, n: Seq<char>, k: int)
    requires
        0 <= k < ps.len(),
        ps[k].name == n,
    ensures
        last_param(ps, n) is Some,
    decreases ps.len(),
{
    if ps.last().name != n {
        lemma_last_param_exists(ps.drop_last(), n, k);
    }
}

/// The names of `from`'s parameters that `other` also has, in order.
fn shared_in_order(from: &FunctionSignatureFacts, other: &FunctionSignatureFacts) -> (r: Vec<String>)
    ensures
        views(r@) == shared_order(from@, other@),
{
    let ghost pred = |n: Seq<char>| param_names(other@).contains(n);
    let ghost names = param_names(from@);
    let mut r: Vec<String> = Vec::new();
    let mut i: usize = 0;
    while i < from.parameters.len()
        invariant
            0 <= i <= from.parameters.len(),
            names == param_names(from@),
            pred == (|n: Seq<char>| param_names(other@).contains(n)),
            views(r@) == names.subrange(0, i as int).filter(pred),
        decreases from.parameters.len() - i,
    {
        proof {
            assert(names[i as int] == from.parameters@[i as int].name@);
            assert(names.subrange(0, i + 1) =~= names.subrange(0, i as int).push(names[i as int]));
            crate::text::lemma_push_filter(names.subrange(0, i as int), pred, names[i as int]);
        }
        if has_param(other, from.parameters[i].name.as_str()) {
            let ghost old_r = views(r@);
            r.push(from.parameters[i].name.clone());
            proof {
                assert(views(r@) =~= old_r.push(names[i as int]));
            }
        }
        i = i + 1;
    }
    proof {
        assert(names.subrange(0, names.len() as int) =~= names);
    }
    r
}

/// Whether two string sequences are equal.
fn same_strings(a: &Vec<String>, b: &Vec<String>) -> (r: bool)
    ensures
        r == (views(a@) == views(b@)),
{
    if a.len() != b.len() {
        proof {
            assert(views(a@).len() != views(b@).len());
        }
        return false;
    }
    let mut i: usize = 0;
    while i < a.len()
        invariant
            0 <= i <= a.len(),
            a.len() == b.len(),
            forall|j: int| 0 <= j < i ==> views(a@)[j] == views(b@)[j],
        decreases a.len() - i,
    {
        if !str_eq(a[i].as_str(), b[i].as_str()) {
            proof {
                assert(views(a@)[i as int] != views(b@)[i as int]);
            }
            return false;
        }
        i = i + 1;
    }
    proof {
        assert(views(a@) =~= views(b@));
    }
    true
}

/// Compares the structured facts of two signatures.
pub fn compare_signatures(before: &FunctionSignatureFacts, after: &FunctionSignatureFacts) -> (r: SignatureChangeFacts)
    ensures
        compare_ok(r, before@, after@),
{
    let parameters_added = sorted_names(after, before, false);
    let parameters_removed = sorted_names(before, after, false);
    let shared_names = sorted_names(before, after, true);
    let parameter_kind_changed = names_with_changed_fact(before, after, &shared_names, ParamFact::Kind);
    let parameter_default_changed = names_with_changed_fact(before, after, &shared_names, ParamFact::Default);
    let parameter_annotation_changed = names_with_changed_fact(
        before,
        after,
        &shared_names,
        ParamFact::Annotation,
    );
    let before_order = shared_in_order(before, after);
    let after_order = shared_in_order(after, before);
    let reordered = !same_strings(&before_order, &after_order);
    let r = SignatureChangeFacts {
        parameters_added,
        parameters_removed,
        parameters_reordered: reordered,
        parameter_kind_changed,
        parameter_default_changed,
        parameter_annotation_changed,
        return_annotation_changed: !opt_str_eq(&before.return_annotation, &after.return_annotation),
        async_changed: before.is_async != after.is_async,
    };
    r
}


proof fn lemma_sorted_set_empty(x: Seq<Seq<char>>, y: Seq<Seq<char>>, p: spec_fn(Seq<char>) -> bool)
    requires
        sorted_set_of(x, p),
        sorted_set_of(y, p),
    ensures
        (x.len() == 0) == (y.len() == 0),
{
    if x.len() > 0 {
        assert(x.contains(x[0]));
        assert(y.contains(x[0]));
    }
    if y.len() > 0 {
        assert(y.contains(y[0]));
        assert(x.contains(y[0]));
    }
}

/// Two comparisons of the same signatures agree on whether they report
/// anything.
proof fn lemma_compare_emptiness(f: SignatureChangeFacts, g: SignatureChangeFacts, b: SignatureView, a: SignatureView)
    requires
        compare_ok(f, b, a),
        compare_ok(g, b, a),
    ensures
        compare_is_empty(f) == compare_is_empty(g),
{
    lemma_sorted_set_empty(
        views(f.parameters_added@),
        views(g.parameters_added@),
        |n: Seq<char>| param_names(a).contains(n) && !param_names(b).contains(n),
    );
    lemma_sorted_set_empty(
        views(f.parameters_removed@),
        views(g.parameters_removed@),
        |n: Seq<char>| param_names(b).contains(n) && !param_names(a).contains(n),
    );
    lemma_sorted_set_empty(
        views(f.parameter_kind_changed@),
        views(g.parameter_kind_changed@),
        |n: Seq<char>|
            shared(b, a, n) && last_param(b.parameters, n).unwrap().kind != last_param(
                a.parameters,
                n,
            ).unwrap().kind,
    );
    lemma_sorted_set_empty(
        views(f.parameter_default_changed@),
        views(g.parameter_default_changed@),
        |n: Seq<char>|
            shared(b, a, n) && (last_param(b.parameters, n).unwrap().has_default != last_param(
                a.parameters,
                n,
            ).unwrap().has_default || last_param(b.parameters, n).unwrap().default_value
                != last_param(a.parameters, n).unwrap().default_value),
    );
    lemma_sorted_set_empty(
        views(f.parameter_annotation_changed@),
        views(g.parameter_annotation_changed@),
        |n: Seq<char>|
            shared(b, a, n) && last_param(b.parameters, n).unwrap().annotation != last_param(
                a.parameters,
                n,
            ).unwrap().annotation,
    );
}

/// Signature facts of a change, when both sides carry structured facts and
/// their comparison reports something.
pub fn signature_change_facts(before: Option<&Symbol>, after: Option<&Symbol>) -> (r: Option<SignatureChangeFacts>)
    ensures
        signature_change_ok(r, opt_ref_sym(before), opt_ref_sym(after)),
{
    let (b, a) = match (before, after) {
        (Some(b), Some(a)) => (b, a),
        _ => {
            return None;
        },
    };
    let (bs, as_) = match (&b.signature_facts, &a.signature_facts) {
        (Some(bs), Some(as_)) => (bs, as_),
        _ => {
            return None;
        },
    };
    let facts = compare_signatures(bs, as_);
    let empty = facts.parameters_added.len() == 0 && facts.parameters_removed.len() == 0
        && !facts.parameters_reordered && facts.parameter_kind_changed.len() == 0
        && facts.parameter_default_changed.len() == 0 && facts.parameter_annotation_changed.len()
        == 0 && !facts.return_annotation_changed && !facts.async_changed;
    if empty {
        proof {
            assert forall|f: SignatureChangeFacts| compare_ok(f, bs@, as_@) implies compare_is_empty(
                f,
            ) by {
                lemma_compare_emptiness(f, facts, bs@, as_@);
            }
        }
        None
    } else {
        Some(facts)
    }
}

/// The keys of a sequence of ids.
pub open spec fn id_keys(v: Seq<SymbolId>) -> Seq<(Seq<char>, Seq<char>)> {
    Seq::new(v.len(), |i: int| (v[i].file@, v[i].qualified_name@))
}

/// Inserts a key into a strictly increasing sequence of ids.
fn insert_key(v: &mut Vec<SymbolId>, x: SymbolId)
    requires
        keys_sorted(id_keys(old(v)@)),
    ensures
        keys_sorted(id_keys(final(v)@)),
        id_keys(final(v)@).to_set() == id_keys(old(v)@).to_set().insert(
            (x.file@, x.qualified_name@),
        ),
{
    let ghost ks = id_keys(v@);
    let ghost xk = (x.file@, x.qualified_name@);
    let mut i: usize = 0;
    while i < v.len()
        invariant
            0 <= i <= v.len(),
            v@ == old(v)@,
            ks == id_keys(v@),
            xk == (x.file@, x.qualified_name@),
            keys_sorted(ks),
            forall|j: int| 0 <= j < i ==> key_lt(#[trigger] ks[j], xk),
        ensures
            0 <= i <= v.len(),
            v@ == old(v)@,
            forall|j: int| 0 <= j < i ==> key_lt(#[trigger] ks[j], xk),
            i < v.len() ==> key_lt(xk, ks[i as int]),
        decreases v.len() - i,
    {
        let c = key_order(
            v[i].file.as_str(),
            v[i].qualified_name.as_str(),
            x.file.as_str(),
            x.qualified_name.as_str(),
        );
        if c == 0 {
            proof {
                assert(ks[i as int] == xk);
                assert(ks.to_set().insert(xk) =~= ks.to_set());
            }
            return ;
        }
        if c > 0 {
            break;
        }
        i = i + 1;
    }
    v.insert(i, x);
    proof {
        let nk = id_keys(v@);
        assert(nk =~= ks.insert(i as int, xk));
        assert forall|a: int, b: int| 0 <= a < b < nk.len() implies key_lt(
            #[trigger] nk[a],
            #[trigger] nk[b],
        ) by {
            if b < i {
                assert(nk[a] == ks[a] && nk[b] == ks[b]);
            } else if b == i {
                assert(nk[a] == ks[a]);
            } else if a == i {
                assert(nk[b] == ks[b - 1]);
                if b - 1 > i {
                    lemma_key_transitive(xk, ks[i as int], ks[b - 1]);
                }
            } else if a < i {
                assert(nk[a] == ks[a] && nk[b] == ks[b - 1]);
            } else {
                assert(nk[a] == ks[a - 1] && nk[b] == ks[b - 1]);
            }
        }
        assert(nk.to_set() =~= ks.to_set().insert(xk)) by {
            assert forall|e: (Seq<char>, Seq<char>)| nk.to_set().contains(e) implies ks.to_set().insert(
                xk,
            ).contains(e) by {
                let k = choose|k: int| 0 <= k < nk.len() && nk[k] == e;
                if k < i {
                    assert(ks[k] == e);
                } else if k > i {
                    assert(ks[k - 1] == e);
                }
            }
            assert forall|e: (Seq<char>, Seq<char>)| ks.to_set().insert(xk).contains(e) implies nk.to_set().contains(e) by {
                if e == xk {
                    assert(nk[i as int] == e);
                } else {
                    let k = choose|k: int| 0 <= k < ks.len() && ks[k] == e;
                    if k < i {
                        assert(nk[k] == e);
                    } else {
                        assert(nk[k + 1] == e);
                    }
                }
            }
        }
    }
}

/// The sorted keys of both sides (`symbol_index` keys, joined).
pub fn symbol_index(before: &[Symbol], after: &[Symbol], pairs: &Vec<(String, String)>, Ghost(changed): Ghost<Seq<ChangedFileView>>) -> (r: Vec<SymbolId>)
    requires
        forall|p: Seq<char>| #[trigger] renamed_target(changed, p) == pair_lookup(pairs@, p),
    ensures
        keys_sorted(id_keys(r@)),
        forall|k: (Seq<char>, Seq<char>)| #[trigger] id_keys(r@).to_set().contains(k) <==> is_key(
            sym_views(before@),
            sym_views(after@),
            changed,
            k,
        ),
{
    let ghost bv = sym_views(before@);
    let ghost av = sym_views(after@);
    let mut keys: Vec<SymbolId> = Vec::new();
    let mut i: usize = 0;
    while i < before.len()
        invariant
            0 <= i <= before.len(),
            bv == sym_views(before@),
            forall|p: Seq<char>| #[trigger] renamed_target(changed, p) == pair_lookup(pairs@, p),
            keys_sorted(id_keys(keys@)),
            forall|k: (Seq<char>, Seq<char>)| #[trigger] id_keys(keys@).to_set().contains(k) <==> (
            exists|j: int| 0 <= j < i && before_key(changed, #[trigger] bv[j]) == k),
        decreases before.len() - i,
    {
        let f = compared_file(pairs, before[i].file.as_str());
        let id = SymbolId { file: f, qualified_name: before[i].qualified_name.clone() };
        proof {
            assert(renamed_target(changed, before[i as int].file@) == pair_lookup(
                pairs@,
                before[i as int].file@,
            ));
            assert(bv[i as int] == before[i as int]@);
            assert(before_key(changed, bv[i as int]) == (id.file@, id.qualified_name@));
        }
        let ghost old_set = id_keys(keys@).to_set();
        insert_key(&mut keys, id);
        proof {
            assert forall|k: (Seq<char>, Seq<char>)| #[trigger] id_keys(keys@).to_set().contains(k) <==> (
            exists|j: int| 0 <= j < i + 1 && before_key(changed, #[trigger] bv[j]) == k) by {
                if exists|j: int| 0 <= j < i + 1 && before_key(changed, #[trigger] bv[j]) == k {
                    let j = choose|j: int| 0 <= j < i + 1 && before_key(changed, #[trigger] bv[j]) == k;
                    if j < i {
                        assert(old_set.contains(k));
                    }
                }
            }
        }
        i = i + 1;
    }
    let mut i: usize = 0;
    while i < after.len()
        invariant
            0 <= i <= after.len(),
            bv == sym_views(before@),
            av == sym_views(after@),
            keys_sorted(id_keys(keys@)),
            forall|k: (Seq<char>, Seq<char>)| #[trigger] id_keys(keys@).to_set().contains(k) <==> (
            exists|j: int| 0 <= j < before@.len() && before_key(changed, #[trigger] bv[j]) == k)
                || (exists|j: int| 0 <= j < i && after_key(#[trigger] av[j]) == k),
        decreases after.len() - i,
    {
        let id = SymbolId { file: after[i].file.clone(), qualified_name: after[i].qualified_name.clone() };
        proof {
            assert(av[i as int] == after[i as int]@);
            assert(after_key(av[i as int]) == (id.file@, id.qualified_name@));
        }
        let ghost old_set = id_keys(keys@).to_set();
        insert_key(&mut keys, id);
        proof {
            assert forall|k: (Seq<char>, Seq<char>)| #[trigger] id_keys(keys@).to_set().contains(k) <==> (
            exists|j: int| 0 <= j < before@.len() && before_key(changed, #[trigger] bv[j]) == k)
                || (exists|j: int| 0 <= j < i + 1 && after_key(#[trigger] av[j]) == k) by {
                if exists|j: int| 0 <= j < i + 1 && after_key(#[trigger] av[j]) == k {
                    let j = choose|j: int| 0 <= j < i + 1 && after_key(#[trigger] av[j]) == k;
                    if j < i {
                        assert(old_set.contains(k));
                    }
                }
            }
        }
        i = i + 1;
    }
    keys
}


/// What `diff_symbols` states of its result: the changes are sorted by
/// key, each is the change of its key as `change_ok` describes it, each key
/// is a key of some symbol, and every key whose symbol changed has a change.
pub open spec fn diff_ok(r: Seq<SymbolChange>, before: Seq<Symbol>, after: Seq<Symbol>, changed_files: Seq<ChangedFile>) -> bool {
    &&& keys_sorted(change_keys(r))
    &&& forall|i: int|
        0 <= i < r.len() ==> change_ok(
            #[trigger] r[i],
            sym_views(before),
            sym_views(after),
            changed_views(changed_files),
        )
    &&& forall|i: int|
        0 <= i < r.len() ==> is_key(
            sym_views(before),
            sym_views(after),
            changed_views(changed_files),
            #[trigger] change_keys(r)[i],
        )
    &&& forall|k: (Seq<char>, Seq<char>)|
        is_key(sym_views(before), sym_views(after), changed_views(changed_files), k) && kinds_spec(
            k.0,
            last_before(changed_views(changed_files), sym_views(before), k),
            last_after(sym_views(after), k),
        ).len() > 0 ==> #[trigger] change_keys(r).contains(k)
}

/// Joins the symbols of both sides on their keys and reports every key whose
/// symbol was added, deleted, moved by a Git rename, or changed in body or
/// signature, in key order.
pub fn diff_symbols(before: &[Symbol], after: &[Symbol], changed_files: &[ChangedFile]) -> (r: Vec<SymbolChange>)
    ensures
        diff_ok(r@, before@, after@, changed_files@),
{
    let ghost changed = changed_views(changed_files@);
    let ghost bv = sym_views(before@);
    let ghost av = sym_views(after@);
    let pairs = renamed_paths(changed_files);
    let keys = symbol_index(before, after, &pairs, Ghost(changed));
    let ghost kv = id_keys(keys@);
    let mut r: Vec<SymbolChange> = Vec::new();
    let mut i: usize = 0;
    while i < keys.len()
        invariant
            0 <= i <= keys.len(),
            changed == changed_views(changed_files@),
            bv == sym_views(before@),
            av == sym_views(after@),
            kv == id_keys(keys@),
            keys_sorted(kv),
            forall|p: Seq<char>| #[trigger] renamed_target(changed, p) == pair_lookup(pairs@, p),
            forall|k: (Seq<char>, Seq<char>)| #[trigger] kv.to_set().contains(k) <==> is_key(
                bv,
                av,
                changed,
                k,
            ),
            keys_sorted(change_keys(r@)),
            forall|j: int| 0 <= j < r@.len() ==> change_ok(#[trigger] r@[j], bv, av, changed),
            forall|j: int|
                0 <= j < r@.len() ==> exists|m: int|
                    0 <= m < i && #[trigger] change_keys(r@)[j] == kv[m],
            forall|m: int|
                0 <= m < i && kinds_spec(
                    kv[m].0,
                    last_before(changed, bv, kv[m]),
                    last_after(av, kv[m]),
                ).len() > 0 ==> change_keys(r@).contains(#[trigger] kv[m]),
        decreases keys.len() - i,
    {
        let id = &keys[i];
        let ghost key = kv[i as int];
        proof {
            assert(key == (id.file@, id.qualified_name@));
        }
        let bi = find_last_key(
            before,
            &pairs,
            true,
            id.file.as_str(),
            id.qualified_name.as_str(),
            Ghost(changed),
        );
        let ai = find_last_key(
            after,
            &pairs,
            false,
            id.file.as_str(),
            id.qualified_name.as_str(),
            Ghost(changed),
        );
        let b: Option<&Symbol> = match bi {
            Some(k) => Some(&before[k]),
            None => None,
        };
        let a: Option<&Symbol> = match ai {
            Some(k) => Some(&after[k]),
            None => None,
        };
        proof {
            assert(opt_ref_sym(b) == last_before(changed, bv, key));
            assert(opt_ref_sym(a) == last_after(av, key));
        }
        let kinds = change_kinds(id.file.as_str(), b, a);
        if kinds.len() > 0 {
            let facts = symbol_facts(b, a);
            let signature_change = signature_change_facts(b, a);
            let complexity = complexity_delta(b, a);
            let before_copy = match b {
                Some(s) => Some(s.copy()),
                None => None,
            };
            let after_copy = match a {
                Some(s) => Some(s.copy()),
                None => None,
            };
            let change = SymbolChange {
                id: id.copy(),
                kinds,
                before: before_copy,
                after: after_copy,
                symbol_facts: facts,
                signature_change,
                complexity_delta: complexity,
                references_before: SymbolReferenceFacts::empty(),
                references_after: SymbolReferenceFacts::empty(),
                test_references_after: SymbolReferenceFacts::empty(),
                reference_delta: SymbolReferenceDelta::empty(),
                review_signals: Vec::new(),
            };
            let ghost old_r = r@;
            r.push(change);
            proof {
                assert(change_keys(r@) =~= change_keys(old_r).push(key));
                assert forall|j: int| 0 <= j < r@.len() implies change_ok(
                    #[trigger] r@[j],
                    bv,
                    av,
                    changed,
                ) by {
                    if j < old_r.len() {
                        assert(r@[j] == old_r[j]);
                    }
                }
                assert forall|j: int| 0 <= j < r@.len() implies exists|m: int|
                    0 <= m < i + 1 && #[trigger] change_keys(r@)[j] == kv[m] by {
                    if j < old_r.len() {
                        assert(change_keys(r@)[j] == change_keys(old_r)[j]);
                        let m = choose|m: int| 0 <= m < i && change_keys(old_r)[j] == kv[m];
                        assert(change_keys(r@)[j] == kv[m]);
                    } else {
                        assert(change_keys(r@)[j] == kv[i as int]);
                    }
                }
                assert forall|x: int, y: int| 0 <= x < y < change_keys(r@).len() implies key_lt(
                    #[trigger] change_keys(r@)[x],
                    #[trigger] change_keys(r@)[y],
                ) by {
                    if y < old_r.len() {
                        assert(change_keys(r@)[x] == change_keys(old_r)[x]);
                        assert(change_keys(r@)[y] == change_keys(old_r)[y]);
                    } else {
                        assert(change_keys(r@)[x] == change_keys(old_r)[x]);
                        let m = choose|m: int| 0 <= m < i && change_keys(old_r)[x] == kv[m];
                        assert(key_lt(kv[m], kv[i as int]));
                    }
                }
                assert forall|m: int|
                    0 <= m < i + 1 && kinds_spec(
                        kv[m].0,
                        last_before(changed, bv, kv[m]),
                        last_after(av, kv[m]),
                    ).len() > 0 implies change_keys(r@).contains(#[trigger] kv[m]) by {
                    if m < i {
                        let j = choose|j: int|
                            0 <= j < change_keys(old_r).len() && change_keys(old_r)[j] == kv[m];
                        assert(change_keys(r@)[j] == kv[m]);
                    } else {
                        assert(change_keys(r@)[old_r.len() as int] == kv[m]);
                    }
                }
            }
        } else {
            proof {
                assert forall|j: int| 0 <= j < r@.len() implies exists|m: int|
                    0 <= m < i + 1 && #[trigger] change_keys(r@)[j] == kv[m] by {
                    let m = choose|m: int| 0 <= m < i && change_keys(r@)[j] == kv[m];
                }
            }
        }
        i = i + 1;
    }
    proof {
        assert forall|j: int| 0 <= j < r@.len() implies is_key(
            bv,
            av,
            changed,
            #[trigger] change_keys(r@)[j],
        ) by {
            let m = choose|m: int| 0 <= m < keys@.len() && change_keys(r@)[j] == kv[m];
            assert(kv.to_set().contains(kv[m]));
        }
        assert forall|k: (Seq<char>, Seq<char>)|
            is_key(bv, av, changed, k) && kinds_spec(
                k.0,
                last_before(changed, bv, k),
                last_after(av, k),
            ).len() > 0 implies #[trigger] change_keys(r@).contains(k) by {
            assert(kv.to_set().contains(k));
            let m = choose|m: int| 0 <= m < kv.len() && kv[m] == k;
        }
    }
    r
}


/// No changed file is a Git rename.
pub open spec fn no_renames(changed: Seq<ChangedFileView>) -> bool {
    forall|i: int| 0 <= i < changed.len() ==> !((#[trigger] changed[i]).status is Renamed)
}

/// With no Git rename, no path is renamed.
proof fn lemma_no_rename_target(changed: Seq<ChangedFileView>, p: Seq<char>)
    requires
        no_renames(changed),
    ensures
        renamed_target(changed, p) is None,
    decreases changed.len(),
{
    if changed.len() > 0 {
        assert(!(changed[changed.len() - 1].status is Renamed));
        lemma_no_rename_target(changed.drop_last(), p);
    }
}

/// With no Git rename, a before-side symbol is looked up under its own key.
proof fn lemma_last_without_renames(changed: Seq<ChangedFileView>, syms: Seq<SymbolView>, key: (Seq<char>, Seq<char>))
    requires
        no_renames(changed),
    ensures
        last_before(changed, syms, key) == last_after(syms, key),
    decreases syms.len(),
{
    if syms.len() > 0 {
        lemma_no_rename_target(changed, syms.last().file);
        lemma_last_without_renames(changed, syms.drop_last(), key);
    }
}

/// The symbol found for a key has that key.
proof fn lemma_last_after_key(syms: Seq<SymbolView>, key: (Seq<char>, Seq<char>))
    ensures
        match last_after(syms, key) {
            Some(s) => after_key(s) == key,
            None => true,
        },
    decreases syms.len(),
{
    if syms.len() > 0 {
        lemma_last_after_key(syms.drop_last(), key);
    }
}

/// Comparing a side with itself, with no Git changes, reports no symbol
/// change.
pub proof fn lemma_unchanged_side_has_no_changes(r: Seq<SymbolChange>, side: Seq<Symbol>)
    requires
        diff_ok(r, side, side, Seq::empty()),
    ensures
        r.len() == 0,
{
    if r.len() > 0 {
        let c = r[0];
        let key = (c.id.file@, c.id.qualified_name@);
        let changed = changed_views(Seq::<ChangedFile>::empty());
        assert(change_ok(c, sym_views(side), sym_views(side), changed));
        lemma_last_without_renames(changed, sym_views(side), key);
        lemma_last_after_key(sym_views(side), key);
        assert(kinds_spec(c.id.file@, last_after(sym_views(side), key), last_after(sym_views(side), key)).len() == 0);
        assert(false);
    }
}

/// Path changes are only reported for Git renames: without one, a symbol
/// that moved to another file shows as deleted and added, never as a path
/// change.
pub proof fn lemma_path_changes_need_renames(r: Seq<SymbolChange>, before: Seq<Symbol>, after: Seq<Symbol>, changed_files: Seq<ChangedFile>)
    requires
        diff_ok(r, before, after, changed_files),
        no_renames(changed_views(changed_files)),
    ensures
        forall|i: int| 0 <= i < r.len() ==> !(#[trigger] r[i]).kinds@.contains(ChangeKind::PathChanged),
{
    assert forall|i: int| 0 <= i < r.len() implies !(#[trigger] r[i]).kinds@.contains(ChangeKind::PathChanged) by {
        let c = r[i];
        let key = (c.id.file@, c.id.qualified_name@);
        let changed = changed_views(changed_files);
        assert(change_ok(c, sym_views(before), sym_views(after), changed));
        lemma_last_without_renames(changed, sym_views(before), key);
        lemma_last_after_key(sym_views(before), key);
        lemma_last_after_key(sym_views(after), key);
        let k = c.kinds@;
        if k.contains(ChangeKind::PathChanged) {
            let j = choose|j: int| 0 <= j < k.len() && k[j] == ChangeKind::PathChanged;
            assert(false);
        }
    }
}

/// One delta of a complexity change is right: it is `after − before`
/// whenever that fits an `isize`, and the nearest end of `isize` otherwise.
pub open spec fn moved_by(before: usize, after: usize, d: isize) -> bool {
    &&& (isize::MIN <= after - before <= isize::MAX ==> before + d == after)
    &&& (after - before > isize::MAX ==> d == isize::MAX)
    &&& (after - before < isize::MIN ==> d == isize::MIN)
}

/// The complexity delta of a symbol is absent unless it exists on both
/// sides with different metrics; then it carries both sides' metrics and,
/// for every metric, how far it moved from before to after.
pub proof fn lemma_complexity_delta_moves(b: Option<SymbolView>, a: Option<SymbolView>)
    ensures
        complexity_delta_spec(b, a) is Some <==> (b is Some && a is Some && b.unwrap().complexity
            != a.unwrap().complexity),
        complexity_delta_spec(b, a) matches Some(d) ==> {
            let x = b.unwrap().complexity;
            let y = a.unwrap().complexity;
            &&& d.before == x
            &&& d.after == y
            &&& moved_by(x.length_lines, y.length_lines, d.length_lines_delta)
            &&& moved_by(x.branch_count, y.branch_count, d.branch_count_delta)
            &&& moved_by(x.loop_count, y.loop_count, d.loop_count_delta)
            &&& moved_by(x.boolean_operator_count, y.boolean_operator_count, d.boolean_operator_count_delta)
            &&& moved_by(x.exception_handler_count, y.exception_handler_count, d.exception_handler_count_delta)
            &&& moved_by(x.match_count, y.match_count, d.match_count_delta)
            &&& moved_by(x.with_count, y.with_count, d.with_count_delta)
            &&& moved_by(x.max_nesting_depth, y.max_nesting_depth, d.max_nesting_depth_delta)
        },
{
}

} // verus!
