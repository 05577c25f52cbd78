//! The words of the report: change labels, cleaned signatures and the
//! verbose facts of an item.
use vstd::prelude::*;

use crate::analysis::facts::{
    ChangeKind, ReviewSignal, SignatureChangeFacts, SymbolChange, SymbolVisibility,
};
use crate::language::{FunctionSignatureFacts, ParameterView, SignatureView, SymbolKind};
use crate::output::report::{ReferenceCounts, SignatureReport, VerboseFacts};
use crate::python::signature::{normalize_fragment, normalize_spec, strip_trailing_colons};
use crate::text::{
    chars_of, concat2, concat3, has_prefix, join_chars, join_spec, owned, replace_all,
    replace_spec, str_eq, string_from_chars, trim, trim_spec, views,
};

verus! {

/// The word for a visibility.
pub open spec fn visibility_text(v: SymbolVisibility) -> Seq<char> {
    match v {
        SymbolVisibility::Private => "private"@,
        SymbolVisibility::Internal => "internal"@,
        SymbolVisibility::Public => "public"@,
    }
}

/// The word for a symbol kind.
pub open spec fn kind_text(k: SymbolKind) -> Seq<char> {
    match k {
        SymbolKind::Class => "class"@,
        SymbolKind::Function => "function"@,
        SymbolKind::Method => "method"@,
    }
}

/// The words for a change kind.
pub open spec fn change_kind_spec(k: ChangeKind) -> Seq<char> {
    match k {
        ChangeKind::Added => "added"@,
        ChangeKind::Deleted => "deleted"@,
        ChangeKind::PathChanged => "path changed"@,
        ChangeKind::BodyChanged => "body changed"@,
        ChangeKind::SignatureChanged => "signature changed"@,
    }
}

/// The words for a review signal.
pub open spec fn signal_spec(s: ReviewSignal) -> Seq<char> {
    match s {
        ReviewSignal::PublicSymbolAdded => "public symbol added"@,
        ReviewSignal::PublicSymbolDeleted => "public symbol deleted"@,
        ReviewSignal::PublicSignatureChanged => "public signature changed"@,
        ReviewSignal::TypeAnnotationsChanged => "type annotations changed"@,
        ReviewSignal::SignatureChangedWithUnchangedCallers => "signature changed with unchanged callers"@,
        ReviewSignal::ComplexityIncreased => "complexity increased"@,
        ReviewSignal::ImplementationChangedWithoutTestMovement => "implementation changed without test movement"@,
        ReviewSignal::PathChangedOnly => "path changed only"@,
    }
}

/// An annotation, or `unannotated`.
pub open spec fn annotation_text_spec(a: Option<Seq<char>>) -> Seq<char> {
    match a {
        Some(x) => x,
        None => "unannotated"@,
    }
}

/// The first parameter of a given name.
pub open spec fn first_param(ps: Seq<ParameterView>, name: Seq<char>, k: int) -> Option<ParameterView>
    decreases ps.len() - k,
{
    if k < 0 || k >= ps.len() {
        None
    } else if ps[k].name == name {
        Some(ps[k])
    } else {
        first_param(ps, name, k + 1)
    }
}

/// `name: before -> after` of a parameter present on both sides.
pub open spec fn param_delta(b: SignatureView, a: SignatureView, name: Seq<char>) -> Option<Seq<char>> {
    match (first_param(b.parameters, name, 0), first_param(a.parameters, name, 0)) {
        (Some(x), Some(y)) => Some(
            name + ": "@ + annotation_text_spec(x.annotation) + " -> "@ + annotation_text_spec(
                y.annotation,
            ),
        ),
        _ => None,
    }
}

/// The parameter deltas of the names `names[k..]`.
pub open spec fn param_deltas(b: SignatureView, a: SignatureView, names: Seq<Seq<char>>, k: int) -> Seq<Seq<char>>
    decreases names.len() - k,
{
    if k < 0 || k >= names.len() {
        Seq::empty()
    } else {
        (match param_delta(b, a, names[k]) {
            Some(d) => seq![d],
            None => Seq::empty(),
        }) + param_deltas(b, a, names, k + 1)
    }
}

/// The annotation deltas of a change whose both sides carry signature
/// facts: each changed parameter annotation, then the return annotation.
pub open spec fn annotation_deltas_spec(c: SymbolChange, f: SignatureChangeFacts) -> Seq<Seq<char>> {
    match (c.before, c.after) {
        (Some(bs), Some(as_)) => match (bs@.signature_facts, as_@.signature_facts) {
            (Some(b), Some(a)) => param_deltas(b, a, views(f.parameter_annotation_changed@), 0) + (
            if f.return_annotation_changed {
                seq![
                    "return: "@ + annotation_text_spec(b.return_annotation) + " -> "@
                        + annotation_text_spec(a.return_annotation),
                ]
            } else {
                Seq::empty()
            }),
            _ => Seq::empty(),
        },
        _ => Seq::empty(),
    }
}

/// The label of an annotation change.
pub open spec fn annotation_label_spec(c: SymbolChange, f: SignatureChangeFacts) -> Seq<char> {
    let d = annotation_deltas_spec(c, f);
    if d.len() == 0 {
        "type annotations"@
    } else if d.len() == 1 {
        "type annotation ("@ + d[0] + ")"@
    } else {
        "type annotations ("@ + join_spec(d, "; "@) + ")"@
    }
}

/// The body changed, and either the signature did not or some structural
/// metric moved by the reporting threshold.
pub open spec fn reports_implementation(c: SymbolChange) -> bool {
    c.kinds@.contains(ChangeKind::BodyChanged) && (!c.kinds@.contains(ChangeKind::SignatureChanged)
        || match c.complexity_delta {
        Some(d) => d.reportable_change(),
        None => false,
    })
}

/// `[s]` when `b` holds, else nothing.
pub open spec fn label_if(b: bool, s: Seq<char>) -> Seq<Seq<char>> {
    if b {
        seq![s]
    } else {
        Seq::empty()
    }
}

/// The labels of the signature part of a change.
pub open spec fn signature_labels(c: SymbolChange) -> Seq<Seq<char>> {
    let vis = visibility_text(c.symbol_facts.visibility);
    if !c.kinds@.contains(ChangeKind::SignatureChanged) {
        Seq::empty()
    } else {
        match c.signature_change {
            Some(f) => label_if(f.runtime_change(), vis + " signature"@) + label_if(
                f.type_annotation_change(),
                annotation_label_spec(c, f),
            ),
            None => seq![vis + " signature"@],
        }
    }
}

/// The change labels of a symbol change: added or deleted with visibility
/// and kind, signature and annotation changes, implementation, path only;
/// `no review signals` when none applies.
pub open spec fn change_labels_spec(c: SymbolChange) -> Seq<Seq<char>> {
    let vis = visibility_text(c.symbol_facts.visibility);
    let kind = kind_text(c.symbol_facts.kind);
    let labels = label_if(c.kinds@.contains(ChangeKind::Added), "added "@ + vis + " "@ + kind)
        + label_if(c.kinds@.contains(ChangeKind::Deleted), "deleted "@ + vis + " "@ + kind)
        + signature_labels(c) + label_if(reports_implementation(c), "implementation"@)
        + label_if(c.review_signals@.contains(ReviewSignal::PathChangedOnly), "path changed only"@);
    if labels.len() == 0 {
        seq!["no review signals"@]
    } else {
        labels
    }
}

/// A signature cleaned for reading: without its trailing colon and `def`
/// (`async def` becomes `async`), its white space collapsed, and no space
/// inside brackets or before commas, nor a trailing comma.
pub open spec fn clean_signature_spec(s: Seq<char>) -> Seq<char> {
    let t = trim_spec(strip_trailing_colons(trim_spec(s)));
    let u = if has_prefix(t, "async def "@) {
        "async "@ + t.subrange(10, t.len() as int)
    } else if has_prefix(t, "def "@) {
        t.subrange(4, t.len() as int)
    } else {
        t
    };
    let n = normalize_spec(u);
    replace_spec(
        replace_spec(
            replace_spec(replace_spec(replace_spec(n, "( "@, "("@), ", )"@, ")"@), ",)"@, ")"@),
            " )"@,
            ")"@,
        ),
        " ,"@,
        ","@,
    )
}

fn has_kind(kinds: &Vec<ChangeKind>, kind: ChangeKind) -> (r: bool)
    ensures
        r == kinds@.contains(kind),
{
    let mut i: usize = 0;
    while i < kinds.len()
        invariant
            0 <= i <= kinds.len(),
            forall|j: int| 0 <= j < i ==> kinds@[j] != kind,
        decreases kinds.len() - i,
    {
        if kinds[i] == kind {
            proof {
                assert(kinds@[i as int] == kind);
            }
            return true;
        }
        i = i + 1;
    }
    false
}

fn has_signal(signals: &Vec<ReviewSignal>, s: ReviewSignal) -> (r: bool)
    ensures
        r == signals@.contains(s),
{
    let mut i: usize = 0;
    while i < signals.len()
        invariant
            0 <= i <= signals.len(),
            forall|j: int| 0 <= j < i ==> signals@[j] != s,
        decreases signals.len() - i,
    {
        if signals[i] == s {
            proof {
                assert(signals@[i as int] == s);
            }
            return true;
        }
        i = i + 1;
    }
    false
}

/// The word for a visibility.
pub fn visibility_label(v: SymbolVisibility) -> (r: &'static str)
    ensures
        r@ == visibility_text(v),
{
    match v {
        SymbolVisibility::Private => "private",
        SymbolVisibility::Internal => "internal",
        SymbolVisibility::Public => "public",
    }
}

/// The word for a symbol kind.
pub fn kind_label(k: SymbolKind) -> (r: &'static str)
    ensures
        r@ == kind_text(k),
{
    match k {
        SymbolKind::Class => "class",
        SymbolKind::Function => "function",
        SymbolKind::Method => "method",
    }
}

/// The words for a change kind.
pub fn change_kind_text(k: ChangeKind) -> (r: String)
    ensures
        r@ == change_kind_spec(k),
{
    match k {
        ChangeKind::Added => owned("added"),
        ChangeKind::Deleted => owned("deleted"),
        ChangeKind::PathChanged => owned("path changed"),
        ChangeKind::BodyChanged => owned("body changed"),
        ChangeKind::SignatureChanged => owned("signature changed"),
    }
}

/// The words for a review signal.
pub fn review_signal_text(s: ReviewSignal) -> (r: String)
    ensures
        r@ == signal_spec(s),
{
    match s {
        ReviewSignal::PublicSymbolAdded => owned("public symbol added"),
        ReviewSignal::PublicSymbolDeleted => owned("public symbol deleted"),
        ReviewSignal::PublicSignatureChanged => owned("public signature changed"),
        ReviewSignal::TypeAnnotationsChanged => owned("type annotations changed"),
        ReviewSignal::SignatureChangedWithUnchangedCallers => owned("signature changed with unchanged callers"),
        ReviewSignal::ComplexityIncreased => owned("complexity increased"),
        ReviewSignal::ImplementationChangedWithoutTestMovement => owned("implementation changed without test movement"),
        ReviewSignal::PathChangedOnly => owned("path changed only"),
    }
}

/// An annotation, or `unannotated`.
pub fn annotation_text(a: &Option<String>) -> (r: String)
    ensures
        r@ == annotation_text_spec(crate::language::opt_view(*a)),
{
    match a {
        Some(x) => x.clone(),
        None => owned("unannotated"),
    }
}

/// The first parameter of a given name, as its index.
pub fn parameter_by_name(sig: &FunctionSignatureFacts, name: &str) -> (r: Option<usize>)
    ensures
        match r {
            Some(k) => k < sig.parameters@.len() && first_param(sig@.parameters, name@, 0) == Some(
                sig@.parameters[k as int],
            ),
            None => first_param(sig@.parameters, name@, 0) is None,
        },
{
    let mut k: usize = 0;
    while k < sig.parameters.len()
        invariant
            0 <= k <= sig.parameters@.len(),
            first_param(sig@.parameters, name@, 0) == first_param(sig@.parameters, name@, k as int),
        decreases sig.parameters@.len() - k,
    {
        if str_eq(sig.parameters[k].name.as_str(), name) {
            return Some(k);
        }
        k = k + 1;
    }
    None
}

/// `name: before -> after` of a parameter present on both sides.
pub fn parameter_annotation_delta(before: &FunctionSignatureFacts, after: &FunctionSignatureFacts, name: &str) -> (r: Option<String>)
    ensures
        match r {
            Some(d) => param_delta(before@, after@, name@) == Some(d@),
            None => param_delta(before@, after@, name@) is None,
        },
{
    let b = match parameter_by_name(before, name) {
        Some(b) => b,
        None => {
            return None;
        },
    };
    let a = match parameter_by_name(after, name) {
        Some(a) => a,
        None => {
            return None;
        },
    };
    let bt = annotation_text(&before.parameters[b].annotation);
    let at = annotation_text(&after.parameters[a].annotation);
    let head = concat3(name, ": ", bt.as_str());
    Some(concat3(head.as_str(), " -> ", at.as_str()))
}

/// The annotation deltas of a change.
pub fn annotation_deltas(change: &SymbolChange, f: &SignatureChangeFacts) -> (r: Vec<String>)
    ensures
        views(r@) == annotation_deltas_spec(*change, *f),
{
    let (b, a) = match (&change.before, &change.after) {
        (Some(bs), Some(as_)) => match (&bs.signature_facts, &as_.signature_facts) {
            (Some(b), Some(a)) => (b, a),
            _ => {
                proof {
                    assert(views(Seq::<String>::empty()) =~= annotation_deltas_spec(*change, *f));
                }
                return Vec::new();
            },
        },
        _ => {
            proof {
                assert(views(Seq::<String>::empty()) =~= annotation_deltas_spec(*change, *f));
            }
            return Vec::new();
        },
    };
    let names = &f.parameter_annotation_changed;
    let ghost nv = views(names@);
    let mut r: Vec<String> = Vec::new();
    let mut k: usize = 0;
    while k < names.len()
        invariant
            0 <= k <= names@.len(),
            nv == views(names@),
            views(r@) + param_deltas(b@, a@, nv, k as int) == param_deltas(b@, a@, nv, 0),
        decreases names@.len() - k,
    {
        let ghost before = views(r@);
        match parameter_annotation_delta(b, a, names[k].as_str()) {
            Some(d) => {
                r.push(d);
                proof {
                    assert(views(r@) =~= before.push(d@));
                }
            },
            None => {},
        }
        proof {
            let mid: Seq<Seq<char>> = match param_delta(b@, a@, nv[k as int]) {
                Some(d) => seq![d],
                None => Seq::empty(),
            };
            let rest = param_deltas(b@, a@, nv, k + 1);
            assert(views(r@) =~= before + mid);
            assert(before + (mid + rest) =~= views(r@) + rest);
        }
        k = k + 1;
    }
    proof {
        assert(views(r@) + param_deltas(b@, a@, nv, k as int) =~= views(r@));
    }
    if f.return_annotation_changed {
        let bt = annotation_text(&b.return_annotation);
        let at = annotation_text(&a.return_annotation);
        let head = concat2("return: ", bt.as_str());
        let d = concat3(head.as_str(), " -> ", at.as_str());
        let ghost before = views(r@);
        r.push(d);
        proof {
            assert(views(r@) =~= before.push(d@));
        }
    }
    proof {
        assert(views(r@) =~= annotation_deltas_spec(*change, *f));
    }
    r
}

/// The label of an annotation change.
pub fn type_annotation_label(change: &SymbolChange, f: &SignatureChangeFacts) -> (r: String)
    ensures
        r@ == annotation_label_spec(*change, *f),
{
    let deltas = annotation_deltas(change, f);
    if deltas.len() == 0 {
        return owned("type annotations");
    }
    if deltas.len() == 1 {
        proof {
            assert(views(deltas@)[0] == deltas@[0]@);
        }
        return concat3("type annotation (", deltas[0].as_str(), ")");
    }
    let mut parts: Vec<Vec<char>> = Vec::new();
    let mut k: usize = 0;
    while k < deltas.len()
        invariant
            0 <= k <= deltas@.len(),
            parts@.len() == k,
            forall|j: int| 0 <= j < k ==> (#[trigger] parts@[j])@ == deltas@[j]@,
        decreases deltas@.len() - k,
    {
        parts.push(chars_of(deltas[k].as_str()));
        k = k + 1;
    }
    let sep = chars_of("; ");
    let joined = join_chars(&parts, sep.as_slice());
    proof {
        assert(Seq::new(parts@.len(), |i: int| parts@[i]@) =~= views(deltas@));
    }
    let inner = string_from_chars(joined.as_slice());
    concat3("type annotations (", inner.as_str(), ")")
}

/// Whether the implementation change is worth a label.
pub fn should_report_implementation_change(change: &SymbolChange) -> (r: bool)
    ensures
        r == reports_implementation(*change),
{
    if !has_kind(&change.kinds, ChangeKind::BodyChanged) {
        return false;
    }
    !has_kind(&change.kinds, ChangeKind::SignatureChanged) || match &change.complexity_delta {
        Some(d) => d.has_reportable_structural_change(),
        None => false,
    }
}

/// The change labels of a symbol change.
pub fn change_labels(change: &SymbolChange) -> (r: Vec<String>)
    ensures
        views(r@) == change_labels_spec(*change),
{
    let vis = visibility_label(change.symbol_facts.visibility);
    let kind = kind_label(change.symbol_facts.kind);
    let ghost c = *change;
    let ghost visv = visibility_text(c.symbol_facts.visibility);
    let ghost kindv = kind_text(c.symbol_facts.kind);
    let ghost l1 = label_if(c.kinds@.contains(ChangeKind::Added), "added "@ + visv + " "@ + kindv);
    let ghost l2 = label_if(c.kinds@.contains(ChangeKind::Deleted), "deleted "@ + visv + " "@ + kindv);
    let ghost l3 = signature_labels(c);
    let ghost l4 = label_if(reports_implementation(c), "implementation"@);
    let ghost l5 = label_if(c.review_signals@.contains(ReviewSignal::PathChangedOnly), "path changed only"@);
    let mut r: Vec<String> = Vec::new();
    if has_kind(&change.kinds, ChangeKind::Added) {
        let head = concat3("added ", vis, " ");
        r.push(concat2(head.as_str(), kind));
    }
    proof {
        assert(views(r@) =~= l1);
    }
    if has_kind(&change.kinds, ChangeKind::Deleted) {
        let head = concat3("deleted ", vis, " ");
        let ghost before = views(r@);
        r.push(concat2(head.as_str(), kind));
        proof {
            assert(views(r@) =~= before.push(r@[r@.len() - 1]@));
        }
    }
    proof {
        assert(views(r@) =~= l1 + l2);
    }
    if has_kind(&change.kinds, ChangeKind::SignatureChanged) {
        match &change.signature_change {
            Some(f) => {
                if f.has_runtime_change() {
                    let ghost before = views(r@);
                    r.push(concat2(vis, " signature"));
                    proof {
                        assert(views(r@) =~= before.push(r@[r@.len() - 1]@));
                    }
                }
                if f.has_type_annotation_change() {
                    let ghost before = views(r@);
                    r.push(type_annotation_label(change, f));
                    proof {
                        assert(views(r@) =~= before.push(r@[r@.len() - 1]@));
                    }
                }
            },
            None => {
                let ghost before = views(r@);
                r.push(concat2(vis, " signature"));
                proof {
                    assert(views(r@) =~= before.push(r@[r@.len() - 1]@));
                }
            },
        }
    }
    proof {
        assert(views(r@) =~= l1 + l2 + l3);
    }
    if should_report_implementation_change(change) {
        let ghost before = views(r@);
        r.push(owned("implementation"));
        proof {
            assert(views(r@) =~= before.push(r@[r@.len() - 1]@));
        }
    }
    proof {
        assert(views(r@) =~= l1 + l2 + l3 + l4);
    }
    if has_signal(&change.review_signals, ReviewSignal::PathChangedOnly) {
        let ghost before = views(r@);
        r.push(owned("path changed only"));
        proof {
            assert(views(r@) =~= before.push(r@[r@.len() - 1]@));
        }
    }
    proof {
        assert(views(r@) =~= l1 + l2 + l3 + l4 + l5);
    }
    if r.len() == 0 {
        let mut only: Vec<String> = Vec::new();
        only.push(owned("no review signals"));
        proof {
            assert(views(only@) =~= seq!["no review signals"@]);
        }
        return only;
    }
    r
}

/// A signature cleaned for reading.
pub fn clean_signature(signature: &str) -> (r: String)
    ensures
        r@ == clean_signature_spec(signature@),
{
    let a = trim(signature);
    let av = chars_of(a.as_str());
    let mut end: usize = av.len();
    proof {
        assert(av@.subrange(0, end as int) =~= av@);
    }
    while end > 0 && av[end - 1] == ':'
        invariant
            0 <= end <= av@.len(),
            strip_trailing_colons(av@) == strip_trailing_colons(av@.subrange(0, end as int)),
        decreases end,
    {
        proof {
            assert(av@.subrange(0, end as int).drop_last() =~= av@.subrange(0, end - 1));
        }
        end = end - 1;
    }
    let stripped = crate::text::substring(av.as_slice(), 0, end);
    let t = trim(stripped.as_str());
    let tv = chars_of(t.as_str());
    let u: Vec<char> = if crate::text::starts_with(t.as_str(), "async def ") {
        proof {
            reveal_strlit("async def ");
        }
        let rest = crate::text::substring(tv.as_slice(), 10, tv.len());
        let s = concat2("async ", rest.as_str());
        chars_of(s.as_str())
    } else if crate::text::starts_with(t.as_str(), "def ") {
        proof {
            reveal_strlit("def ");
        }
        let rest = crate::text::substring(tv.as_slice(), 4, tv.len());
        chars_of(rest.as_str())
    } else {
        tv
    };
    let n = normalize_fragment(u.as_slice());
    let nv = chars_of(n.as_str());
    let r1 = replace_all(nv.as_slice(), "( ", "(");
    let r2 = replace_all(r1.as_slice(), ", )", ")");
    let r3 = replace_all(r2.as_slice(), ",)", ")");
    let r4 = replace_all(r3.as_slice(), " )", ")");
    let r5 = replace_all(r4.as_slice(), " ,", ",");
    string_from_chars(r5.as_slice())
}

/// The cleaned signatures before and after a signature change.
pub open spec fn signature_report_ok(r: Option<SignatureReport>, c: SymbolChange) -> bool {
    if !c.kinds@.contains(ChangeKind::SignatureChanged) {
        r is None
    } else {
        match (c.before, c.after) {
            (Some(b), Some(a)) => r is Some && r.unwrap().before@ == clean_signature_spec(b.signature@)
                && r.unwrap().after@ == clean_signature_spec(a.signature@),
            _ => r is None,
        }
    }
}

/// The cleaned signatures of a signature change.
pub fn signature_report(change: &SymbolChange) -> (r: Option<SignatureReport>)
    ensures
        signature_report_ok(r, *change),
{
    if !has_kind(&change.kinds, ChangeKind::SignatureChanged) {
        return None;
    }
    match (&change.before, &change.after) {
        (Some(b), Some(a)) => Some(
            SignatureReport {
                before: clean_signature(b.signature.as_str()),
                after: clean_signature(a.signature.as_str()),
            },
        ),
        _ => None,
    }
}

/// The verbose facts of a change: its kinds and signals in words, and its
/// reference counts.
pub open spec fn verbose_facts_ok(f: VerboseFacts, c: SymbolChange) -> bool {
    &&& views(f.change_kinds@) == c.kinds@.map_values(|k: ChangeKind| change_kind_spec(k))
    &&& views(f.signals@) == c.review_signals@.map_values(|s: ReviewSignal| signal_spec(s))
    &&& f.references.before == c.references_before.count
    &&& f.references.after == c.references_after.count
    &&& f.references.delta == c.reference_delta.count_delta
    &&& f.test_references_after == c.test_references_after.count
}

/// The verbose facts of a change.
pub fn verbose_facts(change: &SymbolChange) -> (r: VerboseFacts)
    ensures
        verbose_facts_ok(r, *change),
{
    let mut kinds: Vec<String> = Vec::new();
    let mut k: usize = 0;
    while k < change.kinds.len()
        invariant
            0 <= k <= change.kinds@.len(),
            views(kinds@) == change.kinds@.subrange(0, k as int).map_values(|x: ChangeKind| change_kind_spec(x)),
        decreases change.kinds@.len() - k,
    {
        let ghost before = views(kinds@);
        let text = change_kind_text(change.kinds[k]);
        kinds.push(text);
        proof {
            assert(views(kinds@) =~= before.push(text@));
            assert(change.kinds@.subrange(0, k + 1).map_values(|x: ChangeKind| change_kind_spec(x))
                =~= change.kinds@.subrange(0, k as int).map_values(|x: ChangeKind| change_kind_spec(x)).push(
                change_kind_spec(change.kinds@[k as int]),
            ));
        }
        k = k + 1;
    }
    let mut signals: Vec<String> = Vec::new();
    let mut j: usize = 0;
    while j < change.review_signals.len()
        invariant
            0 <= j <= change.review_signals@.len(),
            views(signals@) == change.review_signals@.subrange(0, j as int).map_values(|x: ReviewSignal| signal_spec(x)),
        decreases change.review_signals@.len() - j,
    {
        let ghost before = views(signals@);
        let text = review_signal_text(change.review_signals[j]);
        signals.push(text);
        proof {
            assert(views(signals@) =~= before.push(text@));
            assert(change.review_signals@.subrange(0, j + 1).map_values(|x: ReviewSignal| signal_spec(x))
                =~= change.review_signals@.subrange(0, j as int).map_values(|x: ReviewSignal| signal_spec(x)).push(
                signal_spec(change.review_signals@[j as int]),
            ));
        }
        j = j + 1;
    }
    proof {
        assert(change.kinds@.subrange(0, change.kinds@.len() as int) =~= change.kinds@);
        assert(change.review_signals@.subrange(0, change.review_signals@.len() as int) =~= change.review_signals@);
    }
    VerboseFacts {
        change_kinds: kinds,
        signals,
        references: ReferenceCounts {
            before: change.references_before.count,
            after: change.references_after.count,
            delta: change.reference_delta.count_delta,
        },
        test_references_after: change.test_references_after.count,
    }
}

} // verus!
