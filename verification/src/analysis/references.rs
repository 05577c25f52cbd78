//! Reference facts of changed symbols: which references of each side match
//! a changed symbol, by which rule, from which caller, and how the set of
//! referencing files moved between the two sides.
use vstd::prelude::*;

use crate::analysis::diff::changed_views;
use crate::analysis::facts::{
    MatchedReference, ReferenceMatchSource, SymbolChange, SymbolReferenceDelta,
    SymbolReferenceFacts,
};
use crate::analysis::modules::ModuleIndex;
use crate::git::{ChangedFile, ChangedFileView, FileStatus, StatusView};
use crate::language::{
    opt_view, owner, owner_of, short_name, short_name_of, top_level_name, top_level_name_of,
    Reference, ReferenceKind, ReferenceResolution, Symbol, SymbolKind,
};
use crate::paths::{module_name, module_name_of};
use crate::text::{
    contains_str, insert_sorted, lemma_push_filter, member_of, select_members, str_eq,
    strictly_sorted, views,
};

verus! {

/// The references, module index and symbols of one side.
pub struct ReferenceSnapshot<'a> {
    pub references: &'a [Reference],
    pub module_index: &'a ModuleIndex,
    pub symbols: &'a [Symbol],
}

/// The abstract value of a matched reference.
pub struct MatchedView {
    pub file: Seq<char>,
    pub line: usize,
    pub caller_symbol: Option<Seq<char>>,
    pub kind: ReferenceKind,
    pub resolution: ReferenceResolution,
    pub match_source: ReferenceMatchSource,
    pub changed_file: bool,
}

impl View for MatchedReference {
    type V = MatchedView;

    open spec fn view(&self) -> MatchedView {
        MatchedView {
            file: self.file@,
            line: self.line,
            caller_symbol: opt_view(self.caller_symbol),
            kind: self.kind,
            resolution: self.resolution,
            match_source: self.match_source,
            changed_file: self.changed_file,
        }
    }
}

/// The abstract values of a sequence of matched references.
pub open spec fn matched_views(s: Seq<MatchedReference>) -> Seq<MatchedView> {
    Seq::new(s.len(), |i: int| s[i]@)
}

/// `s` is a definition in the reference's file whose lines contain the
/// reference and whose short name is not the referenced name.
pub open spec fn encloses(r: Reference, s: Symbol) -> bool {
    &&& s.file@ == r.file@
    &&& s.range.start <= r.line <= s.range.end
    &&& short_name_of(s.qualified_name@) != r.name@
}

/// Number of lines a definition spans, minus one.
pub open spec fn span(s: Symbol) -> int {
    s.range.end - s.range.start
}

/// Index of the first narrowest enclosing definition among the first `n`
/// symbols, or -1.
pub open spec fn narrowest(r: Reference, syms: Seq<Symbol>, n: int) -> int
    decreases n,
{
    if n <= 0 {
        -1
    } else {
        let b = narrowest(r, syms, n - 1);
        if encloses(r, syms[n - 1]) && (b < 0 || span(syms[n - 1]) < span(syms[b])) {
            n - 1
        } else {
            b
        }
    }
}

/// The qualified name of the narrowest definition that encloses a
/// reference (the first of equally narrow ones), if any.
pub open spec fn enclosing_spec(r: Reference, syms: Seq<Symbol>) -> Option<Seq<char>> {
    let b = narrowest(r, syms, syms.len() as int);
    if b >= 0 {
        Some(syms[b].qualified_name@)
    } else {
        None
    }
}

/// Short names too common to match an unresolved reference on their own.
pub open spec fn is_noisy_name(n: Seq<char>) -> bool {
    ||| n == "__call__"@
    ||| n == "__enter__"@
    ||| n == "__exit__"@
    ||| n == "__init__"@
    ||| n == "__iter__"@
    ||| n == "__next__"@
    ||| n == "close"@
    ||| n == "get"@
    ||| n == "main"@
    ||| n == "open"@
    ||| n == "read"@
    ||| n == "run"@
    ||| n == "set"@
    ||| n == "write"@
}

/// An unresolved `self.name`/`cls.name` attribute reference in the method's
/// own file, made from a method of the same class.
pub open spec fn same_class_spec(r: Reference, s: Symbol, caller: Option<Seq<char>>) -> bool {
    &&& r.kind == ReferenceKind::Attribute
    &&& r.file@ == s.file@
    &&& match r.module {
        Some(m) => m@ == "self"@ || m@ == "cls"@,
        None => false,
    }
    &&& match (owner_of(s.qualified_name@), caller) {
        (Some(t), Some(c)) => owner_of(c) == Some(t),
        _ => false,
    }
}

/// How an unresolved reference matches a changed symbol by its short name.
pub open spec fn unresolved_match_spec(r: Reference, s: Symbol, caller: Option<Seq<char>>) -> Option<
    ReferenceMatchSource,
> {
    if r.name@ != short_name_of(s.qualified_name@) {
        None
    } else if s.kind == SymbolKind::Method {
        if same_class_spec(r, s, caller) {
            Some(ReferenceMatchSource::UnresolvedShortName)
        } else {
            None
        }
    } else if is_noisy_name(short_name_of(s.qualified_name@)) {
        None
    } else {
        Some(ReferenceMatchSource::UnresolvedShortName)
    }
}

/// The symbol a change is matched against: its head side, else its base side.
pub open spec fn change_target(c: SymbolChange) -> Option<Symbol> {
    match c.after {
        Some(s) => Some(s),
        None => c.before,
    }
}

/// By which rule a reference matches a changed symbol, if it does.
pub open spec fn match_source_spec(
    r: Reference,
    target: Option<Symbol>,
    id_name: Seq<char>,
    index: Set<(Seq<char>, Seq<char>)>,
    caller: Option<Seq<char>>,
) -> Option<ReferenceMatchSource> {
    match target {
        None => if r.name@ == short_name_of(id_name) {
            Some(ReferenceMatchSource::UnresolvedShortName)
        } else {
            None
        },
        Some(s) => if r.resolution == ReferenceResolution::Resolved {
            match (r.resolved_module, r.resolved_name) {
                (Some(rm), Some(rn)) => if rm@ == module_name_of(s.file@) && index.contains(
                    (rm@, rn@),
                ) && (rn@ == top_level_name_of(s.qualified_name@) || rn@ == short_name_of(
                    s.qualified_name@,
                )) {
                    if r.kind == ReferenceKind::Attribute {
                        Some(ReferenceMatchSource::ResolvedAttribute)
                    } else {
                        Some(ReferenceMatchSource::ResolvedImport)
                    }
                } else {
                    None
                },
                _ => None,
            }
        } else {
            unresolved_match_spec(r, s, caller)
        },
    }
}

/// What the matching of one change's references depends on.
pub struct MatchContext {
    pub target: Option<Symbol>,
    pub id_name: Seq<char>,
    pub index: Set<(Seq<char>, Seq<char>)>,
    pub symbols: Seq<Symbol>,
    pub changed: Set<Seq<char>>,
}

/// The matched references of a sequence of references, in order.
pub open spec fn matched_spec(refs: Seq<Reference>, ctx: MatchContext) -> Seq<MatchedView>
    decreases refs.len(),
{
    if refs.len() == 0 {
        Seq::empty()
    } else {
        let prev = matched_spec(refs.drop_last(), ctx);
        let r = refs.last();
        let caller = enclosing_spec(r, ctx.symbols);
        match match_source_spec(r, ctx.target, ctx.id_name, ctx.index, caller) {
            Some(m) => prev.push(
                MatchedView {
                    file: r.file@,
                    line: r.line,
                    caller_symbol: caller,
                    kind: r.kind,
                    resolution: r.resolution,
                    match_source: m,
                    changed_file: ctx.changed.contains(r.file@),
                },
            ),
            None => prev,
        }
    }
}

/// The predicate "has this resolution".
pub open spec fn with_resolution(res: ReferenceResolution) -> spec_fn(MatchedView) -> bool {
    |m: MatchedView| m.resolution == res
}

/// The predicate "has this kind".
pub open spec fn with_kind(kind: ReferenceKind) -> spec_fn(MatchedView) -> bool {
    |m: MatchedView| m.kind == kind
}

/// The files of a sequence of matched references, as a set.
pub open spec fn files_of(m: Seq<MatchedView>) -> Set<Seq<char>> {
    Set::new(|p: Seq<char>| exists|i: int| 0 <= i < m.len() && (#[trigger] m[i]).file == p)
}

/// Everything `reference_facts` states of its result, for the matched
/// references `m` and the changed paths `changed`.
pub open spec fn facts_ok(f: SymbolReferenceFacts, m: Seq<MatchedView>, changed: Set<Seq<char>>) -> bool {
    &&& matched_views(f.matched_references@) == m
    &&& f.count == m.len()
    &&& f.resolved_count == m.filter(with_resolution(ReferenceResolution::Resolved)).len()
    &&& f.unresolved_count == m.filter(with_resolution(ReferenceResolution::Unresolved)).len()
    &&& f.import_count == m.filter(with_kind(ReferenceKind::Import)).len()
    &&& f.from_import_count == m.filter(with_kind(ReferenceKind::FromImport)).len()
    &&& f.direct_call_count == m.filter(with_kind(ReferenceKind::Call)).len()
    &&& f.attribute_call_count == m.filter(with_kind(ReferenceKind::Attribute)).len()
    &&& strictly_sorted(views(f.files@), true)
    &&& views(f.files@).to_set() == files_of(m)
    &&& views(f.changed_files@) == views(f.files@).filter(member_of(changed, true))
    &&& views(f.unchanged_files@) == views(f.files@).filter(member_of(changed, false))
}

/// The paths a Git change touches: every changed path, and the old path of
/// every rename.
pub open spec fn changed_path_set(changed: Seq<ChangedFileView>) -> Set<Seq<char>> {
    Set::new(
        |p: Seq<char>|
            exists|i: int|
                0 <= i < changed.len() && ((#[trigger] changed[i]).path == p || changed[i].status
                    == StatusView::Renamed(p)),
    )
}

/// The changed paths, sorted, each once.
pub fn changed_paths(changed_files: &[ChangedFile]) -> (r: Vec<String>)
    ensures
        strictly_sorted(views(r@), true),
        views(r@).to_set() == changed_path_set(changed_views(changed_files@)),
{
    let ghost cv = changed_views(changed_files@);
    let mut r: Vec<String> = Vec::new();
    let mut i: usize = 0;
    while i < changed_files.len()
        invariant
            0 <= i <= changed_files.len(),
            cv == changed_views(changed_files@),
            strictly_sorted(views(r@), true),
            views(r@).to_set() == changed_path_set(cv.subrange(0, i as int)),
        decreases changed_files.len() - i,
    {
        let f = &changed_files[i];
        let ghost s0 = views(r@).to_set();
        insert_sorted(&mut r, f.path.clone(), true);
        match &f.status {
            FileStatus::Renamed { old_path } => {
                insert_sorted(&mut r, old_path.clone(), true);
            },
            _ => {},
        }
        proof {
            let pre = cv.subrange(0, i as int);
            let post = cv.subrange(0, i + 1);
            assert(cv[i as int] == f@);
            assert(views(r@).to_set() =~= changed_path_set(post)) by {
                assert forall|p: Seq<char>| changed_path_set(post).contains(p) implies views(
                    r@,
                ).to_set().contains(p) by {
                    let k = choose|k: int|
                        0 <= k < post.len() && ((#[trigger] post[k]).path == p || post[k].status
                            == StatusView::Renamed(p));
                    if k < i {
                        assert(pre[k] == post[k]);
                        assert(changed_path_set(pre).contains(p));
                    }
                }
                assert forall|p: Seq<char>| views(r@).to_set().contains(p) implies changed_path_set(
                    post,
                ).contains(p) by {
                    if s0.contains(p) {
                        let k = choose|k: int|
                            0 <= k < pre.len() && ((#[trigger] pre[k]).path == p || pre[k].status
                                == StatusView::Renamed(p));
                        assert(pre[k] == post[k]);
                    } else {
                        assert(post[i as int] == cv[i as int]);
                    }
                }
            }
        }
        i = i + 1;
    }
    proof {
        assert(cv.subrange(0, cv.len() as int) =~= cv);
    }
    r
}

/// The qualified name of the narrowest definition enclosing a reference.
pub fn enclosing_symbol(reference: &Reference, symbols: &[Symbol]) -> (r: Option<String>)
    ensures
        opt_view(r) == enclosing_spec(*reference, symbols@),
{
    let mut best: usize = 0;
    let mut found = false;
    let mut i: usize = 0;
    while i < symbols.len()
        invariant
            0 <= i <= symbols.len(),
            found ==> best < i && narrowest(*reference, symbols@, i as int) == best && encloses(
                *reference,
                symbols@[best as int],
            ),
            !found ==> narrowest(*reference, symbols@, i as int) == -1,
        decreases symbols.len() - i,
    {
        let s = &symbols[i];
        let enclosing = str_eq(s.file.as_str(), reference.file.as_str()) && s.range.start
            <= reference.line && reference.line <= s.range.end && !str_eq(
            short_name(s.qualified_name.as_str()).as_str(),
            reference.name.as_str(),
        );
        if enclosing && (!found || s.range.end - s.range.start < symbols[best].range.end
            - symbols[best].range.start) {
            best = i;
            found = true;
        }
        i = i + 1;
    }
    if found {
        Some(symbols[best].qualified_name.clone())
    } else {
        None
    }
}

/// Whether a short name is too common to match an unresolved reference.
pub fn is_noisy_unresolved_name(name: &str) -> (r: bool)
    ensures
        r == is_noisy_name(name@),
{
    str_eq(name, "__call__") || str_eq(name, "__enter__") || str_eq(name, "__exit__") || str_eq(
        name,
        "__init__",
    ) || str_eq(name, "__iter__") || str_eq(name, "__next__") || str_eq(name, "close") || str_eq(
        name,
        "get",
    ) || str_eq(name, "main") || str_eq(name, "open") || str_eq(name, "read") || str_eq(
        name,
        "run",
    ) || str_eq(name, "set") || str_eq(name, "write")
}

/// Whether an unresolved attribute reference is a `self`/`cls` call of a
/// method of the caller's own class.
fn unresolved_same_class_method_match(
    reference: &Reference,
    symbol: &Symbol,
    caller_symbol: &Option<String>,
) -> (r: bool)
    ensures
        r == same_class_spec(*reference, *symbol, opt_view(*caller_symbol)),
{
    if reference.kind != ReferenceKind::Attribute || !str_eq(
        reference.file.as_str(),
        symbol.file.as_str(),
    ) {
        return false;
    }
    let receiver_ok = match &reference.module {
        Some(m) => str_eq(m.as_str(), "self") || str_eq(m.as_str(), "cls"),
        None => false,
    };
    if !receiver_ok {
        return false;
    }
    let target_owner = owner(symbol.qualified_name.as_str());
    let caller_owner = match caller_symbol {
        Some(c) => owner(c.as_str()),
        None => None,
    };
    match (target_owner, caller_owner) {
        (Some(t), Some(c)) => str_eq(t.as_str(), c.as_str()),
        _ => false,
    }
}

/// How an unresolved reference matches a symbol by short name.
fn unresolved_short_name_match(
    reference: &Reference,
    symbol: &Symbol,
    caller_symbol: &Option<String>,
) -> (r: Option<ReferenceMatchSource>)
    ensures
        r == unresolved_match_spec(*reference, *symbol, opt_view(*caller_symbol)),
{
    let short = short_name(symbol.qualified_name.as_str());
    if !str_eq(reference.name.as_str(), short.as_str()) {
        return None;
    }
    if symbol.kind == SymbolKind::Method {
        if unresolved_same_class_method_match(reference, symbol, caller_symbol) {
            return Some(ReferenceMatchSource::UnresolvedShortName);
        }
        return None;
    }
    if is_noisy_unresolved_name(short.as_str()) {
        return None;
    }
    Some(ReferenceMatchSource::UnresolvedShortName)
}

/// By which rule a reference matches a changed symbol, if it does.  A
/// resolved reference matches when it names the symbol's module, a name that
/// module defines, and the symbol's top-level or short name; an unresolved
/// one matches by short name (for methods only from a `self`/`cls` call in
/// the same class; never for the common names of `is_noisy_unresolved_name`).
pub fn reference_match_source(
    reference: &Reference,
    change: &SymbolChange,
    module_index: &ModuleIndex,
    caller_symbol: &Option<String>,
) -> (r: Option<ReferenceMatchSource>)
    ensures
        r == match_source_spec(
            *reference,
            change_target(*change),
            change.id.qualified_name@,
            module_index@,
            opt_view(*caller_symbol),
        ),
{
    let target: Option<&Symbol> = match &change.after {
        Some(s) => Some(s),
        None => match &change.before {
            Some(s) => Some(s),
            None => None,
        },
    };
    let symbol = match target {
        Some(s) => s,
        None => {
            let short = short_name(change.id.qualified_name.as_str());
            if str_eq(reference.name.as_str(), short.as_str()) {
                return Some(ReferenceMatchSource::UnresolvedShortName);
            }
            return None;
        },
    };
    if reference.resolution == ReferenceResolution::Resolved {
        match (&reference.resolved_module, &reference.resolved_name) {
            (Some(rm), Some(rn)) => {
                let module = module_name(symbol.file.as_str());
                let top = top_level_name(symbol.qualified_name.as_str());
                let short = short_name(symbol.qualified_name.as_str());
                if str_eq(rm.as_str(), module.as_str()) && module_index.contains_symbol(
                    rm.as_str(),
                    rn.as_str(),
                ) && (str_eq(rn.as_str(), top.as_str()) || str_eq(rn.as_str(), short.as_str())) {
                    if reference.kind == ReferenceKind::Attribute {
                        return Some(ReferenceMatchSource::ResolvedAttribute);
                    }
                    return Some(ReferenceMatchSource::ResolvedImport);
                }
                return None;
            },
            _ => {
                return None;
            },
        }
    }
    unresolved_short_name_match(reference, symbol, caller_symbol)
}

/// The reference facts of one change on one side: the references that
/// match it in order, their counts by resolution and kind, and the sorted
/// referencing files split by whether Git reports them changed.
pub fn reference_facts(
    change: &SymbolChange,
    references: &[Reference],
    changed_paths: &Vec<String>,
    module_index: &ModuleIndex,
    symbols: &[Symbol],
) -> (r: SymbolReferenceFacts)
    ensures
        facts_ok(
            r,
            matched_spec(
                references@,
                MatchContext {
                    target: change_target(*change),
                    id_name: change.id.qualified_name@,
                    index: module_index@,
                    symbols: symbols@,
                    changed: views(changed_paths@).to_set(),
                },
            ),
            views(changed_paths@).to_set(),
        ),
        r.count <= references@.len(),
{
    let ghost ctx = MatchContext {
        target: change_target(*change),
        id_name: change.id.qualified_name@,
        index: module_index@,
        symbols: symbols@,
        changed: views(changed_paths@).to_set(),
    };
    let ghost p_res = with_resolution(ReferenceResolution::Resolved);
    let ghost p_unres = with_resolution(ReferenceResolution::Unresolved);
    let ghost p_imp = with_kind(ReferenceKind::Import);
    let ghost p_from = with_kind(ReferenceKind::FromImport);
    let ghost p_call = with_kind(ReferenceKind::Call);
    let ghost p_attr = with_kind(ReferenceKind::Attribute);
    let mut matched: Vec<MatchedReference> = Vec::new();
    let mut files: Vec<String> = Vec::new();
    let mut resolved: usize = 0;
    let mut unresolved: usize = 0;
    let mut imports: usize = 0;
    let mut from_imports: usize = 0;
    let mut calls: usize = 0;
    let mut attributes: usize = 0;
    let mut i: usize = 0;
    while i < references.len()
        invariant
            0 <= i <= references.len(),
            ctx == (MatchContext {
                target: change_target(*change),
                id_name: change.id.qualified_name@,
                index: module_index@,
                symbols: symbols@,
                changed: views(changed_paths@).to_set(),
            }),
            p_res == with_resolution(ReferenceResolution::Resolved),
            p_unres == with_resolution(ReferenceResolution::Unresolved),
            p_imp == with_kind(ReferenceKind::Import),
            p_from == with_kind(ReferenceKind::FromImport),
            p_call == with_kind(ReferenceKind::Call),
            p_attr == with_kind(ReferenceKind::Attribute),
            matched_views(matched@) == matched_spec(references@.subrange(0, i as int), ctx),
            matched@.len() <= i,
            resolved == matched_views(matched@).filter(p_res).len(),
            unresolved == matched_views(matched@).filter(p_unres).len(),
            imports == matched_views(matched@).filter(p_imp).len(),
            from_imports == matched_views(matched@).filter(p_from).len(),
            calls == matched_views(matched@).filter(p_call).len(),
            attributes == matched_views(matched@).filter(p_attr).len(),
            strictly_sorted(views(files@), true),
            views(files@).to_set() == files_of(matched_views(matched@)),
        decreases references.len() - i,
    {
        let reference = &references[i];
        let caller = enclosing_symbol(reference, symbols);
        let source = reference_match_source(reference, change, module_index, &caller);
        proof {
            let pre = references@.subrange(0, i as int);
            assert(references@.subrange(0, i + 1).drop_last() =~= pre);
            assert(references@.subrange(0, i + 1).last() == *reference);
        }
        match source {
            Some(m) => {
                let changed_file = contains_str(changed_paths, reference.file.as_str());
                let mr = MatchedReference {
                    file: reference.file.clone(),
                    line: reference.line,
                    caller_symbol: caller,
                    kind: reference.kind,
                    resolution: reference.resolution,
                    match_source: m,
                    changed_file,
                };
                let ghost mv_old = matched_views(matched@);
                let ghost files_old = views(files@).to_set();
                proof {
                    assert(views(changed_paths@).contains(reference.file@) == views(
                        changed_paths@,
                    ).to_set().contains(reference.file@));
                    lemma_push_filter(mv_old, p_res, mr@);
                    lemma_push_filter(mv_old, p_unres, mr@);
                    lemma_push_filter(mv_old, p_imp, mr@);
                    lemma_push_filter(mv_old, p_from, mr@);
                    lemma_push_filter(mv_old, p_call, mr@);
                    lemma_push_filter(mv_old, p_attr, mr@);
                    assert(mv_old.filter(p_res).len() <= mv_old.len()) by {
                        mv_old.filter_lemma(p_res);
                    }
                    assert(mv_old.filter(p_unres).len() <= mv_old.len()) by {
                        mv_old.filter_lemma(p_unres);
                    }
                    assert(mv_old.filter(p_imp).len() <= mv_old.len()) by {
                        mv_old.filter_lemma(p_imp);
                    }
                    assert(mv_old.filter(p_from).len() <= mv_old.len()) by {
                        mv_old.filter_lemma(p_from);
                    }
                    assert(mv_old.filter(p_call).len() <= mv_old.len()) by {
                        mv_old.filter_lemma(p_call);
                    }
                    assert(mv_old.filter(p_attr).len() <= mv_old.len()) by {
                        mv_old.filter_lemma(p_attr);
                    }
                }
                if reference.resolution == ReferenceResolution::Resolved {
                    resolved = resolved + 1;
                } else {
                    unresolved = unresolved + 1;
                }
                match reference.kind {
                    ReferenceKind::Import => {
                        imports = imports + 1;
                    },
                    ReferenceKind::FromImport => {
                        from_imports = from_imports + 1;
                    },
                    ReferenceKind::Call => {
                        calls = calls + 1;
                    },
                    ReferenceKind::Attribute => {
                        attributes = attributes + 1;
                    },
                }
                insert_sorted(&mut files, reference.file.clone(), true);
                matched.push(mr);
                proof {
                    assert(matched_views(matched@) =~= mv_old.push(mr@));
                    assert(views(files@).to_set() =~= files_of(matched_views(matched@))) by {
                        let mv = matched_views(matched@);
                        assert forall|p: Seq<char>| views(files@).to_set().contains(p) implies files_of(
                            mv,
                        ).contains(p) by {
                            if p == reference.file@ {
                                assert(mv[mv.len() - 1].file == p);
                            } else {
                                assert(files_old.contains(p));
                                let k = choose|k: int|
                                    0 <= k < mv_old.len() && (#[trigger] mv_old[k]).file == p;
                                assert(mv[k] == mv_old[k]);
                            }
                        }
                        assert forall|p: Seq<char>| files_of(mv).contains(p) implies views(
                            files@,
                        ).to_set().contains(p) by {
                            let k = choose|k: int| 0 <= k < mv.len() && (#[trigger] mv[k]).file == p;
                            if k < mv_old.len() {
                                assert(mv[k] == mv_old[k]);
                                assert(files_of(mv_old).contains(p));
                            }
                        }
                    }
                }
            },
            None => {},
        }
        i = i + 1;
    }
    proof {
        assert(references@.subrange(0, references@.len() as int) =~= references@);
    }
    let changed_files = select_members(&files, changed_paths, true);
    let unchanged_files = select_members(&files, changed_paths, false);
    SymbolReferenceFacts {
        count: matched.len(),
        resolved_count: resolved,
        unresolved_count: unresolved,
        import_count: imports,
        from_import_count: from_imports,
        direct_call_count: calls,
        attribute_call_count: attributes,
        files,
        changed_files,
        unchanged_files,
        matched_references: matched,
    }
}

/// The strings of `v` that are (or are not) in `set`, sorted by path, each
/// once.
fn sorted_members(v: &Vec<String>, set: &Vec<String>, member: bool) -> (r: Vec<String>)
    ensures
        strictly_sorted(views(r@), true),
        views(r@).to_set() == views(v@).to_set().filter(member_of(views(set@).to_set(), member)),
{
    let ghost pred = member_of(views(set@).to_set(), member);
    let mut r: Vec<String> = Vec::new();
    proof {
        assert(views(r@) =~= Seq::<Seq<char>>::empty());
        assert(views(r@).to_set() =~= views(v@.subrange(0, 0)).to_set().filter(pred));
    }
    let mut i: usize = 0;
    while i < v.len()
        invariant
            0 <= i <= v@.len(),
            pred == member_of(views(set@).to_set(), member),
            strictly_sorted(views(r@), true),
            views(r@).to_set() == views(v@.subrange(0, i as int)).to_set().filter(pred),
        decreases v@.len() - i,
    {
        let ghost before = views(r@).to_set();
        let keep = contains_str(set, v[i].as_str()) == member;
        if keep {
            insert_sorted(&mut r, v[i].clone(), true);
        }
        proof {
            let pre = views(v@.subrange(0, i as int));
            assert(views(v@.subrange(0, i + 1)) =~= pre.push(v@[i as int]@));
            pre.lemma_push_to_set_commute(v@[i as int]@);
            assert(views(set@).contains(v@[i as int]@) == views(set@).to_set().contains(v@[i as int]@));
            assert(views(r@).to_set() =~= views(v@.subrange(0, i + 1)).to_set().filter(pred));
        }
        i = i + 1;
    }
    proof {
        assert(v@.subrange(0, v@.len() as int) =~= v@);
    }
    r
}

/// How the referencing files of a symbol moved between two sides: the
/// change in count, and the files only after, only before, and on both,
/// each sorted by path and listed once.
pub fn reference_delta(before: &SymbolReferenceFacts, after: &SymbolReferenceFacts) -> (r:
    SymbolReferenceDelta)
    ensures
        delta_ok(r, *before, *after),
{
    let count_delta: isize = if before.count <= isize::MAX as usize && after.count
        <= isize::MAX as usize {
        after.count as isize - before.count as isize
    } else if after.count >= before.count {
        isize::MAX
    } else {
        isize::MIN
    };
    let added_files = sorted_members(&after.files, &before.files, false);
    let removed_files = sorted_members(&before.files, &after.files, false);
    let unchanged_files = sorted_members(&before.files, &after.files, true);
    let r = SymbolReferenceDelta { count_delta, added_files, removed_files, unchanged_files };
    proof {
        let bs = views(before.files@).to_set();
        let as_ = views(after.files@).to_set();
        assert(as_.filter(member_of(bs, false)) =~= as_.difference(bs));
        assert(bs.filter(member_of(as_, false)) =~= bs.difference(as_));
        assert(bs.filter(member_of(as_, true)) =~= bs.intersect(as_));
    }
    r
}

/// What the matching on one side reads: its references, module index and
/// symbols.
pub struct SideRefs {
    pub references: Seq<Reference>,
    pub index: Set<(Seq<char>, Seq<char>)>,
    pub symbols: Seq<Symbol>,
}

/// The abstract value of a reference snapshot.
pub open spec fn side_refs(s: ReferenceSnapshot) -> SideRefs {
    SideRefs { references: s.references@, index: s.module_index@, symbols: s.symbols@ }
}

/// The context in which a change's references on one side are matched.
pub open spec fn context_of(c: SymbolChange, side: SideRefs, changed: Set<Seq<char>>) -> MatchContext {
    MatchContext {
        target: change_target(c),
        id_name: c.id.qualified_name@,
        index: side.index,
        symbols: side.symbols,
        changed,
    }
}

/// Each change of `r` is the change of `orig` at the same position with
/// its reference facts on both sides attached.
pub open spec fn refs_attached_ok(r: Seq<SymbolChange>, orig: Seq<SymbolChange>, before: SideRefs, after: SideRefs, changed: Set<Seq<char>>) -> bool {
    &&& r.len() == orig.len()
    &&& forall|i: int|
        0 <= i < r.len() ==> {
            let c = #[trigger] r[i];
            let o = orig[i];
            &&& same_but_references(c, o)
            &&& c.test_references_after == o.test_references_after
            &&& facts_ok(c.references_before, matched_spec(before.references, context_of(o, before, changed)), changed)
            &&& facts_ok(c.references_after, matched_spec(after.references, context_of(o, after, changed)), changed)
            &&& delta_ok(c.reference_delta, c.references_before, c.references_after)
        }
}

/// Each change of `r` is the change of `orig` at the same position with
/// the facts of its references from test files attached.
pub open spec fn test_refs_attached_ok(r: Seq<SymbolChange>, orig: Seq<SymbolChange>, tests: SideRefs, changed: Set<Seq<char>>) -> bool {
    &&& r.len() == orig.len()
    &&& forall|i: int|
        0 <= i < r.len() ==> {
            let c = #[trigger] r[i];
            let o = orig[i];
            &&& same_but_references(c, o)
            &&& c.references_before == o.references_before
            &&& c.references_after == o.references_after
            &&& c.reference_delta == o.reference_delta
            &&& facts_ok(c.test_references_after, matched_spec(tests.references, context_of(o, tests, changed)), changed)
        }
}

/// What `reference_delta` states of its result: the count moved by the
/// difference of the counts; the files only after, only before and on both
/// sides, each as a strictly sorted list of that set.
pub open spec fn delta_ok(d: SymbolReferenceDelta, before: SymbolReferenceFacts, after: SymbolReferenceFacts) -> bool {
    let bs = views(before.files@).to_set();
    let as_ = views(after.files@).to_set();
    &&& before.count <= isize::MAX && after.count <= isize::MAX ==> d.count_delta == after.count
        - before.count
    &&& strictly_sorted(views(d.added_files@), true)
    &&& views(d.added_files@).to_set() == as_.difference(bs)
    &&& strictly_sorted(views(d.removed_files@), true)
    &&& views(d.removed_files@).to_set() == bs.difference(as_)
    &&& strictly_sorted(views(d.unchanged_files@), true)
    &&& views(d.unchanged_files@).to_set() == bs.intersect(as_)
}

/// Every field but the reference facts is kept.
pub open spec fn same_but_references(a: SymbolChange, b: SymbolChange) -> bool {
    &&& a.id == b.id
    &&& a.kinds == b.kinds
    &&& a.before == b.before
    &&& a.after == b.after
    &&& a.symbol_facts == b.symbol_facts
    &&& a.signature_change == b.signature_change
    &&& a.complexity_delta == b.complexity_delta
    &&& a.review_signals == b.review_signals
}

/// Attaches to every change its reference facts on both sides and how they
/// moved; the test-side facts and every other field are kept.
pub fn attach_reference_facts(
    symbol_changes: Vec<SymbolChange>,
    before: &ReferenceSnapshot,
    after: &ReferenceSnapshot,
    changed_files: &[ChangedFile],
) -> (r: Vec<SymbolChange>)
    ensures
        refs_attached_ok(
            r@,
            symbol_changes@,
            side_refs(*before),
            side_refs(*after),
            changed_path_set(changed_views(changed_files@)),
        ),
{
    let ghost changed = changed_path_set(changed_views(changed_files@));
    let ghost orig = symbol_changes@;
    let paths = changed_paths(changed_files);
    let mut rest = symbol_changes;
    let mut r: Vec<SymbolChange> = Vec::new();
    while rest.len() > 0
        invariant
            views(paths@).to_set() == changed,
            changed == changed_path_set(changed_views(changed_files@)),
            r@.len() + rest@.len() == orig.len(),
            rest@ == orig.subrange(r@.len() as int, orig.len() as int),
            forall|i: int|
                0 <= i < r@.len() ==> {
                    let c = #[trigger] r@[i];
                    let o = orig[i];
                    &&& same_but_references(c, o)
                    &&& c.test_references_after == o.test_references_after
                    &&& facts_ok(
                        c.references_before,
                        matched_spec(before.references@, context_of(o, side_refs(*before), changed)),
                        changed,
                    )
                    &&& facts_ok(
                        c.references_after,
                        matched_spec(after.references@, context_of(o, side_refs(*after), changed)),
                        changed,
                    )
                    &&& delta_ok(c.reference_delta, c.references_before, c.references_after)
                },
        decreases rest@.len(),
    {
        let change = rest.remove(0);
        proof {
            assert(change == orig[r@.len() as int]);
        }
        let references_before = reference_facts(
            &change,
            before.references,
            &paths,
            before.module_index,
            before.symbols,
        );
        let references_after = reference_facts(
            &change,
            after.references,
            &paths,
            after.module_index,
            after.symbols,
        );
        let reference_delta = reference_delta(&references_before, &references_after);
        let updated = SymbolChange {
            id: change.id,
            kinds: change.kinds,
            before: change.before,
            after: change.after,
            symbol_facts: change.symbol_facts,
            signature_change: change.signature_change,
            complexity_delta: change.complexity_delta,
            references_before,
            references_after,
            test_references_after: change.test_references_after,
            reference_delta,
            review_signals: change.review_signals,
        };
        let ghost old_r = r@;
        r.push(updated);
        proof {
            assert forall|i: int| 0 <= i < r@.len() implies {
                let c = #[trigger] r@[i];
                let o = orig[i];
                &&& same_but_references(c, o)
                &&& c.test_references_after == o.test_references_after
                &&& facts_ok(
                    c.references_before,
                    matched_spec(before.references@, context_of(o, side_refs(*before), changed)),
                    changed,
                )
                &&& facts_ok(
                    c.references_after,
                    matched_spec(after.references@, context_of(o, side_refs(*after), changed)),
                    changed,
                )
                &&& delta_ok(c.reference_delta, c.references_before, c.references_after)
            } by {
                if i < old_r.len() {
                    assert(r@[i] == old_r[i]);
                }
            }
            assert(rest@ =~= orig.subrange(r@.len() as int, orig.len() as int));
        }
    }
    r
}

/// Attaches to every change the facts of its references from test files at
/// the head side; every other field is kept.
pub fn attach_test_reference_facts(
    symbol_changes: Vec<SymbolChange>,
    tests_after: &ReferenceSnapshot,
    changed_files: &[ChangedFile],
) -> (r: Vec<SymbolChange>)
    ensures
        test_refs_attached_ok(
            r@,
            symbol_changes@,
            side_refs(*tests_after),
            changed_path_set(changed_views(changed_files@)),
        ),
{
    let ghost changed = changed_path_set(changed_views(changed_files@));
    let ghost orig = symbol_changes@;
    let paths = changed_paths(changed_files);
    let mut rest = symbol_changes;
    let mut r: Vec<SymbolChange> = Vec::new();
    while rest.len() > 0
        invariant
            views(paths@).to_set() == changed,
            changed == changed_path_set(changed_views(changed_files@)),
            r@.len() + rest@.len() == orig.len(),
            rest@ == orig.subrange(r@.len() as int, orig.len() as int),
            forall|i: int|
                0 <= i < r@.len() ==> {
                    let c = #[trigger] r@[i];
                    let o = orig[i];
                    &&& same_but_references(c, o)
                    &&& c.references_before == o.references_before
                    &&& c.references_after == o.references_after
                    &&& c.reference_delta == o.reference_delta
                    &&& facts_ok(
                        c.test_references_after,
                        matched_spec(tests_after.references@, context_of(o, side_refs(*tests_after), changed)),
                        changed,
                    )
                },
        decreases rest@.len(),
    {
        let change = rest.remove(0);
        proof {
            assert(change == orig[r@.len() as int]);
        }
        let test_references_after = reference_facts(
            &change,
            tests_after.references,
            &paths,
            tests_after.module_index,
            tests_after.symbols,
        );
        let updated = SymbolChange {
            id: change.id,
            kinds: change.kinds,
            before: change.before,
            after: change.after,
            symbol_facts: change.symbol_facts,
            signature_change: change.signature_change,
            complexity_delta: change.complexity_delta,
            references_before: change.references_before,
            references_after: change.references_after,
            test_references_after,
            reference_delta: change.reference_delta,
            review_signals: change.review_signals,
        };
        let ghost old_r = r@;
        r.push(updated);
        proof {
            assert forall|i: int| 0 <= i < r@.len() implies {
                let c = #[trigger] r@[i];
                let o = orig[i];
                &&& same_but_references(c, o)
                &&& c.references_before == o.references_before
                &&& c.references_after == o.references_after
                &&& c.reference_delta == o.reference_delta
                &&& facts_ok(
                    c.test_references_after,
                    matched_spec(tests_after.references@, context_of(o, side_refs(*tests_after), changed)),
                    changed,
                )
            } by {
                if i < old_r.len() {
                    assert(r@[i] == old_r[i]);
                }
            }
            assert(rest@ =~= orig.subrange(r@.len() as int, orig.len() as int));
        }
    }
    r
}


/// Splitting matched references by resolution, and by kind, loses none and
/// counts none twice.
proof fn lemma_matched_partition(m: Seq<MatchedView>)
    ensures
        m.filter(with_resolution(ReferenceResolution::Resolved)).len() + m.filter(
            with_resolution(ReferenceResolution::Unresolved),
        ).len() == m.len(),
        m.filter(with_kind(ReferenceKind::Import)).len() + m.filter(
            with_kind(ReferenceKind::FromImport),
        ).len() + m.filter(with_kind(ReferenceKind::Call)).len() + m.filter(
            with_kind(ReferenceKind::Attribute),
        ).len() == m.len(),
    decreases m.len(),
{
    if m.len() > 0 {
        let p = m.drop_last();
        let x = m.last();
        assert(p.push(x) =~= m);
        lemma_matched_partition(p);
        lemma_push_filter(p, with_resolution(ReferenceResolution::Resolved), x);
        lemma_push_filter(p, with_resolution(ReferenceResolution::Unresolved), x);
        lemma_push_filter(p, with_kind(ReferenceKind::Import), x);
        lemma_push_filter(p, with_kind(ReferenceKind::FromImport), x);
        lemma_push_filter(p, with_kind(ReferenceKind::Call), x);
        lemma_push_filter(p, with_kind(ReferenceKind::Attribute), x);
    } else {
        assert(m.filter(with_resolution(ReferenceResolution::Resolved)) =~= Seq::empty());
        assert(m.filter(with_resolution(ReferenceResolution::Unresolved)) =~= Seq::empty());
        assert(m.filter(with_kind(ReferenceKind::Import)) =~= Seq::empty());
        assert(m.filter(with_kind(ReferenceKind::FromImport)) =~= Seq::empty());
        assert(m.filter(with_kind(ReferenceKind::Call)) =~= Seq::empty());
        assert(m.filter(with_kind(ReferenceKind::Attribute)) =~= Seq::empty());
    }
}

/// Splitting paths by membership in a set loses none and counts none twice.
proof fn lemma_member_partition(s: Seq<Seq<char>>, set: Set<Seq<char>>)
    ensures
        s.filter(member_of(set, true)).len() + s.filter(member_of(set, false)).len() == s.len(),
    decreases s.len(),
{
    if s.len() > 0 {
        let p = s.drop_last();
        assert(p.push(s.last()) =~= s);
        lemma_member_partition(p, set);
        lemma_push_filter(p, member_of(set, true), s.last());
        lemma_push_filter(p, member_of(set, false), s.last());
    } else {
        assert(s.filter(member_of(set, true)) =~= Seq::empty());
        assert(s.filter(member_of(set, false)) =~= Seq::empty());
    }
}

/// The reference facts of a symbol count every matched reference once:
/// resolved plus unresolved references, and the references of the four
/// kinds, each add up to the total, and the referencing files split into
/// changed and unchanged ones.
pub proof fn lemma_reference_counts_add_up(f: SymbolReferenceFacts, m: Seq<MatchedView>, changed: Set<Seq<char>>)
    requires
        facts_ok(f, m, changed),
    ensures
        f.resolved_count + f.unresolved_count == f.count,
        f.import_count + f.from_import_count + f.direct_call_count + f.attribute_call_count
            == f.count,
        f.changed_files@.len() + f.unchanged_files@.len() == f.files@.len(),
{
    lemma_matched_partition(m);
    lemma_member_partition(views(f.files@), changed);
}

/// How the referencing files moved: the files before are those that stayed
/// and those that were removed, the files after are those that stayed and
/// those that were added, and no added file was there before.
pub proof fn lemma_reference_files_move(d: SymbolReferenceDelta, before: SymbolReferenceFacts, after: SymbolReferenceFacts)
    requires
        delta_ok(d, before, after),
    ensures
        views(before.files@).to_set() == views(d.unchanged_files@).to_set() + views(
            d.removed_files@,
        ).to_set(),
        views(after.files@).to_set() == views(d.unchanged_files@).to_set() + views(
            d.added_files@,
        ).to_set(),
        views(d.added_files@).to_set().disjoint(views(before.files@).to_set()),
{
    let bs = views(before.files@).to_set();
    let as_ = views(after.files@).to_set();
    assert(bs =~= bs.intersect(as_) + bs.difference(as_));
    assert(as_ =~= bs.intersect(as_) + as_.difference(bs));
}


proof fn lemma_narrowest_is_least(r: Reference, syms: Seq<Symbol>, n: int)
    requires
        0 <= n <= syms.len(),
    ensures
        narrowest(r, syms, n) == -1 ==> forall|j: int| 0 <= j < n ==> !encloses(r, #[trigger] syms[j]),
        narrowest(r, syms, n) != -1 ==> {
            let b = narrowest(r, syms, n);
            &&& 0 <= b < n
            &&& encloses(r, syms[b])
            &&& forall|j: int| 0 <= j < n && encloses(r, #[trigger] syms[j]) ==> span(syms[b]) <= span(syms[j])
            &&& forall|j: int| 0 <= j < b && encloses(r, #[trigger] syms[j]) ==> span(syms[b]) < span(syms[j])
        },
    decreases n,
{
    if n > 0 {
        lemma_narrowest_is_least(r, syms, n - 1);
    }
}

/// How an unresolved reference matches a changed method: exactly when it
/// is an attribute reference in the method's own file whose receiver is
/// `self` or `cls`, names the method's short name, and is made from a
/// method of the same class; it then matches by short name.  A `cls` call
/// matches as a `self` call does.
pub proof fn lemma_unresolved_method_match(
    r: Reference,
    s: Symbol,
    id_name: Seq<char>,
    index: Set<(Seq<char>, Seq<char>)>,
    caller: Option<Seq<char>>,
)
    requires
        r.resolution != ReferenceResolution::Resolved,
        s.kind == SymbolKind::Method,
    ensures
        match_source_spec(r, Some(s), id_name, index, caller) == if {
            &&& r.kind == ReferenceKind::Attribute
            &&& r.file@ == s.file@
            &&& r.module matches Some(m) && (m@ == "self"@ || m@ == "cls"@)
            &&& r.name@ == short_name_of(s.qualified_name@)
            &&& owner_of(s.qualified_name@) is Some
            &&& caller matches Some(c) && owner_of(c) == owner_of(s.qualified_name@)
        } {
            Some(ReferenceMatchSource::UnresolvedShortName)
        } else {
            None
        },
{
}
/// The caller named for a reference is the innermost definition around it:
/// among the definitions of its file whose line ranges contain its line
/// (and whose short name is not the referenced name), one with the
/// smallest line span, the first of equally small ones; none when no
/// definition contains it.
pub proof fn lemma_enclosing_is_innermost(r: Reference, syms: Seq<Symbol>)
    ensures
        enclosing_spec(r, syms) is None <==> forall|j: int| 0 <= j < syms.len() ==> !encloses(r, #[trigger] syms[j]),
        enclosing_spec(r, syms) is Some ==> exists|b: int|
            0 <= b < syms.len() && enclosing_spec(r, syms) == Some(syms[b].qualified_name@) && encloses(r, #[trigger] syms[b])
                && (forall|j: int| 0 <= j < syms.len() && encloses(r, #[trigger] syms[j]) ==> span(syms[b]) <= span(syms[j]))
                && (forall|j: int| 0 <= j < b && encloses(r, #[trigger] syms[j]) ==> span(syms[b]) < span(syms[j])),
{
    lemma_narrowest_is_least(r, syms, syms.len() as int);
    let b = narrowest(r, syms, syms.len() as int);
    if b >= 0 {
        assert(encloses(r, syms[b]));
    }
}

/// How an unresolved reference matches a changed function or class:
/// exactly when it names the symbol's short name and that name is not one
/// of the common names `__call__`, `__enter__`, `__exit__`, `__init__`,
/// `__iter__`, `__next__`, `close`, `get`, `main`, `open`, `read`, `run`,
/// `set`, `write`; it then matches by short name, whatever its kind,
/// receiver or caller.
pub proof fn lemma_unresolved_definition_match(
    r: Reference,
    s: Symbol,
    id_name: Seq<char>,
    index: Set<(Seq<char>, Seq<char>)>,
    caller: Option<Seq<char>>,
)
    requires
        r.resolution != ReferenceResolution::Resolved,
        s.kind != SymbolKind::Method,
    ensures
        match_source_spec(r, Some(s), id_name, index, caller) == if r.name@ == short_name_of(
            s.qualified_name@,
        ) && !(r.name@ == "__call__"@ || r.name@ == "__enter__"@ || r.name@ == "__exit__"@
            || r.name@ == "__init__"@ || r.name@ == "__iter__"@ || r.name@ == "__next__"@ || r.name@
            == "close"@ || r.name@ == "get"@ || r.name@ == "main"@ || r.name@ == "open"@ || r.name@
            == "read"@ || r.name@ == "run"@ || r.name@ == "set"@ || r.name@ == "write"@) {
            Some(ReferenceMatchSource::UnresolvedShortName)
        } else {
            None
        },
{
}

} // verus!
