//! Static references in a Python file: imports, `from` imports and calls,
//! each resolved through the import bindings visible where it stands.
use vstd::prelude::*;

use crate::language::{
    opt_view, top_level_name, top_level_name_of, Reference, ReferenceKind, ReferenceResolution,
    ReferenceView, reference_views,
};
use crate::python::scopes::{
    insert_module_spec, insert_symbol_spec, join_slice, resolve_object_spec, symbol_spec,
    ImportScopes, ScopeKind, ScopeView,
};
use crate::python::symbols::{node_text, node_text_spec, or_empty, sat_inc, walkable};
use crate::python::tree::{ParsedFile, SourceText, SyntaxTree};
use crate::text::{
    chars_of, find_last, last_index_of, lemma_last_index_of, owned, split_chars, split_spec,
    str_eq, substring, trim, trim_spec, views, join_spec,
};

verus! {

/// The trimmed text of node `i`.
pub open spec fn clean_text(t: SyntaxTree, text: SourceText, i: int) -> Seq<char> {
    trim_spec(or_empty(node_text_spec(t, text, i)))
}

fn clean_node_text(p: &ParsedFile, i: usize) -> (r: String)
    requires
        p.wf(),
        i < p.tree.nodes@.len(),
    ensures
        r@ == clean_text(p.tree, p.text, i as int),
{
    match node_text(p, i) {
        Some(s) => trim(s.as_str()),
        None => String::new(),
    }
}

/// The imported name and alias of one imported part, if it has them.
pub open spec fn name_and_alias(t: SyntaxTree, text: SourceText, c: int) -> Option<(Seq<char>, Option<Seq<char>>)> {
    if t.kind(c) == "aliased_import"@ {
        match (t.child_by_field(c, "name"@), t.child_by_field(c, "alias"@)) {
            (Some(n), Some(a)) => Some((clean_text(t, text, n), Some(clean_text(t, text, a)))),
            _ => None,
        }
    } else {
        Some((clean_text(t, text, c), None))
    }
}

/// Child position `k` of node `i` is a named part under field `name`.
pub open spec fn is_name_part(t: SyntaxTree, i: int, k: int) -> bool {
    let c = t.children(i)[k] as int;
    t.nodes@[c].named && t.child_has_field(i, k, "name"@)
}

/// The reference of one part of an `import` statement: the local name is
/// the alias or the first dotted component, bound to the imported module
/// (aliased) or to that first component.
pub open spec fn import_ref(t: SyntaxTree, text: SourceText, file: Seq<char>, c: int) -> Option<ReferenceView> {
    match name_and_alias(t, text, c) {
        Some((imported, alias)) => if imported.len() == 0 {
            None
        } else {
            let root = top_level_name_of(imported);
            Some(
                ReferenceView {
                    file,
                    name: match alias {
                        Some(a) => a,
                        None => root,
                    },
                    module: Some(imported),
                    resolved_name: None,
                    resolved_module: Some(
                        match alias {
                            Some(_) => imported,
                            None => root,
                        },
                    ),
                    resolution: ReferenceResolution::Resolved,
                    line: sat_inc(t.nodes@[c].start_row),
                    kind: ReferenceKind::Import,
                },
            )
        },
        None => None,
    }
}

/// The reference of one part of a `from` import of `module`.
pub open spec fn from_import_ref(t: SyntaxTree, text: SourceText, file: Seq<char>, module: Seq<char>, c: int) -> Option<ReferenceView> {
    match name_and_alias(t, text, c) {
        Some((imported, alias)) => if imported.len() == 0 || imported == "*"@ {
            None
        } else {
            Some(
                ReferenceView {
                    file,
                    name: match alias {
                        Some(a) => a,
                        None => imported,
                    },
                    module: Some(module),
                    resolved_name: Some(imported),
                    resolved_module: Some(module),
                    resolution: ReferenceResolution::Resolved,
                    line: sat_inc(t.nodes@[c].start_row),
                    kind: ReferenceKind::FromImport,
                },
            )
        },
        None => None,
    }
}

/// The references of the name parts of import node `i` from child
/// position `k`; `from` imports of `module` when `module` is given.
pub open spec fn import_refs_from(t: SyntaxTree, text: SourceText, file: Seq<char>, i: int, module: Option<Seq<char>>, k: int) -> Seq<ReferenceView>
    decreases t.children(i).len() - k,
{
    if k < 0 || k >= t.children(i).len() {
        Seq::empty()
    } else {
        let c = t.children(i)[k] as int;
        let own = if is_name_part(t, i, k) {
            match module {
                Some(m) => from_import_ref(t, text, file, m, c),
                None => import_ref(t, text, file, c),
            }
        } else {
            None
        };
        (match own {
            Some(r) => seq![r],
            None => Seq::empty(),
        }) + import_refs_from(t, text, file, i, module, k + 1)
    }
}

/// Number of leading dots of a module text.
pub open spec fn leading_dots(m: Seq<char>) -> int
    decreases m.len(),
{
    if m.len() > 0 && m[0] == '.' {
        1 + leading_dots(m.drop_first())
    } else {
        0
    }
}

/// The non-empty `/`-separated components of the directory of a path.
pub open spec fn parent_parts(file: Seq<char>) -> Seq<Seq<char>> {
    let k = last_index_of(file, '/');
    let dir = if k >= 0 {
        file.subrange(0, k)
    } else {
        Seq::empty()
    };
    split_spec(dir, '/').filter(|c: Seq<char>| c.len() > 0)
}

/// The absolute module a `from` import names: relative modules (with
/// leading dots) are resolved against the importing file's package.
pub open spec fn resolve_module_spec(file: Seq<char>, m: Seq<char>) -> Seq<char> {
    let dots = leading_dots(m);
    if dots == 0 {
        m
    } else {
        let suffix = m.subrange(dots, m.len() as int);
        let parents = parent_parts(file);
        let keep = if parents.len() >= dots - 1 {
            parents.len() - (dots - 1)
        } else {
            0
        };
        let package = parents.subrange(0, keep);
        join_spec(
            if suffix.len() > 0 {
                package + split_spec(suffix, '.')
            } else {
                package
            },
            "."@,
        )
    }
}

/// The references of import or `from` import node `i`.
pub open spec fn import_statement_refs(t: SyntaxTree, text: SourceText, file: Seq<char>, i: int, from: bool) -> Seq<ReferenceView> {
    if from {
        match t.child_by_field(i, "module_name"@) {
            Some(mn) => import_refs_from(
                t,
                text,
                file,
                i,
                Some(resolve_module_spec(file, clean_text(t, text, mn))),
                0,
            ),
            None => Seq::empty(),
        }
    } else {
        import_refs_from(t, text, file, i, None, 0)
    }
}

/// The reference a call node makes, resolved through the visible bindings:
/// a plain name through symbol bindings, a dotted name through the module
/// its object names.
pub open spec fn call_ref(t: SyntaxTree, text: SourceText, file: Seq<char>, i: int, sc: Seq<ScopeView>) -> Option<ReferenceView> {
    match t.child_by_field(i, "function"@) {
        None => None,
        Some(f) => {
            let line = sat_inc(t.nodes@[f].start_row);
            if t.kind(f) == "identifier"@ {
                let name = clean_text(t, text, f);
                let res = symbol_spec(sc, name);
                Some(
                    ReferenceView {
                        file,
                        name,
                        module: None,
                        resolved_name: match res {
                            Some((_, n)) => Some(n),
                            None => Some(name),
                        },
                        resolved_module: match res {
                            Some((m, _)) => Some(m),
                            None => None,
                        },
                        resolution: if res is Some {
                            ReferenceResolution::Resolved
                        } else {
                            ReferenceResolution::Unresolved
                        },
                        line,
                        kind: ReferenceKind::Call,
                    },
                )
            } else if t.kind(f) == "attribute"@ {
                let tx = clean_text(t, text, f);
                let k = last_index_of(tx, '.');
                if k < 0 {
                    None
                } else {
                    let module = tx.subrange(0, k);
                    let name = tx.subrange(k + 1, tx.len() as int);
                    let res = resolve_object_spec(sc, module);
                    Some(
                        ReferenceView {
                            file,
                            name,
                            module: Some(module),
                            resolved_name: Some(name),
                            resolved_module: match res {
                                Some(m) => Some(m),
                                None => Some(module),
                            },
                            resolution: if res is Some {
                                ReferenceResolution::Resolved
                            } else {
                                ReferenceResolution::Unresolved
                            },
                            line,
                            kind: ReferenceKind::Attribute,
                        },
                    )
                }
            } else {
                None
            }
        },
    }
}

/// The bindings after the module bindings of import references.
pub open spec fn bind_modules(sc: Seq<ScopeView>, refs: Seq<ReferenceView>) -> Seq<ScopeView>
    decreases refs.len(),
{
    if refs.len() == 0 {
        sc
    } else {
        let prev = bind_modules(sc, refs.drop_last());
        let r = refs.last();
        match r.resolved_module {
            Some(m) => insert_module_spec(
                prev,
                r.name,
                m,
                match r.module {
                    Some(x) => x,
                    None => m,
                },
            ),
            None => prev,
        }
    }
}

/// The bindings after the symbol bindings of `from` import references.
pub open spec fn bind_symbols(sc: Seq<ScopeView>, refs: Seq<ReferenceView>) -> Seq<ScopeView>
    decreases refs.len(),
{
    if refs.len() == 0 {
        sc
    } else {
        let prev = bind_symbols(sc, refs.drop_last());
        let r = refs.last();
        match (r.resolved_module, r.resolved_name) {
            (Some(m), Some(n)) => insert_symbol_spec(prev, r.name, m, n),
            _ => prev,
        }
    }
}

/// The scopes after closing the innermost one.
pub open spec fn pop_scope(sc: Seq<ScopeView>) -> Seq<ScopeView> {
    if sc.len() > 0 {
        sc.drop_last()
    } else {
        sc
    }
}

/// An empty scope of a kind.
pub open spec fn empty_scope(kind: ScopeKind) -> ScopeView {
    ScopeView { kind, modules: Seq::empty(), symbols: Seq::empty() }
}

/// The references at node `i` and below, with the bindings in scope
/// before and after: functions and classes open a scope, imports bind
/// names, calls are resolved as they are met.
pub open spec fn refs_walk(t: SyntaxTree, text: SourceText, file: Seq<char>, i: int, sc: Seq<ScopeView>) -> (Seq<ReferenceView>, Seq<ScopeView>)
    decreases t.len() - i, t.children(i).len() + 1,
{
    if i < 0 || i >= t.len() {
        (Seq::empty(), sc)
    } else if t.kind(i) == "function_definition"@ {
        let (r, s) = refs_children(t, text, file, i, 0, sc.push(empty_scope(ScopeKind::Function)));
        (r, pop_scope(s))
    } else if t.kind(i) == "class_definition"@ {
        let (r, s) = refs_children(t, text, file, i, 0, sc.push(empty_scope(ScopeKind::Class)));
        (r, pop_scope(s))
    } else {
        let (own, sc1) = if t.kind(i) == "import_statement"@ {
            let refs = import_statement_refs(t, text, file, i, false);
            (refs, bind_modules(sc, refs))
        } else if t.kind(i) == "import_from_statement"@ {
            let refs = import_statement_refs(t, text, file, i, true);
            (refs, bind_symbols(sc, refs))
        } else if t.kind(i) == "call"@ {
            (
                match call_ref(t, text, file, i, sc) {
                    Some(r) => seq![r],
                    None => Seq::empty(),
                },
                sc,
            )
        } else {
            (Seq::empty(), sc)
        };
        let (r, s2) = refs_children(t, text, file, i, 0, sc1);
        (own + r, s2)
    }
}

/// The references under the named children of `i` from position `k`.
pub open spec fn refs_children(t: SyntaxTree, text: SourceText, file: Seq<char>, i: int, k: int, sc: Seq<ScopeView>) -> (Seq<ReferenceView>, Seq<ScopeView>)
    decreases t.len() - i, t.children(i).len() - k,
{
    if k < 0 || k >= t.children(i).len() || i < 0 || i >= t.len() {
        (Seq::empty(), sc)
    } else {
        let c = t.children(i)[k] as int;
        let (r1, s1) = if walkable(t, i, c) {
            refs_walk(t, text, file, c, sc)
        } else {
            (Seq::empty(), sc)
        };
        let (r2, s2) = refs_children(t, text, file, i, k + 1, s1);
        (r1 + r2, s2)
    }
}

/// The references of a parsed file.
pub open spec fn extract_references_spec(p: ParsedFile) -> Seq<ReferenceView> {
    refs_walk(p.tree, p.text, p.file@, 0, Seq::empty()).0
}

fn name_parts_of(p: &ParsedFile, c: usize) -> (r: Option<(String, Option<String>)>)
    requires
        p.wf(),
        c < p.tree.nodes@.len(),
    ensures
        match r {
            Some((n, a)) => name_and_alias(p.tree, p.text, c as int) == Some((n@, opt_view(a))),
            None => name_and_alias(p.tree, p.text, c as int) is None,
        },
{
    let t = &p.tree;
    if str_eq(t.nodes[c].kind.as_str(), "aliased_import") {
        match (t.child_by_field_name(c, "name"), t.child_by_field_name(c, "alias")) {
            (Some(n), Some(a)) => Some((clean_node_text(p, n), Some(clean_node_text(p, a)))),
            _ => None,
        }
    } else {
        Some((clean_node_text(p, c), None))
    }
}

fn is_empty_str(s: &str) -> (r: bool)
    ensures
        r == (s@.len() == 0),
{
    chars_of(s).len() == 0
}

fn import_refs(p: &ParsedFile, i: usize, module: &Option<String>, out: &mut Vec<Reference>)
    requires
        p.wf(),
        i < p.tree.nodes@.len(),
    ensures
        reference_views(final(out)@) == reference_views(old(out)@) + import_refs_from(
            p.tree,
            p.text,
            p.file@,
            i as int,
            opt_view(*module),
            0,
        ),
{
    let t = &p.tree;
    let children = &t.nodes[i].children;
    let ghost mv = opt_view(*module);
    let mut k: usize = 0;
    while k < children.len()
        invariant
            p.wf(),
            t == &p.tree,
            i < t.nodes@.len(),
            children@ == t.children(i as int),
            mv == opt_view(*module),
            0 <= k <= children@.len(),
            reference_views(out@) + import_refs_from(p.tree, p.text, p.file@, i as int, mv, k as int)
                == reference_views(old(out)@) + import_refs_from(p.tree, p.text, p.file@, i as int, mv, 0),
        decreases children@.len() - k,
    {
        let c = children[k];
        let ghost before = reference_views(out@);
        let is_name = t.nodes[c].named && match &t.nodes[c].field {
            Some(f) => str_eq(f.as_str(), "name"),
            None => false,
        };
        if is_name {
            match name_parts_of(p, c) {
                Some((imported, alias)) => {
                    match module {
                        Some(m) => {
                            if !is_empty_str(imported.as_str()) && !str_eq(imported.as_str(), "*") {
                                let local = match &alias {
                                    Some(a) => a.clone(),
                                    None => imported.clone(),
                                };
                                out.push(
                                    Reference {
                                        file: p.file.clone(),
                                        name: local,
                                        module: Some(m.clone()),
                                        resolved_name: Some(imported),
                                        resolved_module: Some(m.clone()),
                                        resolution: ReferenceResolution::Resolved,
                                        line: crate::python::symbols::inc(t.nodes[c].start_row),
                                        kind: ReferenceKind::FromImport,
                                    },
                                );
                            }
                        },
                        None => {
                            if !is_empty_str(imported.as_str()) {
                                let root = top_level_name(imported.as_str());
                                let local = match &alias {
                                    Some(a) => a.clone(),
                                    None => root.clone(),
                                };
                                let bound = match &alias {
                                    Some(_) => imported.clone(),
                                    None => root,
                                };
                                out.push(
                                    Reference {
                                        file: p.file.clone(),
                                        name: local,
                                        module: Some(imported),
                                        resolved_name: None,
                                        resolved_module: Some(bound),
                                        resolution: ReferenceResolution::Resolved,
                                        line: crate::python::symbols::inc(t.nodes[c].start_row),
                                        kind: ReferenceKind::Import,
                                    },
                                );
                            }
                        },
                    }
                },
                None => {},
            }
        }
        proof {
            let own = if is_name_part(p.tree, i as int, k as int) {
                match mv {
                    Some(m) => from_import_ref(p.tree, p.text, p.file@, m, c as int),
                    None => import_ref(p.tree, p.text, p.file@, c as int),
                }
            } else {
                None
            };
            let mid: Seq<ReferenceView> = match own {
                Some(r) => seq![r],
                None => Seq::empty(),
            };
            let rest = import_refs_from(p.tree, p.text, p.file@, i as int, mv, k + 1);
            assert(reference_views(out@) =~= before + mid);
            assert(before + (mid + rest) =~= reference_views(out@) + rest);
        }
        k = k + 1;
    }
    proof {
        assert(reference_views(out@) + import_refs_from(p.tree, p.text, p.file@, i as int, mv, k as int)
            =~= reference_views(out@));
    }
}

/// The absolute module a `from` import names, relative to the importing
/// file's package when it starts with dots.
pub fn resolve_module(file: &str, module: &str) -> (r: String)
    ensures
        r@ == resolve_module_spec(file@, module@),
{
    let mv = chars_of(module);
    let mut dots: usize = 0;
    proof {
        assert(mv@.subrange(0, mv@.len() as int) =~= mv@);
    }
    while dots < mv.len() && mv[dots] == '.'
        invariant
            0 <= dots <= mv@.len(),
            forall|j: int| 0 <= j < dots ==> mv@[j] == '.',
            leading_dots(mv@) == dots + leading_dots(mv@.subrange(dots as int, mv@.len() as int)),
        decreases mv@.len() - dots,
    {
        proof {
            assert(mv@.subrange(dots as int, mv@.len() as int).drop_first() =~= mv@.subrange(
                dots + 1,
                mv@.len() as int,
            ));
        }
        dots = dots + 1;
    }
    proof {
        assert(leading_dots(mv@.subrange(dots as int, mv@.len() as int)) == 0);
    }
    if dots == 0 {
        return owned(module);
    }
    let fv = chars_of(file);
    proof {
        lemma_last_index_of(fv@, '/');
    }
    let dir = match find_last(fv.as_slice(), '/') {
        Some(k) => substring(fv.as_slice(), 0, k),
        None => String::new(),
    };
    let dv = chars_of(dir.as_str());
    let pieces = split_chars(dv.as_slice(), '/');
    let ghost pred = |c: Seq<char>| c.len() > 0;
    let mut package: Vec<String> = Vec::new();
    let mut k: usize = 0;
    while k < pieces.len()
        invariant
            0 <= k <= pieces@.len(),
            pred == (|c: Seq<char>| c.len() > 0),
            views(package@) == views(pieces@).subrange(0, k as int).filter(pred),
        decreases pieces@.len() - k,
    {
        proof {
            assert(views(pieces@).subrange(0, k + 1) =~= views(pieces@).subrange(0, k as int).push(
                pieces@[k as int]@,
            ));
            crate::text::lemma_push_filter(views(pieces@).subrange(0, k as int), pred, pieces@[k as int]@);
        }
        if !is_empty_str(pieces[k].as_str()) {
            let ghost before = views(package@);
            package.push(pieces[k].clone());
            proof {
                assert(views(package@) =~= before.push(pieces@[k as int]@));
            }
        }
        k = k + 1;
    }
    proof {
        assert(views(pieces@).subrange(0, pieces@.len() as int) =~= views(pieces@));
        assert(views(package@) == parent_parts(file@));
    }
    let mut pops: usize = 1;
    while pops < dots
        invariant
            1 <= pops <= dots,
            views(package@) == parent_parts(file@).subrange(
                0,
                if parent_parts(file@).len() >= pops - 1 {
                    parent_parts(file@).len() - (pops - 1)
                } else {
                    0
                },
            ),
        decreases dots - pops,
    {
        let ghost before = views(package@);
        if package.len() > 0 {
            package.pop();
            proof {
                assert(views(package@) =~= before.drop_last());
            }
        }
        pops = pops + 1;
    }
    let suffix = substring(mv.as_slice(), dots, mv.len());
    let sv = chars_of(suffix.as_str());
    if sv.len() > 0 {
        let more = split_chars(sv.as_slice(), '.');
        let ghost before = views(package@);
        let mut j: usize = 0;
        while j < more.len()
            invariant
                0 <= j <= more@.len(),
                views(package@) == before + views(more@).subrange(0, j as int),
            decreases more@.len() - j,
        {
            let ghost old_pkg = views(package@);
            let piece = more[j].clone();
            proof {
                assert(piece@ == more@[j as int]@);
            }
            package.push(piece);
            proof {
                assert(views(package@) =~= old_pkg.push(more@[j as int]@));
                assert(views(more@).subrange(0, j + 1) =~= views(more@).subrange(0, j as int).push(
                    more@[j as int]@,
                ));
            }
            j = j + 1;
        }
        proof {
            assert(views(more@).subrange(0, more@.len() as int) =~= views(more@));
        }
    }
    let n = package.len();
    let r = join_slice(&package, 0, n);
    proof {
        assert(views(package@).subrange(0, n as int) =~= views(package@));
    }
    r
}

/// The reference a call node makes, if its callee is a name or a dotted
/// name.
pub fn call_reference(p: &ParsedFile, i: usize, imports: &ImportScopes) -> (r: Option<Reference>)
    requires
        p.wf(),
        i < p.tree.nodes@.len(),
    ensures
        match r {
            Some(x) => call_ref(p.tree, p.text, p.file@, i as int, imports@) == Some(x@),
            None => call_ref(p.tree, p.text, p.file@, i as int, imports@) is None,
        },
{
    let t = &p.tree;
    let f = match t.child_by_field_name(i, "function") {
        Some(f) => f,
        None => {
            return None;
        },
    };
    let line = crate::python::symbols::inc(t.nodes[f].start_row);
    if str_eq(t.nodes[f].kind.as_str(), "identifier") {
        let name = clean_node_text(p, f);
        let resolved = imports.symbol(name.as_str());
        let (resolved_name, resolved_module, resolution) = match resolved {
            Some((m, n)) => (Some(n), Some(m), ReferenceResolution::Resolved),
            None => (Some(name.clone()), None, ReferenceResolution::Unresolved),
        };
        return Some(
            Reference {
                file: p.file.clone(),
                name,
                module: None,
                resolved_name,
                resolved_module,
                resolution,
                line,
                kind: ReferenceKind::Call,
            },
        );
    }
    if str_eq(t.nodes[f].kind.as_str(), "attribute") {
        let tx = clean_node_text(p, f);
        let tv = chars_of(tx.as_str());
        proof {
            lemma_last_index_of(tv@, '.');
        }
        let k = match find_last(tv.as_slice(), '.') {
            Some(k) => k,
            None => {
                return None;
            },
        };
        let module = substring(tv.as_slice(), 0, k);
        let name = substring(tv.as_slice(), k + 1, tv.len());
        let resolved = imports.resolve_module_object(module.as_str());
        let resolution = if resolved.is_some() {
            ReferenceResolution::Resolved
        } else {
            ReferenceResolution::Unresolved
        };
        let resolved_module = match resolved {
            Some(m) => Some(m),
            None => Some(module.clone()),
        };
        return Some(
            Reference {
                file: p.file.clone(),
                name: name.clone(),
                module: Some(module),
                resolved_name: Some(name),
                resolved_module,
                resolution,
                line,
                kind: ReferenceKind::Attribute,
            },
        );
    }
    None
}

fn bind_import_modules(imports: &mut ImportScopes, refs: &Vec<Reference>, from: usize)
    requires
        from <= refs@.len(),
    ensures
        bind_modules(old(imports)@, reference_views(refs@).subrange(from as int, refs@.len() as int))
            == final(imports)@,
{
    let ghost start = imports@;
    let mut k: usize = from;
    while k < refs.len()
        invariant
            from <= k <= refs@.len(),
            imports@ == bind_modules(start, reference_views(refs@).subrange(from as int, k as int)),
            start == old(imports)@,
        decreases refs@.len() - k,
    {
        let r = &refs[k];
        proof {
            assert(reference_views(refs@).subrange(from as int, k + 1).drop_last() =~= reference_views(
                refs@,
            ).subrange(from as int, k as int));
            assert(reference_views(refs@).subrange(from as int, k + 1).last() == r@);
        }
        match &r.resolved_module {
            Some(m) => {
                let imported = match &r.module {
                    Some(x) => x.clone(),
                    None => m.clone(),
                };
                imports.insert_module(r.name.clone(), m.clone(), imported);
            },
            None => {},
        }
        k = k + 1;
    }
}

fn bind_import_symbols(imports: &mut ImportScopes, refs: &Vec<Reference>, from: usize)
    requires
        from <= refs@.len(),
    ensures
        bind_symbols(old(imports)@, reference_views(refs@).subrange(from as int, refs@.len() as int))
            == final(imports)@,
{
    let ghost start = imports@;
    let mut k: usize = from;
    while k < refs.len()
        invariant
            from <= k <= refs@.len(),
            imports@ == bind_symbols(start, reference_views(refs@).subrange(from as int, k as int)),
            start == old(imports)@,
        decreases refs@.len() - k,
    {
        let r = &refs[k];
        proof {
            assert(reference_views(refs@).subrange(from as int, k + 1).drop_last() =~= reference_views(
                refs@,
            ).subrange(from as int, k as int));
            assert(reference_views(refs@).subrange(from as int, k + 1).last() == r@);
        }
        match (&r.resolved_module, &r.resolved_name) {
            (Some(m), Some(n)) => {
                imports.insert_symbol(r.name.clone(), m.clone(), n.clone());
            },
            _ => {},
        }
        k = k + 1;
    }
}

fn walk_references(p: &ParsedFile, i: usize, imports: &mut ImportScopes, out: &mut Vec<Reference>)
    requires
        p.wf(),
        i < p.tree.nodes@.len(),
    ensures
        reference_views(final(out)@) == reference_views(old(out)@) + refs_walk(
            p.tree,
            p.text,
            p.file@,
            i as int,
            old(imports)@,
        ).0,
        final(imports)@ == refs_walk(p.tree, p.text, p.file@, i as int, old(imports)@).1,
    decreases p.tree.nodes@.len() - i, p.tree.nodes@[i as int].children@.len() + 1,
{
    let t = &p.tree;
    let ghost sc = imports@;
    if str_eq(t.nodes[i].kind.as_str(), "function_definition") || str_eq(
        t.nodes[i].kind.as_str(),
        "class_definition",
    ) {
        let kind = if str_eq(t.nodes[i].kind.as_str(), "function_definition") {
            ScopeKind::Function
        } else {
            ScopeKind::Class
        };
        imports.enter_scope(kind);
        walk_reference_children(p, i, imports, out);
        imports.exit_scope();
        return ;
    }
    let ghost before = reference_views(out@);
    if str_eq(t.nodes[i].kind.as_str(), "import_statement") {
        let start = out.len();
        let none: Option<String> = None;
        import_refs(p, i, &none, out);
        proof {
            assert(reference_views(out@).len() == out@.len());
            assert(before.len() == start);
            assert(reference_views(out@).subrange(start as int, out@.len() as int) =~= import_statement_refs(
                p.tree,
                p.text,
                p.file@,
                i as int,
                false,
            ));
        }
        bind_import_modules(imports, out, start);
        proof {
            assert(reference_views(out@).subrange(start as int, out@.len() as int) =~= import_statement_refs(
                p.tree,
                p.text,
                p.file@,
                i as int,
                false,
            ));
        }
    } else if str_eq(t.nodes[i].kind.as_str(), "import_from_statement") {
        match t.child_by_field_name(i, "module_name") {
            Some(mn) => {
                let text = clean_node_text(p, mn);
                let module = Some(resolve_module(p.file.as_str(), text.as_str()));
                let start = out.len();
                import_refs(p, i, &module, out);
                proof {
                    assert(reference_views(out@).len() == out@.len());
                    assert(before.len() == start);
                    assert(reference_views(out@).subrange(start as int, out@.len() as int) =~= import_statement_refs(
                        p.tree,
                        p.text,
                        p.file@,
                        i as int,
                        true,
                    ));
                }
                bind_import_symbols(imports, out, start);
                proof {
                    assert(reference_views(out@).subrange(start as int, out@.len() as int) =~= import_statement_refs(
                        p.tree,
                        p.text,
                        p.file@,
                        i as int,
                        true,
                    ));
                }
            },
            None => {
                proof {
                    assert(bind_symbols(sc, Seq::empty()) == sc);
                    assert(reference_views(out@) =~= before + Seq::<ReferenceView>::empty());
                }
            },
        }
    } else if str_eq(t.nodes[i].kind.as_str(), "call") {
        match call_reference(p, i, imports) {
            Some(r) => {
                out.push(r);
                proof {
                    assert(reference_views(out@) =~= before.push(r@));
                }
            },
            None => {},
        }
    }
    let ghost mid_refs = reference_views(out@);
    let ghost mid_scopes = imports@;
    walk_reference_children(p, i, imports, out);
    proof {
        let own = mid_refs.subrange(before.len() as int, mid_refs.len() as int);
        assert(mid_refs =~= before + own);
        assert(reference_views(out@) =~= before + (own + refs_children(
            p.tree,
            p.text,
            p.file@,
            i as int,
            0,
            mid_scopes,
        ).0));
    }
}

fn walk_reference_children(p: &ParsedFile, i: usize, imports: &mut ImportScopes, out: &mut Vec<Reference>)
    requires
        p.wf(),
        i < p.tree.nodes@.len(),
    ensures
        reference_views(final(out)@) == reference_views(old(out)@) + refs_children(
            p.tree,
            p.text,
            p.file@,
            i as int,
            0,
            old(imports)@,
        ).0,
        final(imports)@ == refs_children(p.tree, p.text, p.file@, i as int, 0, old(imports)@).1,
    decreases p.tree.nodes@.len() - i, p.tree.nodes@[i as int].children@.len(),
{
    let t = &p.tree;
    let children = &t.nodes[i].children;
    let ghost total = refs_children(p.tree, p.text, p.file@, i as int, 0, old(imports)@);
    let mut k: usize = 0;
    while k < children.len()
        invariant
            p.wf(),
            t == &p.tree,
            i < t.nodes@.len(),
            children@ == t.children(i as int),
            0 <= k <= children@.len(),
            total == refs_children(p.tree, p.text, p.file@, i as int, 0, old(imports)@),
            reference_views(out@) + refs_children(p.tree, p.text, p.file@, i as int, k as int, imports@).0
                == reference_views(old(out)@) + total.0,
            refs_children(p.tree, p.text, p.file@, i as int, k as int, imports@).1 == total.1,
        decreases children@.len() - k,
    {
        let c = children[k];
        let ghost before = reference_views(out@);
        let ghost sc = imports@;
        if t.nodes[c].named {
            walk_references(p, c, imports, out);
        }
        proof {
            let step = if walkable(p.tree, i as int, c as int) {
                refs_walk(p.tree, p.text, p.file@, c as int, sc)
            } else {
                (Seq::<ReferenceView>::empty(), sc)
            };
            let rest = refs_children(p.tree, p.text, p.file@, i as int, k + 1, step.1);
            assert(reference_views(out@) =~= before + step.0);
            assert(imports@ == step.1);
            assert(before + (step.0 + rest.0) =~= reference_views(out@) + rest.0);
        }
        k = k + 1;
    }
    proof {
        assert(reference_views(out@) + refs_children(p.tree, p.text, p.file@, i as int, k as int, imports@).0
            =~= reference_views(out@));
    }
}

/// The references of a parsed file, in source order.
pub fn extract_references(p: &ParsedFile) -> (r: Vec<Reference>)
    requires
        p.wf(),
    ensures
        reference_views(r@) == extract_references_spec(*p),
{
    let mut imports = ImportScopes::new();
    let mut out: Vec<Reference> = Vec::new();
    walk_references(p, 0, &mut imports, &mut out);
    proof {
        assert(reference_views(out@) =~= extract_references_spec(*p));
    }
    out
}

} // verus!
