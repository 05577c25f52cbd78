//! Import bindings by scope, as Python sees them while reading a file: a
//! function sees its own bindings, those of enclosing functions and of the
//! module, but not those of classes around it.
use vstd::prelude::*;

use crate::text::{
    chars_of, concat3, has_prefix, join_chars, join_spec, owned, split_chars, split_spec, str_eq,
    string_from_chars, views,
};

verus! {

/// The kind of a scope.
#[derive(Debug, Clone, Copy, PartialEq, Eq, Structural)]
pub enum ScopeKind {
    Module,
    Class,
    Function,
}

/// The bindings one scope's imports made, oldest first: module bindings
/// `(local name, bound module, imported module)` and symbol bindings
/// `(local name, module, name)`.
#[derive(Debug)]
pub struct ImportScope {
    pub kind: ScopeKind,
    pub modules: Vec<(String, String, String)>,
    pub symbols: Vec<(String, String, String)>,
}

/// The open scopes, outermost first.
#[derive(Debug)]
pub struct ImportScopes {
    pub scopes: Vec<ImportScope>,
}

/// The abstract value of a binding.
pub open spec fn binding_view(b: (String, String, String)) -> (Seq<char>, Seq<char>, Seq<char>) {
    (b.0@, b.1@, b.2@)
}

/// The abstract value of a scope.
pub struct ScopeView {
    pub kind: ScopeKind,
    pub modules: Seq<(Seq<char>, Seq<char>, Seq<char>)>,
    pub symbols: Seq<(Seq<char>, Seq<char>, Seq<char>)>,
}

impl View for ImportScope {
    type V = ScopeView;

    open spec fn view(&self) -> ScopeView {
        ScopeView {
            kind: self.kind,
            modules: self.modules@.map_values(|b: (String, String, String)| binding_view(b)),
            symbols: self.symbols@.map_values(|b: (String, String, String)| binding_view(b)),
        }
    }
}

impl View for ImportScopes {
    type V = Seq<ScopeView>;

    open spec fn view(&self) -> Seq<ScopeView> {
        self.scopes@.map_values(|s: ImportScope| s@)
    }
}

/// The most recent binding of `key` among `entries`, as its two values.
pub open spec fn lookup_binding(entries: Seq<(Seq<char>, Seq<char>, Seq<char>)>, key: Seq<char>) -> Option<
    (Seq<char>, Seq<char>),
>
    decreases entries.len(),
{
    if entries.len() == 0 {
        None
    } else if entries.last().0 == key {
        Some((entries.last().1, entries.last().2))
    } else {
        lookup_binding(entries.drop_last(), key)
    }
}

/// Index of the innermost function scope, or -1.
pub open spec fn innermost_function(sc: Seq<ScopeView>, n: int) -> int
    decreases n,
{
    if n <= 0 {
        -1
    } else if sc[n - 1].kind == ScopeKind::Function {
        n - 1
    } else {
        innermost_function(sc, n - 1)
    }
}

/// Scope `j` is visible from the innermost scope: class scopes outside the
/// innermost function are not.
pub open spec fn visible(sc: Seq<ScopeView>, j: int) -> bool {
    !(sc[j].kind == ScopeKind::Class && j < innermost_function(sc, sc.len() as int))
}

/// The symbol binding of `name` in the innermost visible scope below `n`
/// that has one.
pub open spec fn find_symbol(sc: Seq<ScopeView>, name: Seq<char>, n: int) -> Option<(Seq<char>, Seq<char>)>
    decreases n,
{
    if n <= 0 || n > sc.len() {
        None
    } else if visible(sc, n - 1) && lookup_binding(sc[n - 1].symbols, name) is Some {
        lookup_binding(sc[n - 1].symbols, name)
    } else {
        find_symbol(sc, name, n - 1)
    }
}

/// The module binding of `name` in the innermost visible scope below `n`
/// that has one.
pub open spec fn find_module(sc: Seq<ScopeView>, name: Seq<char>, n: int) -> Option<(Seq<char>, Seq<char>)>
    decreases n,
{
    if n <= 0 || n > sc.len() {
        None
    } else if visible(sc, n - 1) && lookup_binding(sc[n - 1].modules, name) is Some {
        lookup_binding(sc[n - 1].modules, name)
    } else {
        find_module(sc, name, n - 1)
    }
}

/// The symbol binding `name` resolves to.
pub open spec fn symbol_spec(sc: Seq<ScopeView>, name: Seq<char>) -> Option<(Seq<char>, Seq<char>)> {
    find_symbol(sc, name, sc.len() as int)
}

/// The module binding `name` resolves to.
pub open spec fn module_spec(sc: Seq<ScopeView>, name: Seq<char>) -> Option<(Seq<char>, Seq<char>)> {
    find_module(sc, name, sc.len() as int)
}

/// The scopes with a module scope opened when none is.
pub open spec fn with_scope(sc: Seq<ScopeView>) -> Seq<ScopeView> {
    if sc.len() == 0 {
        seq![ScopeView { kind: ScopeKind::Module, modules: Seq::empty(), symbols: Seq::empty() }]
    } else {
        sc
    }
}

/// The scopes after binding a module in the innermost one.
pub open spec fn insert_module_spec(sc: Seq<ScopeView>, local: Seq<char>, bound: Seq<char>, imported: Seq<char>) -> Seq<ScopeView> {
    let s = with_scope(sc);
    let last = s.last();
    s.update(s.len() - 1, ScopeView { modules: last.modules.push((local, bound, imported)), ..last })
}

/// The scopes after binding a symbol in the innermost one.
pub open spec fn insert_symbol_spec(sc: Seq<ScopeView>, local: Seq<char>, module: Seq<char>, name: Seq<char>) -> Seq<ScopeView> {
    let s = with_scope(sc);
    let last = s.last();
    s.update(s.len() - 1, ScopeView { symbols: last.symbols.push((local, module, name)), ..last })
}

/// `base` followed by the dotted `suffix`.
pub open spec fn join_module_spec(base: Seq<char>, suffix: Seq<Seq<char>>) -> Seq<char> {
    if suffix.len() == 0 {
        base
    } else {
        base + "."@ + join_spec(suffix, "."@)
    }
}

/// The module an object expression such as `pkg.features` names, trying its
/// longest dotted prefix first (prefixes of length `n` and shorter).
pub open spec fn resolve_object_from(sc: Seq<ScopeView>, parts: Seq<Seq<char>>, n: int) -> Option<Seq<char>>
    decreases n,
{
    if n <= 0 || n > parts.len() {
        None
    } else {
        let local = join_spec(parts.subrange(0, n), "."@);
        let suffix = parts.subrange(n, parts.len() as int);
        let by_module: Option<Seq<char>> = match module_spec(sc, local) {
            Some((bound, imported)) => {
                let candidate = join_module_spec(bound, suffix);
                if suffix.len() == 0 || candidate == imported || has_prefix(candidate, imported + "."@) {
                    Some(candidate)
                } else {
                    None
                }
            },
            None => None,
        };
        match by_module {
            Some(c) => Some(c),
            None => match symbol_spec(sc, local) {
                Some((module, name)) => Some(join_module_spec(join_module_spec(module, seq![name]), suffix)),
                None => resolve_object_from(sc, parts, n - 1),
            },
        }
    }
}

/// The module an object expression names, if its imports say.
pub open spec fn resolve_object_spec(sc: Seq<ScopeView>, object: Seq<char>) -> Option<Seq<char>> {
    let parts = split_spec(object, '.');
    resolve_object_from(sc, parts, parts.len() as int)
}

/// The most recent binding of `key`.
fn lookup(entries: &Vec<(String, String, String)>, key: &str) -> (r: Option<(String, String)>)
    ensures
        match r {
            Some((a, b)) => lookup_binding(
                entries@.map_values(|b: (String, String, String)| binding_view(b)),
                key@,
            ) == Some((a@, b@)),
            None => lookup_binding(
                entries@.map_values(|b: (String, String, String)| binding_view(b)),
                key@,
            ) is None,
        },
{
    let ghost all = entries@.map_values(|b: (String, String, String)| binding_view(b));
    let mut n: usize = entries.len();
    proof {
        assert(all.subrange(0, n as int) =~= all);
    }
    while n > 0
        invariant
            0 <= n <= entries@.len(),
            all == entries@.map_values(|b: (String, String, String)| binding_view(b)),
            lookup_binding(all, key@) == lookup_binding(all.subrange(0, n as int), key@),
        decreases n,
    {
        let ghost pre = all.subrange(0, n as int);
        proof {
            assert(pre.drop_last() =~= all.subrange(0, n - 1));
            assert(pre.last() == binding_view(entries@[n - 1]));
        }
        if str_eq(entries[n - 1].0.as_str(), key) {
            return Some((entries[n - 1].1.clone(), entries[n - 1].2.clone()));
        }
        n = n - 1;
    }
    None
}

impl ImportScopes {
    /// No open scope.
    pub fn new() -> (r: ImportScopes)
        ensures
            r@ == Seq::<ScopeView>::empty(),
    {
        let r = ImportScopes { scopes: Vec::new() };
        proof {
            assert(r@ =~= Seq::<ScopeView>::empty());
        }
        r
    }

    /// Opens a scope of the given kind.
    pub fn enter_scope(&mut self, kind: ScopeKind)
        ensures
            final(self)@ == old(self)@.push(
                ScopeView { kind, modules: Seq::empty(), symbols: Seq::empty() },
            ),
    {
        let scope = ImportScope { kind, modules: Vec::new(), symbols: Vec::new() };
        proof {
            assert(scope@.modules =~= Seq::empty());
            assert(scope@.symbols =~= Seq::empty());
        }
        self.scopes.push(scope);
        proof {
            assert(final(self)@ =~= old(self)@.push(scope@));
        }
    }

    /// Closes the innermost scope, if any.
    pub fn exit_scope(&mut self)
        ensures
            final(self)@ == (if old(self)@.len() > 0 {
                old(self)@.drop_last()
            } else {
                old(self)@
            }),
    {
        if self.scopes.len() > 0 {
            self.scopes.pop();
            proof {
                assert(final(self)@ =~= old(self)@.drop_last());
            }
        }
    }

    fn ensure_scope(&mut self)
        ensures
            final(self)@ == with_scope(old(self)@),
            final(self)@.len() > 0,
    {
        if self.scopes.len() == 0 {
            self.enter_scope(ScopeKind::Module);
            proof {
                assert(final(self)@ =~= with_scope(old(self)@));
            }
        }
    }

    /// Binds `local_name` to a module in the innermost scope.
    pub fn insert_module(&mut self, local_name: String, bound_module: String, imported_module: String)
        ensures
            final(self)@ == insert_module_spec(old(self)@, local_name@, bound_module@, imported_module@),
    {
        self.ensure_scope();
        let ghost before = self@;
        let last = self.scopes.len() - 1;
        let ghost b = (local_name@, bound_module@, imported_module@);
        self.scopes[last].modules.push((local_name, bound_module, imported_module));
        proof {
            assert(self.scopes@[last as int]@.modules =~= before[last as int].modules.push(b));
            assert(final(self)@ =~= insert_module_spec(old(self)@, b.0, b.1, b.2));
        }
    }

    /// Binds `local_name` to a symbol of a module in the innermost scope.
    pub fn insert_symbol(&mut self, local_name: String, module: String, name: String)
        ensures
            final(self)@ == insert_symbol_spec(old(self)@, local_name@, module@, name@),
    {
        self.ensure_scope();
        let ghost before = self@;
        let last = self.scopes.len() - 1;
        let ghost b = (local_name@, module@, name@);
        self.scopes[last].symbols.push((local_name, module, name));
        proof {
            assert(self.scopes@[last as int]@.symbols =~= before[last as int].symbols.push(b));
            assert(final(self)@ =~= insert_symbol_spec(old(self)@, b.0, b.1, b.2));
        }
    }

    fn innermost_function_index(&self) -> (r: Option<usize>)
        ensures
            match r {
                Some(f) => innermost_function(self@, self@.len() as int) == f as int,
                None => innermost_function(self@, self@.len() as int) == -1,
            },
    {
        let mut n: usize = self.scopes.len();
        while n > 0
            invariant
                0 <= n <= self.scopes@.len(),
                self@.len() == self.scopes@.len(),
                innermost_function(self@, self@.len() as int) == innermost_function(self@, n as int),
            decreases n,
        {
            if self.scopes[n - 1].kind == ScopeKind::Function {
                return Some(n - 1);
            }
            n = n - 1;
        }
        None
    }

    fn is_visible(&self, j: usize, innermost: Option<usize>) -> (r: bool)
        requires
            j < self@.len(),
            match innermost {
                Some(f) => innermost_function(self@, self@.len() as int) == f as int,
                None => innermost_function(self@, self@.len() as int) == -1,
            },
        ensures
            r == visible(self@, j as int),
    {
        let class_scope = self.scopes[j].kind == ScopeKind::Class;
        match innermost {
            Some(f) => !(class_scope && j < f),
            None => true,
        }
    }

    /// The symbol binding that `name` resolves to.
    pub fn symbol(&self, name: &str) -> (r: Option<(String, String)>)
        ensures
            match r {
                Some((m, n)) => symbol_spec(self@, name@) == Some((m@, n@)),
                None => symbol_spec(self@, name@) is None,
            },
    {
        let innermost = self.innermost_function_index();
        let mut n: usize = self.scopes.len();
        while n > 0
            invariant
                0 <= n <= self.scopes@.len(),
                self@.len() == self.scopes@.len(),
                match innermost {
                    Some(f) => innermost_function(self@, self@.len() as int) == f as int,
                    None => innermost_function(self@, self@.len() as int) == -1,
                },
                symbol_spec(self@, name@) == find_symbol(self@, name@, n as int),
            decreases n,
        {
            if self.is_visible(n - 1, innermost) {
                match lookup(&self.scopes[n - 1].symbols, name) {
                    Some(b) => {
                        return Some(b);
                    },
                    None => {},
                }
            }
            n = n - 1;
        }
        None
    }

    /// The module binding that `name` resolves to.
    pub fn module(&self, name: &str) -> (r: Option<(String, String)>)
        ensures
            match r {
                Some((b, i)) => module_spec(self@, name@) == Some((b@, i@)),
                None => module_spec(self@, name@) is None,
            },
    {
        let innermost = self.innermost_function_index();
        let mut n: usize = self.scopes.len();
        while n > 0
            invariant
                0 <= n <= self.scopes@.len(),
                self@.len() == self.scopes@.len(),
                match innermost {
                    Some(f) => innermost_function(self@, self@.len() as int) == f as int,
                    None => innermost_function(self@, self@.len() as int) == -1,
                },
                module_spec(self@, name@) == find_module(self@, name@, n as int),
            decreases n,
        {
            if self.is_visible(n - 1, innermost) {
                match lookup(&self.scopes[n - 1].modules, name) {
                    Some(b) => {
                        return Some(b);
                    },
                    None => {},
                }
            }
            n = n - 1;
        }
        None
    }

    /// The module an object expression names, by its imports: the longest
    /// dotted prefix bound to a module (whose extension stays inside the
    /// imported module) or to an imported symbol decides.
    pub fn resolve_module_object(&self, object: &str) -> (r: Option<String>)
        ensures
            match r {
                Some(m) => resolve_object_spec(self@, object@) == Some(m@),
                None => resolve_object_spec(self@, object@) is None,
            },
    {
        let ov = chars_of(object);
        let parts = split_chars(ov.as_slice(), '.');
        let ghost pv = views(parts@);
        proof {
            assert(pv == split_spec(object@, '.'));
        }
        let mut n: usize = parts.len();
        while n > 0
            invariant
                0 <= n <= parts@.len(),
                pv == views(parts@),
                resolve_object_spec(self@, object@) == resolve_object_from(self@, pv, n as int),
            decreases n,
        {
            let local = join_slice(&parts, 0, n);
            let suffix_end = parts.len();
            match self.module(local.as_str()) {
                Some((bound, imported)) => {
                    let candidate = join_module(bound.as_str(), &parts, n, suffix_end);
                    let with_dot = crate::text::concat2(imported.as_str(), ".");
                    if n == suffix_end || str_eq(candidate.as_str(), imported.as_str())
                        || crate::text::starts_with(candidate.as_str(), with_dot.as_str()) {
                        proof {
                            assert(pv.subrange(n as int, pv.len() as int).len() == 0 <==> n == suffix_end);
                        }
                        return Some(candidate);
                    }
                },
                None => {},
            }
            match self.symbol(local.as_str()) {
                Some((module, name)) => {
                    let single: Vec<String> = vec![name];
                    let imported = join_module(module.as_str(), &single, 0, 1);
                    proof {
                        assert(views(single@).subrange(0, 1) =~= seq![single@[0]@]);
                    }
                    return Some(join_module(imported.as_str(), &parts, n, suffix_end));
                },
                None => {},
            }
            n = n - 1;
        }
        None
    }
}

/// `parts[a..b]` joined by dots.
pub fn join_slice(parts: &Vec<String>, a: usize, b: usize) -> (r: String)
    requires
        a <= b <= parts@.len(),
    ensures
        r@ == join_spec(views(parts@).subrange(a as int, b as int), "."@),
{
    let mut v: Vec<Vec<char>> = Vec::new();
    let mut k: usize = a;
    while k < b
        invariant
            a <= k <= b <= parts@.len(),
            v@.len() == k - a,
            forall|j: int| 0 <= j < v@.len() ==> (#[trigger] v@[j])@ == parts@[a + j]@,
        decreases b - k,
    {
        v.push(chars_of(parts[k].as_str()));
        k = k + 1;
    }
    let dot = chars_of(".");
    let joined = join_chars(&v, dot.as_slice());
    proof {
        assert(Seq::new(v@.len(), |i: int| v@[i]@) =~= views(parts@).subrange(a as int, b as int));
    }
    string_from_chars(joined.as_slice())
}

/// `base` followed by `parts[a..b]`, all joined by dots.
fn join_module(base: &str, parts: &Vec<String>, a: usize, b: usize) -> (r: String)
    requires
        a <= b <= parts@.len(),
    ensures
        r@ == join_module_spec(base@, views(parts@).subrange(a as int, b as int)),
{
    if a == b {
        return owned(base);
    }
    let rest = join_slice(parts, a, b);
    concat3(base, ".", rest.as_str())
}

} // verus!
