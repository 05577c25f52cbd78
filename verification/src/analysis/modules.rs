//! Which top-level names each module defines, as far as the parsed symbols
//! show it.
use vstd::prelude::*;

use crate::language::{top_level_name, top_level_name_of, Symbol};
use crate::paths::{module_name, module_name_of};
use crate::text::str_eq;

verus! {

/// The `(module, top-level name)` pairs that a set of symbols defines.
#[derive(Debug)]
pub struct ModuleIndex {
    pub entries: Vec<(String, String)>,
}

/// The pair a symbol contributes to the index.
pub open spec fn index_entry(s: Symbol) -> (Seq<char>, Seq<char>) {
    (module_name_of(s.file@), top_level_name_of(s.qualified_name@))
}

impl View for ModuleIndex {
    type V = Set<(Seq<char>, Seq<char>)>;

    open spec fn view(&self) -> Set<(Seq<char>, Seq<char>)> {
        Set::new(
            |e: (Seq<char>, Seq<char>)|
                exists|i: int|
                    0 <= i < self.entries@.len() && (#[trigger] self.entries@[i]).0@ == e.0
                        && self.entries@[i].1@ == e.1,
        )
    }
}

impl ModuleIndex {
    /// The index of the given symbols: each symbol's module and the first
    /// component of its qualified name.
    pub fn from_symbols(symbols: &[Symbol]) -> (r: ModuleIndex)
        ensures
            forall|e: (Seq<char>, Seq<char>)|
                r@.contains(e) <==> exists|i: int|
                    0 <= i < symbols@.len() && index_entry(#[trigger] symbols@[i]) == e,
    {
        let mut entries: Vec<(String, String)> = Vec::new();
        let mut i: usize = 0;
        while i < symbols.len()
            invariant
                0 <= i <= symbols.len(),
                entries@.len() == i,
                forall|j: int|
                    0 <= j < i ==> ((#[trigger] entries@[j]).0@, entries@[j].1@) == index_entry(
                        symbols@[j],
                    ),
            decreases symbols.len() - i,
        {
            let s = &symbols[i];
            entries.push((ModuleIndex::symbol_module(s), ModuleIndex::symbol_top_level_name(s)));
            i = i + 1;
        }
        let r = ModuleIndex { entries };
        proof {
            assert forall|e: (Seq<char>, Seq<char>)|
                r@.contains(e) <==> exists|i: int|
                    0 <= i < symbols@.len() && index_entry(#[trigger] symbols@[i]) == e by {
                if r@.contains(e) {
                    let k = choose|k: int|
                        0 <= k < r.entries@.len() && (#[trigger] r.entries@[k]).0@ == e.0
                            && r.entries@[k].1@ == e.1;
                    assert(index_entry(symbols@[k]) == e);
                }
                if exists|i: int| 0 <= i < symbols@.len() && index_entry(#[trigger] symbols@[i]) == e {
                    let k = choose|k: int|
                        0 <= k < symbols@.len() && index_entry(#[trigger] symbols@[k]) == e;
                    assert(r.entries@[k].0@ == e.0 && r.entries@[k].1@ == e.1);
                }
            }
        }
        r
    }

    /// Whether `module` defines the top-level `name`.
    pub fn contains_symbol(&self, module: &str, name: &str) -> (r: bool)
        ensures
            r == self@.contains((module@, name@)),
    {
        let mut i: usize = 0;
        while i < self.entries.len()
            invariant
                0 <= i <= self.entries.len(),
                forall|j: int|
                    0 <= j < i ==> !((#[trigger] self.entries@[j]).0@ == module@
                        && self.entries@[j].1@ == name@),
            decreases self.entries.len() - i,
        {
            if str_eq(self.entries[i].0.as_str(), module) && str_eq(self.entries[i].1.as_str(), name) {
                return true;
            }
            i = i + 1;
        }
        false
    }

    /// The module a symbol belongs to.
    pub fn symbol_module(symbol: &Symbol) -> (r: String)
        ensures
            r@ == module_name_of(symbol.file@),
    {
        module_name(symbol.file.as_str())
    }

    /// The top-level name under which a symbol is imported.
    pub fn symbol_top_level_name(symbol: &Symbol) -> (r: String)
        ensures
            r@ == top_level_name_of(symbol.qualified_name@),
    {
        top_level_name(symbol.qualified_name.as_str())
    }
}

} // verus!
