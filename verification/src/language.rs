//! The language-neutral values that the analysis works on: symbols with their
//! signature and complexity facts, and references between files.
use vstd::prelude::*;

use crate::text::{chars_of, find_first, find_last, first_index_of, last_index_of, owned, substring};

verus! {

/// What kind of definition a symbol is.
#[derive(Debug, Clone, Copy, PartialEq, Eq, Structural)]
pub enum SymbolKind {
    Function,
    Method,
    Class,
}

/// First and last source line (1-based, inclusive) of a definition.
#[derive(Debug, Clone, Copy, PartialEq, Eq, Structural)]
pub struct LineRange {
    pub start: usize,
    pub end: usize,
}

/// Raw structural counts of a definition; they are facts, not scores.
#[derive(Debug, Clone, Copy, PartialEq, Eq, Structural)]
pub struct ComplexityMetrics {
    pub length_lines: usize,
    pub branch_count: usize,
    pub loop_count: usize,
    pub boolean_operator_count: usize,
    pub exception_handler_count: usize,
    pub match_count: usize,
    pub with_count: usize,
    pub max_nesting_depth: usize,
}

impl ComplexityMetrics {
    /// All counts zero.
    pub fn zero() -> (r: ComplexityMetrics)
        ensures
            r.length_lines == 0 && r.branch_count == 0 && r.loop_count == 0
                && r.boolean_operator_count == 0 && r.exception_handler_count == 0 && r.match_count
                == 0 && r.with_count == 0 && r.max_nesting_depth == 0,
    {
        ComplexityMetrics {
            length_lines: 0,
            branch_count: 0,
            loop_count: 0,
            boolean_operator_count: 0,
            exception_handler_count: 0,
            match_count: 0,
            with_count: 0,
            max_nesting_depth: 0,
        }
    }
}

/// How a Python parameter may be passed.
#[derive(Debug, Clone, Copy, PartialEq, Eq, Structural)]
pub enum ParameterKind {
    PositionalOnly,
    PositionalOrKeyword,
    KeywordOnly,
    VarArgs,
    KwArgs,
}

/// One parameter of a function signature.
#[derive(Debug)]
pub struct ParameterFacts {
    pub name: String,
    pub kind: ParameterKind,
    pub has_default: bool,
    pub default_value: Option<String>,
    pub annotation: Option<String>,
}

/// Structured facts read from a function signature.
#[derive(Debug)]
pub struct FunctionSignatureFacts {
    pub is_async: bool,
    pub parameters: Vec<ParameterFacts>,
    pub return_annotation: Option<String>,
}

/// A function, method or class definition found in one file.
#[derive(Debug)]
pub struct Symbol {
    pub file: String,
    pub qualified_name: String,
    pub kind: SymbolKind,
    pub signature: String,
    pub signature_facts: Option<FunctionSignatureFacts>,
    pub range: LineRange,
    pub body_hash: String,
    pub complexity: ComplexityMetrics,
}

/// The syntactic form a reference takes.
#[derive(Debug, Clone, Copy, PartialEq, Eq, Structural)]
pub enum ReferenceKind {
    Import,
    FromImport,
    Call,
    Attribute,
}

/// Whether an import binding explained the reference.
#[derive(Debug, Clone, Copy, PartialEq, Eq, Structural)]
pub enum ReferenceResolution {
    Resolved,
    Unresolved,
}

/// A static reference (import or call) found in one file.
#[derive(Debug)]
pub struct Reference {
    pub file: String,
    pub name: String,
    pub module: Option<String>,
    pub resolved_name: Option<String>,
    pub resolved_module: Option<String>,
    pub resolution: ReferenceResolution,
    pub line: usize,
    pub kind: ReferenceKind,
}

/// The characters of an optional string.
pub open spec fn opt_view(o: Option<String>) -> Option<Seq<char>> {
    match o {
        Some(s) => Some(s@),
        None => None,
    }
}

/// The abstract value of a reference.
pub struct ReferenceView {
    pub file: Seq<char>,
    pub name: Seq<char>,
    pub module: Option<Seq<char>>,
    pub resolved_name: Option<Seq<char>>,
    pub resolved_module: Option<Seq<char>>,
    pub resolution: ReferenceResolution,
    pub line: usize,
    pub kind: ReferenceKind,
}

impl View for Reference {
    type V = ReferenceView;

    open spec fn view(&self) -> ReferenceView {
        ReferenceView {
            file: self.file@,
            name: self.name@,
            module: opt_view(self.module),
            resolved_name: opt_view(self.resolved_name),
            resolved_module: opt_view(self.resolved_module),
            resolution: self.resolution,
            line: self.line,
            kind: self.kind,
        }
    }
}

/// The abstract values of a sequence of references.
pub open spec fn reference_views(s: Seq<Reference>) -> Seq<ReferenceView> {
    Seq::new(s.len(), |k: int| s[k]@)
}

/// The abstract value of a parameter.
pub struct ParameterView {
    pub name: Seq<char>,
    pub kind: ParameterKind,
    pub has_default: bool,
    pub default_value: Option<Seq<char>>,
    pub annotation: Option<Seq<char>>,
}

/// The abstract value of signature facts.
pub struct SignatureView {
    pub is_async: bool,
    pub parameters: Seq<ParameterView>,
    pub return_annotation: Option<Seq<char>>,
}

/// The abstract value of a symbol.
pub struct SymbolView {
    pub file: Seq<char>,
    pub qualified_name: Seq<char>,
    pub kind: SymbolKind,
    pub signature: Seq<char>,
    pub signature_facts: Option<SignatureView>,
    pub range: LineRange,
    pub body_hash: Seq<char>,
    pub complexity: ComplexityMetrics,
}

impl View for ParameterFacts {
    type V = ParameterView;

    open spec fn view(&self) -> ParameterView {
        ParameterView {
            name: self.name@,
            kind: self.kind,
            has_default: self.has_default,
            default_value: opt_view(self.default_value),
            annotation: opt_view(self.annotation),
        }
    }
}

impl View for FunctionSignatureFacts {
    type V = SignatureView;

    open spec fn view(&self) -> SignatureView {
        SignatureView {
            is_async: self.is_async,
            parameters: self.parameters@.map_values(|p: ParameterFacts| p@),
            return_annotation: opt_view(self.return_annotation),
        }
    }
}

/// The abstract value of optional signature facts.
pub open spec fn opt_signature_view(o: Option<FunctionSignatureFacts>) -> Option<SignatureView> {
    match o {
        Some(s) => Some(s@),
        None => None,
    }
}

impl View for Symbol {
    type V = SymbolView;

    open spec fn view(&self) -> SymbolView {
        SymbolView {
            file: self.file@,
            qualified_name: self.qualified_name@,
            kind: self.kind,
            signature: self.signature@,
            signature_facts: opt_signature_view(self.signature_facts),
            range: self.range,
            body_hash: self.body_hash@,
            complexity: self.complexity,
        }
    }
}

/// A copy of an optional string.
pub fn copy_opt(o: &Option<String>) -> (r: Option<String>)
    ensures
        r == *o,
{
    match o {
        Some(s) => Some(s.clone()),
        None => None,
    }
}

impl ParameterFacts {
    /// A copy of the parameter facts.
    pub fn copy(&self) -> (r: ParameterFacts)
        ensures
            r == *self,
    {
        ParameterFacts {
            name: self.name.clone(),
            kind: self.kind,
            has_default: self.has_default,
            default_value: copy_opt(&self.default_value),
            annotation: copy_opt(&self.annotation),
        }
    }
}

impl FunctionSignatureFacts {
    /// A copy of the signature facts.
    pub fn copy(&self) -> (r: FunctionSignatureFacts)
        ensures
            r@ == self@,
    {
        let mut parameters: Vec<ParameterFacts> = Vec::new();
        let mut i: usize = 0;
        while i < self.parameters.len()
            invariant
                0 <= i <= self.parameters.len(),
                parameters@ == self.parameters@.subrange(0, i as int),
            decreases self.parameters.len() - i,
        {
            parameters.push(self.parameters[i].copy());
            i = i + 1;
            proof {
                assert(parameters@ =~= self.parameters@.subrange(0, i as int));
            }
        }
        proof {
            assert(parameters@ =~= self.parameters@);
        }
        FunctionSignatureFacts {
            is_async: self.is_async,
            parameters,
            return_annotation: copy_opt(&self.return_annotation),
        }
    }
}

impl Symbol {
    /// A copy of the symbol.
    pub fn copy(&self) -> (r: Symbol)
        ensures
            r@ == self@,
    {
        Symbol {
            file: self.file.clone(),
            qualified_name: self.qualified_name.clone(),
            kind: self.kind,
            signature: self.signature.clone(),
            signature_facts: match &self.signature_facts {
                Some(f) => Some(f.copy()),
                None => None,
            },
            range: self.range,
            body_hash: self.body_hash.clone(),
            complexity: self.complexity,
        }
    }
}

impl Reference {
    /// A copy of the reference.
    pub fn copy(&self) -> (r: Reference)
        ensures
            r == *self,
    {
        Reference {
            file: self.file.clone(),
            name: self.name.clone(),
            module: copy_opt(&self.module),
            resolved_name: copy_opt(&self.resolved_name),
            resolved_module: copy_opt(&self.resolved_module),
            resolution: self.resolution,
            line: self.line,
            kind: self.kind,
        }
    }
}

/// The last dotted component of a qualified name (`Formatter.format_name`
/// gives `format_name`; a name without dots is its own short name).
pub open spec fn short_name_of(q: Seq<char>) -> Seq<char> {
    if last_index_of(q, '.') >= 0 {
        q.subrange(last_index_of(q, '.') + 1, q.len() as int)
    } else {
        q
    }
}

/// The first dotted component of a qualified name.
pub open spec fn top_level_name_of(q: Seq<char>) -> Seq<char> {
    if first_index_of(q, '.') >= 0 {
        q.subrange(0, first_index_of(q, '.'))
    } else {
        q
    }
}

/// Everything before the last dot of a qualified name (its owner), if any.
pub open spec fn owner_of(q: Seq<char>) -> Option<Seq<char>> {
    if last_index_of(q, '.') >= 0 {
        Some(q.subrange(0, last_index_of(q, '.')))
    } else {
        None
    }
}

/// The short name of a qualified name.
pub fn short_name(q: &str) -> (r: String)
    ensures
        r@ == short_name_of(q@),
{
    let v = chars_of(q);
    match find_last(v.as_slice(), '.') {
        Some(i) => substring(v.as_slice(), i + 1, v.len()),
        None => owned(q),
    }
}

/// The top-level name of a qualified name.
pub fn top_level_name(q: &str) -> (r: String)
    ensures
        r@ == top_level_name_of(q@),
{
    let v = chars_of(q);
    match find_first(v.as_slice(), '.') {
        Some(i) => substring(v.as_slice(), 0, i),
        None => owned(q),
    }
}

/// The owner part of a qualified name.
pub fn owner(q: &str) -> (r: Option<String>)
    ensures
        opt_view(r) == owner_of(q@),
{
    let v = chars_of(q);
    match find_last(v.as_slice(), '.') {
        Some(i) => Some(substring(v.as_slice(), 0, i)),
        None => None,
    }
}

} // verus!
