//! Python symbols: top-level functions, classes, and the methods and nested
//! classes of classes, each with its signature text and facts, line range,
//! complexity counts and a hash of what defines its body.
use vstd::prelude::*;

use std::collections::hash_map::DefaultHasher;
use std::hash::{Hash, Hasher};
use vstd::std_specs::hash::DefaultHasherAdditionalSpecFns;

use crate::language::{
    ComplexityMetrics, FunctionSignatureFacts, LineRange, Symbol, SymbolKind, SymbolView,
};
use crate::python::signature::{signature_facts, signature_facts_spec};
use crate::python::tree::{ParsedFile, SourceText, SyntaxTree};
use crate::text::{
    chars_of, find_first, find_last, first_index_of, join_chars, join_spec, last_index_of,
    lemma_first_index_of, lemma_last_index_of, owned, str_eq, string_from_chars, strip_cr,
    substring, trim, trim_bounds, trim_spec,
};

verus! {

/// What `<str as Hash>::hash` leaves in a `DefaultHasher` whose writes so
/// far are `state`.
pub uninterp spec fn str_hash_state(state: Seq<Seq<u8>>, text: Seq<char>) -> Seq<Seq<u8>>;

/// `<str as Hash>::hash` into a `DefaultHasher`: the writes it makes are a
/// function of the text and the writes before.
#[verifier::external_body]
fn hash_str(hasher: &mut DefaultHasher, text: &str)
    ensures
        final(hasher)@ == str_hash_state(old(hasher)@, text@),
{
    text.hash(hasher)
}

/// The lowercase hexadecimal digit of `d` (below 16).
pub open spec fn hex_char(d: int) -> char {
    if d < 10 {
        (('0' as u32) + d) as char
    } else {
        (('a' as u32) + d - 10) as char
    }
}

/// The last `n` hexadecimal digits of `v`, most significant first.
pub open spec fn hex_digits(v: nat, n: nat) -> Seq<char>
    decreases n,
{
    if n == 0 {
        Seq::empty()
    } else {
        hex_digits(v / 16, (n - 1) as nat).push(hex_char((v % 16) as int))
    }
}

/// The hash of a text: the `DefaultHasher` value of the text as sixteen
/// lowercase hexadecimal digits.
pub open spec fn stable_hash_spec(text: Seq<char>) -> Seq<char> {
    hex_digits(DefaultHasher::spec_finish(str_hash_state(Seq::empty(), text)) as nat, 16)
}

fn hex_digit_char(d: u64) -> (r: char)
    requires
        d < 16,
    ensures
        r == hex_char(d as int),
{
    let table = ['0', '1', '2', '3', '4', '5', '6', '7', '8', '9', 'a', 'b', 'c', 'd', 'e', 'f'];
    let r = table[d as usize];
    proof {
        reveal_with_fuel(hex_char, 1);
        assert(table@[d as int] == hex_char(d as int)) by {
            assert(table@ == seq!['0', '1', '2', '3', '4', '5', '6', '7', '8', '9', 'a', 'b', 'c', 'd', 'e', 'f']);
        }
    }
    r
}

fn push_hex_digits(v: u64, n: usize, out: &mut Vec<char>)
    ensures
        final(out)@ == old(out)@ + hex_digits(v as nat, n as nat),
    decreases n,
{
    if n == 0 {
        proof {
            assert(old(out)@ + hex_digits(v as nat, 0) =~= old(out)@);
        }
        return ;
    }
    push_hex_digits(v / 16, n - 1, out);
    out.push(hex_digit_char(v % 16));
    proof {
        assert(hex_digits(v as nat, n as nat) == hex_digits((v / 16) as nat, (n - 1) as nat).push(
            hex_char((v % 16) as int),
        ));
        assert(final(out)@ =~= old(out)@ + hex_digits(v as nat, n as nat));
    }
}

/// The hash of a text as sixteen lowercase hexadecimal digits.
pub fn stable_hash(text: &str) -> (r: String)
    ensures
        r@ == stable_hash_spec(text@),
{
    let mut hasher = DefaultHasher::new();
    hash_str(&mut hasher, text);
    let v = hasher.finish();
    let mut out: Vec<char> = Vec::new();
    push_hex_digits(v, 16, &mut out);
    proof {
        assert(out@ =~= hex_digits(v as nat, 16));
    }
    string_from_chars(out.as_slice())
}

/// `x + 1`, staying at the largest value.
pub open spec fn sat_inc(x: usize) -> usize {
    if x < usize::MAX {
        (x + 1) as usize
    } else {
        x
    }
}

pub fn inc(x: usize) -> (r: usize)
    ensures
        r == sat_inc(x),
{
    if x < usize::MAX {
        x + 1
    } else {
        x
    }
}

/// Node kinds that open a nesting level.
pub open spec fn is_nesting_kind(k: Seq<char>) -> bool {
    ||| k == "if_statement"@
    ||| k == "for_statement"@
    ||| k == "while_statement"@
    ||| k == "try_statement"@
    ||| k == "except_clause"@
    ||| k == "except_group_clause"@
    ||| k == "with_statement"@
    ||| k == "match_statement"@
    ||| k == "case_clause"@
}

/// The counts after visiting one node of kind `k`.
pub open spec fn count_node(m: ComplexityMetrics, k: Seq<char>) -> ComplexityMetrics {
    if k == "if_statement"@ || k == "conditional_expression"@ {
        ComplexityMetrics { branch_count: sat_inc(m.branch_count), ..m }
    } else if k == "for_statement"@ || k == "while_statement"@ {
        ComplexityMetrics { loop_count: sat_inc(m.loop_count), ..m }
    } else if k == "boolean_operator"@ {
        ComplexityMetrics { boolean_operator_count: sat_inc(m.boolean_operator_count), ..m }
    } else if k == "except_clause"@ || k == "except_group_clause"@ {
        ComplexityMetrics { exception_handler_count: sat_inc(m.exception_handler_count), ..m }
    } else if k == "match_statement"@ {
        ComplexityMetrics { match_count: sat_inc(m.match_count), ..m }
    } else if k == "with_statement"@ {
        ComplexityMetrics { with_count: sat_inc(m.with_count), ..m }
    } else {
        m
    }
}

/// Child `c` of node `i` is a named node after `i` in the arena.
pub open spec fn walkable(t: SyntaxTree, i: int, c: int) -> bool {
    i < c < t.len() && t.nodes@[c].named
}

/// The counts after visiting node `i` at nesting depth `depth` and its
/// named descendants.
pub open spec fn metrics_walk(t: SyntaxTree, i: int, depth: usize, m: ComplexityMetrics) -> ComplexityMetrics
    decreases t.len() - i, t.children(i).len() + 1,
{
    if i < 0 || i >= t.len() {
        m
    } else {
        let nest = is_nesting_kind(t.kind(i));
        let d = if nest {
            sat_inc(depth)
        } else {
            depth
        };
        let m1 = if nest && d > m.max_nesting_depth {
            ComplexityMetrics { max_nesting_depth: d, ..m }
        } else {
            m
        };
        metrics_children(t, i, 0, d, count_node(m1, t.kind(i)))
    }
}

/// The counts after visiting the named children of `i` from position `k`.
pub open spec fn metrics_children(t: SyntaxTree, i: int, k: int, depth: usize, m: ComplexityMetrics) -> ComplexityMetrics
    decreases t.len() - i, t.children(i).len() - k,
{
    if k < 0 || k >= t.children(i).len() || i < 0 || i >= t.len() {
        m
    } else {
        let c = t.children(i)[k] as int;
        let m1 = if walkable(t, i, c) {
            metrics_walk(t, c, depth, m)
        } else {
            m
        };
        metrics_children(t, i, k + 1, depth, m1)
    }
}

/// The complexity counts of a definition: its line count and the counts
/// of its subtree.
pub open spec fn complexity_spec(t: SyntaxTree, i: int) -> ComplexityMetrics {
    let n = t.nodes@[i];
    let lines: usize = if n.end_row >= n.start_row {
        sat_inc((n.end_row - n.start_row) as usize)
    } else {
        0
    };
    metrics_walk(
        t,
        i,
        0,
        ComplexityMetrics {
            length_lines: lines,
            branch_count: 0,
            loop_count: 0,
            boolean_operator_count: 0,
            exception_handler_count: 0,
            match_count: 0,
            with_count: 0,
            max_nesting_depth: 0,
        },
    )
}

/// The structural counts of a definition's metrics.
pub enum CountedMetric {
    Branch,
    Loop,
    BooleanOperator,
    ExceptionHandler,
    Match,
    With,
}

/// The count of `f` in `m`.
pub open spec fn metric_count(m: ComplexityMetrics, f: CountedMetric) -> usize {
    match f {
        CountedMetric::Branch => m.branch_count,
        CountedMetric::Loop => m.loop_count,
        CountedMetric::BooleanOperator => m.boolean_operator_count,
        CountedMetric::ExceptionHandler => m.exception_handler_count,
        CountedMetric::Match => m.match_count,
        CountedMetric::With => m.with_count,
    }
}

/// The node kinds each count counts: `if` statements and conditional
/// expressions are branches, `for` and `while` statements loops, `except`
/// clauses (plain or group) exception handlers.
pub open spec fn counted_by(f: CountedMetric, k: Seq<char>) -> bool {
    match f {
        CountedMetric::Branch => k == "if_statement"@ || k == "conditional_expression"@,
        CountedMetric::Loop => k == "for_statement"@ || k == "while_statement"@,
        CountedMetric::BooleanOperator => k == "boolean_operator"@,
        CountedMetric::ExceptionHandler => k == "except_clause"@ || k == "except_group_clause"@,
        CountedMetric::Match => k == "match_statement"@,
        CountedMetric::With => k == "with_statement"@,
    }
}

/// The node kinds that open a nesting level: `if`, `for`, `while`, `try`,
/// `except` (plain or group), `with`, `match` and `case`.
pub open spec fn opens_level(k: Seq<char>) -> bool {
    k == "if_statement"@ || k == "for_statement"@ || k == "while_statement"@ || k
        == "try_statement"@ || k == "except_clause"@ || k == "except_group_clause"@ || k
        == "with_statement"@ || k == "match_statement"@ || k == "case_clause"@
}

/// `a + n`, staying at the largest `usize`.
pub open spec fn sat_add(a: usize, n: nat) -> usize {
    if a + n <= usize::MAX {
        (a + n) as usize
    } else {
        usize::MAX
    }
}

/// The number of nodes counted by `f` in the subtree of `i` reached
/// through named children (node `i` included).
pub open spec fn subtree_count(t: SyntaxTree, i: int, f: CountedMetric) -> nat
    decreases t.len() - i, t.children(i).len() + 1,
{
    if i < 0 || i >= t.len() {
        0
    } else {
        (if counted_by(f, t.kind(i)) {
            1nat
        } else {
            0nat
        }) + children_count(t, i, 0, f)
    }
}

/// The counted nodes under the named children of `i` from position `k`.
pub open spec fn children_count(t: SyntaxTree, i: int, k: int, f: CountedMetric) -> nat
    decreases t.len() - i, t.children(i).len() - k,
{
    if k < 0 || k >= t.children(i).len() || i < 0 || i >= t.len() {
        0
    } else {
        let c = t.children(i)[k] as int;
        (if i < c < t.len() && t.nodes@[c].named {
            subtree_count(t, c, f)
        } else {
            0
        }) + children_count(t, i, k + 1, f)
    }
}

/// The largest number of level-opening nodes on one path down from `i`
/// through named children (node `i` included).
pub open spec fn nesting_levels(t: SyntaxTree, i: int) -> nat
    decreases t.len() - i, t.children(i).len() + 1,
{
    if i < 0 || i >= t.len() {
        0
    } else {
        (if opens_level(t.kind(i)) {
            1nat
        } else {
            0nat
        }) + child_levels(t, i, 0)
    }
}

/// The deepest nesting under the named children of `i` from position `k`.
pub open spec fn child_levels(t: SyntaxTree, i: int, k: int) -> nat
    decreases t.len() - i, t.children(i).len() - k,
{
    if k < 0 || k >= t.children(i).len() || i < 0 || i >= t.len() {
        0
    } else {
        let c = t.children(i)[k] as int;
        let here: nat = if i < c < t.len() && t.nodes@[c].named {
            nesting_levels(t, c)
        } else {
            0
        };
        let rest = child_levels(t, i, k + 1);
        if here > rest {
            here
        } else {
            rest
        }
    }
}

proof fn lemma_sat_add_twice(a: usize, x: nat, y: nat)
    ensures
        sat_add(sat_add(a, x), y) == sat_add(a, x + y),
        sat_add(a, x) >= a,
{
}

proof fn lemma_count_node(m: ComplexityMetrics, k: Seq<char>, f: CountedMetric)
    ensures
        metric_count(count_node(m, k), f) == sat_add(
            metric_count(m, f),
            if counted_by(f, k) {
                1nat
            } else {
                0nat
            },
        ),
        count_node(m, k).max_nesting_depth == m.max_nesting_depth,
        count_node(m, k).length_lines == m.length_lines,
{
    reveal_strlit("if_statement");
    reveal_strlit("conditional_expression");
    reveal_strlit("for_statement");
    reveal_strlit("while_statement");
    reveal_strlit("boolean_operator");
    reveal_strlit("except_clause");
    reveal_strlit("except_group_clause");
    reveal_strlit("match_statement");
    reveal_strlit("with_statement");
    assert("if_statement"@.len() == 12);
    assert("conditional_expression"@.len() == 22);
    assert("for_statement"@.len() == 13);
    assert("while_statement"@.len() == 15);
    assert("boolean_operator"@.len() == 16);
    assert("except_clause"@.len() == 13);
    assert("except_group_clause"@.len() == 19);
    assert("match_statement"@.len() == 15);
    assert("with_statement"@.len() == 14);
    assert("for_statement"@[0] != "except_clause"@[0]);
    assert("while_statement"@[0] != "match_statement"@[0]);
    assert("for_statement"@ != "except_clause"@);
    assert("while_statement"@ != "match_statement"@);
}

proof fn lemma_walk_counts(t: SyntaxTree, i: int, depth: usize, m: ComplexityMetrics, f: CountedMetric)
    ensures
        metric_count(metrics_walk(t, i, depth, m), f) == sat_add(metric_count(m, f), subtree_count(t, i, f)),
        metrics_walk(t, i, depth, m).length_lines == m.length_lines,
    decreases t.len() - i, t.children(i).len() + 1,
{
    if 0 <= i < t.len() {
        let nest = is_nesting_kind(t.kind(i));
        let d = if nest {
            sat_inc(depth)
        } else {
            depth
        };
        let m1 = if nest && d > m.max_nesting_depth {
            ComplexityMetrics { max_nesting_depth: d, ..m }
        } else {
            m
        };
        assert(metric_count(m1, f) == metric_count(m, f));
        lemma_count_node(m1, t.kind(i), f);
        let m2 = count_node(m1, t.kind(i));
        lemma_children_counts(t, i, 0, d, m2, f);
        lemma_sat_add_twice(
            metric_count(m, f),
            if counted_by(f, t.kind(i)) {
                1nat
            } else {
                0nat
            },
            children_count(t, i, 0, f),
        );
    }
}

proof fn lemma_children_counts(t: SyntaxTree, i: int, k: int, depth: usize, m: ComplexityMetrics, f: CountedMetric)
    ensures
        metric_count(metrics_children(t, i, k, depth, m), f) == sat_add(
            metric_count(m, f),
            children_count(t, i, k, f),
        ),
        metrics_children(t, i, k, depth, m).length_lines == m.length_lines,
    decreases t.len() - i, t.children(i).len() - k,
{
    if 0 <= k < t.children(i).len() && 0 <= i < t.len() {
        let c = t.children(i)[k] as int;
        if walkable(t, i, c) {
            lemma_walk_counts(t, c, depth, m, f);
            let m1 = metrics_walk(t, c, depth, m);
            lemma_children_counts(t, i, k + 1, depth, m1, f);
            lemma_sat_add_twice(metric_count(m, f), subtree_count(t, c, f), children_count(t, i, k + 1, f));
        } else {
            lemma_children_counts(t, i, k + 1, depth, m, f);
        }
    }
}

proof fn lemma_walk_nesting(t: SyntaxTree, i: int, depth: usize, m: ComplexityMetrics)
    requires
        depth <= m.max_nesting_depth,
    ensures
        metrics_walk(t, i, depth, m).max_nesting_depth == if sat_add(depth, nesting_levels(t, i))
            > m.max_nesting_depth {
            sat_add(depth, nesting_levels(t, i))
        } else {
            m.max_nesting_depth
        },
    decreases t.len() - i, t.children(i).len() + 1,
{
    if 0 <= i < t.len() {
        let nest = is_nesting_kind(t.kind(i));
        assert(nest == opens_level(t.kind(i)));
        let d = if nest {
            sat_inc(depth)
        } else {
            depth
        };
        let m1 = if nest && d > m.max_nesting_depth {
            ComplexityMetrics { max_nesting_depth: d, ..m }
        } else {
            m
        };
        lemma_count_node(m1, t.kind(i), CountedMetric::Loop);
        let m2 = count_node(m1, t.kind(i));
        lemma_children_nesting(t, i, 0, d, m2);
        lemma_sat_add_twice(
            depth,
            if nest {
                1nat
            } else {
                0nat
            },
            child_levels(t, i, 0),
        );
        lemma_sat_add_twice(d, child_levels(t, i, 0), 0);
    }
}

proof fn lemma_children_nesting(t: SyntaxTree, i: int, k: int, depth: usize, m: ComplexityMetrics)
    requires
        depth <= m.max_nesting_depth,
    ensures
        metrics_children(t, i, k, depth, m).max_nesting_depth == if sat_add(depth, child_levels(t, i, k))
            > m.max_nesting_depth {
            sat_add(depth, child_levels(t, i, k))
        } else {
            m.max_nesting_depth
        },
    decreases t.len() - i, t.children(i).len() - k,
{
    if 0 <= k < t.children(i).len() && 0 <= i < t.len() {
        let c = t.children(i)[k] as int;
        if walkable(t, i, c) {
            lemma_walk_nesting(t, c, depth, m);
            let m1 = metrics_walk(t, c, depth, m);
            lemma_children_nesting(t, i, k + 1, depth, m1);
        } else {
            lemma_children_nesting(t, i, k + 1, depth, m);
        }
    }
}

/// What a definition's complexity counts are: each count is the number of
/// nodes of its kinds in the definition's subtree reached through named
/// children (a `while` loop is a loop as a `for` loop is), the maximum
/// nesting depth is the largest number of `if`/`for`/`while`/`try`/
/// `except`/`with`/`match`/`case` nodes on one path down that subtree, and
/// the line count is the number of rows the definition spans; all stay at
/// the largest `usize` rather than overflow.
pub proof fn lemma_complexity_counts_node_kinds(t: SyntaxTree, i: int, f: CountedMetric)
    requires
        0 <= i < t.len(),
    ensures
        metric_count(complexity_spec(t, i), f) == sat_add(0, subtree_count(t, i, f)),
        complexity_spec(t, i).max_nesting_depth == sat_add(0, nesting_levels(t, i)),
        complexity_spec(t, i).length_lines == if t.nodes@[i].end_row >= t.nodes@[i].start_row {
            sat_add(0, (t.nodes@[i].end_row - t.nodes@[i].start_row + 1) as nat)
        } else {
            0
        },
{
    let n = t.nodes@[i];
    let lines: usize = if n.end_row >= n.start_row {
        sat_inc((n.end_row - n.start_row) as usize)
    } else {
        0
    };
    let m0 = ComplexityMetrics {
        length_lines: lines,
        branch_count: 0,
        loop_count: 0,
        boolean_operator_count: 0,
        exception_handler_count: 0,
        match_count: 0,
        with_count: 0,
        max_nesting_depth: 0,
    };
    lemma_walk_counts(t, i, 0, m0, f);
    lemma_walk_nesting(t, i, 0, m0);
}

fn kind_is(t: &SyntaxTree, i: usize, k: &str) -> (r: bool)
    requires
        i < t.nodes@.len(),
    ensures
        r == (t.kind(i as int) == k@),
{
    str_eq(t.nodes[i].kind.as_str(), k)
}

fn nesting_kind(t: &SyntaxTree, i: usize) -> (r: bool)
    requires
        i < t.nodes@.len(),
    ensures
        r == is_nesting_kind(t.kind(i as int)),
{
    kind_is(t, i, "if_statement") || kind_is(t, i, "for_statement") || kind_is(t, i, "while_statement")
        || kind_is(t, i, "try_statement") || kind_is(t, i, "except_clause") || kind_is(
        t,
        i,
        "except_group_clause",
    ) || kind_is(t, i, "with_statement") || kind_is(t, i, "match_statement") || kind_is(
        t,
        i,
        "case_clause",
    )
}

fn count_kind(t: &SyntaxTree, i: usize, m: ComplexityMetrics) -> (r: ComplexityMetrics)
    requires
        i < t.nodes@.len(),
    ensures
        r == count_node(m, t.kind(i as int)),
{
    let mut r = m;
    if kind_is(t, i, "if_statement") || kind_is(t, i, "conditional_expression") {
        r.branch_count = inc(r.branch_count);
    } else if kind_is(t, i, "for_statement") || kind_is(t, i, "while_statement") {
        r.loop_count = inc(r.loop_count);
    } else if kind_is(t, i, "boolean_operator") {
        r.boolean_operator_count = inc(r.boolean_operator_count);
    } else if kind_is(t, i, "except_clause") || kind_is(t, i, "except_group_clause") {
        r.exception_handler_count = inc(r.exception_handler_count);
    } else if kind_is(t, i, "match_statement") {
        r.match_count = inc(r.match_count);
    } else if kind_is(t, i, "with_statement") {
        r.with_count = inc(r.with_count);
    }
    r
}

fn walk_complexity(t: &SyntaxTree, i: usize, depth: usize, m: ComplexityMetrics) -> (r: ComplexityMetrics)
    requires
        t.wf(),
        i < t.nodes@.len(),
    ensures
        r == metrics_walk(*t, i as int, depth, m),
    decreases t.nodes@.len() - i, t.nodes@[i as int].children@.len() + 1,
{
    let nest = nesting_kind(t, i);
    let d = if nest {
        inc(depth)
    } else {
        depth
    };
    let mut cur = m;
    if nest && d > cur.max_nesting_depth {
        cur.max_nesting_depth = d;
    }
    cur = count_kind(t, i, cur);
    let children = &t.nodes[i].children;
    let ghost result = metrics_children(*t, i as int, 0, d, cur);
    let mut k: usize = 0;
    while k < children.len()
        invariant
            t.wf(),
            i < t.nodes@.len(),
            children@ == t.children(i as int),
            0 <= k <= children@.len(),
            metrics_children(*t, i as int, k as int, d, cur) == result,
        decreases children@.len() - k,
    {
        let c = children[k];
        if t.nodes[c].named {
            cur = walk_complexity(t, c, d, cur);
        }
        k = k + 1;
    }
    cur
}

/// The complexity counts of the definition at node `i`.
pub fn complexity_metrics(t: &SyntaxTree, i: usize) -> (r: ComplexityMetrics)
    requires
        t.wf(),
        i < t.nodes@.len(),
    ensures
        r == complexity_spec(*t, i as int),
{
    let n = &t.nodes[i];
    let lines: usize = if n.end_row >= n.start_row {
        inc(n.end_row - n.start_row)
    } else {
        0
    };
    let mut m = ComplexityMetrics::zero();
    m.length_lines = lines;
    walk_complexity(t, i, 0, m)
}


/// The text of a node, or nothing when its range is not text.
pub open spec fn node_text_spec(t: SyntaxTree, text: SourceText, i: int) -> Option<Seq<char>> {
    text.slice(t.nodes@[i].start_byte as int, t.nodes@[i].end_byte as int)
}

/// A text, or the empty text.
pub open spec fn or_empty(o: Option<Seq<char>>) -> Seq<char> {
    match o {
        Some(s) => s,
        None => Seq::empty(),
    }
}

/// The text of node `i`.
pub fn node_text(p: &ParsedFile, i: usize) -> (r: Option<String>)
    requires
        p.wf(),
        i < p.tree.nodes@.len(),
    ensures
        match r {
            Some(s) => node_text_spec(p.tree, p.text, i as int) == Some(s@),
            None => node_text_spec(p.tree, p.text, i as int) is None,
        },
{
    p.text.text_between(p.tree.nodes[i].start_byte, p.tree.nodes[i].end_byte)
}

fn node_text_or_empty(p: &ParsedFile, i: usize) -> (r: Vec<char>)
    requires
        p.wf(),
        i < p.tree.nodes@.len(),
    ensures
        r@ == or_empty(node_text_spec(p.tree, p.text, i as int)),
{
    match node_text(p, i) {
        Some(s) => chars_of(s.as_str()),
        None => Vec::new(),
    }
}

/// The syntax fingerprint of node `i`: comments vanish, a leaf is its kind
/// and trimmed text, an inner node its kind and its children's non-empty
/// fingerprints; layout and comments therefore do not change it.
pub open spec fn fingerprint_spec(t: SyntaxTree, text: SourceText, i: int) -> Seq<char>
    decreases t.len() - i, t.children(i).len() + 1,
{
    if i < 0 || i >= t.len() {
        Seq::empty()
    } else if t.kind(i) == "comment"@ {
        Seq::empty()
    } else {
        let parts = fingerprint_children(t, text, i, 0);
        if parts.len() == 0 {
            let tx = trim_spec(or_empty(node_text_spec(t, text, i)));
            if tx.len() == 0 {
                t.kind(i)
            } else {
                t.kind(i) + ":"@ + tx
            }
        } else {
            t.kind(i) + "("@ + join_spec(parts, ","@) + ")"@
        }
    }
}

/// The non-empty fingerprints of the children of `i` from position `k`.
pub open spec fn fingerprint_children(t: SyntaxTree, text: SourceText, i: int, k: int) -> Seq<Seq<char>>
    decreases t.len() - i, t.children(i).len() - k,
{
    if k < 0 || k >= t.children(i).len() || i < 0 || i >= t.len() {
        Seq::empty()
    } else {
        let c = t.children(i)[k] as int;
        let f = if i < c < t.len() {
            fingerprint_spec(t, text, c)
        } else {
            Seq::empty()
        };
        (if f.len() > 0 {
            seq![f]
        } else {
            Seq::empty()
        }) + fingerprint_children(t, text, i, k + 1)
    }
}

fn append_str(out: &mut Vec<char>, s: &str)
    ensures
        final(out)@ == old(out)@ + s@,
{
    let v = chars_of(s);
    append_chars(out, v.as_slice());
}

fn append_chars(out: &mut Vec<char>, v: &[char])
    ensures
        final(out)@ == old(out)@ + v@,
{
    let mut k: usize = 0;
    while k < v.len()
        invariant
            0 <= k <= v@.len(),
            out@ == old(out)@ + v@.subrange(0, k as int),
        decreases v@.len() - k,
    {
        out.push(v[k]);
        k = k + 1;
        proof {
            assert(out@ =~= old(out)@ + v@.subrange(0, k as int));
        }
    }
    proof {
        assert(v@.subrange(0, v@.len() as int) =~= v@);
    }
}

/// The syntax fingerprint of node `i`.
pub fn syntax_fingerprint(p: &ParsedFile, i: usize) -> (r: Vec<char>)
    requires
        p.wf(),
        i < p.tree.nodes@.len(),
    ensures
        r@ == fingerprint_spec(p.tree, p.text, i as int),
    decreases p.tree.nodes@.len() - i, p.tree.nodes@[i as int].children@.len() + 1,
{
    let t = &p.tree;
    if kind_is(t, i, "comment") {
        return Vec::new();
    }
    let children = &t.nodes[i].children;
    let mut parts: Vec<Vec<char>> = Vec::new();
    let mut k: usize = 0;
    while k < children.len()
        invariant
            p.wf(),
            t == &p.tree,
            i < t.nodes@.len(),
            children@ == t.children(i as int),
            0 <= k <= children@.len(),
            Seq::new(parts@.len(), |j: int| parts@[j]@) + fingerprint_children(
                *t,
                p.text,
                i as int,
                k as int,
            ) == fingerprint_children(*t, p.text, i as int, 0),
        decreases children@.len() - k,
    {
        let c = children[k];
        let f = syntax_fingerprint(p, c);
        let ghost before = Seq::new(parts@.len(), |j: int| parts@[j]@);
        if f.len() > 0 {
            parts.push(f);
        }
        proof {
            let now = Seq::new(parts@.len(), |j: int| parts@[j]@);
            let rest = fingerprint_children(*t, p.text, i as int, k + 1);
            if now.len() > before.len() {
                assert(now =~= before.push(parts@[parts@.len() - 1]@));
                assert(now + rest =~= before + (seq![parts@[parts@.len() - 1]@] + rest));
            } else {
                assert(now =~= before);
                assert(before + rest =~= before + (Seq::<Seq<char>>::empty() + rest));
            }
        }
        k = k + 1;
    }
    let ghost pv = Seq::new(parts@.len(), |j: int| parts@[j]@);
    proof {
        assert(pv + fingerprint_children(*t, p.text, i as int, k as int) =~= pv);
    }
    let mut out: Vec<char> = Vec::new();
    append_str(&mut out, t.nodes[i].kind.as_str());
    if parts.len() == 0 {
        let raw = node_text_or_empty(p, i);
        let (a, b) = trim_bounds(raw.as_slice());
        if a == b {
            return out;
        }
        append_str(&mut out, ":");
        let tx = substring(raw.as_slice(), a, b);
        append_str(&mut out, tx.as_str());
        out
    } else {
        append_str(&mut out, "(");
        let sep = chars_of(",");
        let joined = join_chars(&parts, sep.as_slice());
        append_chars(&mut out, joined.as_slice());
        append_str(&mut out, ")");
        out
    }
}

/// What the body hash of a function covers: the fingerprint of its body,
/// or its whole text when it has none.
pub open spec fn body_fingerprint_spec(t: SyntaxTree, text: SourceText, i: int) -> Seq<char> {
    match t.child_by_field(i, "body"@) {
        Some(b) => fingerprint_spec(t, text, b),
        None => or_empty(node_text_spec(t, text, i)),
    }
}

/// The fingerprint of a function's body.
pub fn function_body_fingerprint(p: &ParsedFile, i: usize) -> (r: Vec<char>)
    requires
        p.wf(),
        i < p.tree.nodes@.len(),
    ensures
        r@ == body_fingerprint_spec(p.tree, p.text, i as int),
{
    match p.tree.child_by_field_name(i, "body") {
        Some(b) => syntax_fingerprint(p, b),
        None => node_text_or_empty(p, i),
    }
}

/// Node kinds that define a symbol.
pub open spec fn is_definition_kind(k: Seq<char>) -> bool {
    k == "function_definition"@ || k == "class_definition"@
}

/// Some named descendant of `i` reached through named nodes defines a
/// symbol (looking from child position `k`).
pub open spec fn contains_definition(t: SyntaxTree, i: int, k: int) -> bool
    decreases t.len() - i, t.children(i).len() - k,
{
    if k < 0 || k >= t.children(i).len() || i < 0 || i >= t.len() {
        false
    } else {
        let c = t.children(i)[k] as int;
        (walkable(t, i, c) && (is_definition_kind(t.kind(c)) || contains_definition(t, c, 0)))
            || contains_definition(t, i, k + 1)
    }
}

/// Node `i` defines a symbol, possibly under decorators.
pub open spec fn is_definition_wrapper(t: SyntaxTree, i: int) -> bool {
    is_definition_kind(t.kind(i)) || (t.kind(i) == "decorated_definition"@ && contains_definition(t, i, 0))
}

/// The byte ranges of the symbol definitions nested in node `i` (itself
/// excepted when `skip` holds), outermost only, in tree order.
pub open spec fn nested_ranges(t: SyntaxTree, i: int, skip: bool) -> Seq<(usize, usize)>
    decreases t.len() - i, t.children(i).len() + 1,
{
    if i < 0 || i >= t.len() {
        Seq::empty()
    } else if !skip && is_definition_wrapper(t, i) {
        seq![(t.nodes@[i].start_byte, t.nodes@[i].end_byte)]
    } else {
        nested_ranges_children(t, i, 0)
    }
}

/// The nested definition ranges under the named children of `i` from
/// position `k`.
pub open spec fn nested_ranges_children(t: SyntaxTree, i: int, k: int) -> Seq<(usize, usize)>
    decreases t.len() - i, t.children(i).len() - k,
{
    if k < 0 || k >= t.children(i).len() || i < 0 || i >= t.len() {
        Seq::empty()
    } else {
        let c = t.children(i)[k] as int;
        (if walkable(t, i, c) {
            nested_ranges(t, c, false)
        } else {
            Seq::empty()
        }) + nested_ranges_children(t, i, k + 1)
    }
}

/// `sorted` with `r` inserted after every range that starts no later.
pub open spec fn insert_by_start(sorted: Seq<(usize, usize)>, r: (usize, usize)) -> Seq<(usize, usize)>
    decreases sorted.len(),
{
    if sorted.len() == 0 {
        seq![r]
    } else if sorted.last().0 <= r.0 {
        sorted.push(r)
    } else {
        insert_by_start(sorted.drop_last(), r).push(sorted.last())
    }
}

/// Ranges stably sorted by their start.
pub open spec fn sort_by_start(s: Seq<(usize, usize)>) -> Seq<(usize, usize)>
    decreases s.len(),
{
    if s.len() == 0 {
        Seq::empty()
    } else {
        insert_by_start(sort_by_start(s.drop_last()), s.last())
    }
}

/// The text of a class without its nested definitions, gathered over
/// ranges `k..` with the text cursor at byte `cursor`.
pub open spec fn direct_fold(text: SourceText, ranges: Seq<(usize, usize)>, k: int, cursor: usize, acc: Seq<char>) -> (Seq<char>, usize)
    decreases ranges.len() - k,
{
    if k < 0 || k >= ranges.len() {
        (acc, cursor)
    } else {
        let (s, e) = ranges[k];
        let acc2 = if s > cursor {
            acc + or_empty(text.slice(cursor as int, s as int))
        } else {
            acc
        };
        direct_fold(text, ranges, k + 1, if e > cursor { e } else { cursor }, acc2)
    }
}

/// The text a class's hash covers: its own text without the text of the
/// functions and classes defined in it.
pub open spec fn class_direct_spec(t: SyntaxTree, text: SourceText, i: int) -> Seq<char> {
    let ranges = sort_by_start(nested_ranges(t, i, true));
    let (acc, cursor) = direct_fold(text, ranges, 0, t.nodes@[i].start_byte, Seq::empty());
    if cursor < t.nodes@[i].end_byte {
        acc + or_empty(text.slice(cursor as int, t.nodes@[i].end_byte as int))
    } else {
        acc
    }
}

fn definition_kind(t: &SyntaxTree, i: usize) -> (r: bool)
    requires
        i < t.nodes@.len(),
    ensures
        r == is_definition_kind(t.kind(i as int)),
{
    kind_is(t, i, "function_definition") || kind_is(t, i, "class_definition")
}

fn has_definition_below(t: &SyntaxTree, i: usize) -> (r: bool)
    requires
        t.wf(),
        i < t.nodes@.len(),
    ensures
        r == contains_definition(*t, i as int, 0),
    decreases t.nodes@.len() - i, t.nodes@[i as int].children@.len() + 1,
{
    let children = &t.nodes[i].children;
    let mut k: usize = 0;
    while k < children.len()
        invariant
            t.wf(),
            i < t.nodes@.len(),
            children@ == t.children(i as int),
            0 <= k <= children@.len(),
            contains_definition(*t, i as int, 0) == contains_definition(*t, i as int, k as int),
        decreases children@.len() - k,
    {
        let c = children[k];
        if t.nodes[c].named && (definition_kind(t, c) || has_definition_below(t, c)) {
            return true;
        }
        k = k + 1;
    }
    false
}

fn collect_ranges(t: &SyntaxTree, i: usize, skip: bool, out: &mut Vec<(usize, usize)>)
    requires
        t.wf(),
        i < t.nodes@.len(),
    ensures
        final(out)@ == old(out)@ + nested_ranges(*t, i as int, skip),
    decreases t.nodes@.len() - i, t.nodes@[i as int].children@.len() + 1,
{
    if !skip && (definition_kind(t, i) || (kind_is(t, i, "decorated_definition") && has_definition_below(t, i))) {
        out.push((t.nodes[i].start_byte, t.nodes[i].end_byte));
        proof {
            assert(final(out)@ =~= old(out)@ + nested_ranges(*t, i as int, skip));
        }
        return ;
    }
    let children = &t.nodes[i].children;
    let mut k: usize = 0;
    while k < children.len()
        invariant
            t.wf(),
            i < t.nodes@.len(),
            children@ == t.children(i as int),
            0 <= k <= children@.len(),
            out@ + nested_ranges_children(*t, i as int, k as int) == old(out)@ + nested_ranges_children(*t, i as int, 0),
        decreases children@.len() - k,
    {
        let c = children[k];
        let ghost before = out@;
        if t.nodes[c].named {
            collect_ranges(t, c, false, out);
        }
        proof {
            let rest = nested_ranges_children(*t, i as int, k + 1);
            let mid: Seq<(usize, usize)> = if walkable(*t, i as int, c as int) {
                nested_ranges(*t, c as int, false)
            } else {
                Seq::empty()
            };
            assert(out@ == before + mid);
            assert(before + (mid + rest) =~= out@ + rest);
        }
        k = k + 1;
    }
    proof {
        assert(out@ + nested_ranges_children(*t, i as int, k as int) =~= out@);
    }
}

fn insert_range(sorted: &mut Vec<(usize, usize)>, r: (usize, usize))
    ensures
        final(sorted)@ == insert_by_start(old(sorted)@, r),
    decreases old(sorted)@.len(),
{
    if sorted.len() == 0 {
        sorted.push(r);
        proof {
            assert(final(sorted)@ =~= seq![r]);
        }
        return ;
    }
    let n = sorted.len();
    if sorted[n - 1].0 <= r.0 {
        sorted.push(r);
        return ;
    }
    let last = sorted.pop().unwrap();
    proof {
        assert(sorted@ =~= old(sorted)@.drop_last());
    }
    insert_range(sorted, r);
    sorted.push(last);
}

/// The text a class's hash covers.
pub fn class_direct_text(p: &ParsedFile, i: usize) -> (r: Vec<char>)
    requires
        p.wf(),
        i < p.tree.nodes@.len(),
    ensures
        r@ == class_direct_spec(p.tree, p.text, i as int),
{
    let t = &p.tree;
    let mut ranges: Vec<(usize, usize)> = Vec::new();
    collect_ranges(t, i, true, &mut ranges);
    proof {
        assert(ranges@ =~= nested_ranges(*t, i as int, true));
    }
    let mut sorted: Vec<(usize, usize)> = Vec::new();
    let mut k: usize = 0;
    while k < ranges.len()
        invariant
            0 <= k <= ranges@.len(),
            sorted@ == sort_by_start(ranges@.subrange(0, k as int)),
        decreases ranges@.len() - k,
    {
        insert_range(&mut sorted, ranges[k]);
        proof {
            assert(ranges@.subrange(0, k + 1).drop_last() =~= ranges@.subrange(0, k as int));
        }
        k = k + 1;
    }
    proof {
        assert(ranges@.subrange(0, ranges@.len() as int) =~= ranges@);
    }
    let mut direct: Vec<char> = Vec::new();
    let mut cursor = t.nodes[i].start_byte;
    let ghost target = direct_fold(p.text, sorted@, 0, t.nodes[i as int].start_byte, Seq::empty());
    let mut j: usize = 0;
    while j < sorted.len()
        invariant
            p.wf(),
            0 <= j <= sorted@.len(),
            direct_fold(p.text, sorted@, j as int, cursor, direct@) == target,
        decreases sorted@.len() - j,
    {
        let (s, e) = sorted[j];
        if s > cursor {
            match p.text.text_between(cursor, s) {
                Some(piece) => append_str(&mut direct, piece.as_str()),
                None => {},
            }
        }
        if e > cursor {
            cursor = e;
        }
        j = j + 1;
    }
    let end = t.nodes[i].end_byte;
    if cursor < end {
        match p.text.text_between(cursor, end) {
            Some(piece) => append_str(&mut direct, piece.as_str()),
            None => {},
        }
    }
    direct
}


/// Length of the first line of a text (`str::lines`), without its line
/// ending.
pub open spec fn first_line_len(tx: Seq<char>) -> int {
    let k = first_index_of(tx, '\n');
    if k >= 0 {
        strip_cr(tx.subrange(0, k)).len() as int
    } else {
        tx.len() as int
    }
}

/// Character index where the signature of definition `i` (starting at
/// character `si`) ends: after the last `:` before its body, or else at the
/// end of its first line.
pub open spec fn signature_end_spec(t: SyntaxTree, text: SourceText, i: int, si: int) -> int {
    let fallback = si + first_line_len(or_empty(node_text_spec(t, text, i)));
    match t.child_by_field(i, "body"@) {
        Some(b) => match text.index_of_byte(t.nodes@[b].start_byte as int) {
            Some(bi) => if si <= bi && last_index_of(text.chars@.subrange(si, bi), ':') >= 0 {
                si + last_index_of(text.chars@.subrange(si, bi), ':') + 1
            } else {
                fallback
            },
            None => fallback,
        },
        None => fallback,
    }
}

/// The signature text of definition `i`: from its start to the end of its
/// signature, trimmed.
pub open spec fn signature_text_spec(t: SyntaxTree, text: SourceText, i: int) -> Seq<char> {
    match text.index_of_byte(t.nodes@[i].start_byte as int) {
        Some(si) => {
            let e = signature_end_spec(t, text, i, si);
            if si <= e <= text.chars@.len() {
                trim_spec(text.chars@.subrange(si, e))
            } else {
                Seq::empty()
            }
        },
        None => Seq::empty(),
    }
}

fn first_line_length(tx: &[char]) -> (r: usize)
    ensures
        r == first_line_len(tx@),
        r <= tx@.len(),
{
    proof {
        lemma_first_index_of(tx@, '\n');
    }
    match find_first(tx, '\n') {
        Some(k) => {
            if k > 0 && tx[k - 1] == '\r' {
                proof {
                    assert(tx@.subrange(0, k as int).drop_last() =~= tx@.subrange(0, k - 1));
                }
                k - 1
            } else {
                k
            }
        },
        None => tx.len(),
    }
}

/// The signature text of the definition at node `i`.
pub fn signature_text(p: &ParsedFile, i: usize) -> (r: String)
    requires
        p.wf(),
        i < p.tree.nodes@.len(),
    ensures
        r@ == signature_text_spec(p.tree, p.text, i as int),
{
    let t = &p.tree;
    let si = match p.text.find_byte(t.nodes[i].start_byte) {
        Some(si) => si,
        None => {
            return String::new();
        },
    };
    let tx = node_text_or_empty(p, i);
    let fl = first_line_length(tx.as_slice());
    let ghost fallback = si + first_line_len(tx@);
    let mut end: Option<usize> = if fl <= usize::MAX - si {
        Some(si + fl)
    } else {
        None
    };
    match t.child_by_field_name(i, "body") {
        Some(b) => match p.text.find_byte(t.nodes[b].start_byte) {
            Some(bi) => {
                if si <= bi {
                    let head = crate::text::substring(p.text.chars.as_slice(), si, bi);
                    let hv = chars_of(head.as_str());
                    proof {
                        lemma_last_index_of(hv@, ':');
                    }
                    match find_last(hv.as_slice(), ':') {
                        Some(k) => {
                            end = Some(si + k + 1);
                        },
                        None => {},
                    }
                }
            },
            None => {},
        },
        None => {},
    }
    proof {
        let e_spec = signature_end_spec(p.tree, p.text, i as int, si as int);
        assert(p.text.index_of_byte(t.nodes@[i as int].start_byte as int) == Some(si as int));
        match end {
            Some(e) => assert(e == e_spec),
            None => assert(e_spec > usize::MAX),
        }
    }
    match end {
        Some(e) => {
            if si <= e && e <= p.text.chars.len() {
                let v = crate::text::substring(p.text.chars.as_slice(), si, e);
                let r = trim(v.as_str());
                assert(r@ == trim_spec(p.text.chars@.subrange(si as int, e as int)));
                r
            } else {
                let r = String::new();
                assert(r@ == Seq::<char>::empty());
                r
            }
        },
        None => {
            let n = p.text.chars.len();
            assert(p.text.chars@.len() == n);
            String::new()
        },
    }
}

/// Position, among the children of `i` from position `k`, of the first
/// named child of kind `kind`; -1 if none.
pub open spec fn first_named_of_kind(t: SyntaxTree, i: int, kind: Seq<char>, k: int) -> int
    decreases t.children(i).len() - k,
{
    if k < 0 || k >= t.children(i).len() {
        -1
    } else {
        let c = t.children(i)[k] as int;
        if t.nodes@[c].named && t.kind(c) == kind {
            c
        } else {
            first_named_of_kind(t, i, kind, k + 1)
        }
    }
}

/// The text of the first named `identifier` child of node `i`.
pub open spec fn child_name_spec(t: SyntaxTree, text: SourceText, i: int) -> Option<Seq<char>> {
    let c = first_named_of_kind(t, i, "identifier"@, 0);
    if c >= 0 {
        node_text_spec(t, text, c)
    } else {
        None
    }
}

/// The text of the first named `identifier` child of node `i`.
pub fn child_name(p: &ParsedFile, i: usize) -> (r: Option<String>)
    requires
        p.wf(),
        i < p.tree.nodes@.len(),
    ensures
        match r {
            Some(s) => child_name_spec(p.tree, p.text, i as int) == Some(s@),
            None => child_name_spec(p.tree, p.text, i as int) is None,
        },
{
    let t = &p.tree;
    let children = &t.nodes[i].children;
    let mut k: usize = 0;
    while k < children.len()
        invariant
            p.wf(),
            t == &p.tree,
            i < t.nodes@.len(),
            children@ == t.children(i as int),
            0 <= k <= children@.len(),
            first_named_of_kind(*t, i as int, "identifier"@, 0) == first_named_of_kind(
                *t,
                i as int,
                "identifier"@,
                k as int,
            ),
        decreases children@.len() - k,
    {
        let c = children[k];
        if t.nodes[c].named && kind_is(t, c, "identifier") {
            return node_text(p, c);
        }
        k = k + 1;
    }
    None
}

/// The qualified name of a definition named `name` inside `classes`.
pub open spec fn qualified_spec(classes: Seq<Seq<char>>, name: Seq<char>) -> Seq<char> {
    if classes.len() == 0 {
        name
    } else {
        join_spec(classes, "."@) + "."@ + name
    }
}

/// The symbol of definition `i`.
pub open spec fn symbol_spec(t: SyntaxTree, text: SourceText, file: Seq<char>, i: int, kind: SymbolKind, q: Seq<char>) -> SymbolView {
    let sig = signature_text_spec(t, text, i);
    SymbolView {
        file,
        qualified_name: q,
        kind,
        signature: sig,
        signature_facts: if kind == SymbolKind::Class {
            None
        } else {
            Some(signature_facts_spec(sig))
        },
        range: LineRange { start: sat_inc(t.nodes@[i].start_row), end: sat_inc(t.nodes@[i].end_row) },
        body_hash: stable_hash_spec(
            if kind == SymbolKind::Class {
                class_direct_spec(t, text, i)
            } else {
                body_fingerprint_spec(t, text, i)
            },
        ),
        complexity: complexity_spec(t, i),
    }
}

/// The symbols found at node `i` and below, inside `classes` and, when
/// `in_function` holds, inside a function (which hides nested
/// definitions).
pub open spec fn symbols_walk(t: SyntaxTree, text: SourceText, file: Seq<char>, i: int, classes: Seq<Seq<char>>, in_function: bool) -> Seq<SymbolView>
    decreases t.len() - i, t.children(i).len() + 1,
{
    if i < 0 || i >= t.len() {
        Seq::empty()
    } else if t.kind(i) == "class_definition"@ {
        if in_function {
            Seq::empty()
        } else {
            match child_name_spec(t, text, i) {
                Some(name) => seq![symbol_spec(t, text, file, i, SymbolKind::Class, qualified_spec(classes, name))]
                    + symbols_children(t, text, file, i, 0, classes.push(name), in_function),
                None => symbols_children(t, text, file, i, 0, classes, in_function),
            }
        }
    } else if t.kind(i) == "function_definition"@ {
        let own: Seq<SymbolView> = if in_function {
            Seq::empty()
        } else {
            match child_name_spec(t, text, i) {
                Some(name) => seq![
                    symbol_spec(
                        t,
                        text,
                        file,
                        i,
                        if classes.len() == 0 {
                            SymbolKind::Function
                        } else {
                            SymbolKind::Method
                        },
                        qualified_spec(classes, name),
                    ),
                ],
                None => Seq::empty(),
            }
        };
        own + symbols_children(t, text, file, i, 0, classes, true)
    } else {
        symbols_children(t, text, file, i, 0, classes, in_function)
    }
}

/// The symbols found under the named children of `i` from position `k`.
pub open spec fn symbols_children(t: SyntaxTree, text: SourceText, file: Seq<char>, i: int, k: int, classes: Seq<Seq<char>>, in_function: bool) -> Seq<SymbolView>
    decreases t.len() - i, t.children(i).len() - k,
{
    if k < 0 || k >= t.children(i).len() || i < 0 || i >= t.len() {
        Seq::empty()
    } else {
        let c = t.children(i)[k] as int;
        (if walkable(t, i, c) {
            symbols_walk(t, text, file, c, classes, in_function)
        } else {
            Seq::empty()
        }) + symbols_children(t, text, file, i, k + 1, classes, in_function)
    }
}

/// The abstract values of a sequence of symbols.
pub open spec fn symbol_views(s: Seq<Symbol>) -> Seq<SymbolView> {
    Seq::new(s.len(), |k: int| s[k]@)
}

/// The symbols of a parsed file.
pub open spec fn extract_symbols_spec(p: ParsedFile) -> Seq<SymbolView> {
    symbols_walk(p.tree, p.text, p.file@, 0, Seq::empty(), false)
}

fn qualified_name(classes: &Vec<String>, name: &str) -> (r: String)
    ensures
        r@ == qualified_spec(crate::text::views(classes@), name@),
{
    if classes.len() == 0 {
        return crate::text::owned(name);
    }
    let mut parts: Vec<Vec<char>> = Vec::new();
    let mut k: usize = 0;
    while k < classes.len()
        invariant
            0 <= k <= classes@.len(),
            parts@.len() == k,
            forall|j: int| 0 <= j < k ==> (#[trigger] parts@[j])@ == classes@[j]@,
        decreases classes@.len() - k,
    {
        parts.push(chars_of(classes[k].as_str()));
        k = k + 1;
    }
    let dot = chars_of(".");
    let mut out = join_chars(&parts, dot.as_slice());
    proof {
        assert(Seq::new(parts@.len(), |i: int| parts@[i]@) =~= crate::text::views(classes@));
    }
    append_str(&mut out, ".");
    append_str(&mut out, name);
    string_from_chars(out.as_slice())
}

fn symbol_from_node(p: &ParsedFile, i: usize, kind: SymbolKind, qualified: String) -> (r: Symbol)
    requires
        p.wf(),
        i < p.tree.nodes@.len(),
    ensures
        r@ == symbol_spec(p.tree, p.text, p.file@, i as int, kind, qualified@),
{
    let signature = signature_text(p, i);
    let is_class = match kind {
        SymbolKind::Class => true,
        _ => false,
    };
    let hash_text = if is_class {
        class_direct_text(p, i)
    } else {
        function_body_fingerprint(p, i)
    };
    let facts: Option<FunctionSignatureFacts> = if is_class {
        None
    } else {
        Some(signature_facts(signature.as_str()))
    };
    let hash_str_value = string_from_chars(hash_text.as_slice());
    let n = &p.tree.nodes[i];
    Symbol {
        file: p.file.clone(),
        qualified_name: qualified,
        kind,
        signature,
        signature_facts: facts,
        range: LineRange { start: inc(n.start_row), end: inc(n.end_row) },
        body_hash: stable_hash(hash_str_value.as_str()),
        complexity: complexity_metrics(&p.tree, i),
    }
}

fn copy_strings(v: &Vec<String>) -> (r: Vec<String>)
    ensures
        r@ == v@,
{
    let mut r: Vec<String> = Vec::new();
    let mut k: usize = 0;
    while k < v.len()
        invariant
            0 <= k <= v@.len(),
            r@ == v@.subrange(0, k as int),
        decreases v@.len() - k,
    {
        r.push(v[k].clone());
        k = k + 1;
        proof {
            assert(r@ =~= v@.subrange(0, k as int));
        }
    }
    proof {
        assert(v@.subrange(0, v@.len() as int) =~= v@);
    }
    r
}

fn walk_symbols(p: &ParsedFile, i: usize, classes: &Vec<String>, in_function: bool, out: &mut Vec<Symbol>)
    requires
        p.wf(),
        i < p.tree.nodes@.len(),
    ensures
        symbol_views(final(out)@) == symbol_views(old(out)@) + symbols_walk(
            p.tree,
            p.text,
            p.file@,
            i as int,
            crate::text::views(classes@),
            in_function,
        ),
    decreases p.tree.nodes@.len() - i, p.tree.nodes@[i as int].children@.len() + 1,
{
    let t = &p.tree;
    let ghost cv = crate::text::views(classes@);
    if kind_is(t, i, "class_definition") {
        if in_function {
            proof {
                assert(symbol_views(final(out)@) =~= symbol_views(old(out)@) + Seq::<SymbolView>::empty());
            }
            return ;
        }
        match child_name(p, i) {
            Some(name) => {
                let q = qualified_name(classes, name.as_str());
                let sym = symbol_from_node(p, i, SymbolKind::Class, q);
                let ghost before = symbol_views(out@);
                out.push(sym);
                proof {
                    assert(symbol_views(out@) =~= before.push(sym@));
                }
                let mut inner = copy_strings(classes);
                inner.push(name);
                proof {
                    assert(crate::text::views(inner@) =~= cv.push(name@));
                }
                walk_named_children(p, i, &inner, in_function, out);
                proof {
                    assert(symbol_views(final(out)@) =~= symbol_views(old(out)@) + (seq![sym@]
                        + symbols_children(p.tree, p.text, p.file@, i as int, 0, cv.push(name@), in_function)));
                }
                return ;
            },
            None => {
                walk_named_children(p, i, classes, in_function, out);
                return ;
            },
        }
    }
    if kind_is(t, i, "function_definition") {
        let ghost before = symbol_views(out@);
        let ghost own: Seq<SymbolView> = Seq::empty();
        if !in_function {
            match child_name(p, i) {
                Some(name) => {
                    let kind = if classes.len() == 0 {
                        SymbolKind::Function
                    } else {
                        SymbolKind::Method
                    };
                    let q = qualified_name(classes, name.as_str());
                    let sym = symbol_from_node(p, i, kind, q);
                    out.push(sym);
                    proof {
                        own = seq![sym@];
                        assert(symbol_views(out@) =~= before + own);
                    }
                },
                None => {
                    proof {
                        assert(symbol_views(out@) =~= before + own);
                    }
                },
            }
        } else {
            proof {
                assert(symbol_views(out@) =~= before + own);
            }
        }
        let ghost mid = symbol_views(out@);
        walk_named_children(p, i, classes, true, out);
        proof {
            assert(symbol_views(final(out)@) =~= before + (own + symbols_children(
                p.tree,
                p.text,
                p.file@,
                i as int,
                0,
                cv,
                true,
            )));
        }
        return ;
    }
    walk_named_children(p, i, classes, in_function, out);
}

fn walk_named_children(p: &ParsedFile, i: usize, classes: &Vec<String>, in_function: bool, out: &mut Vec<Symbol>)
    requires
        p.wf(),
        i < p.tree.nodes@.len(),
    ensures
        symbol_views(final(out)@) == symbol_views(old(out)@) + symbols_children(
            p.tree,
            p.text,
            p.file@,
            i as int,
            0,
            crate::text::views(classes@),
            in_function,
        ),
    decreases p.tree.nodes@.len() - i, p.tree.nodes@[i as int].children@.len(),
{
    let t = &p.tree;
    let ghost cv = crate::text::views(classes@);
    let children = &t.nodes[i].children;
    let mut k: usize = 0;
    while k < children.len()
        invariant
            p.wf(),
            t == &p.tree,
            i < t.nodes@.len(),
            children@ == t.children(i as int),
            cv == crate::text::views(classes@),
            0 <= k <= children@.len(),
            symbol_views(out@) + symbols_children(p.tree, p.text, p.file@, i as int, k as int, cv, in_function)
                == symbol_views(old(out)@) + symbols_children(p.tree, p.text, p.file@, i as int, 0, cv, in_function),
        decreases children@.len() - k,
    {
        let c = children[k];
        let ghost before = symbol_views(out@);
        if t.nodes[c].named {
            walk_symbols(p, c, classes, in_function, out);
        }
        proof {
            let rest = symbols_children(p.tree, p.text, p.file@, i as int, k + 1, cv, in_function);
            let mid: Seq<SymbolView> = if walkable(p.tree, i as int, c as int) {
                symbols_walk(p.tree, p.text, p.file@, c as int, cv, in_function)
            } else {
                Seq::empty()
            };
            assert(symbol_views(out@) == before + mid);
            assert(before + (mid + rest) =~= symbol_views(out@) + rest);
        }
        k = k + 1;
    }
    proof {
        assert(symbol_views(out@) + symbols_children(p.tree, p.text, p.file@, i as int, k as int, cv, in_function) =~= symbol_views(out@));
    }
}

/// The symbols of a parsed file: top-level functions, classes, and the
/// methods and nested classes of classes (definitions inside functions are
/// not symbols), in source order.
pub fn extract_symbols(p: &ParsedFile) -> (r: Vec<Symbol>)
    requires
        p.wf(),
    ensures
        symbol_views(r@) == extract_symbols_spec(*p),
{
    let mut out: Vec<Symbol> = Vec::new();
    let classes: Vec<String> = Vec::new();
    walk_symbols(p, 0, &classes, false, &mut out);
    proof {
        assert(crate::text::views(classes@) =~= Seq::<Seq<char>>::empty());
        assert(symbol_views(out@) =~= extract_symbols_spec(*p));
    }
    out
}

/// The children of `i` from position `k` that are code: inside the tree,
/// after `i`, and not comments.
pub open spec fn code_from(t: SyntaxTree, i: int, k: int) -> Seq<usize>
    decreases t.children(i).len() - k,
{
    if k < 0 || k >= t.children(i).len() {
        Seq::empty()
    } else {
        let c = t.children(i)[k];
        (if i < c < t.len() && t.kind(c as int) != "comment"@ {
            seq![c]
        } else {
            Seq::empty()
        }) + code_from(t, i, k + 1)
    }
}

/// Two nodes have the same syntax, comments and layout aside: the same
/// kind, the same number of code children, each pair of them alike, and,
/// for nodes without code children, the same text up to surrounding
/// whitespace.  Byte offsets, rows, the whitespace between tokens and
/// comments play no part.
pub open spec fn same_syntax(t1: SyntaxTree, x1: SourceText, i: int, t2: SyntaxTree, x2: SourceText, j: int) -> bool
    decreases t1.len() - i,
{
    if !(0 <= i < t1.len() && 0 <= j < t2.len()) {
        false
    } else if t1.kind(i) != t2.kind(j) {
        false
    } else if t1.kind(i) == "comment"@ {
        true
    } else {
        let c1 = code_from(t1, i, 0);
        let c2 = code_from(t2, j, 0);
        &&& t1.kind(i).len() > 0
        &&& c1.len() == c2.len()
        &&& (c1.len() == 0 ==> trim_spec(or_empty(node_text_spec(t1, x1, i))) == trim_spec(
            or_empty(node_text_spec(t2, x2, j)),
        ))
        &&& forall|k: int|
            0 <= k < c1.len() ==> (i < #[trigger] c1[k] < t1.len() && same_syntax(
                t1,
                x1,
                c1[k] as int,
                t2,
                x2,
                c2[k] as int,
            ))
    }
}

/// The non-empty fingerprints of some nodes, in order.
pub open spec fn nonempty_fingerprints(t: SyntaxTree, x: SourceText, cs: Seq<usize>) -> Seq<Seq<char>>
    decreases cs.len(),
{
    if cs.len() == 0 {
        Seq::empty()
    } else {
        let f = fingerprint_spec(t, x, cs[0] as int);
        (if f.len() > 0 {
            seq![f]
        } else {
            Seq::empty()
        }) + nonempty_fingerprints(t, x, cs.drop_first())
    }
}

proof fn lemma_code_from_bounds(t: SyntaxTree, i: int, k: int)
    ensures
        forall|m: int|
            0 <= m < code_from(t, i, k).len() ==> i < #[trigger] code_from(t, i, k)[m] < t.len()
                && t.kind(code_from(t, i, k)[m] as int) != "comment"@,
    decreases t.children(i).len() - k,
{
    if 0 <= k < t.children(i).len() {
        lemma_code_from_bounds(t, i, k + 1);
        let c = t.children(i)[k];
        let head: Seq<usize> = if i < c < t.len() && t.kind(c as int) != "comment"@ {
            seq![c]
        } else {
            Seq::empty()
        };
        assert forall|m: int|
            0 <= m < code_from(t, i, k).len() implies i < #[trigger] code_from(t, i, k)[m] < t.len()
                && t.kind(code_from(t, i, k)[m] as int) != "comment"@ by {
            if m >= head.len() {
                assert(code_from(t, i, k)[m] == code_from(t, i, k + 1)[m - head.len()]);
            }
        }
    }
}

proof fn lemma_children_fingerprints(t: SyntaxTree, x: SourceText, i: int, k: int)
    requires
        0 <= i < t.len(),
        0 <= k,
    ensures
        fingerprint_children(t, x, i, k) == nonempty_fingerprints(t, x, code_from(t, i, k)),
    decreases t.children(i).len() - k,
{
    if k < t.children(i).len() {
        lemma_children_fingerprints(t, x, i, k + 1);
        let c = t.children(i)[k];
        let rest = code_from(t, i, k + 1);
        if i < c < t.len() && t.kind(c as int) != "comment"@ {
            assert(code_from(t, i, k) == seq![c] + rest);
            assert((seq![c] + rest).drop_first() =~= rest);
            assert((seq![c] + rest)[0] == c);
        } else {
            assert(code_from(t, i, k) =~= rest);
            if i < c < t.len() {
                assert(fingerprint_spec(t, x, c as int) == Seq::<char>::empty());
            }
        }
    }
}

proof fn lemma_same_fingerprints(t1: SyntaxTree, x1: SourceText, cs1: Seq<usize>, t2: SyntaxTree, x2: SourceText, cs2: Seq<usize>)
    requires
        cs1.len() == cs2.len(),
        forall|k: int| 0 <= k < cs1.len() ==> fingerprint_spec(t1, x1, #[trigger] cs1[k] as int) == fingerprint_spec(t2, x2, cs2[k] as int),
    ensures
        nonempty_fingerprints(t1, x1, cs1) == nonempty_fingerprints(t2, x2, cs2),
    decreases cs1.len(),
{
    if cs1.len() > 0 {
        assert(fingerprint_spec(t1, x1, cs1[0] as int) == fingerprint_spec(t2, x2, cs2[0] as int));
        assert forall|k: int| 0 <= k < cs1.drop_first().len() implies fingerprint_spec(
            t1,
            x1,
            #[trigger] cs1.drop_first()[k] as int,
        ) == fingerprint_spec(t2, x2, cs2.drop_first()[k] as int) by {
            assert(cs1.drop_first()[k] == cs1[k + 1]);
            assert(cs2.drop_first()[k] == cs2[k + 1]);
        }
        lemma_same_fingerprints(t1, x1, cs1.drop_first(), t2, x2, cs2.drop_first());
    }
}

/// Nodes of the same syntax have the same fingerprint.
pub proof fn lemma_same_syntax_fingerprint(t1: SyntaxTree, x1: SourceText, i: int, t2: SyntaxTree, x2: SourceText, j: int)
    requires
        same_syntax(t1, x1, i, t2, x2, j),
    ensures
        fingerprint_spec(t1, x1, i) == fingerprint_spec(t2, x2, j),
    decreases t1.len() - i,
{
    if t1.kind(i) != "comment"@ {
        let c1 = code_from(t1, i, 0);
        let c2 = code_from(t2, j, 0);
        assert forall|k: int| 0 <= k < c1.len() implies fingerprint_spec(t1, x1, #[trigger] c1[k] as int)
            == fingerprint_spec(t2, x2, c2[k] as int) by {
            assert(i < c1[k] < t1.len());
            lemma_same_syntax_fingerprint(t1, x1, c1[k] as int, t2, x2, c2[k] as int);
        }
        lemma_children_fingerprints(t1, x1, i, 0);
        lemma_children_fingerprints(t2, x2, j, 0);
        lemma_same_fingerprints(t1, x1, c1, t2, x2, c2);
        let parts = fingerprint_children(t1, x1, i, 0);
        if c1.len() > 0 {
            lemma_code_from_bounds(t1, i, 0);
            assert(i < c1[0] < t1.len());
            assert(same_syntax(t1, x1, c1[0] as int, t2, x2, c2[0] as int));
            assert(t1.kind(c1[0] as int) != "comment"@);
            let f = fingerprint_spec(t1, x1, c1[0] as int);
            assert(f.len() >= t1.kind(c1[0] as int).len());
            assert(f.len() > 0);
            assert(parts == seq![f] + nonempty_fingerprints(t1, x1, c1.drop_first()));
            assert(parts.len() > 0);
        }
    }
}

/// Layout and comments do not change a function's body hash: two
/// functions whose bodies have the same syntax (the same tokens in the same
/// structure, whatever the whitespace, line breaks and comments around
/// them) hash alike.
pub proof fn lemma_body_hash_ignores_layout(
    t1: SyntaxTree,
    x1: SourceText,
    file1: Seq<char>,
    i: int,
    q1: Seq<char>,
    t2: SyntaxTree,
    x2: SourceText,
    file2: Seq<char>,
    j: int,
    q2: Seq<char>,
    kind: SymbolKind,
)
    requires
        kind != SymbolKind::Class,
        t1.child_by_field(i, "body"@) matches Some(b1) && t2.child_by_field(j, "body"@) matches Some(
            b2,
        ) && same_syntax(t1, x1, b1, t2, x2, b2),
    ensures
        symbol_spec(t1, x1, file1, i, kind, q1).body_hash == symbol_spec(
            t2,
            x2,
            file2,
            j,
            kind,
            q2,
        ).body_hash,
{
    let b1 = t1.child_by_field(i, "body"@).unwrap();
    let b2 = t2.child_by_field(j, "body"@).unwrap();
    lemma_same_syntax_fingerprint(t1, x1, b1, t2, x2, b2);
}

} // verus!
