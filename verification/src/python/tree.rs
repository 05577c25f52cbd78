//! Python syntax trees as plain values.  tree-sitter parses the source; its
//! tree is read once, in preorder, into an arena of nodes that the rest of
//! the Python support works on, together with the source as characters and
//! the byte offset of each character.
use vstd::prelude::*;

use crate::text::{chars_of, owned};

verus! {

/// One node of tree-sitter's tree as plain values: its grammar kind, whether
/// it is named, the field it hangs under in its parent, its byte range and
/// rows (0-based), and its depth below the root.
#[derive(Debug)]
pub struct RawNode {
    pub kind: String,
    pub named: bool,
    pub field: Option<String>,
    pub start_byte: usize,
    pub end_byte: usize,
    pub start_row: usize,
    pub end_row: usize,
    pub depth: usize,
}

/// The abstract value of a raw node.
pub struct RawNodeView {
    pub kind: Seq<char>,
    pub named: bool,
    pub field: Option<Seq<char>>,
    pub start_byte: usize,
    pub end_byte: usize,
    pub start_row: usize,
    pub end_row: usize,
    pub depth: usize,
}

impl View for RawNode {
    type V = RawNodeView;

    open spec fn view(&self) -> RawNodeView {
        RawNodeView {
            kind: self.kind@,
            named: self.named,
            field: match self.field {
                Some(f) => Some(f@),
                None => None,
            },
            start_byte: self.start_byte,
            end_byte: self.end_byte,
            start_row: self.start_row,
            end_row: self.end_row,
            depth: self.depth,
        }
    }
}

/// The abstract values of raw nodes.
pub open spec fn raw_views(v: Seq<RawNode>) -> Seq<RawNodeView> {
    Seq::new(v.len(), |k: int| v[k]@)
}

/// What tree-sitter-python gives for a text: whether its tree holds a syntax
/// error, and the tree's nodes in preorder (the n-th descendant of the root,
/// the root first).
pub uninterp spec fn python_parse(text: Seq<char>) -> (bool, Seq<RawNodeView>);

/// The depths of a walk over a tree in preorder: the root first, at depth
/// zero, and every later node at least one level down and at most one
/// level below the node before it.
pub open spec fn preorder_depths(raw: Seq<RawNodeView>) -> bool {
    &&& raw.len() > 0
    &&& raw[0].depth == 0
    &&& forall|i: int| 0 < i < raw.len() ==> 1 <= #[trigger] raw[i].depth <= raw[i - 1].depth + 1
}

/// Parses `source` with tree-sitter-python (`Parser::new`, `set_language`
/// with `tree_sitter_python::LANGUAGE`, `Parser::parse`) and reads the tree
/// through a cursor (`Node::descendant_count`, `TreeCursor::goto_descendant`,
/// `node`, `field_name`, `depth`, and the node's `kind`, `is_named`, byte
/// range, rows and `has_error`).  The result is named: it is a function of
/// the text.  The walk is a preorder: descendant 0 is the root, at depth 0,
/// and the cursor numbers the visible descendants in document order, each
/// depth counting the visible ancestors below the root.  `set_language` fails only for a grammar outside the ABI range
/// that tree-sitter accepts, which the bundled grammar is not, and `parse`
/// gives no tree only without a language, on a timeout or on a
/// cancellation, none of which is set here.
#[verifier::external_body]
fn parse_python(source: &str) -> (r: (bool, Vec<RawNode>))
    ensures
        (r.0, raw_views(r.1@)) == python_parse(source@),
        preorder_depths(raw_views(r.1@)),
{
    let mut parser = tree_sitter::Parser::new();
    parser.set_language(&tree_sitter_python::LANGUAGE.into()).unwrap();
    let tree = parser.parse(source, None).unwrap();
    let mut c = tree.walk();
    let nodes = (0..tree.root_node().descendant_count()).map(|i| {
        c.goto_descendant(i);
        let n = c.node();
        RawNode { kind: n.kind().into(), named: n.is_named(), field: c.field_name().map(String::from),
            start_byte: n.start_byte(), end_byte: n.end_byte(), start_row: n.start_position().row,
            end_row: n.end_position().row, depth: c.depth() as usize }
    });
    (tree.root_node().has_error(), nodes.collect())
}

/// One node of a syntax tree: its grammar kind, whether it is named, the
/// field it hangs under, its byte range and rows (0-based), and the
/// indices of its children in the arena.
#[derive(Debug)]
pub struct SyntaxNode {
    pub kind: String,
    pub named: bool,
    pub field: Option<String>,
    pub start_byte: usize,
    pub end_byte: usize,
    pub start_row: usize,
    pub end_row: usize,
    pub children: Vec<usize>,
}

/// A syntax tree as an arena; node 0 is the root, and every child comes
/// after its parent.
#[derive(Debug)]
pub struct SyntaxTree {
    pub nodes: Vec<SyntaxNode>,
}

/// The abstract value of a syntax node.
pub struct SyntaxNodeView {
    pub kind: Seq<char>,
    pub named: bool,
    pub field: Option<Seq<char>>,
    pub start_byte: usize,
    pub end_byte: usize,
    pub start_row: usize,
    pub end_row: usize,
    pub children: Seq<usize>,
}

impl View for SyntaxNode {
    type V = SyntaxNodeView;

    open spec fn view(&self) -> SyntaxNodeView {
        SyntaxNodeView {
            kind: self.kind@,
            named: self.named,
            field: match self.field {
                Some(f) => Some(f@),
                None => None,
            },
            start_byte: self.start_byte,
            end_byte: self.end_byte,
            start_row: self.start_row,
            end_row: self.end_row,
            children: self.children@,
        }
    }
}

impl View for SyntaxTree {
    type V = Seq<SyntaxNodeView>;

    open spec fn view(&self) -> Seq<SyntaxNodeView> {
        Seq::new(self.nodes@.len(), |k: int| self.nodes@[k]@)
    }
}

/// The arena node of a raw node, before its children are known.
pub open spec fn leaf_of(r: RawNodeView) -> SyntaxNodeView {
    SyntaxNodeView {
        kind: r.kind,
        named: r.named,
        field: r.field,
        start_byte: r.start_byte,
        end_byte: r.end_byte,
        start_row: r.start_row,
        end_row: r.end_row,
        children: Seq::empty(),
    }
}

/// The arena built from the first `n` raw nodes, with the path of open
/// ancestors (the last node at each depth): each node becomes a child of
/// the open node one level up.  None when the depths do not describe a
/// preorder walk (a depth more than one below the previous node's, or a
/// second node at depth zero).
pub open spec fn arena_prefix(raw: Seq<RawNodeView>, n: int) -> Option<(Seq<SyntaxNodeView>, Seq<usize>)>
    decreases n,
{
    if n <= 0 {
        Some((Seq::empty(), Seq::empty()))
    } else {
        match arena_prefix(raw, n - 1) {
            None => None,
            Some((nodes, path)) => {
                let i = n - 1;
                let d = raw[i].depth as int;
                if d > path.len() || (i > 0 && d == 0) {
                    None
                } else {
                    let open = path.subrange(0, d);
                    let linked = if d > 0 {
                        let p = open[d - 1] as int;
                        nodes.update(p, SyntaxNodeView { children: nodes[p].children.push(i as usize), ..nodes[p] })
                    } else {
                        nodes
                    };
                    Some((linked.push(leaf_of(raw[i])), open.push(i as usize)))
                }
            },
        }
    }
}

/// The arena of tree-sitter's preorder nodes, if they form a tree.
pub open spec fn arena_of(raw: Seq<RawNodeView>) -> Option<Seq<SyntaxNodeView>> {
    if raw.len() == 0 {
        None
    } else {
        match arena_prefix(raw, raw.len() as int) {
            Some((nodes, _)) => Some(nodes),
            None => None,
        }
    }
}

impl SyntaxTree {
    /// The arena is well formed: it has a root and every child index lies
    /// after its parent's and inside the arena.
    pub open spec fn wf(&self) -> bool {
        &&& self.nodes@.len() > 0
        &&& forall|i: int, k: int|
            0 <= i < self.nodes@.len() && 0 <= k < self.nodes@[i].children@.len() ==> i
                < #[trigger] self.nodes@[i].children@[k] < self.nodes@.len()
    }

    /// The number of nodes.
    pub open spec fn len(&self) -> int {
        self.nodes@.len() as int
    }

    /// The kind of node `i`.
    pub open spec fn kind(&self, i: int) -> Seq<char> {
        self.nodes@[i].kind@
    }

    /// The children of node `i`.
    pub open spec fn children(&self, i: int) -> Seq<usize> {
        self.nodes@[i].children@
    }

    /// The `k`-th child of node `i` hangs under field `f`.
    pub open spec fn child_has_field(&self, i: int, k: int, f: Seq<char>) -> bool {
        match self.nodes@[self.children(i)[k] as int].field {
            Some(g) => g@ == f,
            None => false,
        }
    }

    /// Position of the first child of `i` under field `f`, or -1.
    pub open spec fn field_position(&self, i: int, f: Seq<char>, from: int) -> int
        decreases self.children(i).len() - from,
    {
        if from < 0 || from >= self.children(i).len() {
            -1
        } else if self.child_has_field(i, from, f) {
            from
        } else {
            self.field_position(i, f, from + 1)
        }
    }

    /// The first child of `i` under field `f`, if any.
    pub open spec fn child_by_field(&self, i: int, f: Seq<char>) -> Option<int> {
        let k = self.field_position(i, f, 0);
        if k >= 0 {
            Some(self.children(i)[k] as int)
        } else {
            None
        }
    }

    /// The first child of node `i` under the field `field`.
    pub fn child_by_field_name(&self, i: usize, field: &str) -> (r: Option<usize>)
        requires
            self.wf(),
            i < self.nodes@.len(),
        ensures
            match r {
                Some(c) => self.child_by_field(i as int, field@) == Some(c as int) && i < c
                    < self.nodes@.len(),
                None => self.child_by_field(i as int, field@) is None,
            },
    {
        let children = &self.nodes[i].children;
        let mut k: usize = 0;
        while k < children.len()
            invariant
                0 <= k <= children@.len(),
                self.wf(),
                i < self.nodes@.len(),
                children@ == self.children(i as int),
                self.field_position(i as int, field@, 0) == self.field_position(
                    i as int,
                    field@,
                    k as int,
                ),
            decreases children@.len() - k,
        {
            let c = children[k];
            let matches = match &self.nodes[c].field {
                Some(g) => crate::text::str_eq(g.as_str(), field),
                None => false,
            };
            if matches {
                return Some(c);
            }
            k = k + 1;
        }
        None
    }
}

/// The number of bytes UTF-8 takes for a character.
pub open spec fn utf8_width(c: char) -> nat {
    if (c as u32) < 0x80 {
        1
    } else if (c as u32) < 0x800 {
        2
    } else if (c as u32) < 0x10000 {
        3
    } else {
        4
    }
}

/// A source text as characters, with the UTF-8 byte offset of each
/// character and of the end.
#[derive(Debug)]
pub struct SourceText {
    pub chars: Vec<char>,
    pub offsets: Vec<usize>,
}

impl SourceText {
    /// Offsets start at zero and advance by each character's UTF-8 width.
    pub open spec fn wf(&self) -> bool {
        &&& self.offsets@.len() == self.chars@.len() + 1
        &&& self.offsets@[0] == 0
        &&& forall|k: int|
            0 <= k < self.chars@.len() ==> #[trigger] self.offsets@[k + 1] == self.offsets@[k]
                + utf8_width(self.chars@[k])
    }

    /// The first character index, from `from` on, at which byte `b` starts
    /// a character (or the end).
    pub open spec fn position_from(&self, b: int, from: int) -> Option<int>
        decreases self.offsets@.len() - from,
    {
        if from < 0 || from >= self.offsets@.len() {
            None
        } else if self.offsets@[from] == b {
            Some(from)
        } else {
            self.position_from(b, from + 1)
        }
    }

    /// The character index at which byte `b` starts a character (or the
    /// end), if it does.
    pub open spec fn index_of_byte(&self, b: int) -> Option<int> {
        self.position_from(b, 0)
    }

    /// The characters between two byte offsets, when both fall on
    /// character boundaries in order (what `Node::utf8_text` yields for a
    /// range of valid text); none otherwise.
    pub open spec fn slice(&self, start: int, end: int) -> Option<Seq<char>> {
        match (self.index_of_byte(start), self.index_of_byte(end)) {
            (Some(i), Some(j)) => if i <= j {
                Some(self.chars@.subrange(i, j))
            } else {
                None
            },
            _ => None,
        }
    }

    /// Offsets strictly increase.
    pub proof fn lemma_offsets_increase(&self, a: int, b: int)
        requires
            self.wf(),
            0 <= a < b < self.offsets@.len(),
        ensures
            self.offsets@[a] < self.offsets@[b],
        decreases b - a,
    {
        assert(self.offsets@[a + 1] == self.offsets@[a] + utf8_width(self.chars@[a]));
        if a + 1 < b {
            self.lemma_offsets_increase(a + 1, b);
        }
    }

    /// The index of a byte offset is the one position that holds it.
    pub proof fn lemma_position_found(&self, b: int, k: int, from: int)
        requires
            self.wf(),
            0 <= from <= k < self.offsets@.len(),
            self.offsets@[k] == b,
        ensures
            self.position_from(b, from) == Some(k),
        decreases k - from,
    {
        if from < k {
            self.lemma_offsets_increase(from, k);
            self.lemma_position_found(b, k, from + 1);
        }
    }

    /// A byte offset that no position holds has no index.
    pub proof fn lemma_position_absent(&self, b: int, from: int)
        requires
            0 <= from <= self.offsets@.len(),
            forall|k: int| from <= k < self.offsets@.len() ==> self.offsets@[k] != b,
        ensures
            self.position_from(b, from) is None,
        decreases self.offsets@.len() - from,
    {
        if from < self.offsets@.len() {
            self.lemma_position_absent(b, from + 1);
        }
    }

    /// The character index at which byte `b` starts, if it does.
    pub fn find_byte(&self, b: usize) -> (r: Option<usize>)
        requires
            self.wf(),
        ensures
            match r {
                Some(k) => self.index_of_byte(b as int) == Some(k as int) && k < self.offsets@.len(),
                None => self.index_of_byte(b as int) is None,
            },
    {
        let mut lo: usize = 0;
        let mut hi: usize = self.offsets.len();
        while lo < hi
            invariant
                0 <= lo <= hi <= self.offsets@.len(),
                self.wf(),
                forall|k: int| 0 <= k < lo ==> self.offsets@[k] < b,
                forall|k: int| hi <= k < self.offsets@.len() ==> self.offsets@[k] > b,
            decreases hi - lo,
        {
            let mid = lo + (hi - lo) / 2;
            let m = self.offsets[mid];
            if m == b {
                proof {
                    self.lemma_position_found(b as int, mid as int, 0);
                }
                return Some(mid);
            } else if m < b {
                proof {
                    assert forall|k: int| 0 <= k < mid + 1 implies self.offsets@[k] < b by {
                        if k < mid {
                            self.lemma_offsets_increase(k, mid as int);
                        }
                    }
                }
                lo = mid + 1;
            } else {
                proof {
                    assert forall|k: int| mid <= k < self.offsets@.len() implies self.offsets@[k]
                        > b by {
                        if k > mid {
                            self.lemma_offsets_increase(mid as int, k);
                        }
                    }
                }
                hi = mid;
            }
        }
        proof {
            self.lemma_position_absent(b as int, 0);
        }
        None
    }

    /// The text between two byte offsets (see `slice`).
    pub fn text_between(&self, start: usize, end: usize) -> (r: Option<String>)
        requires
            self.wf(),
        ensures
            match r {
                Some(s) => self.slice(start as int, end as int) == Some(s@),
                None => self.slice(start as int, end as int) is None,
            },
    {
        match (self.find_byte(start), self.find_byte(end)) {
            (Some(i), Some(j)) => {
                if i <= j {
                    Some(crate::text::substring(self.chars.as_slice(), i, j))
                } else {
                    None
                }
            },
            _ => None,
        }
    }
}

/// The UTF-8 length of the first `k` characters.
pub open spec fn utf8_len(s: Seq<char>, k: int) -> nat
    decreases k,
{
    if k <= 0 {
        0
    } else {
        utf8_len(s, k - 1) + utf8_width(s[k - 1])
    }
}

/// A longer prefix takes at least as many bytes.
proof fn lemma_utf8_len_monotone(s: Seq<char>, j: int, k: int)
    requires
        0 <= j <= k,
    ensures
        utf8_len(s, j) <= utf8_len(s, k),
    decreases k - j,
{
    if j < k {
        lemma_utf8_len_monotone(s, j, k - 1);
    }
}

/// The source text of a string; none exactly when its UTF-8 length does not
/// fit a `usize`.
pub fn source_text(s: &str) -> (r: Option<SourceText>)
    ensures
        match r {
            Some(t) => t.wf() && t.chars@ == s@ && utf8_len(s@, s@.len() as int) <= usize::MAX,
            None => utf8_len(s@, s@.len() as int) > usize::MAX,
        },
{
    let chars = chars_of(s);
    let mut offsets: Vec<usize> = Vec::new();
    offsets.push(0);
    let mut k: usize = 0;
    while k < chars.len()
        invariant
            0 <= k <= chars@.len(),
            offsets@.len() == k + 1,
            offsets@[0] == 0,
            forall|j: int| 0 <= j < k ==> #[trigger] offsets@[j + 1] == offsets@[j] + utf8_width(
                chars@[j],
            ),
            offsets@[k as int] == utf8_len(chars@, k as int),
            chars@ == s@,
        decreases chars@.len() - k,
    {
        let c = chars[k];
        let code = c as u32;
        let w: usize = if code < 0x80 {
            1
        } else if code < 0x800 {
            2
        } else if code < 0x10000 {
            3
        } else {
            4
        };
        let last = offsets[k];
        if last > usize::MAX - w {
            proof {
                lemma_utf8_len_monotone(s@, k + 1, s@.len() as int);
            }
            return None;
        }
        offsets.push(last + w);
        k = k + 1;
    }
    Some(SourceText { chars, offsets })
}

/// Why a file could not be read: its UTF-8 length does not fit a `usize`,
/// so its byte offsets cannot be indexed.
#[derive(Debug)]
pub enum ParseError {
    TextTooLarge,
}

/// What a parse error says.
pub open spec fn parse_error_text(e: ParseError) -> Seq<char> {
    match e {
        ParseError::TextTooLarge => "source text too large for byte offsets"@,
    }
}

impl ParseError {
    /// What went wrong, in words.
    pub fn message(&self) -> (r: String)
        ensures
            r@ == parse_error_text(*self),
    {
        match self {
            ParseError::TextTooLarge => owned("source text too large for byte offsets"),
        }
    }
}

/// A parsed Python file: its path, source text, the arena of its syntax
/// tree and whether the tree holds syntax errors.
#[derive(Debug)]
pub struct ParsedFile {
    pub file: String,
    pub text: SourceText,
    pub has_parse_errors: bool,
    pub tree: SyntaxTree,
}

impl ParsedFile {
    /// The arena and source are well formed.
    pub open spec fn wf(&self) -> bool {
        self.tree.wf() && self.text.wf()
    }
}

/// The text can be parsed and read: its byte offsets fit a `usize`.
/// (tree-sitter's walk always forms a tree, so nothing else can fail.)
pub open spec fn parses(text: Seq<char>) -> bool {
    utf8_len(text, text.len() as int) <= usize::MAX
}

/// `p` is the parse of `text` as file `file`: the text with its byte
/// offsets, tree-sitter's tree as an arena, and whether it holds a syntax
/// error.
pub open spec fn is_parse_of(p: ParsedFile, file: Seq<char>, text: Seq<char>) -> bool {
    &&& p.wf()
    &&& p.file@ == file
    &&& p.text.chars@ == text
    &&& p.has_parse_errors == python_parse(text).0
    &&& arena_of(python_parse(text).1) == Some(p.tree@)
}

/// The arena node of a raw node, before its children are known.
fn leaf_node(r: &RawNode) -> (n: SyntaxNode)
    ensures
        n@ == leaf_of(r@),
{
    let n = SyntaxNode {
        kind: r.kind.clone(),
        named: r.named,
        field: match &r.field {
            Some(f) => Some(f.clone()),
            None => None,
        },
        start_byte: r.start_byte,
        end_byte: r.end_byte,
        start_row: r.start_row,
        end_row: r.end_row,
        children: Vec::new(),
    };
    assert(n@.children =~= Seq::<usize>::empty());
    n
}

/// Builds the arena of preorder nodes: each node becomes a child of the last
/// node one level up.  Nodes whose depths do not describe a preorder walk
/// are refused.
fn read_tree(raw: &Vec<RawNode>) -> (r: Option<SyntaxTree>)
    ensures
        match r {
            Some(t) => t.wf() && arena_of(raw_views(raw@)) == Some(t@),
            None => arena_of(raw_views(raw@)) is None,
        },
{
    let ghost rv = raw_views(raw@);
    let count = raw.len();
    if count == 0 {
        return None;
    }
    let mut nodes: Vec<SyntaxNode> = Vec::new();
    let mut stack: Vec<usize> = Vec::new();
    let mut i: usize = 0;
    proof {
        let t = SyntaxTree { nodes };
        assert(t@ =~= Seq::<SyntaxNodeView>::empty());
    }
    while i < count
        invariant
            0 <= i <= count,
            count == raw@.len(),
            rv == raw_views(raw@),
            nodes@.len() == i,
            forall|d: int| 0 <= d < stack@.len() ==> #[trigger] stack@[d] < i,
            i > 0 ==> stack@.len() > 0,
            forall|j: int, k: int|
                0 <= j < nodes@.len() && 0 <= k < nodes@[j].children@.len() ==> j
                    < #[trigger] nodes@[j].children@[k] < nodes@.len(),
            arena_prefix(rv, i as int) == Some((SyntaxTree { nodes }@, stack@)),
        decreases count - i,
    {
        let depth = raw[i].depth;
        if depth > stack.len() || (i > 0 && depth == 0) {
            proof {
                lemma_arena_stays_none(rv, i as int + 1, count as int);
            }
            return None;
        }
        let ghost old_nodes = SyntaxTree { nodes }@;
        let ghost old_stack = stack@;
        while stack.len() > depth
            invariant
                depth <= stack@.len() <= old_stack.len(),
                stack@ == old_stack.subrange(0, stack@.len() as int),
                forall|d: int| 0 <= d < stack@.len() ==> #[trigger] stack@[d] < i,
            decreases stack@.len(),
        {
            stack.pop();
        }
        assert(stack@ =~= old_stack.subrange(0, depth as int));
        if depth > 0 {
            let parent = stack[depth - 1];
            let ghost before = nodes@;
            nodes[parent].children.push(i);
            proof {
                assert forall|j: int, k: int|
                    0 <= j < nodes@.len() && 0 <= k < nodes@[j].children@.len() implies j
                        < #[trigger] nodes@[j].children@[k] < nodes@.len() + 1 by {
                    if j != parent {
                        assert(nodes@[j] == before[j]);
                    } else if k < before[j].children@.len() {
                        assert(nodes@[j].children@[k] == before[j].children@[k]);
                    }
                }
                let p = parent as int;
                assert(SyntaxTree { nodes }@ =~= old_nodes.update(
                    p,
                    SyntaxNodeView { children: old_nodes[p].children.push(i), ..old_nodes[p] },
                )) by {
                    assert forall|j: int| 0 <= j < nodes@.len() implies #[trigger] nodes@[j]@ == (if j == p {
                        SyntaxNodeView { children: old_nodes[p].children.push(i), ..old_nodes[p] }
                    } else {
                        old_nodes[j]
                    }) by {
                        if j != p {
                            assert(nodes@[j] == before[j]);
                        }
                    }
                }
            }
        }
        let ghost linked = SyntaxTree { nodes }@;
        let ghost before = nodes@;
        nodes.push(leaf_node(&raw[i]));
        proof {
            assert forall|j: int, k: int|
                0 <= j < nodes@.len() && 0 <= k < nodes@[j].children@.len() implies j
                    < #[trigger] nodes@[j].children@[k] < nodes@.len() by {
                if j < before.len() {
                    assert(nodes@[j] == before[j]);
                }
            }
            assert(rv[i as int] == raw@[i as int]@);
            assert(SyntaxTree { nodes }@ =~= linked.push(leaf_of(rv[i as int])));
        }
        stack.push(i);
        i = i + 1;
    }
    let t = SyntaxTree { nodes };
    Some(t)
}

/// Once the nodes stop forming a tree, longer prefixes do not either.
proof fn lemma_arena_stays_none(raw: Seq<RawNodeView>, n: int, m: int)
    requires
        0 < n <= m,
        arena_prefix(raw, n) is None,
    ensures
        arena_prefix(raw, m) is None,
    decreases m - n,
{
    if n < m {
        lemma_arena_stays_none(raw, n, m - 1);
    }
}

/// Depths of a preorder walk always read into an arena: after `n` nodes the
/// path of open ancestors reaches one level below the last node's depth.
proof fn lemma_preorder_prefix(raw: Seq<RawNodeView>, n: int)
    requires
        preorder_depths(raw),
        1 <= n <= raw.len(),
    ensures
        arena_prefix(raw, n) matches Some((_, path)) && path.len() == raw[n - 1].depth + 1,
    decreases n,
{
    if n > 1 {
        lemma_preorder_prefix(raw, n - 1);
        assert(1 <= raw[n - 1].depth <= raw[n - 2].depth + 1);
    } else {
        assert(arena_prefix(raw, 0) == Some((Seq::<SyntaxNodeView>::empty(), Seq::<usize>::empty())));
    }
}

/// The nodes of a preorder walk form a tree.
proof fn lemma_preorder_arena(raw: Seq<RawNodeView>)
    requires
        preorder_depths(raw),
    ensures
        arena_of(raw) is Some,
{
    lemma_preorder_prefix(raw, raw.len() as int);
}

/// Parses a Python file with tree-sitter and reads its tree and source into
/// plain values.  tree-sitter's walk always reads into a tree, so it fails
/// exactly when the text's byte offsets do not fit a `usize`.
pub fn parse_file(file: String, source: String) -> (r: Result<ParsedFile, ParseError>)
    ensures
        r is Ok <==> parses(source@),
        match r {
            Ok(p) => is_parse_of(p, file@, source@),
            Err(e) => e == ParseError::TextTooLarge,
        },
{
    let (has_parse_errors, raw) = parse_python(source.as_str());
    proof {
        lemma_preorder_arena(raw_views(raw@));
    }
    let arena = match read_tree(&raw) {
        Some(a) => a,
        None => {
            return Err(ParseError::TextTooLarge);
        },
    };
    let text = match source_text(source.as_str()) {
        Some(t) => t,
        None => {
            return Err(ParseError::TextTooLarge);
        },
    };
    Ok(ParsedFile { file, text, has_parse_errors, tree: arena })
}

} // verus!
