//! Structured facts read from the text of a Python function signature:
//! parameters with their kinds, defaults and annotations, the return
//! annotation, and whether the function is async.
use vstd::prelude::*;

use crate::language::{opt_view, FunctionSignatureFacts, ParameterFacts, ParameterKind, ParameterView, SignatureView};
use crate::text::{
    chars_of, find_first, find_last, first_index_of, has_prefix, is_whitespace, is_ws,
    last_index_of, lemma_first_index_of, lemma_last_index_of, starts_with, str_eq, string_from_chars,
    substring, trim_bounds, trim_spec,
};

verus! {

/// Where a left-to-right scan of signature text stands: bracket depth, the
/// open quote if inside a string literal, and whether the previous
/// character inside the literal was a backslash.
pub struct ScanState {
    pub depth: nat,
    pub quote: Option<char>,
    pub escaped: bool,
}

/// One scan step over character `c`.
pub open spec fn scan_step(st: ScanState, c: char) -> ScanState {
    match st.quote {
        Some(q) => if st.escaped {
            ScanState { escaped: false, ..st }
        } else if c == '\\' {
            ScanState { escaped: true, ..st }
        } else if c == q {
            ScanState { quote: None, ..st }
        } else {
            st
        },
        None => if c == '\'' || c == '"' {
            ScanState { quote: Some(c), ..st }
        } else if c == '(' || c == '[' || c == '{' {
            ScanState { depth: st.depth + 1, ..st }
        } else if c == ')' || c == ']' || c == '}' {
            ScanState { depth: if st.depth > 0 { (st.depth - 1) as nat } else { 0 }, ..st }
        } else {
            st
        },
    }
}

/// The scan state before character `n` of `s`.
pub open spec fn state_at(s: Seq<char>, n: int) -> ScanState
    decreases n,
{
    if n <= 0 {
        ScanState { depth: 0, quote: None, escaped: false }
    } else {
        scan_step(state_at(s, n - 1), s[n - 1])
    }
}

/// Character `k` of `s` stands at the top level: outside string literals
/// and brackets, and is neither a quote nor a bracket itself.
pub open spec fn top_level_at(s: Seq<char>, k: int) -> bool {
    let st = state_at(s, k);
    let c = s[k];
    &&& st.quote is None
    &&& st.depth == 0
    &&& !(c == '\'' || c == '"' || c == '(' || c == '[' || c == '{' || c == ')' || c == ']'
        || c == '}')
}

/// The pieces of the first `n` characters of `s` between top-level
/// occurrences of `delim`.
pub open spec fn top_split_prefix(s: Seq<char>, delim: char, n: int) -> Seq<Seq<char>>
    decreases n,
{
    if n <= 0 {
        seq![Seq::empty()]
    } else {
        let p = top_split_prefix(s, delim, n - 1);
        if top_level_at(s, n - 1) && s[n - 1] == delim {
            p.push(Seq::empty())
        } else {
            p.update(p.len() - 1, p.last().push(s[n - 1]))
        }
    }
}

/// The pieces of `s` between top-level occurrences of `delim`.
pub open spec fn top_split(s: Seq<char>, delim: char) -> Seq<Seq<char>> {
    top_split_prefix(s, delim, s.len() as int)
}

/// Position of the first top-level `delim` at or after `from`, or -1.
pub open spec fn first_top(s: Seq<char>, delim: char, from: int) -> int
    decreases s.len() - from,
{
    if from < 0 || from >= s.len() {
        -1
    } else if top_level_at(s, from) && s[from] == delim {
        from
    } else {
        first_top(s, delim, from + 1)
    }
}

/// `s` split at its first top-level `delim`, if it has one.
pub open spec fn split_once_top(s: Seq<char>, delim: char) -> Option<(Seq<char>, Seq<char>)> {
    let k = first_top(s, delim, 0);
    if k >= 0 {
        Some((s.subrange(0, k), s.subrange(k + 1, s.len() as int)))
    } else {
        None
    }
}

/// Normalized text of the first `n` characters and whether white space
/// is pending after a word.
pub open spec fn normalize_prefix(s: Seq<char>, n: int) -> (Seq<char>, bool)
    decreases n,
{
    if n <= 0 {
        (Seq::empty(), false)
    } else {
        let (out, pending) = normalize_prefix(s, n - 1);
        let c = s[n - 1];
        if is_ws(c) {
            (out, out.len() > 0)
        } else if pending {
            (out.push(' ').push(c), false)
        } else {
            (out.push(c), false)
        }
    }
}

/// The words of `s` joined by single spaces.
pub open spec fn normalize_spec(s: Seq<char>) -> Seq<char> {
    normalize_prefix(s, s.len() as int).0
}

/// The text between the first `(` and the last `)` of a signature.
pub open spec fn parameter_text_spec(sig: Seq<char>) -> Option<Seq<char>> {
    let open = first_index_of(sig, '(');
    let close = last_index_of(sig, ')');
    if open >= 0 && close >= 0 && open + 1 <= close {
        Some(sig.subrange(open + 1, close))
    } else {
        None
    }
}

/// Drops all trailing colons.
pub open spec fn strip_trailing_colons(s: Seq<char>) -> Seq<char>
    decreases s.len(),
{
    if s.len() > 0 && s.last() == ':' {
        strip_trailing_colons(s.drop_last())
    } else {
        s
    }
}

/// The return annotation of a signature: the text after its last `)` and
/// a `->`, without trailing colons, normalized.
pub open spec fn return_annotation_spec(sig: Seq<char>) -> Option<Seq<char>> {
    let close = last_index_of(sig, ')');
    if close < 0 {
        None
    } else {
        let after = trim_spec(sig.subrange(close + 1, sig.len() as int));
        if !has_prefix(after, "->"@) {
            None
        } else {
            let ann = trim_spec(strip_trailing_colons(trim_spec(after.subrange(2, after.len() as int))));
            if ann.len() == 0 {
                None
            } else {
                Some(normalize_spec(ann))
            }
        }
    }
}

/// Index of the first piece that trims to `/`, or -1.
pub open spec fn slash_position(parts: Seq<Seq<char>>, from: int) -> int
    decreases parts.len() - from,
{
    if from < 0 || from >= parts.len() {
        -1
    } else if trim_spec(parts[from]) == "/"@ {
        from
    } else {
        slash_position(parts, from + 1)
    }
}

/// A text split at its first top-level `delim`: the trimmed left part and
/// the normalized right part; or the trimmed text and nothing.
pub open spec fn split_norm(text: Seq<char>, delim: char) -> (Seq<char>, Option<Seq<char>>) {
    match split_once_top(text, delim) {
        Some((l, r)) => (trim_spec(l), Some(normalize_spec(r))),
        None => (trim_spec(text), None),
    }
}

/// Name and annotation of a parameter text without its default.
pub open spec fn name_and_annotation(text: Seq<char>) -> (Seq<char>, Option<Seq<char>>) {
    split_norm(text, ':')
}

/// Text without default, and the normalized default, of a parameter text.
pub open spec fn split_default(text: Seq<char>) -> (Seq<char>, Option<Seq<char>>) {
    split_norm(text, '=')
}

/// The parameter a piece of parameter text describes, given its kind and
/// its text after any `*`/`**`; none when its name is empty.
pub open spec fn parameter_of(kind: ParameterKind, text: Seq<char>) -> Option<ParameterView> {
    let (without_default, default_value) = split_default(text);
    let (name, annotation) = name_and_annotation(without_default);
    if name.len() == 0 {
        None
    } else {
        Some(
            ParameterView {
                name,
                kind,
                has_default: default_value is Some,
                default_value,
                annotation,
            },
        )
    }
}

/// The parameters of pieces `k..` of a parameter list, given the position
/// of `/` and whether a `*` has been seen.
pub open spec fn parameters_from(parts: Seq<Seq<char>>, slash: int, k: int, keyword_only: bool) -> Seq<
    ParameterView,
>
    decreases parts.len() - k,
{
    if k < 0 || k >= parts.len() {
        Seq::empty()
    } else {
        let raw = trim_spec(parts[k]);
        if raw.len() == 0 || raw == "/"@ {
            parameters_from(parts, slash, k + 1, keyword_only)
        } else if raw == "*"@ {
            parameters_from(parts, slash, k + 1, true)
        } else {
            let (kind, text, kw) = if has_prefix(raw, "**"@) {
                (ParameterKind::KwArgs, raw.subrange(2, raw.len() as int), keyword_only)
            } else if has_prefix(raw, "*"@) {
                (ParameterKind::VarArgs, raw.subrange(1, raw.len() as int), true)
            } else if slash >= 0 && k < slash {
                (ParameterKind::PositionalOnly, raw, keyword_only)
            } else if keyword_only {
                (ParameterKind::KeywordOnly, raw, keyword_only)
            } else {
                (ParameterKind::PositionalOrKeyword, raw, keyword_only)
            };
            match parameter_of(kind, text) {
                Some(p) => seq![p] + parameters_from(parts, slash, k + 1, kw),
                None => parameters_from(parts, slash, k + 1, kw),
            }
        }
    }
}

/// The parameters of a parameter list.
pub open spec fn parameters_spec(params: Seq<char>) -> Seq<ParameterView> {
    let parts = top_split(params, ',');
    parameters_from(parts, slash_position(parts, 0), 0, false)
}

/// The structured facts of a signature text.
pub open spec fn signature_facts_spec(sig: Seq<char>) -> SignatureView {
    SignatureView {
        is_async: has_prefix(sig, "async def "@),
        parameters: match parameter_text_spec(sig) {
            Some(p) => parameters_spec(p),
            None => Seq::empty(),
        },
        return_annotation: return_annotation_spec(sig),
    }
}

/// The scan state of `s` after each of its characters, in one pass; the
/// `k`-th flag says whether character `k` stands at the top level.
pub fn top_level_flags(s: &[char]) -> (r: Vec<bool>)
    ensures
        r@.len() == s@.len(),
        forall|k: int| 0 <= k < s@.len() ==> #[trigger] r@[k] == top_level_at(s@, k),
{
    let mut r: Vec<bool> = Vec::new();
    let mut depth: usize = 0;
    let mut quote: Option<char> = None;
    let mut escaped = false;
    let mut k: usize = 0;
    while k < s.len()
        invariant
            0 <= k <= s@.len(),
            r@.len() == k,
            depth <= k,
            state_at(s@, k as int) == (ScanState { depth: depth as nat, quote, escaped }),
            forall|j: int| 0 <= j < k ==> #[trigger] r@[j] == top_level_at(s@, j),
        decreases s@.len() - k,
    {
        let c = s[k];
        let is_mark = c == '\'' || c == '"' || c == '(' || c == '[' || c == '{' || c == ')' || c
            == ']' || c == '}';
        r.push(quote.is_none() && depth == 0 && !is_mark);
        match quote {
            Some(q) => {
                if escaped {
                    escaped = false;
                } else if c == '\\' {
                    escaped = true;
                } else if c == q {
                    quote = None;
                }
            },
            None => {
                if c == '\'' || c == '"' {
                    quote = Some(c);
                } else if c == '(' || c == '[' || c == '{' {
                    depth = depth + 1;
                } else if c == ')' || c == ']' || c == '}' {
                    if depth > 0 {
                        depth = depth - 1;
                    }
                }
            },
        }
        k = k + 1;
    }
    r
}

/// The pieces of `s` between top-level occurrences of `delim`.
pub fn split_top_level(s: &[char], delim: char) -> (r: Vec<Vec<char>>)
    ensures
        r@.len() == top_split(s@, delim).len(),
        forall|i: int| 0 <= i < r@.len() ==> (#[trigger] r@[i])@ == top_split(s@, delim)[i],
{
    let flags = top_level_flags(s);
    let mut parts: Vec<Vec<char>> = Vec::new();
    let mut current: Vec<char> = Vec::new();
    let mut k: usize = 0;
    while k < s.len()
        invariant
            0 <= k <= s@.len(),
            flags@.len() == s@.len(),
            forall|j: int| 0 <= j < s@.len() ==> #[trigger] flags@[j] == top_level_at(s@, j),
            parts@.len() + 1 == top_split_prefix(s@, delim, k as int).len(),
            forall|i: int|
                0 <= i < parts@.len() ==> (#[trigger] parts@[i])@ == top_split_prefix(
                    s@,
                    delim,
                    k as int,
                )[i],
            current@ == top_split_prefix(s@, delim, k as int).last(),
        decreases s@.len() - k,
    {
        let ghost before = top_split_prefix(s@, delim, k as int);
        if flags[k] && s[k] == delim {
            let finished = current;
            current = Vec::new();
            parts.push(finished);
            proof {
                assert(top_split_prefix(s@, delim, k + 1) == before.push(Seq::empty()));
            }
        } else {
            current.push(s[k]);
        }
        k = k + 1;
        proof {
            let now = top_split_prefix(s@, delim, k as int);
            assert forall|i: int| 0 <= i < parts@.len() implies (#[trigger] parts@[i])@ == now[i] by {
                if i < before.len() - 1 {
                    assert(now[i] == before[i]);
                }
            }
        }
    }
    parts.push(current);
    proof {
        let all = top_split(s@, delim);
        assert forall|i: int| 0 <= i < parts@.len() implies (#[trigger] parts@[i])@ == all[i] by {}
    }
    parts
}

/// Position of the first top-level `delim` of `s`, if any.
pub fn find_top_level(s: &[char], delim: char) -> (r: Option<usize>)
    ensures
        match r {
            Some(k) => first_top(s@, delim, 0) == k as int && k < s@.len(),
            None => first_top(s@, delim, 0) == -1,
        },
{
    let flags = top_level_flags(s);
    let mut k: usize = 0;
    while k < s.len()
        invariant
            0 <= k <= s@.len(),
            flags@.len() == s@.len(),
            forall|j: int| 0 <= j < s@.len() ==> #[trigger] flags@[j] == top_level_at(s@, j),
            first_top(s@, delim, 0) == first_top(s@, delim, k as int),
        decreases s@.len() - k,
    {
        if flags[k] && s[k] == delim {
            return Some(k);
        }
        k = k + 1;
    }
    None
}

/// The words of `s` joined by single spaces.
pub fn normalize_fragment(s: &[char]) -> (r: String)
    ensures
        r@ == normalize_spec(s@),
{
    let mut out: Vec<char> = Vec::new();
    let mut pending = false;
    let mut k: usize = 0;
    while k < s.len()
        invariant
            0 <= k <= s@.len(),
            normalize_prefix(s@, k as int) == (out@, pending),
        decreases s@.len() - k,
    {
        let c = s[k];
        if is_whitespace(c) {
            pending = out.len() > 0;
        } else {
            if pending {
                out.push(' ');
            }
            out.push(c);
            pending = false;
        }
        k = k + 1;
    }
    string_from_chars(out.as_slice())
}

/// The characters of `v` from `a` to `b`.
fn slice_chars(v: &[char], a: usize, b: usize) -> (r: Vec<char>)
    requires
        a <= b <= v@.len(),
    ensures
        r@ == v@.subrange(a as int, b as int),
{
    let mut r: Vec<char> = Vec::new();
    let mut k: usize = a;
    while k < b
        invariant
            a <= k <= b <= v@.len(),
            r@ == v@.subrange(a as int, k as int),
        decreases b - k,
    {
        r.push(v[k]);
        k = k + 1;
        proof {
            assert(r@ =~= v@.subrange(a as int, k as int));
        }
    }
    r
}

/// `v` without leading and trailing white space.
fn trim_chars(v: &[char]) -> (r: Vec<char>)
    ensures
        r@ == trim_spec(v@),
{
    let (a, b) = trim_bounds(v);
    slice_chars(v, a, b)
}

/// Whether `v` starts with the characters of `p`.
fn chars_start_with(v: &[char], p: &str) -> (r: bool)
    ensures
        r == has_prefix(v@, p@),
{
    let w = chars_of(p);
    crate::text::occurs_at(v, w.as_slice(), 0)
}

/// Whether `v` holds exactly the characters of `s`.
fn chars_eq(v: &[char], s: &str) -> (r: bool)
    ensures
        r == (v@ == s@),
{
    let w = chars_of(s);
    if v.len() != w.len() {
        return false;
    }
    let mut k: usize = 0;
    while k < v.len()
        invariant
            0 <= k <= v@.len(),
            v@.len() == w@.len(),
            w@ == s@,
            forall|j: int| 0 <= j < k ==> v@[j] == w@[j],
        decreases v@.len() - k,
    {
        if v[k] != w[k] {
            return false;
        }
        k = k + 1;
    }
    proof {
        assert(v@ =~= w@);
    }
    true
}

/// Splits a parameter text at its first top-level `delim`, trimming the
/// left part and normalizing the right one.
fn split_and_normalize(text: &[char], delim: char) -> (r: (Vec<char>, Option<String>))
    ensures
        r.0@ == split_norm(text@, delim).0,
        opt_view(r.1) == split_norm(text@, delim).1,
{
    match find_top_level(text, delim) {
        Some(k) => {
            let n = text.len();
            assert(k < n);
            let left = slice_chars(text, 0, k);
            let right = slice_chars(text, k + 1, n);
            (trim_chars(left.as_slice()), Some(normalize_fragment(right.as_slice())))
        },
        None => (trim_chars(text), None),
    }
}

/// The parameters of a parameter list.
pub fn parse_parameters(parameters: &[char]) -> (r: Vec<ParameterFacts>)
    ensures
        r@.map_values(|p: ParameterFacts| p@) == parameters_spec(parameters@),
{
    let parts = split_top_level(parameters, ',');
    let ghost parts_v = top_split(parameters@, ',');
    let mut slash: Option<usize> = None;
    let mut s: usize = 0;
    while s < parts.len() && slash.is_none()
        invariant
            0 <= s <= parts@.len(),
            parts@.len() == parts_v.len(),
            forall|i: int| 0 <= i < parts@.len() ==> (#[trigger] parts@[i])@ == parts_v[i],
            slash is None ==> slash_position(parts_v, 0) == slash_position(parts_v, s as int),
            match slash {
                Some(x) => slash_position(parts_v, 0) == x && x < parts@.len(),
                None => true,
            },
        decreases parts@.len() - s,
    {
        let raw = trim_chars(parts[s].as_slice());
        if chars_eq(raw.as_slice(), "/") {
            slash = Some(s);
        }
        s = s + 1;
    }
    let ghost slash_i: int = match slash {
        Some(x) => x as int,
        None => -1,
    };
    proof {
        assert(slash_position(parts_v, 0) == slash_i);
    }
    let mut facts: Vec<ParameterFacts> = Vec::new();
    let mut keyword_only = false;
    let mut k: usize = 0;
    while k < parts.len()
        invariant
            0 <= k <= parts@.len(),
            parts@.len() == parts_v.len(),
            forall|i: int| 0 <= i < parts@.len() ==> (#[trigger] parts@[i])@ == parts_v[i],
            slash_position(parts_v, 0) == slash_i,
            slash_i == match slash {
                Some(x) => x as int,
                None => -1,
            },
            facts@.map_values(|p: ParameterFacts| p@) + parameters_from(
                parts_v,
                slash_i,
                k as int,
                keyword_only,
            ) == parameters_from(parts_v, slash_i, 0, false),
        decreases parts@.len() - k,
    {
        let raw = trim_chars(parts[k].as_slice());
        let ghost old_facts = facts@.map_values(|p: ParameterFacts| p@);
        if raw.len() == 0 || chars_eq(raw.as_slice(), "/") {
            k = k + 1;
            continue;
        }
        if chars_eq(raw.as_slice(), "*") {
            keyword_only = true;
            k = k + 1;
            continue;
        }
        let double = chars_start_with(raw.as_slice(), "**");
        let single = chars_start_with(raw.as_slice(), "*");
        proof {
            reveal_strlit("**");
            reveal_strlit("*");
        }
        let ghost kw_before = keyword_only;
        let (kind, text) = if double {
            (ParameterKind::KwArgs, slice_chars(raw.as_slice(), 2, raw.len()))
        } else if single {
            keyword_only = true;
            (ParameterKind::VarArgs, slice_chars(raw.as_slice(), 1, raw.len()))
        } else {
            let positional_only = match slash {
                Some(x) => k < x,
                None => false,
            };
            if positional_only {
                (ParameterKind::PositionalOnly, raw)
            } else if keyword_only {
                (ParameterKind::KeywordOnly, raw)
            } else {
                (ParameterKind::PositionalOrKeyword, raw)
            }
        };
        let (without_default, default_value) = split_and_normalize(text.as_slice(), '=');
        let (name, annotation) = split_and_normalize(without_default.as_slice(), ':');
        proof {
            assert(parameters_from(parts_v, slash_i, k as int, kw_before) == match parameter_of(
                kind,
                text@,
            ) {
                Some(p) => seq![p] + parameters_from(parts_v, slash_i, k + 1, keyword_only),
                None => parameters_from(parts_v, slash_i, k + 1, keyword_only),
            });
        }
        if name.len() == 0 {
            k = k + 1;
            continue;
        }
        let has_default = default_value.is_some();
        let p = ParameterFacts {
            name: string_from_chars(name.as_slice()),
            kind,
            has_default,
            default_value,
            annotation,
        };
        facts.push(p);
        proof {
            assert(facts@.map_values(|p: ParameterFacts| p@) =~= old_facts.push(p@));
            assert(old_facts.push(p@) + parameters_from(parts_v, slash_i, k + 1, keyword_only)
                =~= old_facts + (seq![p@] + parameters_from(parts_v, slash_i, k + 1, keyword_only)));
        }
        k = k + 1;
    }
    proof {
        assert(facts@.map_values(|p: ParameterFacts| p@) =~= facts@.map_values(
            |p: ParameterFacts| p@,
        ) + parameters_from(parts_v, slash_i, k as int, keyword_only));
    }
    facts
}

/// The return annotation of a signature.
pub fn return_annotation_text(sig: &[char]) -> (r: Option<String>)
    ensures
        match r {
            Some(a) => return_annotation_spec(sig@) == Some(a@),
            None => return_annotation_spec(sig@) is None,
        },
{
    proof {
        lemma_last_index_of(sig@, ')');
    }
    let close = match find_last(sig, ')') {
        Some(c) => c,
        None => {
            return None;
        },
    };
    let rest = slice_chars(sig, close + 1, sig.len());
    let after = trim_chars(rest.as_slice());
    let arrow = chars_start_with(after.as_slice(), "->");
    if !arrow {
        return None;
    }
    proof {
        reveal_strlit("->");
    }
    let body = slice_chars(after.as_slice(), 2, after.len());
    let trimmed = trim_chars(body.as_slice());
    let mut end: usize = trimmed.len();
    proof {
        assert(trimmed@.subrange(0, end as int) =~= trimmed@);
    }
    while end > 0 && trimmed[end - 1] == ':'
        invariant
            0 <= end <= trimmed@.len(),
            strip_trailing_colons(trimmed@) == strip_trailing_colons(trimmed@.subrange(0, end as int)),
        decreases end,
    {
        proof {
            assert(trimmed@.subrange(0, end as int).drop_last() =~= trimmed@.subrange(0, end - 1));
        }
        end = end - 1;
    }
    let stripped = slice_chars(trimmed.as_slice(), 0, end);
    let ann = trim_chars(stripped.as_slice());
    if ann.len() == 0 {
        None
    } else {
        Some(normalize_fragment(ann.as_slice()))
    }
}

/// The text between the first `(` and the last `)` of a signature.
pub fn parameter_text(sig: &[char]) -> (r: Option<Vec<char>>)
    ensures
        match r {
            Some(p) => parameter_text_spec(sig@) == Some(p@),
            None => parameter_text_spec(sig@) is None,
        },
{
    proof {
        lemma_first_index_of(sig@, '(');
        lemma_last_index_of(sig@, ')');
    }
    match (find_first(sig, '('), find_last(sig, ')')) {
        (Some(open), Some(close)) => {
            if open + 1 <= close {
                Some(slice_chars(sig, open + 1, close))
            } else {
                None
            }
        },
        _ => None,
    }
}

/// The structured facts of a signature text.
pub fn signature_facts(signature: &str) -> (r: FunctionSignatureFacts)
    ensures
        r@ == signature_facts_spec(signature@),
{
    let sig = chars_of(signature);
    let parameters = match parameter_text(sig.as_slice()) {
        Some(p) => parse_parameters(p.as_slice()),
        None => Vec::new(),
    };
    let r = FunctionSignatureFacts {
        is_async: starts_with(signature, "async def "),
        parameters,
        return_annotation: return_annotation_text(sig.as_slice()),
    };
    proof {
        assert(r@.parameters =~= signature_facts_spec(signature@).parameters);
    }
    r
}

} // verus!
