//! Character-level helpers shared by the whole crate: conversions between
//! strings and character vectors, the two lexicographic orders used to keep
//! sorted sets (plain text and repository paths), and small text predicates.
use vstd::prelude::*;

verus! {

/// The characters of `s`, in order (`str::chars` collected into a vector).
#[verifier::external_body]
pub(crate) fn chars_of(s: &str) -> (v: Vec<char>)
    ensures
        v@ == s@,
{
    s.chars().collect()
}

/// A string made of the given characters (`Iterator::collect` into `String`).
#[verifier::external_body]
pub(crate) fn string_from_chars(v: &[char]) -> (s: String)
    ensures
        s@ == v@,
{
    v.iter().collect()
}

/// A fresh copy of a string slice.
pub fn owned(s: &str) -> (r: String)
    ensures
        r@ == s@,
{
    s.to_owned()
}

/// `a` followed by `b`.
pub fn concat2(a: &str, b: &str) -> (r: String)
    ensures
        r@ == a@ + b@,
{
    let mut r = owned(a);
    r.append(b);
    r
}

/// `a`, `b` and `c` in sequence.
pub fn concat3(a: &str, b: &str, c: &str) -> (r: String)
    ensures
        r@ == a@ + b@ + c@,
{
    let mut r = owned(a);
    r.append(b);
    r.append(c);
    r
}

/// Rank of a character in an order; in path mode `/` sorts before every
/// other character, so that paths compare component by component.
pub open spec fn rank(c: char, path: bool) -> int {
    if path && c == '/' {
        -1
    } else {
        c as u32 as int
    }
}

/// Strict lexicographic order on character sequences.  In path mode the
/// separator `/` ranks lowest, which orders `/`-separated paths (without
/// empty components) exactly as a component-by-component comparison does.
pub open spec fn lex_lt(a: Seq<char>, b: Seq<char>, path: bool) -> bool {
    exists|k: int| #[trigger] lex_witness(a, b, path, k)
}

/// `k` is the first position at which `a` is found to precede `b`.
pub open spec fn lex_witness(a: Seq<char>, b: Seq<char>, path: bool, k: int) -> bool {
    &&& 0 <= k <= a.len()
    &&& k <= b.len()
    &&& forall|i: int| 0 <= i < k ==> a[i] == b[i]
    &&& (k == a.len() && k < b.len()) || (k < a.len() && k < b.len() && rank(a[k], path) < rank(
        b[k],
        path,
    ))
}

/// Strict lexicographic order is irreflexive.
pub proof fn lemma_lex_irreflexive(a: Seq<char>, path: bool)
    ensures
        !lex_lt(a, a, path),
{
    if lex_lt(a, a, path) {
        let k = choose|k: int| #[trigger] lex_witness(a, a, path, k);
        assert(lex_witness(a, a, path, k));
    }
}

/// Rank is injective on characters.
pub proof fn lemma_rank_injective(c: char, d: char, path: bool)
    ensures
        rank(c, path) == rank(d, path) ==> c == d,
{
    if rank(c, path) == rank(d, path) {
        if path && c == '/' {
            assert(d == '/') by {
                if d != '/' {
                    assert(d as int >= 0);
                }
            }
        } else if path && d == '/' {
            assert(c as int >= 0);
        } else {
            assert(c as u32 == d as u32);
        }
    }
}

/// Strict lexicographic order is transitive.
pub proof fn lemma_lex_transitive(a: Seq<char>, b: Seq<char>, c: Seq<char>, path: bool)
    requires
        lex_lt(a, b, path),
        lex_lt(b, c, path),
    ensures
        lex_lt(a, c, path),
{
    let k1 = choose|k: int| #[trigger] lex_witness(a, b, path, k);
    let k2 = choose|k: int| #[trigger] lex_witness(b, c, path, k);
    assert(lex_witness(a, b, path, k1));
    assert(lex_witness(b, c, path, k2));
    if k1 < k2 {
        assert(lex_witness(a, c, path, k1));
    } else if k2 < k1 {
        assert(a[k2] == b[k2]);
        assert(lex_witness(a, c, path, k2));
    } else {
        assert(lex_witness(a, c, path, k1));
    }
}

/// Strict lexicographic order is asymmetric.
pub proof fn lemma_lex_asymmetric(a: Seq<char>, b: Seq<char>, path: bool)
    requires
        lex_lt(a, b, path),
    ensures
        !lex_lt(b, a, path),
{
    if lex_lt(b, a, path) {
        lemma_lex_transitive(a, b, a, path);
        lemma_lex_irreflexive(a, path);
    }
}

/// Three-way comparison of two character sequences in the given order:
/// negative, zero or positive as `a` precedes, equals or follows `b`.
pub fn lex_order(a: &[char], b: &[char], path: bool) -> (r: i8)
    ensures
        r < 0 <==> lex_lt(a@, b@, path),
        r == 0 <==> a@ == b@,
        r > 0 <==> lex_lt(b@, a@, path),
        -1 <= r <= 1,
{
    let mut i: usize = 0;
    while i < a.len() && i < b.len()
        invariant
            0 <= i <= a.len(),
            i <= b.len(),
            forall|j: int| 0 <= j < i ==> a@[j] == b@[j],
        decreases a.len() - i,
    {
        let ca = a[i];
        let cb = b[i];
        if ca != cb {
            let ra: i64 = if path && ca == '/' {
                -1
            } else {
                ca as u32 as i64
            };
            let rb: i64 = if path && cb == '/' {
                -1
            } else {
                cb as u32 as i64
            };
            proof {
                lemma_rank_injective(ca, cb, path);
                assert(ra == rank(ca, path));
                assert(rb == rank(cb, path));
            }
            if ra < rb {
                proof {
                    assert(lex_witness(a@, b@, path, i as int));
                    lemma_lex_asymmetric(a@, b@, path);
                }
                return -1;
            } else {
                proof {
                    assert(lex_witness(b@, a@, path, i as int));
                    lemma_lex_asymmetric(b@, a@, path);
                }
                return 1;
            }
        }
        i = i + 1;
    }
    if a.len() < b.len() {
        proof {
            assert(lex_witness(a@, b@, path, i as int));
            lemma_lex_asymmetric(a@, b@, path);
        }
        -1
    } else if b.len() < a.len() {
        proof {
            assert(lex_witness(b@, a@, path, i as int));
            lemma_lex_asymmetric(b@, a@, path);
        }
        1
    } else {
        proof {
            assert(a@ =~= b@);
            lemma_lex_irreflexive(a@, path);
        }
        0
    }
}

/// Three-way comparison of two strings in the given order.
pub fn str_order(a: &str, b: &str, path: bool) -> (r: i8)
    ensures
        r < 0 <==> lex_lt(a@, b@, path),
        r == 0 <==> a@ == b@,
        r > 0 <==> lex_lt(b@, a@, path),
        -1 <= r <= 1,
{
    let va = chars_of(a);
    let vb = chars_of(b);
    lex_order(va.as_slice(), vb.as_slice(), path)
}

/// Whether two strings hold the same characters.
pub fn str_eq(a: &str, b: &str) -> (r: bool)
    ensures
        r == (a@ == b@),
{
    str_order(a, b, false) == 0
}

/// The views of a sequence of strings.
pub open spec fn views(v: Seq<String>) -> Seq<Seq<char>> {
    Seq::new(v.len(), |i: int| v[i]@)
}

/// The views of a sequence of string slices.
pub open spec fn strs_view(v: Seq<&str>) -> Seq<Seq<char>> {
    Seq::new(v.len(), |i: int| v[i]@)
}

/// A sequence of character sequences is strictly increasing in the order.
pub open spec fn strictly_sorted(s: Seq<Seq<char>>, path: bool) -> bool {
    forall|i: int, j: int| 0 <= i < j < s.len() ==> lex_lt(#[trigger] s[i], #[trigger] s[j], path)
}

/// Strict sortedness follows from strict sortedness of neighbours.
pub proof fn lemma_sorted_from_neighbours(s: Seq<Seq<char>>, path: bool)
    requires
        forall|i: int| 0 <= i < s.len() - 1 ==> lex_lt(#[trigger] s[i], s[i + 1], path),
    ensures
        strictly_sorted(s, path),
    decreases s.len(),
{
    if s.len() > 1 {
        let t = s.drop_last();
        assert forall|i: int| 0 <= i < t.len() - 1 implies lex_lt(#[trigger] t[i], t[i + 1], path) by {
            assert(t[i] == s[i] && t[i + 1] == s[i + 1]);
        }
        lemma_sorted_from_neighbours(t, path);
        assert forall|i: int, j: int| 0 <= i < j < s.len() implies lex_lt(
            #[trigger] s[i],
            #[trigger] s[j],
            path,
        ) by {
            if j < s.len() - 1 {
                assert(t[i] == s[i] && t[j] == s[j]);
            } else if i < j - 1 {
                assert(t[i] == s[i] && t[j - 1] == s[j - 1]);
                lemma_lex_transitive(s[i], s[j - 1], s[j], path);
            }
        }
    }
}

/// Inserts `x` into a strictly sorted vector of strings, keeping it strictly
/// sorted; nothing changes when `x` is already present.
pub fn insert_sorted(v: &mut Vec<String>, x: String, path: bool)
    requires
        strictly_sorted(views(old(v)@), path),
    ensures
        strictly_sorted(views(final(v)@), path),
        views(final(v)@).to_set() == views(old(v)@).to_set().insert(x@),
        views(old(v)@).contains(x@) ==> final(v)@ == old(v)@,
{
    let ghost old_views = views(v@);
    let mut i: usize = 0;
    while i < v.len()
        invariant
            0 <= i <= v.len(),
            v@ == old(v)@,
            old_views == views(v@),
            strictly_sorted(old_views, path),
            forall|j: int| 0 <= j < i ==> lex_lt(#[trigger] old_views[j], x@, path),
        ensures
            0 <= i <= v.len(),
            v@ == old(v)@,
            forall|j: int| 0 <= j < i ==> lex_lt(#[trigger] old_views[j], x@, path),
            i < v.len() ==> lex_lt(x@, old_views[i as int], path),
        decreases v.len() - i,
    {
        let c = str_order(v[i].as_str(), x.as_str(), path);
        if c == 0 {
            proof {
                assert(old_views[i as int] == x@);
                assert(views(v@).to_set().insert(x@) =~= views(v@).to_set());
            }
            return ;
        }
        if c > 0 {
            break;
        }
        i = i + 1;
    }
    v.insert(i, x);
    proof {
        let nv = views(v@);
        assert(nv =~= old_views.insert(i as int, x@));
        assert forall|a: int, b: int| 0 <= a < b < nv.len() implies lex_lt(
            #[trigger] nv[a],
            #[trigger] nv[b],
            path,
        ) by {
            if b < i {
                assert(nv[a] == old_views[a] && nv[b] == old_views[b]);
            } else if b == i {
                assert(nv[a] == old_views[a]);
            } else if a == i {
                assert(nv[b] == old_views[b - 1]);
                if b - 1 > i {
                    assert(lex_lt(old_views[i as int], old_views[b - 1], path));
                    lemma_lex_transitive(x@, old_views[i as int], old_views[b - 1], path);
                }
            } else if a < i {
                assert(nv[a] == old_views[a] && nv[b] == old_views[b - 1]);
            } else {
                assert(nv[a] == old_views[a - 1] && nv[b] == old_views[b - 1]);
            }
        }
        assert(nv.to_set() =~= old_views.to_set().insert(x@)) by {
            assert forall|e: Seq<char>| nv.to_set().contains(e) implies old_views.to_set().insert(
                x@,
            ).contains(e) by {
                let k = choose|k: int| 0 <= k < nv.len() && nv[k] == e;
                if k < i {
                    assert(old_views[k] == e);
                } else if k > i {
                    assert(old_views[k - 1] == e);
                }
            }
            assert forall|e: Seq<char>| old_views.to_set().insert(x@).contains(e) implies nv.to_set().contains(e) by {
                if e == x@ {
                    assert(nv[i as int] == e);
                } else {
                    let k = choose|k: int| 0 <= k < old_views.len() && old_views[k] == e;
                    if k < i {
                        assert(nv[k] == e);
                    } else {
                        assert(nv[k + 1] == e);
                    }
                }
            }
        }
        if old_views.contains(x@) {
            let k = choose|k: int| 0 <= k < old_views.len() && old_views[k] == x@;
            if k < i {
                lemma_lex_irreflexive(x@, path);
            } else {
                if k > i {
                    lemma_lex_transitive(x@, old_views[i as int], old_views[k], path);
                }
                lemma_lex_irreflexive(x@, path);
            }
        }
    }
}

/// Whether a strictly sorted vector holds `x` (binary search is not needed;
/// the sets are small).
pub fn contains_str(v: &Vec<String>, x: &str) -> (r: bool)
    ensures
        r == views(v@).contains(x@),
{
    let mut i: usize = 0;
    while i < v.len()
        invariant
            0 <= i <= v.len(),
            forall|j: int| 0 <= j < i ==> v@[j]@ != x@,
        decreases v.len() - i,
    {
        if str_eq(v[i].as_str(), x) {
            proof {
                assert(views(v@)[i as int] == x@);
            }
            return true;
        }
        i = i + 1;
    }
    proof {
        if views(v@).contains(x@) {
            let k = choose|k: int| 0 <= k < views(v@).len() && views(v@)[k] == x@;
            assert(v@[k]@ == x@);
        }
    }
    false
}


/// Index of the last occurrence of `c` in `s`, or -1.
pub open spec fn last_index_of(s: Seq<char>, c: char) -> int
    decreases s.len(),
{
    if s.len() == 0 {
        -1
    } else if s.last() == c {
        s.len() - 1
    } else {
        last_index_of(s.drop_last(), c)
    }
}

/// Index of the first occurrence of `c` in `s`, or -1.
pub open spec fn first_index_of(s: Seq<char>, c: char) -> int
    decreases s.len(),
{
    if s.len() == 0 {
        -1
    } else if s[0] == c {
        0
    } else if first_index_of(s.drop_first(), c) < 0 {
        -1
    } else {
        first_index_of(s.drop_first(), c) + 1
    }
}

/// What the last-occurrence index means.
pub proof fn lemma_last_index_of(s: Seq<char>, c: char)
    ensures
        -1 <= last_index_of(s, c) < s.len(),
        last_index_of(s, c) >= 0 ==> s[last_index_of(s, c)] == c,
        forall|j: int| last_index_of(s, c) < j < s.len() ==> s[j] != c,
    decreases s.len(),
{
    if s.len() > 0 && s.last() != c {
        lemma_last_index_of(s.drop_last(), c);
        assert forall|j: int| last_index_of(s, c) < j < s.len() implies s[j] != c by {
            if j < s.len() - 1 {
                assert(s.drop_last()[j] == s[j]);
            }
        }
    }
}

/// What the first-occurrence index means.
pub proof fn lemma_first_index_of(s: Seq<char>, c: char)
    ensures
        -1 <= first_index_of(s, c) < s.len(),
        first_index_of(s, c) >= 0 ==> s[first_index_of(s, c)] == c,
        forall|j: int|
            0 <= j < s.len() && (first_index_of(s, c) < 0 || j < first_index_of(s, c)) ==> s[j]
                != c,
    decreases s.len(),
{
    if s.len() > 0 && s[0] != c {
        lemma_first_index_of(s.drop_first(), c);
        assert forall|j: int|
            0 <= j < s.len() && (first_index_of(s, c) < 0 || j < first_index_of(
                s,
                c,
            )) implies s[j] != c by {
            if j > 0 {
                assert(s.drop_first()[j - 1] == s[j]);
            }
        }
    }
}

/// The last index of `c` in `s`, if any.
pub fn find_last(s: &[char], c: char) -> (r: Option<usize>)
    ensures
        match r {
            Some(i) => i == last_index_of(s@, c) && i < s.len() && s@[i as int] == c,
            None => last_index_of(s@, c) == -1,
        },
{
    proof {
        lemma_last_index_of(s@, c);
    }
    let mut i = s.len();
    while i > 0
        invariant
            0 <= i <= s.len(),
            forall|j: int| i <= j < s.len() ==> s@[j] != c,
        decreases i,
    {
        if s[i - 1] == c {
            proof {
                lemma_last_index_back(s@, c, (i - 1) as int);
            }
            return Some(i - 1);
        }
        i = i - 1;
    }
    proof {
        lemma_last_index_none(s@, c);
    }
    None
}

proof fn lemma_last_index_back(s: Seq<char>, c: char, k: int)
    requires
        0 <= k < s.len(),
        s[k] == c,
        forall|j: int| k < j < s.len() ==> s[j] != c,
    ensures
        last_index_of(s, c) == k,
    decreases s.len(),
{
    if k < s.len() - 1 {
        lemma_last_index_back(s.drop_last(), c, k);
    }
}

proof fn lemma_last_index_none(s: Seq<char>, c: char)
    requires
        forall|j: int| 0 <= j < s.len() ==> s[j] != c,
    ensures
        last_index_of(s, c) == -1,
    decreases s.len(),
{
    if s.len() > 0 {
        lemma_last_index_none(s.drop_last(), c);
    }
}

/// The first index of `c` in `s`, if any.
pub fn find_first(s: &[char], c: char) -> (r: Option<usize>)
    ensures
        match r {
            Some(i) => i == first_index_of(s@, c) && i < s.len() && s@[i as int] == c,
            None => first_index_of(s@, c) == -1,
        },
{
    let mut i: usize = 0;
    while i < s.len()
        invariant
            0 <= i <= s.len(),
            forall|j: int| 0 <= j < i ==> s@[j] != c,
        decreases s.len() - i,
    {
        if s[i] == c {
            proof {
                lemma_first_index_at(s@, c, i as int);
            }
            return Some(i);
        }
        i = i + 1;
    }
    proof {
        lemma_first_index_at(s@, c, s@.len() as int);
    }
    None
}

proof fn lemma_first_index_at(s: Seq<char>, c: char, k: int)
    requires
        0 <= k <= s.len(),
        k < s.len() ==> s[k] == c,
        forall|j: int| 0 <= j < k ==> s[j] != c,
    ensures
        first_index_of(s, c) == (if k < s.len() { k } else { -1 }),
    decreases s.len(),
{
    if s.len() > 0 && k > 0 {
        lemma_first_index_at(s.drop_first(), c, k - 1);
    }
}

/// `p` is a prefix of `s`.
pub open spec fn has_prefix(s: Seq<char>, p: Seq<char>) -> bool {
    p.len() <= s.len() && s.subrange(0, p.len() as int) == p
}

/// `p` is a suffix of `s`.
pub open spec fn has_suffix(s: Seq<char>, p: Seq<char>) -> bool {
    p.len() <= s.len() && s.subrange(s.len() - p.len(), s.len() as int) == p
}

/// `p` occurs somewhere in `s`.
pub open spec fn has_infix(s: Seq<char>, p: Seq<char>) -> bool {
    exists|k: int| 0 <= k <= s.len() - p.len() && #[trigger] s.subrange(k, k + p.len()) == p
}

/// Whether `p` occurs in `s` at position `k`.
pub fn occurs_at(s: &[char], p: &[char], k: usize) -> (r: bool)
    requires
        k <= s.len(),
    ensures
        r == (k + p.len() <= s.len() && s@.subrange(k as int, k + p.len()) == p@),
{
    if p.len() > s.len() - k {
        return false;
    }
    let mut i: usize = 0;
    while i < p.len()
        invariant
            0 <= i <= p.len(),
            k + p.len() <= s.len(),
            forall|j: int| 0 <= j < i ==> s@[k + j] == p@[j],
        decreases p.len() - i,
    {
        if s[k + i] != p[i] {
            proof {
                assert(s@.subrange(k as int, k + p.len())[i as int] != p@[i as int]);
            }
            return false;
        }
        i = i + 1;
    }
    proof {
        assert(s@.subrange(k as int, k + p.len()) =~= p@);
    }
    true
}

/// Whether `s` starts with `p`.
pub fn starts_with(s: &str, p: &str) -> (r: bool)
    ensures
        r == has_prefix(s@, p@),
{
    let vs = chars_of(s);
    let vp = chars_of(p);
    occurs_at(vs.as_slice(), vp.as_slice(), 0)
}

/// Whether `s` ends with `p`.
pub fn ends_with(s: &str, p: &str) -> (r: bool)
    ensures
        r == has_suffix(s@, p@),
{
    let vs = chars_of(s);
    let vp = chars_of(p);
    if vp.len() > vs.len() {
        return false;
    }
    occurs_at(vs.as_slice(), vp.as_slice(), vs.len() - vp.len())
}

/// Whether `p` occurs in `s`.
pub fn contains_text(s: &str, p: &str) -> (r: bool)
    ensures
        r == has_infix(s@, p@),
{
    let vs = chars_of(s);
    let vp = chars_of(p);
    if vp.len() > vs.len() {
        return false;
    }
    let limit = vs.len() - vp.len();
    let mut k: usize = 0;
    loop
        invariant
            vp.len() <= vs.len(),
            limit == vs.len() - vp.len(),
            vs@ == s@,
            vp@ == p@,
            0 <= k <= limit,
            forall|j: int| 0 <= j < k ==> #[trigger] s@.subrange(j, j + p@.len()) != p@,
        decreases limit - k,
    {
        if occurs_at(vs.as_slice(), vp.as_slice(), k) {
            return true;
        }
        if k == limit {
            return false;
        }
        k = k + 1;
    }
}

/// The characters of `s` from `start` (inclusive) to `end` (exclusive).
pub fn substring(s: &[char], start: usize, end: usize) -> (r: String)
    requires
        start <= end <= s.len(),
    ensures
        r@ == s@.subrange(start as int, end as int),
{
    let mut v: Vec<char> = Vec::new();
    let mut i = start;
    while i < end
        invariant
            start <= i <= end <= s.len(),
            v@ == s@.subrange(start as int, i as int),
        decreases end - i,
    {
        v.push(s[i]);
        i = i + 1;
        proof {
            assert(v@ =~= s@.subrange(start as int, i as int));
        }
    }
    string_from_chars(v.as_slice())
}


/// The pieces of `s` between occurrences of `c` (as `str::split` yields them).
pub open spec fn split_spec(s: Seq<char>, c: char) -> Seq<Seq<char>>
    decreases s.len(),
{
    if first_index_of(s, c) < 0 {
        seq![s]
    } else {
        proof {
            lemma_first_index_of(s, c);
        }
        seq![s.subrange(0, first_index_of(s, c))] + split_spec(
            s.subrange(first_index_of(s, c) + 1, s.len() as int),
            c,
        )
    }
}

/// Splits `s` at every occurrence of `c`.
pub fn split_chars(s: &[char], c: char) -> (r: Vec<String>)
    ensures
        views(r@) == split_spec(s@, c),
{
    let mut r: Vec<String> = Vec::new();
    let mut start: usize = 0;
    let mut i: usize = 0;
    proof {
        assert(s@.subrange(0, s@.len() as int) =~= s@);
        assert(views(r@) =~= Seq::<Seq<char>>::empty());
    }
    while i < s.len()
        invariant
            0 <= start <= i <= s.len(),
            views(r@) + split_spec(s@.subrange(start as int, s.len() as int), c) == split_spec(
                s@,
                c,
            ),
            forall|j: int| start <= j < i ==> s@[j] != c,
        decreases s.len() - i,
    {
        if s[i] == c {
            let ghost rest = s@.subrange(start as int, s.len() as int);
            proof {
                assert forall|j: int| 0 <= j < i - start implies rest[j] != c by {
                    assert(rest[j] == s@[start + j]);
                }
                lemma_first_index_at(rest, c, (i - start) as int);
                assert(rest.subrange(0, (i - start) as int) =~= s@.subrange(
                    start as int,
                    i as int,
                ));
                assert(rest.subrange((i - start) + 1, rest.len() as int) =~= s@.subrange(
                    i + 1,
                    s.len() as int,
                ));
            }
            let piece = substring(s, start, i);
            r.push(piece);
            start = i + 1;
            proof {
                assert(views(r@) =~= views(r@.drop_last()).push(piece@)) by {
                    assert(views(r@).len() == r@.len());
                }
            }
        }
        i = i + 1;
    }
    proof {
        let rest = s@.subrange(start as int, s.len() as int);
        lemma_first_index_at(rest, c, rest.len() as int);
    }
    let last = substring(s, start, s.len());
    r.push(last);
    proof {
        assert(views(r@) =~= views(r@.drop_last()).push(last@));
    }
    r
}

/// The lines of `s` as `str::lines` yields them: pieces between `\n`, a
/// trailing `\r` removed from each, and no final empty piece.
pub open spec fn lines_spec(s: Seq<char>) -> Seq<Seq<char>> {
    let pieces = split_spec(s, '\n');
    let kept = if pieces.last().len() == 0 {
        pieces.drop_last()
    } else {
        pieces
    };
    kept.map_values(|l: Seq<char>| strip_cr(l))
}

/// A line without its trailing carriage return.
pub open spec fn strip_cr(l: Seq<char>) -> Seq<char> {
    if l.len() > 0 && l.last() == '\r' {
        l.drop_last()
    } else {
        l
    }
}

/// The lines of a text.
pub fn lines(s: &str) -> (r: Vec<String>)
    ensures
        views(r@) == lines_spec(s@),
{
    let v = chars_of(s);
    let pieces = split_chars(v.as_slice(), '\n');
    proof {
        lemma_split_nonempty(v@, '\n');
    }
    let mut keep = pieces.len();
    if pieces[pieces.len() - 1].as_str().is_empty() {
        keep = keep - 1;
    }
    proof {
        assert(pieces[pieces.len() - 1]@.len() == 0 <==> views(pieces@).last().len() == 0) by {
            assert(views(pieces@).last() == pieces[pieces.len() - 1]@);
        }
    }
    let ghost kept = if views(pieces@).last().len() == 0 {
        views(pieces@).drop_last()
    } else {
        views(pieces@)
    };
    let mut r: Vec<String> = Vec::new();
    let mut i: usize = 0;
    while i < keep
        invariant
            0 <= i <= keep <= pieces.len(),
            kept.len() == keep,
            forall|j: int| 0 <= j < keep ==> kept[j] == pieces@[j]@,
            views(r@) == kept.subrange(0, i as int).map_values(|l: Seq<char>| strip_cr(l)),
        decreases keep - i,
    {
        let p = chars_of(pieces[i].as_str());
        let line = if p.len() > 0 && p[p.len() - 1] == '\r' {
            substring(p.as_slice(), 0, p.len() - 1)
        } else {
            substring(p.as_slice(), 0, p.len())
        };
        proof {
            assert(line@ == strip_cr(kept[i as int])) by {
                assert(p@.subrange(0, p@.len() as int) =~= p@);
            }
        }
        let ghost before = views(r@);
        r.push(line);
        i = i + 1;
        proof {
            assert(views(r@) =~= before.push(line@));
            assert(kept.subrange(0, i as int) =~= kept.subrange(0, i - 1).push(kept[i - 1]));
            assert(views(r@) =~= kept.subrange(0, i as int).map_values(
                |l: Seq<char>| strip_cr(l),
            ));
        }
    }
    proof {
        assert(kept.subrange(0, keep as int) =~= kept);
    }
    r
}

/// Splitting always yields at least one piece.
pub proof fn lemma_split_nonempty(s: Seq<char>, c: char)
    ensures
        split_spec(s, c).len() >= 1,
    decreases s.len(),
{
    if first_index_of(s, c) >= 0 {
        lemma_first_index_of(s, c);
        lemma_split_nonempty(s.subrange(first_index_of(s, c) + 1, s.len() as int), c);
    }
}


/// Unicode white space, as `char::is_whitespace` defines it.
pub open spec fn is_ws(c: char) -> bool {
    ||| c == '\t'
    ||| c == '\n'
    ||| c == '\u{0B}'
    ||| c == '\u{0C}'
    ||| c == '\r'
    ||| c == ' '
    ||| c == '\u{85}'
    ||| c == '\u{A0}'
    ||| c == '\u{1680}'
    ||| ('\u{2000}' <= c && c <= '\u{200A}')
    ||| c == '\u{2028}'
    ||| c == '\u{2029}'
    ||| c == '\u{202F}'
    ||| c == '\u{205F}'
    ||| c == '\u{3000}'
}

/// Whether `c` is white space.
pub fn is_whitespace(c: char) -> (r: bool)
    ensures
        r == is_ws(c),
{
    c == '\t' || c == '\n' || c == '\u{0B}' || c == '\u{0C}' || c == '\r' || c == ' ' || c
        == '\u{85}' || c == '\u{A0}' || c == '\u{1680}' || ('\u{2000}' <= c && c <= '\u{200A}')
        || c == '\u{2028}' || c == '\u{2029}' || c == '\u{202F}' || c == '\u{205F}' || c
        == '\u{3000}'
}

/// Number of leading white-space characters.
pub open spec fn lead_ws(s: Seq<char>) -> int
    decreases s.len(),
{
    if s.len() > 0 && is_ws(s[0]) {
        1 + lead_ws(s.drop_first())
    } else {
        0
    }
}

/// Number of trailing white-space characters.
pub open spec fn trail_ws(s: Seq<char>) -> int
    decreases s.len(),
{
    if s.len() > 0 && is_ws(s.last()) {
        1 + trail_ws(s.drop_last())
    } else {
        0
    }
}

/// `s` without leading and trailing white space (`str::trim`).
pub open spec fn trim_spec(s: Seq<char>) -> Seq<char> {
    if lead_ws(s) >= s.len() {
        Seq::empty()
    } else {
        s.subrange(lead_ws(s), s.len() - trail_ws(s))
    }
}

proof fn lemma_lead_ws_at(s: Seq<char>, k: int)
    requires
        0 <= k <= s.len(),
        forall|j: int| 0 <= j < k ==> is_ws(s[j]),
        k == s.len() || !is_ws(s[k]),
    ensures
        lead_ws(s) == k,
    decreases s.len(),
{
    if k > 0 {
        lemma_lead_ws_at(s.drop_first(), k - 1);
    }
}

proof fn lemma_trail_ws_at(s: Seq<char>, k: int)
    requires
        0 <= k <= s.len(),
        forall|j: int| s.len() - k <= j < s.len() ==> is_ws(s[j]),
        k == s.len() || !is_ws(s[s.len() - k - 1]),
    ensures
        trail_ws(s) == k,
    decreases s.len(),
{
    if k > 0 {
        lemma_trail_ws_at(s.drop_last(), k - 1);
    }
}

/// Positions of the first and one past the last non-white-space character.
pub fn trim_bounds(v: &[char]) -> (r: (usize, usize))
    ensures
        r.0 <= r.1 <= v.len(),
        v@.subrange(r.0 as int, r.1 as int) == trim_spec(v@),
{
    let mut a: usize = 0;
    while a < v.len() && is_whitespace(v[a])
        invariant
            0 <= a <= v.len(),
            forall|j: int| 0 <= j < a ==> is_ws(v@[j]),
        decreases v.len() - a,
    {
        a = a + 1;
    }
    proof {
        lemma_lead_ws_at(v@, a as int);
    }
    if a == v.len() {
        return (a, a);
    }
    let mut b: usize = v.len();
    while b > a && is_whitespace(v[b - 1])
        invariant
            a < v.len(),
            !is_ws(v@[a as int]),
            a <= b <= v.len(),
            forall|j: int| b <= j < v.len() ==> is_ws(v@[j]),
        decreases b,
    {
        b = b - 1;
    }
    proof {
        lemma_trail_ws_at(v@, (v.len() - b) as int);
    }
    (a, b)
}

/// `s` without leading and trailing white space.
pub fn trim(s: &str) -> (r: String)
    ensures
        r@ == trim_spec(s@),
{
    let v = chars_of(s);
    let (a, b) = trim_bounds(v.as_slice());
    substring(v.as_slice(), a, b)
}

/// Whether `s` is empty after trimming.
pub fn is_blank(s: &str) -> (r: bool)
    ensures
        r == (trim_spec(s@).len() == 0),
{
    let v = chars_of(s);
    let (a, b) = trim_bounds(v.as_slice());
    a == b
}


/// Filtering a sequence extended by one element.
pub proof fn lemma_push_filter<A>(s: Seq<A>, pred: spec_fn(A) -> bool, x: A)
    ensures
        s.push(x).filter(pred) == (if pred(x) {
            s.filter(pred).push(x)
        } else {
            s.filter(pred)
        }),
{
    reveal(Seq::filter);
    assert(s.push(x).drop_last() =~= s);
}


/// Filtering keeps strict sortedness, and keeps exactly the members that
/// satisfy the predicate.
pub proof fn lemma_filter_sorted(s: Seq<Seq<char>>, pred: spec_fn(Seq<char>) -> bool, path: bool)
    requires
        strictly_sorted(s, path),
    ensures
        strictly_sorted(s.filter(pred), path),
        s.filter(pred).to_set() == s.to_set().filter(pred),
    decreases s.len(),
{
    reveal(Seq::filter);
    if s.len() > 0 {
        let t = s.drop_last();
        assert forall|i: int, j: int| 0 <= i < j < t.len() implies lex_lt(
            #[trigger] t[i],
            #[trigger] t[j],
            path,
        ) by {
            assert(t[i] == s[i] && t[j] == s[j]);
        }
        lemma_filter_sorted(t, pred, path);
        let ft = t.filter(pred);
        if pred(s.last()) {
            let fs = ft.push(s.last());
            assert forall|i: int, j: int| 0 <= i < j < fs.len() implies lex_lt(
                #[trigger] fs[i],
                #[trigger] fs[j],
                path,
            ) by {
                if j < fs.len() - 1 {
                    assert(fs[i] == ft[i] && fs[j] == ft[j]);
                } else {
                    assert(ft.to_set().contains(ft[i]));
                    assert(t.to_set().contains(ft[i]));
                    let k = choose|k: int| 0 <= k < t.len() && t[k] == ft[i];
                    assert(s[k] == ft[i]);
                    assert(lex_lt(s[k], s[s.len() - 1], path));
                }
            }
        }
        assert(s.filter(pred).to_set() =~= s.to_set().filter(pred)) by {
            assert(s =~= t.push(s.last()));
            assert forall|e: Seq<char>| s.filter(pred).to_set().contains(e) implies s.to_set().filter(
                pred,
            ).contains(e) by {
                if e != s.last() || !pred(s.last()) {
                    assert(ft.to_set().contains(e)) by {
                        let k = choose|k: int|
                            0 <= k < s.filter(pred).len() && s.filter(pred)[k] == e;
                        if pred(s.last()) {
                            assert(k < ft.len());
                            assert(ft[k] == e);
                        } else {
                            assert(ft[k] == e);
                        }
                    }
                    assert(t.to_set().filter(pred).contains(e));
                    let k2 = choose|k: int| 0 <= k < t.len() && t[k] == e;
                    assert(s[k2] == e);
                }
            }
            assert forall|e: Seq<char>| s.to_set().filter(pred).contains(e) implies s.filter(
                pred,
            ).to_set().contains(e) by {
                let k = choose|k: int| 0 <= k < s.len() && s[k] == e;
                if k == s.len() - 1 {
                    assert(s.filter(pred)[s.filter(pred).len() - 1] == e);
                } else {
                    assert(t[k] == e);
                    assert(t.to_set().filter(pred).contains(e));
                    assert(ft.to_set().contains(e));
                    let k2 = choose|k2: int| 0 <= k2 < ft.len() && ft[k2] == e;
                    assert(s.filter(pred)[k2] == e);
                }
            }
        }
    } else {
        assert(s.to_set().filter(pred) =~= Set::empty());
        assert(s.filter(pred).to_set() =~= Set::empty());
    }
}

/// Two strictly sorted sequences with the same members are equal.
pub proof fn lemma_sorted_unique(a: Seq<Seq<char>>, b: Seq<Seq<char>>, path: bool)
    requires
        strictly_sorted(a, path),
        strictly_sorted(b, path),
        a.to_set() == b.to_set(),
    ensures
        a == b,
    decreases a.len() + b.len(),
{
    if a.len() == 0 {
        if b.len() > 0 {
            assert(b.to_set().contains(b[0]));
        }
        assert(a =~= b);
    } else if b.len() == 0 {
        assert(a.to_set().contains(a[0]));
    } else {
        let la = a.last();
        let lb = b.last();
        assert(a.to_set().contains(la));
        assert(b.to_set().contains(lb));
        let ka = choose|k: int| 0 <= k < b.len() && b[k] == la;
        let kb = choose|k: int| 0 <= k < a.len() && a[k] == lb;
        if la != lb {
            if kb < a.len() - 1 {
                assert(lex_lt(lb, la, path));
                if ka < b.len() - 1 {
                    assert(lex_lt(la, lb, path));
                    lemma_lex_asymmetric(la, lb, path);
                }
            } else {
                assert(a[a.len() - 1] == lb);
            }
        }
        assert(la == lb);
        let ta = a.drop_last();
        let tb = b.drop_last();
        assert forall|i: int, j: int| 0 <= i < j < ta.len() implies lex_lt(
            #[trigger] ta[i],
            #[trigger] ta[j],
            path,
        ) by {
            assert(ta[i] == a[i] && ta[j] == a[j]);
        }
        assert forall|i: int, j: int| 0 <= i < j < tb.len() implies lex_lt(
            #[trigger] tb[i],
            #[trigger] tb[j],
            path,
        ) by {
            assert(tb[i] == b[i] && tb[j] == b[j]);
        }
        assert(ta.to_set() =~= tb.to_set()) by {
            assert forall|e: Seq<char>| ta.to_set().contains(e) implies tb.to_set().contains(e) by {
                let k = choose|k: int| 0 <= k < ta.len() && ta[k] == e;
                assert(a[k] == e);
                assert(lex_lt(e, la, path));
                assert(b.to_set().contains(e));
                let k2 = choose|k2: int| 0 <= k2 < b.len() && b[k2] == e;
                if k2 == b.len() - 1 {
                    lemma_lex_irreflexive(e, path);
                }
                assert(tb[k2] == e);
            }
            assert forall|e: Seq<char>| tb.to_set().contains(e) implies ta.to_set().contains(e) by {
                let k = choose|k: int| 0 <= k < tb.len() && tb[k] == e;
                assert(b[k] == e);
                assert(lex_lt(e, lb, path));
                assert(a.to_set().contains(e));
                let k2 = choose|k2: int| 0 <= k2 < a.len() && a[k2] == e;
                if k2 == a.len() - 1 {
                    lemma_lex_irreflexive(e, path);
                }
                assert(ta[k2] == e);
            }
        }
        lemma_sorted_unique(ta, tb, path);
        assert(a =~= ta.push(la));
        assert(b =~= tb.push(lb));
    }
}


/// The predicate "is (or, with `member` false, is not) in `set`".
pub open spec fn member_of(set: Set<Seq<char>>, member: bool) -> spec_fn(Seq<char>) -> bool {
    |p: Seq<char>| set.contains(p) == member
}

/// The strings of `v` that are (or are not) in `set`, in the order of `v`.
pub fn select_members(v: &Vec<String>, set: &Vec<String>, member: bool) -> (r: Vec<String>)
    ensures
        views(r@) == views(v@).filter(member_of(views(set@).to_set(), member)),
{
    let ghost pred = member_of(views(set@).to_set(), member);
    let ghost all = views(v@);
    let mut r: Vec<String> = Vec::new();
    let mut i: usize = 0;
    while i < v.len()
        invariant
            0 <= i <= v.len(),
            all == views(v@),
            pred == member_of(views(set@).to_set(), member),
            views(r@) == all.subrange(0, i as int).filter(pred),
        decreases v.len() - i,
    {
        proof {
            assert(all.subrange(0, i + 1) =~= all.subrange(0, i as int).push(all[i as int]));
            lemma_push_filter(all.subrange(0, i as int), pred, all[i as int]);
        }
        let found = contains_str(set, v[i].as_str());
        proof {
            assert(views(set@).contains(v@[i as int]@) == views(set@).to_set().contains(all[i as int]));
        }
        if found == member {
            let ghost before = views(r@);
            r.push(v[i].clone());
            proof {
                assert(views(r@) =~= before.push(all[i as int]));
            }
        }
        i = i + 1;
    }
    proof {
        assert(all.subrange(0, all.len() as int) =~= all);
    }
    r
}


/// `parts` joined by `sep`.
pub open spec fn join_spec(parts: Seq<Seq<char>>, sep: Seq<char>) -> Seq<char>
    decreases parts.len(),
{
    if parts.len() == 0 {
        Seq::empty()
    } else if parts.len() == 1 {
        parts[0]
    } else {
        join_spec(parts.drop_last(), sep) + sep + parts.last()
    }
}

/// `parts` joined by `sep`.
pub fn join_chars(parts: &Vec<Vec<char>>, sep: &[char]) -> (r: Vec<char>)
    ensures
        r@ == join_spec(Seq::new(parts@.len(), |i: int| parts@[i]@), sep@),
{
    let ghost pv = Seq::new(parts@.len(), |i: int| parts@[i]@);
    let mut r: Vec<char> = Vec::new();
    let mut i: usize = 0;
    while i < parts.len()
        invariant
            0 <= i <= parts@.len(),
            pv == Seq::new(parts@.len(), |i: int| parts@[i]@),
            r@ == join_spec(pv.subrange(0, i as int), sep@),
        decreases parts@.len() - i,
    {
        if i > 0 {
            let mut k: usize = 0;
            let ghost base = r@;
            while k < sep.len()
                invariant
                    0 <= k <= sep@.len(),
                    r@ == base + sep@.subrange(0, k as int),
                decreases sep@.len() - k,
            {
                r.push(sep[k]);
                k = k + 1;
                proof {
                    assert(r@ =~= base + sep@.subrange(0, k as int));
                }
            }
        }
        let part = &parts[i];
        let ghost base2 = r@;
        let mut k: usize = 0;
        while k < part.len()
            invariant
                0 <= k <= part@.len(),
                r@ == base2 + part@.subrange(0, k as int),
            decreases part@.len() - k,
        {
            r.push(part[k]);
            k = k + 1;
            proof {
                assert(r@ =~= base2 + part@.subrange(0, k as int));
            }
        }
        proof {
            let pre = pv.subrange(0, i as int);
            let post = pv.subrange(0, i + 1);
            assert(post.drop_last() =~= pre);
            assert(post.last() == part@);
            assert(part@.subrange(0, part@.len() as int) =~= part@);
            assert(sep@.subrange(0, sep@.len() as int) =~= sep@);
            if i == 0 {
                assert(post =~= seq![part@]);
            }
            assert(r@ =~= join_spec(post, sep@));
        }
        i = i + 1;
    }
    proof {
        assert(pv.subrange(0, pv.len() as int) =~= pv);
    }
    r
}


/// The decimal digit of `d` (below 10).
pub open spec fn digit_char(d: int) -> char {
    (('0' as u32) + d) as char
}

/// The decimal notation of `n`.
pub open spec fn decimal_spec(n: nat) -> Seq<char>
    decreases n,
{
    if n < 10 {
        seq![digit_char(n as int)]
    } else {
        decimal_spec(n / 10).push(digit_char((n % 10) as int))
    }
}

fn digit(d: usize) -> (r: char)
    requires
        d < 10,
    ensures
        r == digit_char(d as int),
{
    let table = ['0', '1', '2', '3', '4', '5', '6', '7', '8', '9'];
    proof {
        assert(table@ == seq!['0', '1', '2', '3', '4', '5', '6', '7', '8', '9']);
    }
    table[d]
}

fn push_decimal(n: usize, out: &mut Vec<char>)
    ensures
        final(out)@ == old(out)@ + decimal_spec(n as nat),
    decreases n,
{
    if n < 10 {
        out.push(digit(n));
        proof {
            assert(final(out)@ =~= old(out)@ + decimal_spec(n as nat));
        }
        return ;
    }
    push_decimal(n / 10, out);
    out.push(digit(n % 10));
    proof {
        assert(final(out)@ =~= old(out)@ + decimal_spec(n as nat));
    }
}

/// The decimal notation of `n` (as `{}` formats it).
pub fn decimal(n: usize) -> (r: String)
    ensures
        r@ == decimal_spec(n as nat),
{
    let mut out: Vec<char> = Vec::new();
    push_decimal(n, &mut out);
    proof {
        assert(out@ =~= decimal_spec(n as nat));
    }
    string_from_chars(out.as_slice())
}

/// `s` with every occurrence of `pat` (found left to right, without
/// overlaps) replaced by `rep` (`str::replace` with a non-empty pattern).
pub open spec fn replace_spec(s: Seq<char>, pat: Seq<char>, rep: Seq<char>) -> Seq<char>
    decreases s.len(),
{
    if s.len() == 0 || pat.len() == 0 {
        s
    } else if has_prefix(s, pat) {
        rep + replace_spec(s.subrange(pat.len() as int, s.len() as int), pat, rep)
    } else {
        seq![s[0]] + replace_spec(s.subrange(1, s.len() as int), pat, rep)
    }
}

/// `s` with every occurrence of `pat` replaced by `rep`.
pub fn replace_all(s: &[char], pat: &str, rep: &str) -> (r: Vec<char>)
    ensures
        r@ == replace_spec(s@, pat@, rep@),
{
    let pv = chars_of(pat);
    let rv = chars_of(rep);
    if pv.len() == 0 {
        let mut r: Vec<char> = Vec::new();
        let mut k: usize = 0;
        while k < s.len()
            invariant
                0 <= k <= s@.len(),
                r@ == s@.subrange(0, k as int),
            decreases s@.len() - k,
        {
            r.push(s[k]);
            k = k + 1;
            proof {
                assert(r@ =~= s@.subrange(0, k as int));
            }
        }
        proof {
            assert(r@ =~= s@);
        }
        return r;
    }
    let mut r: Vec<char> = Vec::new();
    let mut k: usize = 0;
    proof {
        assert(s@.subrange(0, s@.len() as int) =~= s@);
        assert(r@ + s@ =~= s@);
    }
    while k < s.len()
        invariant
            0 <= k <= s@.len(),
            pv@ == pat@,
            rv@ == rep@,
            pv@.len() > 0,
            r@ + replace_spec(s@.subrange(k as int, s@.len() as int), pat@, rep@) == replace_spec(s@, pat@, rep@),
        decreases s@.len() - k,
    {
        let ghost rest = s@.subrange(k as int, s@.len() as int);
        if occurs_at(s, pv.as_slice(), k) {
            proof {
                assert(has_prefix(rest, pat@)) by {
                    assert(rest.subrange(0, pat@.len() as int) =~= s@.subrange(k as int, k + pat@.len()));
                }
                assert(rest.subrange(pat@.len() as int, rest.len() as int) =~= s@.subrange(k + pat@.len(), s@.len() as int));
            }
            let ghost before = r@;
            let mut j: usize = 0;
            while j < rv.len()
                invariant
                    0 <= j <= rv@.len(),
                    r@ == before + rv@.subrange(0, j as int),
                decreases rv@.len() - j,
            {
                r.push(rv[j]);
                j = j + 1;
                proof {
                    assert(r@ =~= before + rv@.subrange(0, j as int));
                }
            }
            proof {
                assert(rv@.subrange(0, rv@.len() as int) =~= rv@);
                assert(before + (rep@ + replace_spec(s@.subrange(k + pat@.len(), s@.len() as int), pat@, rep@))
                    =~= r@ + replace_spec(s@.subrange(k + pat@.len(), s@.len() as int), pat@, rep@));
            }
            k = k + pv.len();
        } else {
            proof {
                assert(!has_prefix(rest, pat@)) by {
                    if has_prefix(rest, pat@) {
                        assert(rest.subrange(0, pat@.len() as int) =~= s@.subrange(k as int, k + pat@.len()));
                    }
                }
                assert(rest.subrange(1, rest.len() as int) =~= s@.subrange(k + 1, s@.len() as int));
                assert(r@.push(s@[k as int]) + replace_spec(s@.subrange(k + 1, s@.len() as int), pat@, rep@)
                    =~= r@ + (seq![rest[0]] + replace_spec(s@.subrange(k + 1, s@.len() as int), pat@, rep@)));
            }
            r.push(s[k]);
            k = k + 1;
        }
    }
    proof {
        assert(r@ + replace_spec(s@.subrange(k as int, s@.len() as int), pat@, rep@) =~= r@);
    }
    r
}

} // verus!
