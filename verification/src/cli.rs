//! Command-line values: which two sides a range or flags select, and the
//! numeric options.
use vstd::prelude::*;

use crate::git::{INDEX_REF, WORKTREE_REF};
use crate::output::report::selection::{selection_spec, signal_bearing_indices};
use crate::output::report::{ReportLimit, ReportVerbosity};
use crate::analysis::facts::SymbolChange;
use crate::text::{chars_of, decimal_spec, digit_char, has_prefix, occurs_at, owned, substring};

verus! {

/// The ref arguments of the command line.
#[derive(Debug)]
pub struct RefArgs {
    pub range: Option<String>,
    pub base: Option<String>,
    pub head: Option<String>,
    pub staged: bool,
}

/// The two sides to compare: given directly, or the merge base of `left`
/// and `right` against `right`.
#[derive(Debug, PartialEq, Eq)]
pub enum RefSelection {
    Direct { base: String, head: String },
    MergeBase { left: String, right: String },
}

/// The abstract value of a ref selection: whether it goes through the merge
/// base, and its two refs.
pub open spec fn selection_view(r: RefSelection) -> (bool, Seq<char>, Seq<char>) {
    match r {
        RefSelection::Direct { base, head } => (false, base@, head@),
        RefSelection::MergeBase { left, right } => (true, left@, right@),
    }
}

/// Position of the first occurrence of `p` in `s` at or after `k`, or -1.
pub open spec fn first_occurrence(s: Seq<char>, p: Seq<char>, k: int) -> int
    decreases s.len() + 1 - k,
{
    if k < 0 || k + p.len() > s.len() {
        -1
    } else if s.subrange(k, k + p.len()) == p {
        k
    } else {
        first_occurrence(s, p, k + 1)
    }
}

/// `s` split at the first occurrence of `p` (`str::split_once`).
pub open spec fn split_once_spec(s: Seq<char>, p: Seq<char>) -> Option<(Seq<char>, Seq<char>)> {
    let k = first_occurrence(s, p, 0);
    if k >= 0 {
        Some((s.subrange(0, k), s.subrange(k + p.len(), s.len() as int)))
    } else {
        None
    }
}

/// An empty side of a range stands for `HEAD`.
pub open spec fn default_ref_spec(r: Seq<char>) -> Seq<char> {
    if r.len() == 0 {
        "HEAD"@
    } else {
        r
    }
}

/// Which sides the arguments select: `a...b` the merge base of `a` and `b`
/// against `b`; `a..b` `a` against `b`; a single ref against the working
/// tree (or the index with `--staged`); `--base`/`--head` as given;
/// otherwise `HEAD` against the index with `--staged`, else the index
/// against the working tree.  `--staged` cannot be combined with a range or
/// with `--base`/`--head`.
pub open spec fn ref_selection_spec(args: RefArgs) -> Result<(bool, Seq<char>, Seq<char>), Seq<char>> {
    if args.staged && (args.base is Some || args.head is Some) {
        Err("--staged cannot be combined with --base/--head"@)
    } else {
        match args.range {
            Some(range) => match split_once_spec(range@, "..."@) {
                Some((l, r)) => if args.staged {
                    Err("--staged cannot be combined with an explicit ref range"@)
                } else {
                    Ok((true, default_ref_spec(l), default_ref_spec(r)))
                },
                None => match split_once_spec(range@, ".."@) {
                    Some((b, h)) => if args.staged {
                        Err("--staged cannot be combined with an explicit ref range"@)
                    } else {
                        Ok((false, default_ref_spec(b), default_ref_spec(h)))
                    },
                    None => if args.staged {
                        Ok((false, range@, INDEX_REF@))
                    } else {
                        Ok((false, range@, WORKTREE_REF@))
                    },
                },
            },
            None => match (args.base, args.head) {
                (Some(b), Some(h)) => Ok((false, b@, h@)),
                _ => if args.staged {
                    Ok((false, "HEAD"@, INDEX_REF@))
                } else {
                    Ok((false, INDEX_REF@, WORKTREE_REF@))
                },
            },
        }
    }
}

/// `s` split at the first occurrence of `p`.
pub fn split_once(s: &str, p: &str) -> (r: Option<(String, String)>)
    ensures
        match r {
            Some((a, b)) => split_once_spec(s@, p@) == Some((a@, b@)),
            None => split_once_spec(s@, p@) is None,
        },
{
    let sv = chars_of(s);
    let pv = chars_of(p);
    if pv.len() > sv.len() {
        return None;
    }
    let last = sv.len() - pv.len();
    let mut k: usize = 0;
    while k <= last
        invariant
            pv@ == p@,
            sv@ == s@,
            pv@.len() <= sv@.len(),
            last == sv@.len() - pv@.len(),
            0 <= k <= last + 1,
            first_occurrence(s@, p@, 0) == first_occurrence(s@, p@, k as int),
        decreases last + 1 - k,
    {
        if occurs_at(sv.as_slice(), pv.as_slice(), k) {
            let left = substring(sv.as_slice(), 0, k);
            let right = substring(sv.as_slice(), k + pv.len(), sv.len());
            return Some((left, right));
        }
        if k == last {
            proof {
                assert(first_occurrence(s@, p@, k + 1) == -1);
            }
            return None;
        }
        k = k + 1;
    }
    None
}

/// An empty side of a range stands for `HEAD`.
pub fn default_empty_ref(git_ref: &str) -> (r: String)
    ensures
        r@ == default_ref_spec(git_ref@),
{
    if chars_of(git_ref).len() == 0 {
        owned("HEAD")
    } else {
        owned(git_ref)
    }
}

/// Which sides the arguments select.
pub fn parse_ref_selection(args: &RefArgs) -> (r: Result<RefSelection, String>)
    ensures
        match r {
            Ok(s) => ref_selection_spec(*args) == Ok::<(bool, Seq<char>, Seq<char>), Seq<char>>(selection_view(s)),
            Err(e) => ref_selection_spec(*args) == Err::<(bool, Seq<char>, Seq<char>), Seq<char>>(e@),
        },
{
    if args.staged && (args.base.is_some() || args.head.is_some()) {
        return Err(owned("--staged cannot be combined with --base/--head"));
    }
    match &args.range {
        Some(range) => {
            match split_once(range.as_str(), "...") {
                Some((l, r)) => {
                    if args.staged {
                        return Err(owned("--staged cannot be combined with an explicit ref range"));
                    }
                    return Ok(
                        RefSelection::MergeBase {
                            left: default_empty_ref(l.as_str()),
                            right: default_empty_ref(r.as_str()),
                        },
                    );
                },
                None => {},
            }
            match split_once(range.as_str(), "..") {
                Some((b, h)) => {
                    if args.staged {
                        return Err(owned("--staged cannot be combined with an explicit ref range"));
                    }
                    return Ok(
                        RefSelection::Direct {
                            base: default_empty_ref(b.as_str()),
                            head: default_empty_ref(h.as_str()),
                        },
                    );
                },
                None => {},
            }
            if args.staged {
                return Ok(RefSelection::Direct { base: range.clone(), head: owned(INDEX_REF) });
            }
            Ok(RefSelection::Direct { base: range.clone(), head: owned(WORKTREE_REF) })
        },
        None => {
            match (&args.base, &args.head) {
                (Some(b), Some(h)) => {
                    return Ok(RefSelection::Direct { base: b.clone(), head: h.clone() });
                },
                _ => {},
            }
            if args.staged {
                return Ok(RefSelection::Direct { base: owned("HEAD"), head: owned(INDEX_REF) });
            }
            Ok(RefSelection::Direct { base: owned(INDEX_REF), head: owned(WORKTREE_REF) })
        },
    }
}

/// An ASCII decimal digit.
pub open spec fn is_digit(c: char) -> bool {
    '0' <= c && c <= '9'
}

/// The value of a string of decimal digits.
pub open spec fn digits_value(s: Seq<char>) -> nat
    decreases s.len(),
{
    if s.len() == 0 {
        0
    } else {
        digits_value(s.drop_last()) * 10 + ((s.last() as u32) - ('0' as u32)) as nat
    }
}

/// The digits that `str::parse::<usize>` reads: the text after an optional
/// leading `+`.
pub open spec fn usize_digits(s: Seq<char>) -> Seq<char> {
    if has_prefix(s, "+"@) {
        s.subrange(1, s.len() as int)
    } else {
        s
    }
}

/// Every character is a decimal digit.
pub open spec fn all_digits(s: Seq<char>) -> bool {
    forall|k: int| 0 <= k < s.len() ==> is_digit(#[trigger] s[k])
}

/// What `str::parse::<usize>` gives: an optional `+` and at least one
/// decimal digit, whose value fits a `usize`.
pub open spec fn parse_usize_spec(s: Seq<char>) -> Option<nat> {
    let body = usize_digits(s);
    if body.len() > 0 && all_digits(body) && digits_value(body) <= usize::MAX {
        Some(digits_value(body))
    } else {
        None
    }
}

/// A longer digit string is worth at least as much as its prefix.
pub proof fn lemma_digits_prefix(s: Seq<char>, k: int)
    requires
        0 <= k <= s.len(),
        forall|j: int| 0 <= j < s.len() ==> is_digit(#[trigger] s[j]),
    ensures
        digits_value(s.subrange(0, k)) <= digits_value(s),
    decreases s.len() - k,
{
    if k < s.len() {
        let t = s.subrange(0, k + 1);
        assert(t.drop_last() =~= s.subrange(0, k));
        assert forall|j: int| 0 <= j < t.len() implies is_digit(#[trigger] t[j]) by {
            assert(t[j] == s[j]);
        }
        lemma_digits_prefix(s, k + 1);
    } else {
        assert(s.subrange(0, k) =~= s);
    }
}

/// Parses a `usize` as `str::parse` does.
pub fn parse_usize(value: &str) -> (r: Option<usize>)
    ensures
        match r {
            Some(n) => parse_usize_spec(value@) == Some(n as nat),
            None => parse_usize_spec(value@) is None,
        },
{
    let v = chars_of(value);
    let plus = crate::text::starts_with(value, "+");
    proof {
        reveal_strlit("+");
    }
    let start: usize = if plus {
        1
    } else {
        0
    };
    let ghost body = usize_digits(value@);
    assert(body =~= v@.subrange(start as int, v@.len() as int));
    if start >= v.len() {
        assert(body.len() == 0);
        return None;
    }
    let mut acc: u128 = 0;
    let mut k: usize = start;
    while k < v.len()
        invariant
            start <= k <= v@.len(),
            start < v@.len(),
            body == v@.subrange(start as int, v@.len() as int),
            body == usize_digits(value@),
            forall|j: int| start <= j < k ==> is_digit(#[trigger] v@[j]),
            acc == digits_value(v@.subrange(start as int, k as int)),
            acc <= usize::MAX,
        decreases v@.len() - k,
    {
        let c = v[k];
        if !('0' <= c && c <= '9') {
            assert(body[k - start] == c);
            assert(!all_digits(body));
            assert(parse_usize_spec(value@) is None);
            return None;
        }
        let d = ((c as u32) - ('0' as u32)) as u128;
        let next = acc * 10 + d;
        let ghost post = v@.subrange(start as int, k + 1);
        assert(post.drop_last() =~= v@.subrange(start as int, k as int));
        assert(post.last() == c);
        assert(digits_value(post) == next);
        if next > usize::MAX as u128 {
            proof {
                if all_digits(body) {
                    assert(post =~= body.subrange(0, k + 1 - start));
                    lemma_digits_prefix(body, k + 1 - start);
                }
            }
            assert(parse_usize_spec(value@) is None);
            return None;
        }
        acc = next;
        k = k + 1;
    }
    assert(v@.subrange(start as int, k as int) =~= body);
    assert forall|j: int| 0 <= j < body.len() implies is_digit(#[trigger] body[j]) by {
        assert(body[j] == v@[start + j]);
    }
    Some(acc as usize)
}

/// A positive whole number, or the error `expected a positive integer`.
pub fn parse_positive_usize(value: &str) -> (r: Result<usize, String>)
    ensures
        match r {
            Ok(n) => parse_usize_spec(value@) == Some(n as nat) && n > 0,
            Err(e) => e@ == "expected a positive integer"@ && match parse_usize_spec(value@) {
                Some(n) => n == 0,
                None => true,
            },
        },
{
    match parse_usize(value) {
        Some(n) => {
            if n == 0 {
                Err(owned("expected a positive integer"))
            } else {
                Ok(n)
            }
        },
        None => Err(owned("expected a positive integer")),
    }
}

/// `s` equals `all` ignoring ASCII case.
pub open spec fn is_all_spec(s: Seq<char>) -> bool {
    s.len() == 3 && (s[0] == 'a' || s[0] == 'A') && (s[1] == 'l' || s[1] == 'L') && (s[2] == 'l'
        || s[2] == 'L')
}

/// A report limit: `all` (in any ASCII case) or a positive whole number.
pub fn parse_report_limit(value: &str) -> (r: Result<ReportLimit, String>)
    ensures
        match r {
            Ok(ReportLimit::All) => is_all_spec(value@),
            Ok(ReportLimit::Limited(n)) => !is_all_spec(value@) && parse_usize_spec(value@) == Some(
                n as nat,
            ) && n > 0,
            Err(e) => !is_all_spec(value@) && e@ == "expected a positive integer or \"all\""@
                && match parse_usize_spec(value@) {
                Some(n) => n == 0,
                None => true,
            },
        },
{
    let v = chars_of(value);
    if v.len() == 3 && (v[0] == 'a' || v[0] == 'A') && (v[1] == 'l' || v[1] == 'L') && (v[2] == 'l'
        || v[2] == 'L') {
        return Ok(ReportLimit::All);
    }
    match parse_usize(value) {
        Some(n) => {
            if n == 0 {
                Err(owned("expected a positive integer or \"all\""))
            } else {
                Ok(ReportLimit::Limited(n))
            }
        },
        None => Err(owned("expected a positive integer or \"all\"")),
    }
}


/// The decimal notation of a number is a nonempty string of digits worth
/// that number.
proof fn lemma_decimal_digits(n: nat)
    ensures
        decimal_spec(n).len() > 0,
        all_digits(decimal_spec(n)),
        digits_value(decimal_spec(n)) == n,
    decreases n,
{
    if n < 10 {
        let s = decimal_spec(n);
        assert(s.drop_last() =~= Seq::<char>::empty());
        assert(is_digit(digit_char(n as int)));
        assert((digit_char(n as int) as u32) - ('0' as u32) == n);
        assert(digits_value(s.drop_last()) == 0);
        assert(s.last() == digit_char(n as int));
    } else {
        lemma_decimal_digits(n / 10);
        let p = decimal_spec(n / 10);
        let s = decimal_spec(n);
        let c = digit_char((n % 10) as int);
        assert(s == p.push(c));
        assert(s.drop_last() =~= p);
        assert(is_digit(c));
        assert((c as u32) - ('0' as u32) == n % 10);
        assert(n == (n / 10) * 10 + n % 10);
        assert(s.last() == c);
        assert(digits_value(s) == digits_value(p) * 10 + ((c as u32) - ('0' as u32)) as nat);
        assert forall|k: int| 0 <= k < s.len() implies is_digit(#[trigger] s[k]) by {
            if k < p.len() {
                assert(s[k] == p[k]);
            }
        }
    }
}

/// The limit that the report's hint names reads back as that limit, and
/// shows every change that carries a signal: the same changes as `all`.
pub proof fn lemma_limit_hint_round_trip(cs: Seq<SymbolChange>, verbosity: ReportVerbosity)
    requires
        cs.len() <= usize::MAX,
    ensures
        ({
            let n = signal_bearing_indices(cs, cs.len() as int).len();
            &&& !is_all_spec(decimal_spec(n))
            &&& parse_usize_spec(decimal_spec(n)) == Some(n)
            &&& selection_spec(cs, verbosity, ReportLimit::Limited(n as usize)) == selection_spec(
                cs,
                verbosity,
                ReportLimit::All,
            )
        }),
{
    let n = signal_bearing_indices(cs, cs.len() as int).len();
    lemma_signal_bearing_len(cs, cs.len() as int);
    lemma_decimal_digits(n);
    let s = decimal_spec(n);
    reveal_strlit("+");
    assert(is_digit(s[0]));
    if has_prefix(s, "+"@) {
        assert(s.subrange(0, 1)[0] == s[0]);
        assert("+"@[0] == '+');
    }
    assert(usize_digits(s) == s);
}

/// There are at most as many signal-bearing changes as changes.
proof fn lemma_signal_bearing_len(cs: Seq<SymbolChange>, n: int)
    ensures
        signal_bearing_indices(cs, n).len() <= if n < 0 { 0 } else { n },
    decreases n,
{
    if n > 0 {
        lemma_signal_bearing_len(cs, n - 1);
    }
}

} // verus!
