//! Repository-relative paths as Git reports them: `/`-separated, without
//! empty, `.` or `..` components.  File names, extensions, stems and the
//! test-path rule are defined here.
use vstd::prelude::*;

use crate::text::{
    chars_of, ends_with, find_last, has_prefix, has_suffix, last_index_of, occurs_at, owned,
    starts_with, string_from_chars, substring,
};

verus! {

/// The last component of a path: everything after its last `/`.
pub open spec fn file_name_of(p: Seq<char>) -> Seq<char> {
    p.subrange(last_index_of(p, '/') + 1, p.len() as int)
}

/// The extension of a file name: the text after its last `.`, when that dot
/// is not the name's first character.
pub open spec fn extension_of_name(name: Seq<char>) -> Option<Seq<char>> {
    if last_index_of(name, '.') > 0 {
        Some(name.subrange(last_index_of(name, '.') + 1, name.len() as int))
    } else {
        None
    }
}

/// The file stem: the file name without its extension.
pub open spec fn stem_of_name(name: Seq<char>) -> Seq<char> {
    if last_index_of(name, '.') > 0 {
        name.subrange(0, last_index_of(name, '.'))
    } else {
        name
    }
}

/// `name` is one of the `/`-separated components of `p`.
pub open spec fn has_component(p: Seq<char>, name: Seq<char>) -> bool {
    exists|k: int|
        0 <= k && k + name.len() <= p.len() && (k == 0 || p[k - 1] == '/') && (k + name.len()
            == p.len() || p[k + name.len()] == '/') && #[trigger] p.subrange(k, k + name.len())
            == name
}

/// The file name of a path.
pub fn file_name(p: &str) -> (r: String)
    ensures
        r@ == file_name_of(p@),
{
    let v = chars_of(p);
    proof {
        crate::text::lemma_last_index_of(v@, '/');
    }
    match find_last(v.as_slice(), '/') {
        Some(i) => substring(v.as_slice(), i + 1, v.len()),
        None => owned(p),
    }
}

/// The extension of a path's file name, if it has one.
pub fn extension(p: &str) -> (r: Option<String>)
    ensures
        match r {
            Some(e) => extension_of_name(file_name_of(p@)) == Some(e@),
            None => extension_of_name(file_name_of(p@)) is None,
        },
{
    let name = file_name(p);
    let v = chars_of(name.as_str());
    match find_last(v.as_slice(), '.') {
        Some(i) => {
            if i > 0 {
                Some(substring(v.as_slice(), i + 1, v.len()))
            } else {
                None
            }
        },
        None => None,
    }
}

/// The file stem of a path.
pub fn file_stem(p: &str) -> (r: String)
    ensures
        r@ == stem_of_name(file_name_of(p@)),
{
    let name = file_name(p);
    let v = chars_of(name.as_str());
    match find_last(v.as_slice(), '.') {
        Some(i) => {
            if i > 0 {
                substring(v.as_slice(), 0, i)
            } else {
                name
            }
        },
        None => name,
    }
}

/// Whether `name` is one of the components of `p`.
pub fn path_has_component(p: &str, name: &str) -> (r: bool)
    ensures
        r == has_component(p@, name@),
{
    let vp = chars_of(p);
    let vn = chars_of(name);
    if vn.len() > vp.len() {
        proof {
            assert(!has_component(p@, name@));
        }
        return false;
    }
    let limit = vp.len() - vn.len();
    let mut k: usize = 0;
    loop
        invariant
            vn.len() <= vp.len(),
            limit == vp.len() - vn.len(),
            vp@ == p@,
            vn@ == name@,
            0 <= k <= limit,
            forall|j: int|
                0 <= j < k ==> !((j == 0 || p@[j - 1] == '/') && (j + name@.len() == p@.len()
                    || p@[j + name@.len()] == '/') && #[trigger] p@.subrange(j, j + name@.len())
                    == name@),
        decreases limit - k,
    {
        let starts = k == 0 || vp[k - 1] == '/';
        let ends = k + vn.len() == vp.len() || vp[k + vn.len()] == '/';
        if starts && ends && occurs_at(vp.as_slice(), vn.as_slice(), k) {
            return true;
        }
        if k == limit {
            proof {
                assert forall|j: int|
                    0 <= j && j + name@.len() <= p@.len() && (j == 0 || p@[j - 1] == '/') && (j
                        + name@.len() == p@.len() || p@[j + name@.len()] == '/') implies #[trigger] p@.subrange(
                    j,
                    j + name@.len(),
                ) != name@ by {
                    assert(j <= limit);
                }
            }
            return false;
        }
        k = k + 1;
    }
}

/// Test files are skipped from the primary symbol facts: paths under a
/// `tests` or `test` directory component, and Python files named `test_*.py`
/// or `*_test.py`.
pub open spec fn is_test_path_spec(p: Seq<char>) -> bool {
    ||| has_component(p, "tests"@)
    ||| has_component(p, "test"@)
    ||| (has_suffix(file_name_of(p), ".py"@) && (has_prefix(file_name_of(p), "test_"@)
        || has_suffix(file_name_of(p), "_test.py"@)))
}

/// Whether a path counts as a test path.
pub fn is_test_path(p: &str) -> (r: bool)
    ensures
        r == is_test_path_spec(p@),
{
    if path_has_component(p, "tests") || path_has_component(p, "test") {
        return true;
    }
    let name = file_name(p);
    ends_with(name.as_str(), ".py") && (starts_with(name.as_str(), "test_") || ends_with(
        name.as_str(),
        "_test.py",
    ))
}

/// A path without the extension of its file name.
pub open spec fn module_path_base_of(p: Seq<char>) -> Seq<char> {
    if last_index_of(file_name_of(p), '.') > 0 {
        p.subrange(0, p.len() - file_name_of(p).len() + last_index_of(file_name_of(p), '.'))
    } else {
        p
    }
}

/// A path without the extension of its file name.
pub fn module_path_base(p: &str) -> (r: String)
    ensures
        r@ == module_path_base_of(p@),
{
    let v = chars_of(p);
    let name = file_name(p);
    let nv = chars_of(name.as_str());
    proof {
        crate::text::lemma_last_index_of(v@, '/');
    }
    let base_len: usize = match find_last(nv.as_slice(), '.') {
        Some(i) => {
            if i > 0 {
                v.len() - nv.len() + i
            } else {
                v.len()
            }
        },
        None => v.len(),
    };
    let r = substring(v.as_slice(), 0, base_len);
    proof {
        if last_index_of(file_name_of(p@), '.') <= 0 {
            assert(v@.subrange(0, v@.len() as int) =~= p@);
        }
    }
    r
}

/// The dotted module name of a Python file: the path without its extension,
/// `/` replaced by `.`, and a trailing `__init__` component dropped.
pub open spec fn module_name_of(p: Seq<char>) -> Seq<char> {
    let base = module_path_base_of(p);
    let dotted = base.map_values(|c: char| if c == '/' { '.' } else { c });
    if base == "__init__"@ {
        Seq::empty()
    } else if has_suffix(base, "/__init__"@) {
        dotted.subrange(0, dotted.len() - 9)
    } else {
        dotted
    }
}

/// The dotted module name of a path.
pub fn module_name(p: &str) -> (r: String)
    ensures
        r@ == module_name_of(p@),
{
    let v = chars_of(p);
    let name = file_name(p);
    let nv = chars_of(name.as_str());
    proof {
        crate::text::lemma_last_index_of(v@, '/');
    }
    let base_len: usize = match find_last(nv.as_slice(), '.') {
        Some(i) => {
            if i > 0 {
                v.len() - nv.len() + i
            } else {
                v.len()
            }
        },
        None => v.len(),
    };
    let mut dotted: Vec<char> = Vec::new();
    let mut i: usize = 0;
    while i < base_len
        invariant
            0 <= i <= base_len <= v.len(),
            dotted@ == v@.subrange(0, i as int).map_values(
                |c: char|
                    if c == '/' {
                        '.'
                    } else {
                        c
                    },
            ),
        decreases base_len - i,
    {
        let c = v[i];
        dotted.push(if c == '/' { '.' } else { c });
        i = i + 1;
        proof {
            assert(dotted@ =~= v@.subrange(0, i as int).map_values(
                |c: char|
                    if c == '/' {
                        '.'
                    } else {
                        c
                    },
            ));
        }
    }
    let base = substring(v.as_slice(), 0, base_len);
    proof {
        assert(base@ =~= module_path_base_of(p@));
    }
    proof {
        assert(dotted@ =~= base@.map_values(|c: char| if c == '/' { '.' } else { c }));
    }
    if crate::text::str_eq(base.as_str(), "__init__") {
        return String::new();
    }
    if ends_with(base.as_str(), "/__init__") {
        proof {
            reveal_strlit("/__init__");
            assert(dotted@.len() >= 9);
        }
        let stripped = substring(dotted.as_slice(), 0, dotted.len() - 9);
        return stripped;
    }
    string_from_chars(dotted.as_slice())
}

} // verus!
