//! Path strings: native separators, file names and extensions.
//!
//! Both `/` and `\` separate path components here, so that Windows paths
//! and Unix paths are read alike; drive and UNC prefixes get no special
//! treatment.
use vstd::prelude::*;
use crate::text::{chars_of, replace_char, replace_char_exec, slice_chars, string_of};

verus! {

/// A path component separator.
pub open spec fn is_sep(c: char) -> bool {
    c == '/' || c == '\\'
}

/// The characters of `s` after its last separator.
pub open spec fn trailing_segment(s: Seq<char>) -> Seq<char>
    decreases s.len(),
{
    if s.len() == 0 || is_sep(s.last()) {
        Seq::empty()
    } else {
        trailing_segment(s.drop_last()).push(s.last())
    }
}

/// The final component of a path (`Path::file_name`): trailing separators
/// and `.` components are skipped; none when the path ends in `..` or has
/// no normal component.
pub open spec fn file_name_spec(s: Seq<char>) -> Option<Seq<char>>
    decreases s.len(),
{
    if s.len() == 0 {
        None
    } else if is_sep(s.last()) {
        file_name_spec(s.drop_last())
    } else if s.last() == '.' && (s.len() == 1 || is_sep(s[s.len() - 2])) {
        file_name_spec(s.drop_last())
    } else {
        let seg = trailing_segment(s);
        if seg == ".."@ {
            None
        } else {
            Some(seg)
        }
    }
}

/// Whether `i` is the index of the last `.` in `n`.
pub open spec fn is_last_dot(n: Seq<char>, i: int) -> bool {
    &&& 0 <= i < n.len()
    &&& n[i] == '.'
    &&& forall|k: int| i < k < n.len() ==> n[k] != '.'
}

/// The extension of a file name (`Path::extension`): the text after its
/// last `.`, unless it has no `.` or its only `.` leads.
pub open spec fn name_extension(n: Seq<char>) -> Option<Seq<char>> {
    if exists|i: int| is_last_dot(n, i) {
        let i = choose|i: int| is_last_dot(n, i);
        if i == 0 {
            None
        } else {
            Some(n.skip(i + 1))
        }
    } else {
        None
    }
}

/// The extension of the file a path names.
pub open spec fn path_extension_spec(p: Seq<char>) -> Option<Seq<char>> {
    match file_name_spec(p) {
        Some(n) => name_extension(n),
        None => None,
    }
}

fn is_sep_exec(c: char) -> (r: bool)
    ensures
        r == is_sep(c),
{
    c == '/' || c == '\\'
}

proof fn lemma_trailing_segment(s: Seq<char>, k: int)
    requires
        0 <= k <= s.len(),
        forall|x: int| k <= x < s.len() ==> !is_sep(s[x]),
        k == 0 || is_sep(s[k - 1]),
    ensures
        trailing_segment(s) == s.subrange(k, s.len() as int),
    decreases s.len(),
{
    if s.len() > k {
        lemma_trailing_segment(s.drop_last(), k);
        assert(s.subrange(k, s.len() as int) =~= s.drop_last().subrange(k, s.len() - 1).push(s.last()));
    } else {
        assert(s.subrange(k, s.len() as int) =~= Seq::<char>::empty());
    }
}

/// The final component of a path, as `Path::file_name` gives it.
pub fn file_name_chars(p: &[char]) -> (r: Option<Vec<char>>)
    ensures
        match r {
            Some(n) => file_name_spec(p@) == Some(n@),
            None => file_name_spec(p@) is None,
        },
{
    let mut j: usize = p.len();
    assert(p@.take(j as int) =~= p@);
    loop
        invariant
            j <= p@.len(),
            file_name_spec(p@) == file_name_spec(p@.take(j as int)),
        ensures
            0 < j <= p@.len(),
            file_name_spec(p@) == file_name_spec(p@.take(j as int)),
            !is_sep(p@[j - 1]),
            !(p@[j - 1] == '.' && (j == 1 || is_sep(p@[j - 2]))),
        decreases j,
    {
        if j == 0 {
            return None;
        }
        proof {
            let t = p@.take(j as int);
            assert(t.drop_last() =~= p@.take(j - 1));
            if j >= 2 {
                assert(t[j - 2] == p@[j - 2]);
            }
        }
        if is_sep_exec(p[j - 1]) {
            j = j - 1;
        } else if p[j - 1] == '.' && (j == 1 || is_sep_exec(p[j - 2])) {
            j = j - 1;
        } else {
            break;
        }
    }
    let mut k: usize = j;
    while k > 0 && !is_sep_exec(p[k - 1])
        invariant
            k <= j <= p@.len(),
            forall|x: int| k <= x < j ==> !is_sep(p@[x]),
        decreases k,
    {
        k = k - 1;
    }
    proof {
        let t = p@.take(j as int);
        assert(t.last() == p@[j - 1]);
        if j >= 2 {
            assert(t[j - 2] == p@[j - 2]);
        }
        lemma_trailing_segment(t, k as int);
        assert(t.subrange(k as int, j as int) =~= p@.subrange(k as int, j as int));
    }
    let seg = slice_chars(p, k, j);
    if seg.len() == 2 && seg[0] == '.' && seg[1] == '.' {
        proof {
            reveal_strlit("..");
            assert(seg@ =~= ".."@);
        }
        return None;
    }
    proof {
        reveal_strlit("..");
        if seg@ == ".."@ {
            assert(seg@.len() == 2);
        }
    }
    Some(seg)
}

/// The extension of a file name, as `Path::extension` gives it.
pub fn name_extension_chars(n: &[char]) -> (r: Option<Vec<char>>)
    ensures
        match r {
            Some(e) => name_extension(n@) == Some(e@),
            None => name_extension(n@) is None,
        },
{
    let mut i: usize = n.len();
    while i > 0 && n[i - 1] != '.'
        invariant
            i <= n@.len(),
            forall|k: int| i <= k < n@.len() ==> n@[k] != '.',
        decreases i,
    {
        i = i - 1;
    }
    if i == 0 {
        proof {
            assert(!exists|x: int| is_last_dot(n@, x));
        }
        return None;
    }
    proof {
        assert(is_last_dot(n@, i - 1));
        let c = choose|x: int| is_last_dot(n@, x);
        if c < i - 1 {
            assert(n@[i - 1] == '.');
        } else if c > i - 1 {
            assert(n@[c] == '.');
        }
        assert(c == i - 1);
    }
    if i == 1 {
        return None;
    }
    let e = slice_chars(n, i, n.len());
    assert(e@ =~= n@.skip(i as int));
    Some(e)
}

/// The extension of the file a path names.
pub fn path_extension(path: &str) -> (r: Option<Vec<char>>)
    ensures
        match r {
            Some(e) => path_extension_spec(path@) == Some(e@),
            None => path_extension_spec(path@) is None,
        },
{
    let p = chars_of(path);
    match file_name_chars(&p) {
        Some(n) => name_extension_chars(&n),
        None => None,
    }
}

/// A path string with native separators: `\` on Windows, `/` elsewhere.
pub open spec fn native_path_spec(raw: Seq<char>, windows: bool) -> Seq<char> {
    if windows {
        replace_char(raw, '/', '\\')
    } else {
        replace_char(raw, '\\', '/')
    }
}

/// Converts a path string to the native separators of the target
/// (`windows` selects `\`, otherwise `/`).
pub fn to_native_path_str(raw: &str, windows: bool) -> (r: String)
    ensures
        r@ == native_path_spec(raw@, windows),
{
    let v = chars_of(raw);
    let out = if windows {
        replace_char_exec(&v, '/', '\\')
    } else {
        replace_char_exec(&v, '\\', '/')
    };
    string_of(&out)
}

} // verus!
