//! Path handling on plain strings: extracting the filename component of a
//! path and deciding whether a file carries the `.desktop` extension. Both
//! follow the rules of the standard library's `Path::file_name` and
//! `Path::extension` for ordinary paths.

use vstd::prelude::*;

use crate::parse::subvec;
use crate::text::chars_of_str;
use crate::text::string_of_chars;
use crate::text::vec_eq_str;

verus! {

/// `p` without its trailing `/` characters.
pub open spec fn strip_trailing_slashes(p: Seq<char>) -> Seq<char>
    decreases p.len(),
{
    if p.len() > 0 && p.last() == '/' {
        strip_trailing_slashes(p.drop_last())
    } else {
        p
    }
}

pub proof fn lemma_strip_trailing_slashes_take(p: Seq<char>, b: int)
    requires
        0 <= b <= p.len(),
        forall|j: int| b <= j < p.len() ==> p[j] == '/',
        b > 0 ==> p[b - 1] != '/',
    ensures
        strip_trailing_slashes(p) == p.take(b),
    decreases p.len(),
{
    if b == p.len() {
        assert(p.take(b) =~= p);
        if p.len() > 0 {
            assert(p.last() != '/');
        }
    } else {
        assert(p.last() == '/');
        lemma_strip_trailing_slashes_take(p.drop_last(), b);
        assert(p.drop_last().take(b) =~= p.take(b));
    }
}

/// Index of the last occurrence of `c` in `s`, or `-1` if absent.
pub open spec fn rfind_char(s: Seq<char>, c: char) -> int
    decreases s.len(),
{
    if s.len() == 0 {
        -1
    } else if s.last() == c {
        s.len() - 1
    } else {
        rfind_char(s.drop_last(), c)
    }
}

/// `rfind_char` is pinned down by a witness index with its two properties.
pub proof fn lemma_rfind_char_is(s: Seq<char>, c: char, k: int)
    requires
        -1 <= k < s.len(),
        k >= 0 ==> s[k] == c,
        forall|j: int| k < j < s.len() ==> s[j] != c,
    ensures
        rfind_char(s, c) == k,
    decreases s.len(),
{
    if s.len() == 0 {
    } else if s.last() == c {
        assert(k == s.len() - 1);
    } else {
        assert(k < s.len() - 1);
        lemma_rfind_char_is(s.drop_last(), c, k);
    }
}

/// The filename component of `path`: the part after the last `/`, with
/// trailing slashes ignored. There is none when nothing is left, or when the
/// component is the current or parent directory.
pub open spec fn basename_of(path: Seq<char>) -> Option<Seq<char>> {
    let q = strip_trailing_slashes(path);
    if q.len() == 0 {
        None
    } else {
        let b = q.skip(rfind_char(q, '/') + 1);
        if b == "."@ || b == ".."@ {
            None
        } else {
            Some(b)
        }
    }
}

/// The extension of the filename component: the part after the last `.`,
/// except that a leading `.` (a hidden file) does not begin an extension.
pub open spec fn extension_of(path: Seq<char>) -> Option<Seq<char>> {
    match basename_of(path) {
        Some(b) => {
            let k = rfind_char(b, '.');
            if k <= 0 {
                None
            } else {
                Some(b.skip(k + 1))
            }
        },
        None => None,
    }
}

/// Whether `path` names a `.desktop` file.
pub open spec fn has_desktop_ext(path: Seq<char>) -> bool {
    extension_of(path) == Some("desktop"@)
}

/// The filename component of `path` as characters, computing
/// [`basename_of`].
fn basename_chars(p: &Vec<char>) -> (r: Option<Vec<char>>)
    ensures
        (match r {
            Some(b) => basename_of(p@) == Some(b@),
            None => basename_of(p@) is None,
        }),
{
    let mut end: usize = p.len();
    while end > 0 && p[end - 1] == '/'
        invariant
            end <= p@.len(),
            forall|j: int| end <= j < p@.len() ==> p@[j] == '/',
        decreases end,
    {
        end = end - 1;
    }
    proof {
        lemma_strip_trailing_slashes_take(p@, end as int);
    }
    let ghost q = p@.take(end as int);
    if end == 0 {
        return None;
    }
    let mut k: usize = end;
    while k > 0 && p[k - 1] != '/'
        invariant
            k <= end <= p@.len(),
            forall|j: int| k <= j < end ==> p@[j] != '/',
        decreases k,
    {
        k = k - 1;
    }
    proof {
        assert forall|j: int| k <= j < q.len() implies q[j] != '/' by {
            assert(q[j] == p@[j]);
        }
        if k > 0 {
            assert(q[k - 1] == p@[k - 1]);
        }
        lemma_rfind_char_is(q, '/', k - 1);
    }
    let b = subvec(p, k, end);
    proof {
        assert(b@ =~= q.skip(k as int));
    }
    if vec_eq_str(&b, ".") || vec_eq_str(&b, "..") {
        return None;
    }
    Some(b)
}

/// The filename component of `path`, if it has one.
pub fn basename(path: &str) -> (r: Option<String>)
    ensures
        (match r {
            Some(b) => basename_of(path@) == Some(b@),
            None => basename_of(path@) is None,
        }),
{
    let p = chars_of_str(path);
    match basename_chars(&p) {
        Some(b) => Some(string_of_chars(&b)),
        None => None,
    }
}

/// Whether `path` names a `.desktop` file, computing [`has_desktop_ext`].
pub fn has_desktop_extension(path: &str) -> (r: bool)
    ensures
        r == has_desktop_ext(path@),
{
    let p = chars_of_str(path);
    let b = match basename_chars(&p) {
        Some(b) => b,
        None => {
            return false;
        },
    };
    let mut k: usize = b.len();
    while k > 0 && b[k - 1] != '.'
        invariant
            k <= b@.len(),
            forall|j: int| k <= j < b@.len() ==> b@[j] != '.',
        decreases k,
    {
        k = k - 1;
    }
    proof {
        lemma_rfind_char_is(b@, '.', k - 1);
    }
    if k <= 1 {
        return false;
    }
    let ext = subvec(&b, k, b.len());
    proof {
        assert(ext@ =~= b@.skip(k as int));
    }
    vec_eq_str(&ext, "desktop")
}

} // verus!
