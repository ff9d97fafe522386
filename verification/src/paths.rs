//! Paths held as strings: joining, trimming separators, and the two path
//! queries that the standard library answers (`starts_with`, `parent`).

use vstd::prelude::*;
use crate::text::{chars_of, push_str, string_of};

verus! {

/// Drops every leading '/'.
pub open spec fn strip_leading_slashes(s: Seq<char>) -> Seq<char>
    decreases s.len(),
{
    if s.len() > 0 && s[0] == '/' {
        strip_leading_slashes(s.drop_first())
    } else {
        s
    }
}

/// Drops every trailing '/'.
pub open spec fn strip_trailing_slashes(s: Seq<char>) -> Seq<char>
    decreases s.len(),
{
    if s.len() > 0 && s.last() == '/' {
        strip_trailing_slashes(s.drop_last())
    } else {
        s
    }
}

/// `str::trim_matches('/')`: every leading and trailing '/' removed.
pub open spec fn trim_slashes(s: Seq<char>) -> Seq<char> {
    strip_trailing_slashes(strip_leading_slashes(s))
}

/// `PathBuf::join` on Unix: an absolute `p` replaces `base`; otherwise `p`
/// is appended, with a '/' between them unless `base` is empty or already
/// ends in '/'.
pub open spec fn path_join(base: Seq<char>, p: Seq<char>) -> Seq<char> {
    if p.len() > 0 && p[0] == '/' {
        p
    } else if base.len() == 0 || base.last() == '/' {
        base + p
    } else {
        base + seq!['/'] + p
    }
}

/// Removes every leading and trailing '/' (`str::trim_matches('/')`).
pub fn trim_slashes_of(s: &str) -> (r: String)
    ensures
        r@ == trim_slashes(s@),
{
    let v = chars_of(s);
    let n = v.len();
    let mut i: usize = 0;
    assert(v@.subrange(0, n as int) =~= v@);
    while i < n && v[i] == '/'
        invariant
            i <= n,
            n == v@.len(),
            strip_leading_slashes(v@) == strip_leading_slashes(v@.subrange(i as int, n as int)),
        decreases n - i,
    {
        assert(v@.subrange(i as int, n as int).drop_first() =~= v@.subrange(i + 1, n as int));
        i = i + 1;
    }
    assert(strip_leading_slashes(v@.subrange(i as int, n as int)) == v@.subrange(i as int, n as int));
    let mut j: usize = n;
    while j > i && v[j - 1] == '/'
        invariant
            i <= j <= n,
            n == v@.len(),
            trim_slashes(v@) == strip_trailing_slashes(v@.subrange(i as int, j as int)),
        decreases j,
    {
        assert(v@.subrange(i as int, j as int).drop_last() =~= v@.subrange(i as int, j - 1));
        j = j - 1;
    }
    let mut out: Vec<char> = Vec::new();
    let mut k: usize = i;
    while k < j
        invariant
            i <= k <= j <= n,
            n == v@.len(),
            out@ == v@.subrange(i as int, k as int),
        decreases j - k,
    {
        out.push(v[k]);
        assert(v@.subrange(i as int, k + 1) =~= v@.subrange(i as int, k as int).push(v@[k as int]));
        k = k + 1;
    }
    string_of(&out)
}

/// Joins `p` onto `base` as `Path::join` does on Unix.
pub fn join_path(base: &str, p: &str) -> (r: String)
    ensures
        r@ == path_join(base@, p@),
{
    let b = chars_of(base);
    let q = chars_of(p);
    let mut out = String::new();
    if q.len() > 0 && q[0] == '/' {
        push_str(&mut out, p);
        assert(out@ =~= path_join(base@, p@));
        return out;
    }
    push_str(&mut out, base);
    if b.len() > 0 && b[b.len() - 1] != '/' {
        push_str(&mut out, "/");
        proof {
            reveal_strlit("/");
        }
    }
    push_str(&mut out, p);
    assert(out@ =~= path_join(base@, p@));
    out
}

/// Whether `path` begins with the whole components of `base`, as
/// `Path::starts_with` decides it.
pub uninterp spec fn path_has_prefix(path: Seq<char>, base: Seq<char>) -> bool;

/// `Path::starts_with`: compares whole path components. Its contract names
/// the answer `path_has_prefix`, a function of the two paths alone; what
/// that function is (component splitting, separators) is not stated here.
#[verifier::external_body]
pub(crate) fn path_starts_with(path: &str, base: &str) -> (r: bool)
    ensures
        r == path_has_prefix(path@, base@),
{
    std::path::Path::new(path).starts_with(base)
}

/// The parent of a path as `Path::parent` computes it: `None` for a path
/// that ends in a root or is empty.
pub uninterp spec fn path_parent_of(path: Seq<char>) -> Option<Seq<char>>;

/// `Path::parent`, rendered back to a string. The contract names the answer
/// `path_parent_of(path@)`; how components are split is not stated here.
#[verifier::external_body]
pub(crate) fn path_parent(path: &str) -> (r: Option<String>)
    ensures
        match r {
            Some(s) => path_parent_of(path@) == Some(s@),
            None => path_parent_of(path@) is None,
        },
{
    std::path::Path::new(path).parent().map(|p| p.to_string_lossy().into_owned())
}

} // verus!
