//! Path normalization for asset lookup.

use vstd::prelude::*;
use vstd::string::*;

verus! {

/// The canonical path of the entry document.
pub open spec fn entry_path() -> Seq<char> {
    "index.html"@
}

/// What normalization yields: strip a single leading separator if present;
/// if the result is empty, substitute the canonical entry path.
pub open spec fn spec_normalize(p: Seq<char>) -> Seq<char> {
    let stripped = if p.len() > 0 && p[0] == '/' {
        p.drop_first()
    } else {
        p
    };
    if stripped.len() == 0 {
        entry_path()
    } else {
        stripped
    }
}

/// Turn a raw request path into the canonical key used by the asset store.
pub fn normalize(path: &str) -> (r: String)
    ensures
        r@ == spec_normalize(path@),
{
    let n = path.unicode_len();
    let stripped: &str = if n > 0 && path.get_char(0) == '/' {
        path.substring_char(1, n)
    } else {
        path
    };
    if stripped.unicode_len() == 0 {
        String::from_str("index.html")
    } else {
        String::from_str(stripped)
    }
}

/// Whether a path is canonical: nonempty and without a leading separator,
/// the form under which assets are stored.
pub open spec fn is_canonical_path(p: Seq<char>) -> bool {
    p.len() > 0 && p[0] != '/'
}

/// A canonical path is its own normal form, so every stored asset is
/// reachable under exactly its stored key.
pub proof fn lemma_normalize_canonical(p: Seq<char>)
    requires
        is_canonical_path(p),
    ensures
        spec_normalize(p) == p,
{
}

/// Character-for-character string equality.
pub fn str_eq(a: &str, b: &str) -> (r: bool)
    ensures
        r == (a@ == b@),
{
    let na = a.unicode_len();
    let nb = b.unicode_len();
    if na != nb {
        return false;
    }
    let mut i: usize = 0;
    while i < na
        invariant
            na == a@.len(),
            na == b@.len(),
            i <= na,
            forall|j: int| 0 <= j < i ==> a@[j] == b@[j],
        decreases na - i,
    {
        if a.get_char(i) != b.get_char(i) {
            return false;
        }
        i += 1;
    }
    proof {
        assert(a@ =~= b@);
    }
    true
}

/// Whether `suffix` is a suffix of `p`.
pub open spec fn spec_ends_with(p: Seq<char>, suffix: Seq<char>) -> bool {
    suffix.len() <= p.len() && p.skip(p.len() - suffix.len()) == suffix
}

/// Suffix test used by the cache policy.
pub fn str_ends_with(s: &str, suffix: &str) -> (r: bool)
    ensures
        r == spec_ends_with(s@, suffix@),
{
    let n = s.unicode_len();
    let m = suffix.unicode_len();
    if m > n {
        return false;
    }
    let tail = s.substring_char(n - m, n);
    let r = str_eq(tail, suffix);
    proof {
        assert(s@.subrange(n - m, n as int) =~= s@.skip(n - m));
    }
    r
}

} // verus!
