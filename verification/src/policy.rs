//! Cache policy: a directive per asset kind, chosen by path suffix.
//!
//! Build-hashed scripts, stylesheets and fonts are content-addressed and may
//! be cached indefinitely; the entry document is not content-addressed and
//! must always be revalidated; everything else gets a short-lived cache.

use crate::paths::{entry_path, spec_ends_with, str_ends_with, str_eq};
use vstd::prelude::*;

verus! {

/// The cache directive owed to a canonical path, first match wins.
pub open spec fn spec_cache_directive(p: Seq<char>) -> Seq<char> {
    if p == entry_path() {
        "no-store, max-age=0"@
    } else if spec_ends_with(p, ".js"@) || spec_ends_with(p, ".css"@) {
        "public, max-age=31536000, immutable"@
    } else if spec_ends_with(p, ".woff2"@) || spec_ends_with(p, ".woff"@) || spec_ends_with(
        p,
        ".ttf"@,
    ) {
        "public, max-age=31536000, immutable"@
    } else {
        "public, max-age=3600"@
    }
}

/// Determine the cache directive for a canonical asset path.
pub fn cache_control_for_path(path: &str) -> (r: &'static str)
    ensures
        r@ == spec_cache_directive(path@),
{
    if str_eq(path, "index.html") {
        "no-store, max-age=0"
    } else if str_ends_with(path, ".js") || str_ends_with(path, ".css") {
        "public, max-age=31536000, immutable"
    } else if str_ends_with(path, ".woff2") || str_ends_with(path, ".woff") || str_ends_with(
        path,
        ".ttf",
    ) {
        "public, max-age=31536000, immutable"
    } else {
        "public, max-age=3600"
    }
}

} // verus!
