//! The asset store: an immutable mapping from canonical relative paths to
//! binary content, populated once before serving traffic.

use crate::paths::{is_canonical_path, lemma_normalize_canonical, spec_normalize, str_eq};
use vstd::prelude::*;
use vstd::string::*;

verus! {

/// One bundled asset: a canonical relative path and its immutable content.
struct Asset {
    path: String,
    data: Vec<u8>,
}

/// The compiled-in asset set. Membership is fixed once the store is built;
/// lookups are pure and side-effect-free.
pub struct WebAssets {
    entries: Vec<Asset>,
}

/// The mapping a sequence of assets denotes.
spec fn map_of(entries: Seq<Asset>) -> Map<Seq<char>, Seq<u8>>
    decreases entries.len(),
{
    if entries.len() == 0 {
        Map::<Seq<char>, Seq<u8>>::empty()
    } else {
        map_of(entries.drop_last()).insert(entries.last().path@, entries.last().data@)
    }
}

proof fn lemma_map_of_domain(entries: Seq<Asset>, p: Seq<char>)
    ensures
        map_of(entries).contains_key(p) <==> exists|i: int|
            0 <= i < entries.len() && (#[trigger] entries[i].path@) == p,
    decreases entries.len(),
{
    if entries.len() > 0 {
        let prefix = entries.drop_last();
        lemma_map_of_domain(prefix, p);
        let n = entries.len() - 1;
        if entries.last().path@ == p {
            assert(entries[n].path@ == p);
        } else {
            if map_of(entries).contains_key(p) {
                let i = choose|i: int| 0 <= i < prefix.len() && (#[trigger] prefix[i].path@) == p;
                assert(entries[i].path@ == p);
            }
            if exists|i: int| 0 <= i < entries.len() && (#[trigger] entries[i].path@) == p {
                let i = choose|i: int| 0 <= i < entries.len() && (#[trigger] entries[i].path@) == p;
                assert(i != n);
                assert(prefix[i].path@ == p);
            }
        }
    }
}

proof fn lemma_map_of_value(entries: Seq<Asset>, i: int)
    requires
        0 <= i < entries.len(),
        forall|a: int, b: int|
            0 <= a < b < entries.len() ==> entries[a].path@ != entries[b].path@,
    ensures
        map_of(entries).contains_key(entries[i].path@),
        map_of(entries)[entries[i].path@] == entries[i].data@,
    decreases entries.len(),
{
    let n = entries.len() - 1;
    if i < n {
        let prefix = entries.drop_last();
        assert forall|a: int, b: int|
            0 <= a < b < prefix.len() implies prefix[a].path@ != prefix[b].path@ by {
            assert(entries[a].path@ != entries[b].path@);
        }
        lemma_map_of_value(prefix, i);
        assert(entries[i].path@ != entries[n].path@);
        assert(prefix[i] == entries[i]);
    }
}

impl WebAssets {
    /// The stored paths, in insertion order.
    pub closed spec fn path_seq(&self) -> Seq<Seq<char>> {
        self.entries@.map_values(|a: Asset| a.path@)
    }

    /// Well-formed: paths are pairwise distinct, so the store is a mapping,
    /// and every stored path is canonical.
    pub closed spec fn wf(&self) -> bool {
        &&& forall|i: int, j: int|
            0 <= i < j < self.entries@.len() ==> self.entries@[i].path@ != self.entries@[j].path@
        &&& forall|i: int|
            0 <= i < self.entries@.len() ==> is_canonical_path(#[trigger] self.entries@[i].path@)
    }

    /// An empty store.
    pub fn new() -> (s: WebAssets)
        ensures
            s.wf(),
            s@ == Map::<Seq<char>, Seq<u8>>::empty(),
            s.path_seq() == Seq::<Seq<char>>::empty(),
    {
        let s = WebAssets { entries: Vec::new() };
        proof {
            assert(s.path_seq() =~= Seq::<Seq<char>>::empty());
        }
        s
    }

    /// Add one asset while the store is being populated. The path must be
    /// canonical; a path that is already present keeps its first content:
    /// membership never changes after an asset is stored.
    pub fn insert(&mut self, path: String, data: Vec<u8>)
        requires
            old(self).wf(),
            is_canonical_path(path@),
        ensures
            final(self).wf(),
            old(self)@.contains_key(path@) ==> final(self)@ == old(self)@ && final(self).path_seq()
                == old(self).path_seq(),
            !old(self)@.contains_key(path@) ==> final(self)@ == old(self)@.insert(path@, data@)
                && final(self).path_seq() == old(self).path_seq().push(path@),
    {
        let ghost pv = path@;
        let ghost dv = data@;
        if self.has(path.as_str()) {
            return;
        }
        proof {
            lemma_map_of_domain(self.entries@, pv);
        }
        self.entries.push(Asset { path, data });
        proof {
            let old_entries = old(self).entries@;
            assert(self.entries@.drop_last() =~= old_entries);
            assert(self.entries@.last().path@ == pv);
            assert(self.entries@.last().data@ == dv);
            assert(self@ == old(self)@.insert(pv, dv));
            assert(self.path_seq() =~= old(self).path_seq().push(pv));
            assert forall|i: int, j: int|
                0 <= i < j < self.entries@.len() implies self.entries@[i].path@
                != self.entries@[j].path@ by {
                if j < self.entries@.len() - 1 {
                    assert(old_entries[i].path@ != old_entries[j].path@);
                } else {
                    assert(self.entries@[i].path@ != pv);
                }
            }
        }
    }

    /// Exact-match lookup on a canonical path.
    pub fn get(&self, path: &str) -> (r: Option<&Vec<u8>>)
        requires
            self.wf(),
        ensures
            r is Some <==> self@.contains_key(path@),
            r is Some ==> r->0@ == self@[path@],
    {
        let n = self.entries.len();
        let mut i: usize = 0;
        while i < n
            invariant
                self.wf(),
                n == self.entries@.len(),
                i <= n,
                forall|j: int| 0 <= j < i ==> (#[trigger] self.entries@[j].path@) != path@,
            decreases n - i,
        {
            if str_eq(self.entries[i].path.as_str(), path) {
                proof {
                    lemma_map_of_value(self.entries@, i as int);
                }
                return Some(&self.entries[i].data);
            }
            i += 1;
        }
        proof {
            lemma_map_of_domain(self.entries@, path@);
        }
        None
    }

    /// Whether `get` would succeed on this path.
    pub fn has(&self, path: &str) -> (r: bool)
        requires
            self.wf(),
        ensures
            r == self@.contains_key(path@),
    {
        self.get(path).is_some()
    }

    /// All stored paths, in insertion order, for diagnostic use.
    pub fn list(&self) -> (r: Vec<String>)
        ensures
            r@.len() == self.path_seq().len(),
            forall|i: int| 0 <= i < r@.len() ==> (#[trigger] r@[i]@) == self.path_seq()[i],
    {
        let n = self.entries.len();
        let mut out: Vec<String> = Vec::new();
        let mut i: usize = 0;
        while i < n
            invariant
                n == self.entries@.len(),
                i <= n,
                out@.len() == i,
                forall|j: int| 0 <= j < i ==> (#[trigger] out@[j]@) == self.path_seq()[j],
            decreases n - i,
        {
            out.push(self.entries[i].path.clone());
            i += 1;
        }
        out
    }

    /// A well-formed store lists each path exactly once: its path sequence
    /// is pairwise distinct.
    pub proof fn lemma_path_seq_distinct(&self)
        requires
            self.wf(),
        ensures
            forall|i: int, j: int|
                0 <= i < j < self.path_seq().len() ==> self.path_seq()[i] != self.path_seq()[j],
    {
    }

    /// Every listed path of a well-formed store is mapped by the store and
    /// is its own normal form, so a request for exactly that path is served
    /// from it.
    pub proof fn lemma_listed_path_served(&self, i: int)
        requires
            self.wf(),
            0 <= i < self.path_seq().len(),
        ensures
            self@.contains_key(self.path_seq()[i]),
            spec_normalize(self.path_seq()[i]) == self.path_seq()[i],
    {
        lemma_map_of_domain(self.entries@, self.path_seq()[i]);
        assert(self.entries@[i].path@ == self.path_seq()[i]);
        lemma_normalize_canonical(self.path_seq()[i]);
    }

    /// The listing names exactly the store's keys: a path stands in
    /// `path_seq` iff the store maps it.
    pub proof fn lemma_path_seq_is_domain(&self, p: Seq<char>)
        ensures
            self.path_seq().contains(p) <==> self@.contains_key(p),
    {
        lemma_map_of_domain(self.entries@, p);
        if self.path_seq().contains(p) {
            let i = choose|i: int|
                0 <= i < self.path_seq().len() && (#[trigger] self.path_seq()[i]) == p;
            assert(self.entries@[i].path@ == p);
        }
        if self@.contains_key(p) {
            let i = choose|i: int|
                0 <= i < self.entries@.len() && (#[trigger] self.entries@[i].path@) == p;
            assert(self.path_seq()[i] == p);
        }
    }
}

impl View for WebAssets {
    type V = Map<Seq<char>, Seq<u8>>;

    closed spec fn view(&self) -> Map<Seq<char>, Seq<u8>> {
        map_of(self.entries@)
    }
}

} // verus!
