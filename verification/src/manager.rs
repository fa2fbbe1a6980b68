//! The storage manager's in-memory state: the collection map and aliases.
//!
//! Disk and process concerns (the dump file, fork-based saves, snapshot
//! directories) belong to the caller; what is managed here — which
//! collections exist, under which names and aliases — is exact.

use vstd::prelude::*;
use crate::assoc::{
    spec_assoc_map,
    spec_assoc_unique,
    assoc_get,
    assoc_set,
    assoc_remove,
    assoc_contains,
    lemma_assoc_len,
    lemma_assoc_index,
    lemma_assoc_contains,
};
use crate::collection::{Collection, CollectionConfig};
use crate::error::Error;

verus! {

pub struct StorageManager {
    collections: Vec<(String, Collection)>,
    aliases: Vec<(String, String)>,
}

impl StorageManager {
    /// The collections, by name.
    pub closed spec fn spec_collections(&self) -> Map<Seq<char>, Collection> {
        spec_assoc_map(self.collections@)
    }

    /// The aliases: alias name to collection name.
    pub closed spec fn spec_aliases(&self) -> Map<Seq<char>, String> {
        spec_assoc_map(self.aliases@)
    }

    /// Structural invariant: unique names throughout and well-formed
    /// collections.
    pub closed spec fn wf(&self) -> bool {
        &&& spec_assoc_unique(self.collections@)
        &&& spec_assoc_unique(self.aliases@)
        &&& forall|i: int|
            0 <= i < self.collections@.len() ==> (#[trigger] self.collections@[i]).1.wf()
    }

    /// An empty manager.
    pub fn new() -> (r: StorageManager)
        ensures
            r.wf(),
            r.spec_collections() == Map::<Seq<char>, Collection>::empty(),
            r.spec_aliases() == Map::<Seq<char>, String>::empty(),
    {
        StorageManager { collections: Vec::new(), aliases: Vec::new() }
    }

    /// Create a collection under its configured name; a taken name is
    /// refused.
    pub fn create_collection(&mut self, config: CollectionConfig) -> (r: Result<(), Error>)
        requires
            old(self).wf(),
        ensures
            final(self).wf(),
            final(self).spec_aliases() == old(self).spec_aliases(),
            match r {
                Ok(_) => {
                    &&& !old(self).spec_collections().contains_key(config.name@)
                    &&& final(self).spec_collections().dom() == old(self).spec_collections().dom().insert(config.name@)
                    &&& final(self).spec_collections()[config.name@].wf()
                    &&& final(self).spec_collections()[config.name@].spec_config() == config
                    &&& final(self).spec_collections()[config.name@].spec_points()
                        == Map::<Seq<char>, crate::point::Point>::empty()
                    &&& forall|k: Seq<char>|
                        old(self).spec_collections().contains_key(k) ==> final(self).spec_collections()[k] == #[trigger] old(self).spec_collections()[k]
                },
                Err(e) => {
                    &&& old(self).spec_collections().contains_key(config.name@)
                    &&& e matches Error::CollectionExists(_)
                    &&& final(self).spec_collections() == old(self).spec_collections()
                },
            },
    {
        let name = config.name.clone();
        if assoc_contains(&self.collections, name.as_str()) {
            return Err(Error::CollectionExists(name));
        }
        let collection = Collection::new(config);
        let ghost pre = self.collections@;
        assoc_set(&mut self.collections, name, collection);
        proof {
            lemma_collections_wf_after_set(pre, self.collections@);
        }
        Ok(())
    }

    /// Whether a collection of this name exists (aliases do not count).
    pub fn collection_exists(&self, name: &str) -> (r: bool)
        requires
            self.wf(),
        ensures
            r == self.spec_collections().contains_key(name@),
    {
        assoc_contains(&self.collections, name)
    }

    /// Number of collections.
    pub fn collection_count(&self) -> (r: usize)
        requires
            self.wf(),
        ensures
            r == self.spec_collections().len(),
    {
        proof {
            lemma_assoc_len(self.collections@);
        }
        self.collections.len()
    }

    /// The collection names, in creation order.
    pub fn list_collections(&self) -> (r: Vec<String>)
        requires
            self.wf(),
        ensures
            r@.len() == self.spec_collections().len(),
            forall|i: int|
                0 <= i < r@.len() ==> self.spec_collections().contains_key(
                    (#[trigger] r@[i])@,
                ),
            // One entry per stored name: with the count, the list
            // enumerates the stored names exactly.
            forall|i: int, j: int|
                0 <= i < j < r@.len() ==> (#[trigger] r@[i])@ != (#[trigger] r@[j])@,
    {
        let n = self.collections.len();
        let mut out: Vec<String> = Vec::new();
        let mut i: usize = 0;
        while i < n
            invariant
                self.wf(),
                i <= n == self.collections@.len(),
                out@.len() == i,
                forall|q: int| 0 <= q < i ==> (#[trigger] out@[q])@ == self.collections@[q].0@,
            decreases n - i,
        {
            out.push(self.collections[i].0.clone());
            i = i + 1;
        }
        proof {
            lemma_assoc_len(self.collections@);
            assert forall|i2: int| 0 <= i2 < out@.len() implies self.spec_collections(
            ).contains_key((#[trigger] out@[i2])@) by {
                lemma_assoc_index(self.collections@, i2);
            }
            assert forall|i2: int, j2: int| 0 <= i2 < j2 < out@.len() implies (
            #[trigger] out@[i2])@ != (#[trigger] out@[j2])@ by {
                assert(out@[i2]@ == self.collections@[i2].0@);
                assert(out@[j2]@ == self.collections@[j2].0@);
            }
        }
        out
    }

    /// Drop a collection by name, reporting whether it existed.
    pub fn delete_collection(&mut self, name: &str) -> (r: Result<bool, Error>)
        requires
            old(self).wf(),
        ensures
            final(self).wf(),
            final(self).spec_collections() == old(self).spec_collections().remove(name@),
            final(self).spec_aliases() == old(self).spec_aliases(),
            r == Ok::<bool, Error>(old(self).spec_collections().contains_key(name@)),
    {
        let ghost pre = self.collections@;
        let removed = assoc_remove(&mut self.collections, name);
        proof {
            lemma_collections_wf_after_set(pre, self.collections@);
        }
        Ok(removed.is_some())
    }

    /// The collection name that `name` designates: itself when a
    /// collection of that name exists, otherwise through one alias hop.
    pub fn resolve_name(&self, name: &str) -> (r: Option<String>)
        requires
            self.wf(),
        ensures
            match r {
                Some(target) => self.spec_collections().contains_key(target@) && (target@ == name@
                    || (self.spec_aliases().contains_key(name@) && self.spec_aliases()[name@]@
                    == target@)),
                None => !self.spec_collections().contains_key(name@) && (self.spec_aliases(
                ).contains_key(name@) ==> !self.spec_collections().contains_key(
                    self.spec_aliases()[name@]@,
                )),
            },
    {
        if assoc_contains(&self.collections, name) {
            return Some(name.to_owned());
        }
        match assoc_get(&self.aliases, name) {
            Some(target) => {
                if assoc_contains(&self.collections, target.as_str()) {
                    Some(target.clone())
                } else {
                    None
                }
            },
            None => None,
        }
    }

    /// Borrow a collection by exact name.
    pub fn get_collection<'a>(&'a self, name: &str) -> (r: Option<&'a Collection>)
        requires
            self.wf(),
        ensures
            match r {
                Some(c) => self.spec_collections().contains_key(name@) && *c
                    == self.spec_collections()[name@] && c.wf(),
                None => !self.spec_collections().contains_key(name@),
            },
    {
        let found = assoc_get(&self.collections, name);
        proof {
            lemma_assoc_contains(self.collections@, name@);
            if found is Some {
                let e = choose|e: int|
                    0 <= e < self.collections@.len() && (#[trigger] self.collections@[e]).0@
                        == name@;
                lemma_assoc_index(self.collections@, e);
            }
        }
        found
    }

    /// Take a collection out to operate on it; put it back afterwards.
    pub fn take_collection(&mut self, name: &str) -> (r: Option<Collection>)
        requires
            old(self).wf(),
        ensures
            final(self).wf(),
            final(self).spec_aliases() == old(self).spec_aliases(),
            match r {
                Some(c) => old(self).spec_collections().contains_key(name@) && c == old(self).spec_collections()[name@] && c.wf() && final(self).spec_collections() == old(self).spec_collections().remove(name@),
                None => !old(self).spec_collections().contains_key(name@) && final(self).spec_collections() == old(self).spec_collections(),
            },
    {
        let ghost pre = self.collections@;
        let removed = assoc_remove(&mut self.collections, name);
        proof {
            lemma_collections_wf_after_set(pre, self.collections@);
            if removed is Some {
                lemma_assoc_contains(pre, name@);
                let e = choose|e: int| 0 <= e < pre.len() && (#[trigger] pre[e]).0@ == name@;
                lemma_assoc_index(pre, e);
            }
        }
        removed
    }

    /// Put a collection (back) under a name.
    pub fn put_collection(&mut self, name: String, collection: Collection)
        requires
            old(self).wf(),
            collection.wf(),
        ensures
            final(self).wf(),
            final(self).spec_aliases() == old(self).spec_aliases(),
            final(self).spec_collections() == old(self).spec_collections().insert(
                name@,
                collection,
            ),
    {
        let ghost pre = self.collections@;
        assoc_set(&mut self.collections, name, collection);
        proof {
            lemma_collections_wf_after_set(pre, self.collections@);
        }
    }

    /// Point an alias at a collection; the collection must exist.
    pub fn create_alias(&mut self, alias_name: &str, collection_name: &str) -> (r: Result<
        bool,
        Error,
    >)
        requires
            old(self).wf(),
        ensures
            final(self).wf(),
            final(self).spec_collections() == old(self).spec_collections(),
            match r {
                Ok(_) => old(self).spec_collections().contains_key(collection_name@) && final(self).spec_aliases().dom() == old(self).spec_aliases().dom().insert(alias_name@)
                    && final(self).spec_aliases()[alias_name@]@ == collection_name@,
                Err(e) => !old(self).spec_collections().contains_key(collection_name@)
                    && (e matches Error::CollectionNotFound(_)) && final(self).spec_aliases()
                    == old(self).spec_aliases(),
            },
    {
        if !assoc_contains(&self.collections, collection_name) {
            return Err(Error::CollectionNotFound(collection_name.to_owned()));
        }
        let ghost pre = self.aliases@;
        assoc_set(&mut self.aliases, alias_name.to_owned(), collection_name.to_owned());
        proof {
            assert(final(self).spec_aliases().dom() =~= old(self).spec_aliases().dom().insert(
                alias_name@,
            ));
        }
        Ok(true)
    }

    /// Drop an alias, reporting whether it existed.
    pub fn delete_alias(&mut self, alias_name: &str) -> (r: Result<bool, Error>)
        requires
            old(self).wf(),
        ensures
            final(self).wf(),
            final(self).spec_collections() == old(self).spec_collections(),
            final(self).spec_aliases() == old(self).spec_aliases().remove(alias_name@),
            r == Ok::<bool, Error>(old(self).spec_aliases().contains_key(alias_name@)),
    {
        let removed = assoc_remove(&mut self.aliases, alias_name);
        Ok(removed.is_some())
    }

    /// Re-point an alias under a new name, reporting whether the old one
    /// existed.
    pub fn rename_alias(&mut self, old_alias: &str, new_alias: &str) -> (r: Result<bool, Error>)
        requires
            old(self).wf(),
        ensures
            final(self).wf(),
            final(self).spec_collections() == old(self).spec_collections(),
            match r {
                Ok(true) => old(self).spec_aliases().contains_key(old_alias@) && final(self).spec_aliases() == old(self).spec_aliases().remove(old_alias@).insert(
                    new_alias@,
                    old(self).spec_aliases()[old_alias@],
                ),
                Ok(false) => !old(self).spec_aliases().contains_key(old_alias@) && final(self).spec_aliases() == old(self).spec_aliases(),
                Err(_) => false,
            },
    {
        let removed = assoc_remove(&mut self.aliases, old_alias);
        match removed {
            Some(target) => {
                assoc_set(&mut self.aliases, new_alias.to_owned(), target);
                Ok(true)
            },
            None => Ok(false),
        }
    }

    /// All aliases with their targets, in creation order.
    pub fn list_aliases(&self) -> (r: Vec<(String, String)>)
        requires
            self.wf(),
        ensures
            r@.len() == self.spec_aliases().len(),
            forall|i: int|
                0 <= i < r@.len() ==> self.spec_aliases().contains_key((#[trigger] r@[i]).0@)
                    && self.spec_aliases()[r@[i].0@]@ == r@[i].1@,
    {
        let n = self.aliases.len();
        let mut out: Vec<(String, String)> = Vec::new();
        let mut i: usize = 0;
        while i < n
            invariant
                self.wf(),
                i <= n == self.aliases@.len(),
                out@.len() == i,
                forall|q: int|
                    0 <= q < i ==> (#[trigger] out@[q]).0@ == self.aliases@[q].0@ && out@[q].1@
                        == self.aliases@[q].1@,
            decreases n - i,
        {
            let a = self.aliases[i].0.clone();
            let c = self.aliases[i].1.clone();
            out.push((a, c));
            i = i + 1;
        }
        proof {
            lemma_assoc_len(self.aliases@);
            assert forall|i2: int| 0 <= i2 < out@.len() implies self.spec_aliases().contains_key(
                (#[trigger] out@[i2]).0@,
            ) && self.spec_aliases()[out@[i2].0@]@ == out@[i2].1@ by {
                lemma_assoc_index(self.aliases@, i2);
            }
        }
        out
    }

    /// The aliases that point at one collection.
    pub fn list_collection_aliases(&self, collection_name: &str) -> (r: Vec<String>)
        requires
            self.wf(),
        ensures
            forall|i: int|
                0 <= i < r@.len() ==> self.spec_aliases().contains_key((#[trigger] r@[i])@)
                    && self.spec_aliases()[r@[i]@]@ == collection_name@,
    {
        let n = self.aliases.len();
        let mut out: Vec<String> = Vec::new();
        let mut i: usize = 0;
        while i < n
            invariant
                self.wf(),
                i <= n == self.aliases@.len(),
                forall|q: int|
                    0 <= q < out@.len() ==> self.spec_aliases().contains_key((#[trigger] out@[q])@)
                        && self.spec_aliases()[out@[q]@]@ == collection_name@,
            decreases n - i,
        {
            if crate::json::str_eq(self.aliases[i].1.as_str(), collection_name) {
                proof {
                    lemma_assoc_index(self.aliases@, i as int);
                }
                out.push(self.aliases[i].0.clone());
            }
            i = i + 1;
        }
        out
    }
}

/// Map-level updates to the collection list keep every stored collection
/// well-formed, as long as each value put in was.
proof fn lemma_collections_wf_after_set(
    pre: Seq<(String, Collection)>,
    post: Seq<(String, Collection)>,
)
    requires
        spec_assoc_unique(pre),
        spec_assoc_unique(post),
        forall|i: int| 0 <= i < pre.len() ==> (#[trigger] pre[i]).1.wf(),
        forall|k: Seq<char>|
            #![auto]
            spec_assoc_map(post).contains_key(k) ==> (spec_assoc_map(pre).contains_key(k)
                && spec_assoc_map(post)[k] == spec_assoc_map(pre)[k]) || spec_assoc_map(
                post,
            )[k].wf(),
    ensures
        forall|i: int| 0 <= i < post.len() ==> (#[trigger] post[i]).1.wf(),
{
    assert forall|i: int| 0 <= i < post.len() implies (#[trigger] post[i]).1.wf() by {
        lemma_assoc_index(post, i);
        let k = post[i].0@;
        if spec_assoc_map(pre).contains_key(k) && spec_assoc_map(post)[k] == spec_assoc_map(
            pre,
        )[k] {
            lemma_assoc_contains(pre, k);
            let j = choose|j: int| 0 <= j < pre.len() && (#[trigger] pre[j]).0@ == k;
            lemma_assoc_index(pre, j);
        }
    }
}

} // verus!
