//! The collection: the primary point store and its companion indexes.
//!
//! A collection validates dimensions, assigns versions, keeps the id-keyed
//! point map, feeds the full-text index, and decides how a search is
//! routed.  Distance arithmetic itself happens outside this crate: callers
//! score candidates and hand the scores back as bit patterns.

use vstd::prelude::*;
use crate::assoc::{
    spec_assoc_map,
    spec_assoc_unique,
    assoc_get,
    assoc_set,
    assoc_remove,
    assoc_contains,
    assoc_find,
    lemma_assoc_len,
    lemma_assoc_index,
    lemma_assoc_contains,
};
use crate::bm25::BM25Index;
use crate::error::Error;
use crate::filter::Filter;
use crate::json::{
    JsonValue,
    spec_json_identical,
    spec_obj_get,
    spec_obj_get_rev,
    spec_obj_merge,
    spec_obj_remove_first,
    obj_set_pair,
    obj_remove_pair,
    lemma_obj_merge_get,
    lemma_obj_get_identical,
    lemma_obj_remove_first_get,
    lemma_obj_remove_first_at,
    lemma_obj_get_absent,
};
use crate::point::{Point, Vector, MultiVector, spec_canonical_id, spec_points_identical};
use crate::tokenize::spec_tokenize;

verus! {

/// The distance families a collection can be configured with.
#[derive(Debug, Clone, Copy, PartialEq, Eq, Structural)]
pub enum Distance {
    Cosine,
    Euclidean,
    Dot,
}

/// Advisory payload index kinds.
#[derive(Debug, Clone, Copy, PartialEq, Eq, Structural)]
pub enum PayloadIndexType {
    Keyword,
    Integer,
    Float,
    Bool,
    Geo,
    Text,
}

/// Configuration of a collection.
#[derive(Debug)]
pub struct CollectionConfig {
    pub name: String,
    pub vector_dim: usize,
    pub distance: Distance,
    pub use_hnsw: bool,
    pub enable_bm25: bool,
}

impl Clone for CollectionConfig {
    /// A copy equal to the original.
    fn clone(&self) -> (r: Self)
        ensures
            r == *self,
    {
        CollectionConfig {
            name: self.name.clone(),
            vector_dim: self.vector_dim,
            distance: self.distance,
            use_hnsw: self.use_hnsw,
            enable_bm25: self.enable_bm25,
        }
    }
}

impl Default for CollectionConfig {
    /// The default configuration: unnamed, 128-dimensional cosine space
    /// with the graph index on and full text off.
    fn default() -> (r: Self)
        ensures
            r.name@ == Seq::<char>::empty(),
            r.vector_dim == 128,
            r.distance == Distance::Cosine,
            r.use_hnsw == true,
            r.enable_bm25 == false,
    {
        CollectionConfig {
            name: String::new(),
            vector_dim: 128,
            distance: Distance::Cosine,
            use_hnsw: true,
            enable_bm25: false,
        }
    }
}

/// The version an overwrite assigns, given the version it replaces.
pub open spec fn spec_next_version(v: u64) -> u64 {
    if v == u64::MAX {
        0
    } else {
        (v + 1) as u64
    }
}

/// Every stored pair files its point under the point's own canonical id.
pub open spec fn spec_keys_canonical(pairs: Seq<(String, Point)>) -> bool {
    forall|i: int|
        0 <= i < pairs.len() ==> (#[trigger] pairs[i]).0@ == spec_canonical_id(pairs[i].1.id)
}

/// Storing a point under its own canonical id keeps every key canonical.
proof fn lemma_canonical_after_set(
    pre: Seq<(String, Point)>,
    post: Seq<(String, Point)>,
    key: Seq<char>,
    val: Point,
)
    requires
        spec_assoc_unique(pre),
        spec_assoc_unique(post),
        spec_keys_canonical(pre),
        spec_assoc_map(post) == spec_assoc_map(pre).insert(key, val),
        key == spec_canonical_id(val.id),
    ensures
        spec_keys_canonical(post),
{
    assert forall|i: int| 0 <= i < post.len() implies (#[trigger] post[i]).0@ == spec_canonical_id(
        post[i].1.id,
    ) by {
        lemma_assoc_index(post, i);
        let k = post[i].0@;
        if k != key {
            lemma_assoc_contains(post, k);
            lemma_assoc_contains(pre, k);
            let j = choose|j: int| 0 <= j < pre.len() && (#[trigger] pre[j]).0@ == k;
            lemma_assoc_index(pre, j);
        }
    }
}

/// Removing a pair keeps every key canonical.
proof fn lemma_canonical_after_remove(
    pre: Seq<(String, Point)>,
    post: Seq<(String, Point)>,
    key: Seq<char>,
)
    requires
        spec_assoc_unique(pre),
        spec_assoc_unique(post),
        spec_keys_canonical(pre),
        spec_assoc_map(post) == spec_assoc_map(pre).remove(key),
    ensures
        spec_keys_canonical(post),
{
    assert forall|i: int| 0 <= i < post.len() implies (#[trigger] post[i]).0@ == spec_canonical_id(
        post[i].1.id,
    ) by {
        lemma_assoc_index(post, i);
        let k = post[i].0@;
        lemma_assoc_contains(post, k);
        lemma_assoc_contains(pre, k);
        let j = choose|j: int| 0 <= j < pre.len() && (#[trigger] pre[j]).0@ == k;
        lemma_assoc_index(pre, j);
    }
}

/// How a search is executed.
#[derive(Debug, Clone, Copy, PartialEq, Eq, Structural)]
pub enum SearchRoute {
    /// Few points: score every point directly.
    BruteForce,
    /// Consult the graph index, building it first if it is stale.
    Graph { needs_build: bool },
    /// No graph index: a full linear scan.
    Linear,
}

/// What `end_batch` asks its caller to do.
#[derive(Debug, Clone, Copy, PartialEq, Eq, Structural)]
pub enum RebuildAction {
    Unneeded,
    Background,
}

pub struct Collection {
    config: CollectionConfig,
    points: Vec<(String, Point)>,
    bm25: Option<BM25Index>,
    hnsw_built: bool,
    hnsw_rebuilding: bool,
    batch_mode: bool,
    pending_points: Vec<Point>,
    payload_indexes: Vec<(String, PayloadIndexType)>,
    operation_counter: u64,
}

impl Collection {
    /// The primary store: canonical id text to point.
    pub closed spec fn spec_points(&self) -> Map<Seq<char>, Point> {
        spec_assoc_map(self.points@)
    }

    /// The configuration.
    pub closed spec fn spec_config(&self) -> CollectionConfig {
        self.config
    }

    /// Whether the graph index is marked built.
    pub closed spec fn spec_hnsw_built(&self) -> bool {
        self.hnsw_built
    }

    /// Whether a background rebuild is in flight.
    pub closed spec fn spec_hnsw_rebuilding(&self) -> bool {
        self.hnsw_rebuilding
    }

    /// Whether batch mode is on.
    pub closed spec fn spec_batch_mode(&self) -> bool {
        self.batch_mode
    }

    /// The points buffered during the current batch.
    pub closed spec fn spec_pending(&self) -> Seq<Point> {
        self.pending_points@
    }

    /// The operation counter.
    pub closed spec fn spec_operation_counter(&self) -> u64 {
        self.operation_counter
    }

    /// The advisory payload indexes.
    pub closed spec fn spec_payload_indexes(&self) -> Map<Seq<char>, PayloadIndexType> {
        spec_assoc_map(self.payload_indexes@)
    }

    /// The document lengths of the full-text index (empty when disabled).
    pub closed spec fn spec_bm25_lengths(&self) -> Map<Seq<char>, u32> {
        match self.bm25 {
            Some(ix) => ix.spec_lengths(),
            None => Map::empty(),
        }
    }

    /// Structural invariant: unique keys, each point filed under its own
    /// canonical id, and a well-formed companion index.
    pub closed spec fn wf(&self) -> bool {
        &&& spec_assoc_unique(self.points@)
        &&& spec_keys_canonical(self.points@)
        &&& spec_assoc_unique(self.payload_indexes@)
        &&& match self.bm25 {
            Some(ix) => ix.wf(),
            None => true,
        }
        &&& (self.bm25 is Some) == self.config.enable_bm25
    }

    /// A fresh, empty collection for this configuration.
    pub fn new(config: CollectionConfig) -> (r: Collection)
        ensures
            r.wf(),
            r.spec_config() == config,
            r.spec_points() == Map::<Seq<char>, Point>::empty(),
            !r.spec_hnsw_built(),
            !r.spec_hnsw_rebuilding(),
            !r.spec_batch_mode(),
            r.spec_pending().len() == 0,
            r.spec_payload_indexes() == Map::<Seq<char>, PayloadIndexType>::empty(),
            r.spec_bm25_lengths() == Map::<Seq<char>, u32>::empty(),
    {
        let bm25 = if config.enable_bm25 {
            Some(BM25Index::new())
        } else {
            None
        };
        Collection {
            config,
            points: Vec::new(),
            bm25,
            hnsw_built: false,
            hnsw_rebuilding: false,
            batch_mode: false,
            pending_points: Vec::new(),
            payload_indexes: Vec::new(),
            operation_counter: 0,
        }
    }

    /// The collection's name.
    pub fn name<'a>(&'a self) -> (r: &'a str)
        ensures
            r@ == self.spec_config().name@,
    {
        self.config.name.as_str()
    }

    /// The configured vector dimension.
    pub fn vector_dim(&self) -> (r: usize)
        ensures
            r == self.spec_config().vector_dim,
    {
        self.config.vector_dim
    }

    /// The configured distance.
    pub fn distance(&self) -> (r: Distance)
        ensures
            r == self.spec_config().distance,
    {
        self.config.distance
    }

    /// Whether the graph index is enabled.
    pub fn use_hnsw(&self) -> (r: bool)
        ensures
            r == self.spec_config().use_hnsw,
    {
        self.config.use_hnsw
    }

    /// Whether full-text indexing is enabled.
    pub fn enable_bm25(&self) -> (r: bool)
        ensures
            r == self.spec_config().enable_bm25,
    {
        self.config.enable_bm25
    }

    /// Whether the graph index is marked built.
    pub fn hnsw_built(&self) -> (r: bool)
        ensures
            r == self.spec_hnsw_built(),
    {
        self.hnsw_built
    }

    /// Whether batch mode is on.
    pub fn batch_mode(&self) -> (r: bool)
        ensures
            r == self.spec_batch_mode(),
    {
        self.batch_mode
    }

    /// The full-text index, when the collection was configured with one.
    pub fn bm25<'a>(&'a self) -> (r: Option<&'a BM25Index>)
        requires
            self.wf(),
        ensures
            match r {
                Some(ix) => {
                    &&& self.spec_config().enable_bm25
                    &&& ix.wf()
                    &&& ix.spec_lengths() == self.spec_bm25_lengths()
                },
                None => !self.spec_config().enable_bm25,
            },
    {
        match &self.bm25 {
            Some(ix) => Some(ix),
            None => None,
        }
    }

    /// Hand out the next operation number.
    pub fn next_operation_id(&mut self) -> (r: u64)
        ensures
            r == old(self).spec_operation_counter(),
            final(self).spec_operation_counter() == spec_next_version(
                old(self).spec_operation_counter(),
            ),
            final(self).wf() == old(self).wf(),
            final(self).spec_points() == old(self).spec_points(),
    {
        let r = self.operation_counter;
        if self.operation_counter == u64::MAX {
            self.operation_counter = 0;
        } else {
            self.operation_counter = self.operation_counter + 1;
        }
        r
    }

    /// Number of stored points.
    pub fn count(&self) -> (r: usize)
        requires
            self.wf(),
        ensures
            r == self.spec_points().len(),
    {
        proof {
            lemma_assoc_len(self.points@);
        }
        self.points.len()
    }

    /// Whether no point is stored.
    pub fn is_empty(&self) -> (r: bool)
        requires
            self.wf(),
        ensures
            r == (self.spec_points().len() == 0),
    {
        proof {
            lemma_assoc_len(self.points@);
        }
        self.points.is_empty()
    }

    /// A copy of the point stored under this canonical id, if any.
    pub fn get(&self, id: &str) -> (r: Option<Point>)
        requires
            self.wf(),
        ensures
            match r {
                Some(p) => self.spec_points().contains_key(id@) && spec_points_identical(
                    p,
                    self.spec_points()[id@],
                ),
                None => !self.spec_points().contains_key(id@),
            },
    {
        match assoc_get(&self.points, id) {
            Some(p) => Some(p.clone()),
            None => None,
        }
    }

    /// Copies of all stored points, in insertion order.
    pub fn get_all_points(&self) -> (r: Vec<Point>)
        requires
            self.wf(),
        ensures
            r@.len() == self.spec_points().len(),
            forall|i: int|
                0 <= i < r@.len() ==> self.spec_points().contains_key(
                    spec_canonical_id(#[trigger] r@[i].id),
                ) && spec_points_identical(r@[i], self.spec_points()[spec_canonical_id(r@[i].id)]),
            // One copy per stored point: together with the count, the ids
            // of the results enumerate the store's keys exactly.
            forall|i: int, j: int|
                0 <= i < j < r@.len() ==> spec_canonical_id((#[trigger] r@[i]).id)
                    != spec_canonical_id((#[trigger] r@[j]).id),
    {
        let n = self.points.len();
        let mut out: Vec<Point> = Vec::new();
        let mut i: usize = 0;
        while i < n
            invariant
                self.wf(),
                i <= n == self.points@.len(),
                out@.len() == i,
                forall|k: int|
                    0 <= k < i ==> spec_points_identical(
                        #[trigger] out@[k],
                        self.points@[k].1,
                    ) && out@[k].id == self.points@[k].1.id,
            decreases n - i,
        {
            out.push(self.points[i].1.clone());
            i = i + 1;
        }
        proof {
            lemma_assoc_len(self.points@);
            assert forall|i2: int| 0 <= i2 < out@.len() implies self.spec_points().contains_key(
                spec_canonical_id(#[trigger] out@[i2].id),
            ) && spec_points_identical(
                out@[i2],
                self.spec_points()[spec_canonical_id(out@[i2].id)],
            ) by {
                lemma_assoc_index(self.points@, i2);
                assert(self.points@[i2].0@ == spec_canonical_id(self.points@[i2].1.id));
            }
            assert forall|i2: int, j2: int| 0 <= i2 < j2 < out@.len() implies spec_canonical_id(
                (#[trigger] out@[i2]).id,
            ) != spec_canonical_id((#[trigger] out@[j2]).id) by {
                assert(out@[i2].id == self.points@[i2].1.id);
                assert(out@[j2].id == self.points@[j2].1.id);
                assert(self.points@[i2].0@ == spec_canonical_id(self.points@[i2].1.id));
                assert(self.points@[j2].0@ == spec_canonical_id(self.points@[j2].1.id));
            }
        }
        out
    }

    /// Insert or overwrite a point.
    ///
    /// A point whose vector does not match the configured dimension is
    /// rejected (unless the collection is sparse-only, dimension zero).
    /// Otherwise the point is stored under its canonical id with version
    /// zero, or one more than the version it overwrites; in batch mode it
    /// is also buffered; and when full text is on and the payload holds a
    /// string field `text`, the text is indexed under the point's id.
    pub fn upsert(&mut self, point: Point) -> (r: Result<(), Error>)
        requires
            old(self).wf(),
        ensures
            final(self).wf(),
            final(self).spec_config() == old(self).spec_config(),
            final(self).spec_hnsw_built() == old(self).spec_hnsw_built(),
            final(self).spec_hnsw_rebuilding() == old(self).spec_hnsw_rebuilding(),
            final(self).spec_batch_mode() == old(self).spec_batch_mode(),
            match r {
                Err(e) => {
                    &&& old(self).spec_config().vector_dim > 0
                    &&& point.vector@.len() != old(self).spec_config().vector_dim
                    &&& e matches Error::InvalidDimension { expected, actual } && expected == old(self).spec_config().vector_dim && actual == point.vector@.len()
                    &&& final(self).spec_points() == old(self).spec_points()
                    &&& final(self).spec_pending() == old(self).spec_pending()
                    &&& final(self).spec_bm25_lengths() == old(self).spec_bm25_lengths()
                },
                Ok(_) => {
                    &&& (old(self).spec_config().vector_dim > 0 ==> point.vector@.len() == old(self).spec_config().vector_dim)
                    &&& spec_upsert_outcome(*old(self), *final(self), point)
                },
            },
    {
        if self.config.vector_dim > 0 {
            let d = point.vector.dim();
            if d != self.config.vector_dim {
                return Err(
                    Error::InvalidDimension { expected: self.config.vector_dim, actual: d },
                );
            }
        }
        let ghost p0 = point;
        let id_str = point.id.to_string();

        let new_version: u64 = match assoc_get(&self.points, id_str.as_str()) {
            Some(existing) => {
                if existing.version == u64::MAX {
                    0
                } else {
                    existing.version + 1
                }
            },
            None => 0,
        };
        let mut versioned_point = point;
        versioned_point.version = new_version;

        if self.batch_mode {
            let ghost pre_pairs = self.points@;
            let stored = versioned_point.clone();
            proof {
                assert(versioned_point == Point { version: new_version, ..p0 });
            }
            assoc_set(&mut self.points, id_str.clone(), versioned_point);
            self.pending_points.push(stored);
            proof {
                lemma_canonical_after_set(
                    pre_pairs,
                    self.points@,
                    id_str@,
                    Point { version: new_version, ..p0 },
                );
                crate::point::lemma_points_identical_reflexive(Point { version: new_version, ..p0 });
                assert(self.spec_points()[spec_canonical_id(p0.id)] == Point {
                    version: new_version,
                    ..p0
                });
                assert(self.spec_points().dom() =~= old(self).spec_points().dom().insert(
                    spec_canonical_id(p0.id),
                ));
            }
            return Ok(());
        }

        if self.config.enable_bm25 {
            let text: Option<String> = match &versioned_point.payload {
                Some(payload) => match payload.get("text") {
                    Some(v) => match v.as_str_value() {
                        Some(s) => Some(s.clone()),
                        None => None,
                    },
                    None => None,
                },
                None => None,
            };
            if let Some(text) = text {
                match &mut self.bm25 {
                    Some(ix) => {
                        ix.insert_doc(id_str.as_str(), text.as_str());
                    },
                    None => {},
                }
            }
        }

        let ghost pre_pairs = self.points@;
        proof {
            assert(versioned_point == Point { version: new_version, ..p0 });
        }
        assoc_set(&mut self.points, id_str, versioned_point);
        proof {
            lemma_canonical_after_set(
                pre_pairs,
                self.points@,
                spec_canonical_id(p0.id),
                Point { version: new_version, ..p0 },
            );
            crate::point::lemma_points_identical_reflexive(Point { version: new_version, ..p0 });
            assert(self.spec_points()[spec_canonical_id(p0.id)] == Point {
                version: new_version,
                ..p0
            });
            assert(self.spec_points().dom() =~= old(self).spec_points().dom().insert(
                spec_canonical_id(p0.id),
            ));
        }
        Ok(())
    }

    /// Remove a point by canonical id, reporting whether it was present.
    /// The full-text index forgets the document either way.
    pub fn delete(&mut self, id: &str) -> (r: Result<bool, Error>)
        requires
            old(self).wf(),
        ensures
            final(self).wf(),
            final(self).spec_config() == old(self).spec_config(),
            final(self).spec_points() == old(self).spec_points().remove(id@),
            final(self).spec_bm25_lengths() == old(self).spec_bm25_lengths().remove(id@),
            r == Ok::<bool, Error>(old(self).spec_points().contains_key(id@)),
    {
        match &mut self.bm25 {
            Some(ix) => {
                ix.delete_doc(id);
            },
            None => {
                proof {
                    assert(old(self).spec_bm25_lengths().remove(id@) =~= old(self).spec_bm25_lengths());
                }
            },
        }
        let ghost pre_pairs = self.points@;
        let removed = assoc_remove(&mut self.points, id);
        proof {
            lemma_canonical_after_remove(pre_pairs, self.points@, id@);
        }
        Ok(removed.is_some())
    }

    /// Record an advisory payload index for a field.
    pub fn create_payload_index(&mut self, field_name: &str, index_type: PayloadIndexType) -> (r:
        Result<bool, Error>)
        requires
            old(self).wf(),
        ensures
            final(self).wf(),
            final(self).spec_points() == old(self).spec_points(),
            final(self).spec_payload_indexes() == old(self).spec_payload_indexes().insert(
                field_name@,
                index_type,
            ),
            r == Ok::<bool, Error>(true),
    {
        assoc_set(&mut self.payload_indexes, field_name.to_owned(), index_type);
        Ok(true)
    }

    /// Forget the advisory payload index of a field, reporting whether one
    /// was recorded.
    pub fn delete_payload_index(&mut self, field_name: &str) -> (r: Result<bool, Error>)
        requires
            old(self).wf(),
        ensures
            final(self).wf(),
            final(self).spec_points() == old(self).spec_points(),
            final(self).spec_payload_indexes() == old(self).spec_payload_indexes().remove(
                field_name@,
            ),
            r == Ok::<bool, Error>(old(self).spec_payload_indexes().contains_key(field_name@)),
    {
        let removed = assoc_remove(&mut self.payload_indexes, field_name);
        Ok(removed.is_some())
    }

    /// Whether a field has an advisory payload index.
    pub fn is_field_indexed(&self, field_name: &str) -> (r: bool)
        requires
            self.wf(),
        ensures
            r == self.spec_payload_indexes().contains_key(field_name@),
    {
        assoc_contains(&self.payload_indexes, field_name)
    }

    /// Enter batch mode: graph updates are deferred and the pending buffer
    /// restarts empty.
    pub fn start_batch(&mut self)
        requires
            old(self).wf(),
        ensures
            final(self).wf(),
            final(self).spec_points() == old(self).spec_points(),
            final(self).spec_config() == old(self).spec_config(),
            final(self).spec_batch_mode(),
            final(self).spec_pending().len() == 0,
            final(self).spec_hnsw_built() == old(self).spec_hnsw_built(),
            final(self).spec_hnsw_rebuilding() == old(self).spec_hnsw_rebuilding(),
            final(self).spec_bm25_lengths() == old(self).spec_bm25_lengths(),
    {
        self.batch_mode = true;
        self.pending_points.clear();
    }

    /// Leave batch mode.  Large collections with the graph enabled and no
    /// rebuild in flight ask for a background rebuild; the caller performs
    /// it and reports completion through `finish_rebuild`.
    pub fn end_batch(&mut self) -> (r: Result<RebuildAction, Error>)
        requires
            old(self).wf(),
        ensures
            final(self).wf(),
            final(self).spec_points() == old(self).spec_points(),
            final(self).spec_config() == old(self).spec_config(),
            !final(self).spec_batch_mode(),
            final(self).spec_pending().len() == 0,
            final(self).spec_hnsw_built() == old(self).spec_hnsw_built(),
            final(self).spec_bm25_lengths() == old(self).spec_bm25_lengths(),
            r == Ok::<RebuildAction, Error>(
                if old(self).spec_config().use_hnsw && old(self).spec_points().len() > 10000 && !old(self).spec_hnsw_rebuilding() {
                    RebuildAction::Background
                } else {
                    RebuildAction::Unneeded
                },
            ),
            final(self).spec_hnsw_rebuilding() == (old(self).spec_hnsw_rebuilding() || (old(self).spec_config().use_hnsw && old(self).spec_points().len() > 10000)),
    {
        self.batch_mode = false;
        let mut action = RebuildAction::Unneeded;
        if self.config.use_hnsw {
            proof {
                lemma_assoc_len(self.points@);
            }
            let point_count = self.points.len();
            if point_count > 10000 && !self.hnsw_rebuilding {
                self.hnsw_rebuilding = true;
                action = RebuildAction::Background;
            }
        }
        self.pending_points.clear();
        Ok(action)
    }

    /// Insert many points under batch mode: each point is folded into the
    /// store by the upsert rules, graph updates are deferred, and the
    /// rebuild policy of `end_batch` decides the returned action.  A
    /// dimension failure aborts at the failing point (leaving batch mode
    /// on, as a direct upsert stream would).
    pub fn batch_upsert(&mut self, points: Vec<Point>) -> (r: Result<RebuildAction, Error>)
        requires
            old(self).wf(),
        ensures
            final(self).wf(),
            final(self).spec_config() == old(self).spec_config(),
            final(self).spec_bm25_lengths() == old(self).spec_bm25_lengths(),
            final(self).spec_hnsw_built() == old(self).spec_hnsw_built(),
            r is Ok ==> {
                &&& !final(self).spec_batch_mode()
                &&& final(self).spec_pending().len() == 0
                &&& spec_upserts_applied(
                    old(self).spec_points(),
                    final(self).spec_points(),
                    points@,
                )
                &&& r == Ok::<RebuildAction, Error>(
                    if old(self).spec_config().use_hnsw && final(self).spec_points().len() > 10000
                        && !old(self).spec_hnsw_rebuilding() {
                        RebuildAction::Background
                    } else {
                        RebuildAction::Unneeded
                    },
                )
            },
            r is Err ==> final(self).spec_batch_mode() && old(self).spec_config().vector_dim > 0
                && (exists|i: int|
                0 <= i < points@.len() && (#[trigger] points@[i].vector)@.len() != old(
                    self,
                ).spec_config().vector_dim),
    {
        self.start_batch();
        let mut rest = points;
        let ghost all = rest@;
        proof {
            assert(all.take(0) =~= Seq::<Point>::empty());
        }
        while rest.len() > 0
            invariant
                self.wf(),
                self.spec_config() == old(self).spec_config(),
                self.spec_batch_mode(),
                self.spec_bm25_lengths() == old(self).spec_bm25_lengths(),
                self.spec_hnsw_built() == old(self).spec_hnsw_built(),
                self.spec_hnsw_rebuilding() == old(self).spec_hnsw_rebuilding(),
                all == points@,
                rest@.len() <= all.len(),
                rest@ == all.skip(all.len() - rest@.len()),
                spec_upserts_applied(
                    old(self).spec_points(),
                    self.spec_points(),
                    all.take(all.len() - rest@.len()),
                ),
            decreases rest@.len(),
        {
            let ghost j = all.len() - rest@.len();
            let ghost pre_rest = rest@;
            let p = rest.remove(0);
            proof {
                assert(pre_rest == all.skip(j));
                assert(all.skip(j)[0] == all[j]);
                assert(p == pre_rest[0]);
                assert(p == all[j]);
                assert(all.skip(j).remove(0) =~= all.skip(j + 1));
                assert(rest@ == all.skip(j + 1));
            }
            let ghost pv = p.vector@.len();
            let ghost cfgdim = self.spec_config().vector_dim;
            let ghost prev_map = self.spec_points();
            match self.upsert(p) {
                Ok(_) => {
                    proof {
                        let m0 = old(self).spec_points();
                        let cur = self.spec_points();
                        let t = all.take(j);
                        let t1 = all.take(j + 1);
                        let key = spec_canonical_id(all[j].id);
                        assert(t1.drop_last() =~= t);
                        assert(t1.last() == all[j]);
                        assert(spec_store_upserted(prev_map, cur, all[j]));
                        assert(cur.dom() =~= spec_dom_after(m0.dom(), t1));
                        assert forall|k: Seq<char>| #[trigger] cur.contains_key(k) implies Some(
                            cur[k].version,
                        ) == spec_version_after(m0, t1, k) by {
                            lemma_version_dom(m0, t, k);
                            if k != key {
                                assert(prev_map.contains_key(k));
                                assert(cur[k] == prev_map[k]);
                            }
                        }
                        assert forall|k: Seq<char>| true implies match #[trigger] spec_last_upserted(
                            t1,
                            k,
                        ) {
                            Some(p) => cur.contains_key(k) && spec_points_identical(
                                cur[k],
                                Point { version: cur[k].version, ..p },
                            ),
                            None => m0.contains_key(k) ==> cur[k] == m0[k],
                        } by {
                            if k != key {
                                assert(spec_last_upserted(t1, k) == spec_last_upserted(t, k));
                                match spec_last_upserted(t, k) {
                                    Some(p) => {
                                        assert(prev_map.contains_key(k));
                                        assert(cur[k] == prev_map[k]);
                                    },
                                    None => {
                                        if m0.contains_key(k) {
                                            lemma_dom_after_monotone(m0.dom(), t, k);
                                            assert(prev_map.contains_key(k));
                                            assert(prev_map[k] == m0[k]);
                                            assert(cur[k] == prev_map[k]);
                                        }
                                    },
                                }
                            }
                        }
                        assert(spec_upserts_applied(m0, cur, t1));
                    }
                },
                Err(e) => {
                    proof {
                        assert(pv != cfgdim);
                        assert(cfgdim == old(self).spec_config().vector_dim);
                        assert(pv == all[j].vector@.len());
                        assert(all[j].vector@.len() != old(self).spec_config().vector_dim);
                        assert((points@[j].vector)@.len() != old(self).spec_config().vector_dim);
                    }
                    return Err(e);
                },
            }
        }
        proof {
            assert(all.take(all.len() as int) =~= all);
        }
        self.end_batch()
    }

    /// Mark the graph index rebuilt: the background job has swapped the new
    /// graph in.
    pub fn finish_rebuild(&mut self)
        requires
            old(self).wf(),
        ensures
            final(self).wf(),
            final(self).spec_points() == old(self).spec_points(),
            final(self).spec_config() == old(self).spec_config(),
            final(self).spec_hnsw_built(),
            !final(self).spec_hnsw_rebuilding(),
    {
        self.hnsw_built = true;
        self.hnsw_rebuilding = false;
    }

    /// Mark the graph index built (or stale) directly; the caller owns the
    /// actual graph.
    pub fn set_hnsw_built(&mut self, built: bool)
        requires
            old(self).wf(),
        ensures
            final(self).wf(),
            final(self).spec_points() == old(self).spec_points(),
            final(self).spec_config() == old(self).spec_config(),
            final(self).spec_hnsw_built() == built,
            final(self).spec_batch_mode() == old(self).spec_batch_mode(),
    {
        self.hnsw_built = built;
    }

    /// Rewrite the stored point under `key` (which must already be stored)
    /// to `newp`, whose id must be unchanged.
    fn rewrite_point(&mut self, idx: usize, key: String, newp: Point)
        requires
            old(self).wf(),
            idx < old(self).points@.len(),
            key@ == old(self).points@[idx as int].0@,
            spec_canonical_id(newp.id) == key@,
        ensures
            final(self).wf(),
            final(self).spec_config() == old(self).spec_config(),
            final(self).spec_bm25_lengths() == old(self).spec_bm25_lengths(),
            final(self).spec_batch_mode() == old(self).spec_batch_mode(),
            final(self).spec_hnsw_built() == old(self).spec_hnsw_built(),
            final(self).spec_points().dom() == old(self).spec_points().dom(),
            final(self).spec_points()[key@] == newp,
            forall|k: Seq<char>|
                old(self).spec_points().contains_key(k) && k != key@ ==> final(self).spec_points()[k] == #[trigger] old(self).spec_points()[k],
    {
        proof {
            crate::assoc::lemma_assoc_update(self.points@, idx as int, key, newp);
            crate::assoc::lemma_assoc_index(self.points@, idx as int);
        }
        let ghost pre_pairs = self.points@;
        self.points.set(idx, (key, newp));
        proof {
            lemma_canonical_after_set(pre_pairs, self.points@, old(self).points@[idx as int].0@, newp);
            lemma_assoc_contains(pre_pairs, pre_pairs[idx as int].0@);
            assert(final(self).spec_points().dom() =~= old(self).spec_points().dom());
        }
    }

    /// Merge payload fields into a point.  With both sides JSON objects the
    /// new fields overwrite or extend the old ones; a point without a
    /// payload adopts the new value; any other shapes leave the payload as
    /// it was.  Reports whether the point exists.
    pub fn set_payload(&mut self, id: &str, payload: JsonValue) -> (r: Result<bool, Error>)
        requires
            old(self).wf(),
        ensures
            final(self).wf(),
            final(self).spec_config() == old(self).spec_config(),
            final(self).spec_bm25_lengths() == old(self).spec_bm25_lengths(),
            r == Ok::<bool, Error>(old(self).spec_points().contains_key(id@)),
            !old(self).spec_points().contains_key(id@) ==> final(self).spec_points() == old(self).spec_points(),
            old(self).spec_points().contains_key(id@) ==> {
                let oldp = old(self).spec_points()[id@];
                let newp = final(self).spec_points()[id@];
                &&& final(self).spec_points().dom() == old(self).spec_points().dom()
                &&& forall|k: Seq<char>|
                    old(self).spec_points().contains_key(k) && k != id@ ==> final(self).spec_points()[k] == #[trigger] old(self).spec_points()[k]
                &&& newp.id == oldp.id
                &&& newp.version == oldp.version
                &&& newp.vector@ == oldp.vector@
                &&& spec_payload_after_merge(oldp.payload, payload, newp.payload)
            },
    {
        let found = assoc_find(&self.points, id);
        proof {
            lemma_assoc_contains(self.points@, id@);
        }
        match found {
            None => Ok(false),
            Some(i) => {
                proof {
                    lemma_assoc_index(self.points@, i as int);
                }
                let ghost oldpay = old(self).spec_points()[id@].payload;
                let ghost argpay = payload;
                let key = self.points[i].0.clone();
                let mut p = self.points[i].1.clone();
                let ghost clonepay = p.payload;
                let taken = p.payload;
                let newpay: Option<JsonValue> = match (taken, payload) {
                    (None, np) => {
                        proof {
                            crate::json::lemma_json_identical_reflexive(argpay);
                        }
                        Some(np)
                    },
                    (Some(JsonValue::Object(mut op)), JsonValue::Object(mut np)) => {
                        let ghost op0 = op@;
                        let ghost np0 = np@;
                        proof {
                            assert(np0.take(0) =~= Seq::<(String, JsonValue)>::empty());
                        }
                        while np.len() > 0
                            invariant
                                np@ == np0.skip(np0.len() - np@.len()),
                                np@.len() <= np0.len(),
                                op@ == spec_obj_merge(op0, np0.take(np0.len() - np@.len())),
                            decreases np@.len(),
                        {
                            let ghost j = np0.len() - np@.len();
                            let (k, v) = np.remove(0);
                            proof {
                                assert(np0.skip(j)[0] == np0[j]);
                                assert(np0.skip(j).remove(0) =~= np0.skip(j + 1));
                                assert(np0.take(j + 1).drop_last() =~= np0.take(j));
                                assert(np0.take(j + 1).last() == np0[j]);
                            }
                            obj_set_pair(&mut op, k, v);
                        }
                        proof {
                            assert(np0.take(np0.len() as int) =~= np0);
                            assert(op@ == spec_obj_merge(op0, np0));
                            let orig_op = oldpay->Some_0->Object_0;
                            assert(spec_json_identical(
                                JsonValue::Object(clonepay->Some_0->Object_0),
                                JsonValue::Object(orig_op),
                            ));
                            assert forall|f: Seq<char>|
                                #![trigger spec_obj_get(op@, f)]
                                true implies match spec_obj_get_rev(np0, f) {
                                Some(v) => spec_obj_get(op@, f) == Some(v),
                                None => match (spec_obj_get(op@, f), spec_obj_get(orig_op@, f)) {
                                    (Some(x), Some(y)) => spec_json_identical(x, y),
                                    (None, None) => true,
                                    _ => false,
                                },
                            } by {
                                lemma_obj_merge_get(op0, np0, f);
                                lemma_obj_get_identical(op0, orig_op@, f);
                            }
                        }
                        Some(JsonValue::Object(op))
                    },
                    (Some(other), _) => Some(other),
                };
                p.payload = newpay;
                proof {
                    assert(spec_payload_after_merge(oldpay, argpay, p.payload));
                }
                self.rewrite_point(i, key, p);
                Ok(true)
            },
        }
    }

    /// Replace a point's payload outright, reporting whether it exists.
    pub fn overwrite_payload(&mut self, id: &str, payload: JsonValue) -> (r: Result<bool, Error>)
        requires
            old(self).wf(),
        ensures
            final(self).wf(),
            final(self).spec_config() == old(self).spec_config(),
            final(self).spec_bm25_lengths() == old(self).spec_bm25_lengths(),
            r == Ok::<bool, Error>(old(self).spec_points().contains_key(id@)),
            !old(self).spec_points().contains_key(id@) ==> final(self).spec_points() == old(self).spec_points(),
            old(self).spec_points().contains_key(id@) ==> {
                let oldp = old(self).spec_points()[id@];
                let newp = final(self).spec_points()[id@];
                &&& final(self).spec_points().dom() == old(self).spec_points().dom()
                &&& forall|k: Seq<char>|
                    old(self).spec_points().contains_key(k) && k != id@ ==> final(self).spec_points()[k] == #[trigger] old(self).spec_points()[k]
                &&& newp.id == oldp.id
                &&& newp.version == oldp.version
                &&& newp.vector@ == oldp.vector@
                &&& newp.payload matches Some(q) && spec_json_identical(q, payload)
            },
    {
        let found = assoc_find(&self.points, id);
        proof {
            lemma_assoc_contains(self.points@, id@);
        }
        match found {
            None => Ok(false),
            Some(i) => {
                proof {
                    lemma_assoc_index(self.points@, i as int);
                }
                let key = self.points[i].0.clone();
                let mut p = self.points[i].1.clone();
                proof {
                    crate::json::lemma_json_identical_reflexive(payload);
                }
                p.payload = Some(payload);
                self.rewrite_point(i, key, p);
                Ok(true)
            },
        }
    }

    /// Drop all payload from a point, reporting whether it exists.
    pub fn clear_payload(&mut self, id: &str) -> (r: Result<bool, Error>)
        requires
            old(self).wf(),
        ensures
            final(self).wf(),
            final(self).spec_config() == old(self).spec_config(),
            final(self).spec_bm25_lengths() == old(self).spec_bm25_lengths(),
            r == Ok::<bool, Error>(old(self).spec_points().contains_key(id@)),
            !old(self).spec_points().contains_key(id@) ==> final(self).spec_points() == old(self).spec_points(),
            old(self).spec_points().contains_key(id@) ==> {
                let oldp = old(self).spec_points()[id@];
                let newp = final(self).spec_points()[id@];
                &&& final(self).spec_points().dom() == old(self).spec_points().dom()
                &&& forall|k: Seq<char>|
                    old(self).spec_points().contains_key(k) && k != id@ ==> final(self).spec_points()[k] == #[trigger] old(self).spec_points()[k]
                &&& newp.id == oldp.id
                &&& newp.version == oldp.version
                &&& newp.vector@ == oldp.vector@
                &&& newp.payload is None
            },
    {
        let found = assoc_find(&self.points, id);
        proof {
            lemma_assoc_contains(self.points@, id@);
        }
        match found {
            None => Ok(false),
            Some(i) => {
                proof {
                    lemma_assoc_index(self.points@, i as int);
                }
                let key = self.points[i].0.clone();
                let mut p = self.points[i].1.clone();
                p.payload = None;
                self.rewrite_point(i, key, p);
                Ok(true)
            },
        }
    }

    /// Remove the named keys from a point's object payload, reporting
    /// whether the point exists.
    pub fn delete_payload_keys(&mut self, id: &str, keys: &Vec<String>) -> (r: Result<bool, Error>)
        requires
            old(self).wf(),
        ensures
            final(self).wf(),
            final(self).spec_config() == old(self).spec_config(),
            final(self).spec_bm25_lengths() == old(self).spec_bm25_lengths(),
            r == Ok::<bool, Error>(old(self).spec_points().contains_key(id@)),
            !old(self).spec_points().contains_key(id@) ==> final(self).spec_points() == old(self).spec_points(),
            old(self).spec_points().contains_key(id@) ==> {
                let oldp = old(self).spec_points()[id@];
                let newp = final(self).spec_points()[id@];
                &&& final(self).spec_points().dom() == old(self).spec_points().dom()
                &&& forall|k: Seq<char>|
                    old(self).spec_points().contains_key(k) && k != id@ ==> final(self).spec_points()[k] == #[trigger] old(self).spec_points()[k]
                &&& newp.id == oldp.id
                &&& newp.version == oldp.version
                &&& newp.vector@ == oldp.vector@
                &&& spec_payload_after_removal(oldp.payload, keys@, newp.payload)
            },
    {
        let found = assoc_find(&self.points, id);
        proof {
            lemma_assoc_contains(self.points@, id@);
        }
        match found {
            None => Ok(false),
            Some(i) => {
                proof {
                    lemma_assoc_index(self.points@, i as int);
                }
                let ghost oldpay = old(self).spec_points()[id@].payload;
                let key = self.points[i].0.clone();
                let mut p = self.points[i].1.clone();
                let ghost clonepay = p.payload;
                let taken = p.payload;
                let newpay: Option<JsonValue> = match taken {
                    Some(JsonValue::Object(mut op)) => {
                        let ghost op0 = op@;
                        let n = keys.len();
                        let mut j: usize = 0;
                        proof {
                            assert(spec_obj_removed_all(op0, keys@.take(0)) =~= op0);
                        }
                        while j < n
                            invariant
                                j <= n == keys@.len(),
                                op@ == spec_obj_removed_all(op0, keys@.take(j as int)),
                            decreases n - j,
                        {
                            proof {
                                assert(keys@.take(j as int + 1).drop_last() =~= keys@.take(
                                    j as int,
                                ));
                                assert(keys@.take(j as int + 1).last() == keys@[j as int]);
                            }
                            obj_remove_pair(&mut op, keys[j].as_str());
                            j = j + 1;
                        }
                        proof {
                            assert(keys@.take(n as int) =~= keys@);
                            let orig_op = oldpay->Some_0->Object_0;
                            assert(spec_json_identical(
                                JsonValue::Object(clonepay->Some_0->Object_0),
                                JsonValue::Object(orig_op),
                            ));
                            if spec_assoc_unique(orig_op@) {
                                assert(spec_assoc_unique(op0)) by {
                                    assert(forall|a: int|
                                        0 <= a < op0.len() ==> (#[trigger] op0[a]).0@
                                            == orig_op@[a].0@);
                                }
                                assert forall|f: Seq<char>|
                                    #![trigger spec_obj_get(op@, f)]
                                    true implies (
                                if exists|j2: int| 0 <= j2 < keys@.len() && (#[trigger] keys@[
                                    j2
                                ])@ == f {
                                    spec_obj_get(op@, f) is None
                                } else {
                                    match (spec_obj_get(op@, f), spec_obj_get(orig_op@, f)) {
                                        (Some(x), Some(y)) => spec_json_identical(x, y),
                                        (None, None) => true,
                                        _ => false,
                                    }
                                }) by {
                                    lemma_obj_removed_all_get(op0, keys@, f);
                                    lemma_obj_get_identical(op0, orig_op@, f);
                                }
                            }
                        }
                        Some(JsonValue::Object(op))
                    },
                    other => other,
                };
                p.payload = newpay;
                proof {
                    assert(spec_payload_after_removal(oldpay, keys@, p.payload));
                }
                self.rewrite_point(i, key, p);
                Ok(true)
            },
        }
    }

    /// Replace a point's dense vector, reporting whether it exists.  The
    /// caller refreshes the graph index.
    pub fn update_vector(&mut self, id: &str, vector: Vector) -> (r: Result<bool, Error>)
        requires
            old(self).wf(),
        ensures
            final(self).wf(),
            final(self).spec_config() == old(self).spec_config(),
            final(self).spec_bm25_lengths() == old(self).spec_bm25_lengths(),
            r == Ok::<bool, Error>(old(self).spec_points().contains_key(id@)),
            !old(self).spec_points().contains_key(id@) ==> final(self).spec_points() == old(self).spec_points(),
            old(self).spec_points().contains_key(id@) ==> {
                let oldp = old(self).spec_points()[id@];
                let newp = final(self).spec_points()[id@];
                &&& final(self).spec_points().dom() == old(self).spec_points().dom()
                &&& forall|k: Seq<char>|
                    old(self).spec_points().contains_key(k) && k != id@ ==> final(self).spec_points()[k] == #[trigger] old(self).spec_points()[k]
                &&& newp.id == oldp.id
                &&& newp.version == oldp.version
                &&& newp.vector@ == vector@
                &&& match (newp.payload, oldp.payload) {
                    (Some(x), Some(y)) => spec_json_identical(x, y),
                    (None, None) => true,
                    _ => false,
                }
            },
    {
        let found = assoc_find(&self.points, id);
        proof {
            lemma_assoc_contains(self.points@, id@);
        }
        match found {
            None => Ok(false),
            Some(i) => {
                proof {
                    lemma_assoc_index(self.points@, i as int);
                }
                let key = self.points[i].0.clone();
                let mut p = self.points[i].1.clone();
                p.vector = vector;
                self.rewrite_point(i, key, p);
                Ok(true)
            },
        }
    }

    /// Replace or clear a point's multivector, reporting whether it exists.
    pub fn update_multivector(&mut self, id: &str, multivector: Option<MultiVector>) -> (r: Result<
        bool,
        Error,
    >)
        requires
            old(self).wf(),
        ensures
            final(self).wf(),
            final(self).spec_config() == old(self).spec_config(),
            r == Ok::<bool, Error>(old(self).spec_points().contains_key(id@)),
            !old(self).spec_points().contains_key(id@) ==> final(self).spec_points() == old(self).spec_points(),
            old(self).spec_points().contains_key(id@) ==> {
                let oldp = old(self).spec_points()[id@];
                let newp = final(self).spec_points()[id@];
                &&& final(self).spec_points().dom() == old(self).spec_points().dom()
                &&& forall|k: Seq<char>|
                    old(self).spec_points().contains_key(k) && k != id@ ==> final(self).spec_points()[k] == #[trigger] old(self).spec_points()[k]
                &&& newp.id == oldp.id
                &&& newp.version == oldp.version
                &&& newp.vector@ == oldp.vector@
                &&& newp.multivector == multivector
            },
    {
        let found = assoc_find(&self.points, id);
        proof {
            lemma_assoc_contains(self.points@, id@);
        }
        match found {
            None => Ok(false),
            Some(i) => {
                proof {
                    lemma_assoc_index(self.points@, i as int);
                }
                let key = self.points[i].0.clone();
                let mut p = self.points[i].1.clone();
                p.multivector = multivector;
                self.rewrite_point(i, key, p);
                Ok(true)
            },
        }
    }

    /// How a query should be answered, given the store's size and the
    /// configuration: small collections are scanned directly, larger ones
    /// consult the graph when it is enabled (building it first if stale).
    pub fn search_route(&self) -> (r: SearchRoute)
        requires
            self.wf(),
        ensures
            r == (if self.spec_points().len() < 1000 {
                SearchRoute::BruteForce
            } else if self.spec_config().use_hnsw {
                SearchRoute::Graph { needs_build: !self.spec_hnsw_built() }
            } else {
                SearchRoute::Linear
            }),
    {
        proof {
            lemma_assoc_len(self.points@);
        }
        let n = self.points.len();
        if n < 1000 {
            SearchRoute::BruteForce
        } else if self.config.use_hnsw {
            SearchRoute::Graph { needs_build: !self.hnsw_built }
        } else {
            SearchRoute::Linear
        }
    }

    /// Whether the store holds `k` and its point passes the filter.
    pub open spec fn spec_accepts<F: Filter>(&self, filter: Option<&F>, k: Seq<char>) -> bool {
        &&& self.spec_points().contains_key(k)
        &&& match filter {
            Some(f) => f.spec_matches(self.spec_points()[k]),
            None => true,
        }
    }

    /// The keys whose points pass the filter.
    pub open spec fn spec_accepted_keys<F: Filter>(&self, filter: Option<&F>) -> Set<Seq<char>> {
        Set::new(|k: Seq<char>| self.spec_accepts(filter, k))
    }

    /// Whether `r` delivers a copy of the point stored under `k`.
    pub open spec fn spec_delivers(&self, r: Seq<Point>, k: Seq<char>) -> bool {
        exists|i: int|
            0 <= i < r.len() && spec_points_identical(#[trigger] r[i], self.spec_points()[k])
    }

    /// Whether `p` is a copy of some stored point that the filter accepts.
    pub open spec fn spec_from_accepted<F: Filter>(&self, p: Point, filter: Option<&F>) -> bool {
        exists|k: Seq<char>|
            #[trigger] self.spec_accepts(filter, k) && spec_points_identical(
                p,
                self.spec_points()[k],
            )
    }

    /// Copies of the points that pass a filter, in store order: one result
    /// per accepted key, every result a copy of an accepted stored point,
    /// and every accepted stored point delivered.
    pub fn filtered_points<F: Filter>(&self, filter: Option<&F>) -> (r: Vec<Point>)
        requires
            self.wf(),
        ensures
            self.spec_accepted_keys(filter).finite(),
            r@.len() == self.spec_accepted_keys(filter).len(),
            forall|i: int| 0 <= i < r@.len() ==> self.spec_from_accepted(#[trigger] r@[i], filter),
            forall|k: Seq<char>| self.spec_accepts(filter, k) ==> #[trigger] self.spec_delivers(r@, k),
            filter is None ==> r@.len() == self.spec_points().len(),
    {
        let n = self.points.len();
        let mut out: Vec<Point> = Vec::new();
        let ghost mut seen: Set<Seq<char>> = Set::empty();
        let mut i: usize = 0;
        while i < n
            invariant
                self.wf(),
                i <= n == self.points@.len(),
                seen.finite(),
                seen.len() == out@.len(),
                forall|k: Seq<char>|
                    seen.contains(k) ==> exists|j: int|
                        0 <= j < i && (#[trigger] self.points@[j]).0@ == k,
                forall|j: int|
                    0 <= j < i && (match filter {
                        Some(f) => f.spec_matches((#[trigger] self.points@[j]).1),
                        None => true,
                    }) ==> seen.contains(self.points@[j].0@),
                forall|k: Seq<char>|
                    #[trigger] seen.contains(k) ==> self.spec_accepts(filter, k)
                        && self.spec_delivers(out@, k),
                forall|idx: int|
                    0 <= idx < out@.len() ==> self.spec_from_accepted(#[trigger] out@[idx], filter),
                filter is None ==> out@.len() == i,
            decreases n - i,
        {
            let ghost out_before = out@;
            let ghost seen_before = seen;
            let keep = match filter {
                Some(f) => f.matches(&self.points[i].1),
                None => true,
            };
            if keep {
                let p = self.points[i].1.clone();
                out.push(p);
                proof {
                    let key = self.points@[i as int].0@;
                    lemma_assoc_index(self.points@, i as int);
                    assert(self.spec_points()[key] == self.points@[i as int].1);
                    assert(self.spec_accepts(filter, key));
                    assert(!seen.contains(key));
                    seen = seen.insert(key);
                    let last = out@.len() - 1;
                    assert(spec_points_identical(out@[last], self.spec_points()[key]));
                    assert(self.spec_delivers(out@, key));
                    assert(self.spec_from_accepted(out@[last], filter));
                    assert forall|k: Seq<char>| #[trigger] seen.contains(k) implies self
                        .spec_accepts(filter, k) && self.spec_delivers(out@, k) by {
                        if k != key {
                            assert(seen_before.contains(k));
                            let w = choose|w: int|
                                0 <= w < out_before.len() && spec_points_identical(
                                    #[trigger] out_before[w],
                                    self.spec_points()[k],
                                );
                            assert(out@[w] == out_before[w]);
                        }
                    }
                    assert forall|idx: int| 0 <= idx < out@.len() implies self.spec_from_accepted(
                        #[trigger] out@[idx],
                        filter,
                    ) by {
                        if idx < out_before.len() {
                            assert(out@[idx] == out_before[idx]);
                        }
                    }
                }
            }
            i = i + 1;
        }
        proof {
            lemma_assoc_len(self.points@);
            assert forall|k: Seq<char>| #[trigger] self.spec_accepted_keys(filter).contains(
                k,
            ) implies seen.contains(k) by {
                lemma_assoc_contains(self.points@, k);
                let j = choose|j: int| 0 <= j < self.points@.len() && (#[trigger] self.points@[j]).0@ == k;
                lemma_assoc_index(self.points@, j);
                assert(self.spec_points()[k] == self.points@[j].1);
            }
            assert forall|k: Seq<char>| #[trigger] seen.contains(k) implies self
                .spec_accepted_keys(filter).contains(k) by {}
            assert(seen =~= self.spec_accepted_keys(filter));
            assert forall|k: Seq<char>| self.spec_accepts(filter, k) implies #[trigger] self
                .spec_delivers(out@, k) by {
                assert(self.spec_accepted_keys(filter).contains(k));
                assert(seen.contains(k));
            }
            if filter is None {
                assert forall|k: Seq<char>| #[trigger] self.spec_points().dom().contains(
                    k,
                ) implies self.spec_accepted_keys(filter).contains(k) by {}
                assert(self.spec_accepted_keys(filter) =~= self.spec_points().dom());
            }
        }
        out
    }
}

/// What a successful upsert does to the store: the point stands under its
/// canonical id with the right version, everything else is untouched, the
/// batch buffer grows only in batch mode, and the full-text index learns
/// the payload's `text` field outside batch mode.
/// What storing one point does to the primary map: it stands under its
/// canonical id with the chained version, everything else untouched.
pub open spec fn spec_store_upserted(
    pre: Map<Seq<char>, Point>,
    post: Map<Seq<char>, Point>,
    point: Point,
) -> bool {
    let key = spec_canonical_id(point.id);
    let newv = if pre.contains_key(key) {
        spec_next_version(pre[key].version)
    } else {
        0
    };
    &&& post.dom() == pre.dom().insert(key)
    &&& spec_points_identical(post[key], Point { version: newv, ..point })
    &&& forall|k: Seq<char>|
        pre.contains_key(k) && k != key ==> post[k] == #[trigger] pre[k]
}

/// The key set after upserting a sequence of points, in order.
pub open spec fn spec_dom_after(d: Set<Seq<char>>, pts: Seq<Point>) -> Set<Seq<char>>
    decreases pts.len(),
{
    if pts.len() == 0 {
        d
    } else {
        spec_dom_after(d, pts.drop_last()).insert(spec_canonical_id(pts.last().id))
    }
}

/// The version stored under `k` after upserting the points over `m`, or
/// nothing when `k` was never stored.
pub open spec fn spec_version_after(
    m: Map<Seq<char>, Point>,
    pts: Seq<Point>,
    k: Seq<char>,
) -> Option<u64>
    decreases pts.len(),
{
    if pts.len() == 0 {
        if m.contains_key(k) {
            Some(m[k].version)
        } else {
            None
        }
    } else {
        let prev = spec_version_after(m, pts.drop_last(), k);
        if spec_canonical_id(pts.last().id) == k {
            Some(
                match prev {
                    Some(v) => spec_next_version(v),
                    None => 0,
                },
            )
        } else {
            prev
        }
    }
}

/// The last point of the sequence whose canonical id is `k`, if any.
pub open spec fn spec_last_upserted(pts: Seq<Point>, k: Seq<char>) -> Option<Point>
    decreases pts.len(),
{
    if pts.len() == 0 {
        None
    } else if spec_canonical_id(pts.last().id) == k {
        Some(pts.last())
    } else {
        spec_last_upserted(pts.drop_last(), k)
    }
}

/// Folding only inserts keys: what was present stays present.
pub proof fn lemma_dom_after_monotone(d: Set<Seq<char>>, pts: Seq<Point>, k: Seq<char>)
    requires
        d.contains(k),
    ensures
        spec_dom_after(d, pts).contains(k),
    decreases pts.len(),
{
    if pts.len() > 0 {
        lemma_dom_after_monotone(d, pts.drop_last(), k);
    }
}

/// A key is in the folded key set exactly when the version fold yields a
/// value for it.
pub proof fn lemma_version_dom(m: Map<Seq<char>, Point>, pts: Seq<Point>, k: Seq<char>)
    ensures
        (spec_version_after(m, pts, k) is Some) == spec_dom_after(m.dom(), pts).contains(k),
    decreases pts.len(),
{
    if pts.len() > 0 {
        lemma_version_dom(m, pts.drop_last(), k);
    }
}

/// What a whole upsert sequence does to the primary map: the key set is
/// the fold of the points' ids, versions chain per key, each touched key
/// holds a copy of its last upserted point, and untouched keys keep their
/// entries.
pub open spec fn spec_upserts_applied(
    pre: Map<Seq<char>, Point>,
    post: Map<Seq<char>, Point>,
    pts: Seq<Point>,
) -> bool {
    &&& post.dom() == spec_dom_after(pre.dom(), pts)
    &&& forall|k: Seq<char>|
        #[trigger] post.contains_key(k) ==> Some(post[k].version) == spec_version_after(
            pre,
            pts,
            k,
        )
    &&& forall|k: Seq<char>|
        match #[trigger] spec_last_upserted(pts, k) {
            Some(p) => post.contains_key(k) && spec_points_identical(
                post[k],
                Point { version: post[k].version, ..p },
            ),
            None => pre.contains_key(k) ==> post[k] == pre[k],
        }
}

pub open spec fn spec_upsert_outcome(pre: Collection, post: Collection, point: Point) -> bool {
    let key = spec_canonical_id(point.id);
    let newv = if pre.spec_points().contains_key(key) {
        spec_next_version(pre.spec_points()[key].version)
    } else {
        0
    };
    &&& spec_store_upserted(pre.spec_points(), post.spec_points(), point)
    &&& if pre.spec_batch_mode() {
        &&& post.spec_pending().len() == pre.spec_pending().len() + 1
        &&& spec_points_identical(post.spec_pending().last(), Point { version: newv, ..point })
        &&& post.spec_bm25_lengths() == pre.spec_bm25_lengths()
    } else {
        &&& post.spec_pending() == pre.spec_pending()
        &&& post.spec_bm25_lengths() == (match spec_upsert_text(point) {
            Some(text) if pre.spec_config().enable_bm25 => pre.spec_bm25_lengths().insert(
                key,
                spec_tokenize(text).len() as u32,
            ),
            _ => pre.spec_bm25_lengths(),
        })
    }
}

/// The text an upsert would index: a string field `text` on the payload.
pub open spec fn spec_upsert_text(point: Point) -> Option<Seq<char>> {
    match point.payload {
        Some(payload) => match crate::json::spec_json_get(payload, "text"@) {
            Some(v) => crate::json::spec_json_as_str(v),
            None => None,
        },
        None => None,
    }
}

/// What merging `arg` into a payload yields: a missing payload adopts the
/// argument; two objects merge field-wise with the new fields winning;
/// anything else is kept.
pub open spec fn spec_payload_after_merge(
    oldpay: Option<JsonValue>,
    arg: JsonValue,
    newpay: Option<JsonValue>,
) -> bool {
    match (oldpay, arg) {
        (None, _) => newpay matches Some(q) && spec_json_identical(q, arg),
        (Some(JsonValue::Object(op)), JsonValue::Object(np)) => {
            &&& newpay matches Some(m)
            &&& newpay->Some_0 matches JsonValue::Object(mp)
            &&& forall|f: Seq<char>|
                #![trigger spec_obj_get(newpay->Some_0->Object_0@, f)]
                match spec_obj_get_rev(np@, f) {
                    Some(v) => spec_obj_get(newpay->Some_0->Object_0@, f) == Some(v),
                    None => match (
                        spec_obj_get(newpay->Some_0->Object_0@, f),
                        spec_obj_get(op@, f),
                    ) {
                        (Some(x), Some(y)) => spec_json_identical(x, y),
                        (None, None) => true,
                        _ => false,
                    },
                }
        },
        (Some(other), _) => match newpay {
            Some(x) => spec_json_identical(x, other),
            None => false,
        },
    }
}

/// What removing `keys` from a payload yields: on an object payload with
/// unique keys, the named fields are gone and the rest read as before;
/// any other payload is kept.
pub open spec fn spec_payload_after_removal(
    oldpay: Option<JsonValue>,
    keys: Seq<String>,
    newpay: Option<JsonValue>,
) -> bool {
    match oldpay {
        Some(JsonValue::Object(op)) => {
            &&& newpay matches Some(m)
            &&& newpay->Some_0 matches JsonValue::Object(mp)
            &&& (spec_assoc_unique(op@) ==> forall|f: Seq<char>|
                #![trigger spec_obj_get(newpay->Some_0->Object_0@, f)]
                if exists|j: int| 0 <= j < keys.len() && (#[trigger] keys[j])@ == f {
                    spec_obj_get(newpay->Some_0->Object_0@, f) is None
                } else {
                    match (spec_obj_get(newpay->Some_0->Object_0@, f), spec_obj_get(op@, f)) {
                        (Some(x), Some(y)) => spec_json_identical(x, y),
                        (None, None) => true,
                        _ => false,
                    }
                })
        },
        other => match (newpay, other) {
            (Some(x), Some(y)) => spec_json_identical(x, y),
            (None, None) => true,
            _ => false,
        },
    }
}

/// Repeatedly dropping the first pair of each key, in order.
pub open spec fn spec_obj_removed_all(
    pairs: Seq<(String, JsonValue)>,
    keys: Seq<String>,
) -> Seq<(String, JsonValue)>
    decreases keys.len(),
{
    if keys.len() == 0 {
        pairs
    } else {
        spec_obj_remove_first(spec_obj_removed_all(pairs, keys.drop_last()), keys.last()@)
    }
}

/// Dropping the first pair of a key from a unique-keyed list keeps the
/// keys unique and leaves no pair with that key.
proof fn lemma_obj_remove_first_unique(pairs: Seq<(String, JsonValue)>, k: Seq<char>)
    requires
        spec_assoc_unique(pairs),
    ensures
        spec_assoc_unique(spec_obj_remove_first(pairs, k)),
        forall|j: int|
            0 <= j < spec_obj_remove_first(pairs, k).len() ==> (#[trigger] spec_obj_remove_first(
                pairs,
                k,
            )[j]).0@ != k,
        forall|f: Seq<char>|
            f != k ==> spec_obj_get(spec_obj_remove_first(pairs, k), f) == spec_obj_get(pairs, f),
    decreases pairs.len(),
{
    let out = spec_obj_remove_first(pairs, k);
    if exists|i: int| 0 <= i < pairs.len() && (#[trigger] pairs[i]).0@ == k {
        let i0 = choose|i: int|
            0 <= i < pairs.len() && (#[trigger] pairs[i]).0@ == k && forall|j: int|
                0 <= j < i ==> (#[trigger] pairs[j]).0@ != k;
        assert(exists|i: int|
            0 <= i < pairs.len() && (#[trigger] pairs[i]).0@ == k && forall|j: int|
                0 <= j < i ==> (#[trigger] pairs[j]).0@ != k) by {
            lemma_first_occurrence(pairs, k);
        }
        let i1 = choose|i: int|
            0 <= i < pairs.len() && (#[trigger] pairs[i]).0@ == k && forall|j: int|
                0 <= j < i ==> (#[trigger] pairs[j]).0@ != k;
        lemma_obj_remove_first_at(pairs, k, i1);
        assert(forall|j: int|
            0 <= j < out.len() ==> (#[trigger] out[j]) == (if j < i1 {
                pairs[j]
            } else {
                pairs[j + 1]
            }));
    } else {
        crate::json::lemma_obj_remove_first_absent(pairs, k);
    }
    assert forall|f: Seq<char>| f != k implies spec_obj_get(out, f) == spec_obj_get(pairs, f) by {
        lemma_obj_remove_first_get(pairs, k, f);
    }
}

/// A key that occurs in a list has a first occurrence.
proof fn lemma_first_occurrence(pairs: Seq<(String, JsonValue)>, k: Seq<char>)
    requires
        exists|i: int| 0 <= i < pairs.len() && (#[trigger] pairs[i]).0@ == k,
    ensures
        exists|i: int|
            0 <= i < pairs.len() && (#[trigger] pairs[i]).0@ == k && forall|j: int|
                0 <= j < i ==> (#[trigger] pairs[j]).0@ != k,
    decreases pairs.len(),
{
    if pairs[0].0@ == k {
        assert(pairs[0].0@ == k && forall|j: int| 0 <= j < 0 ==> (#[trigger] pairs[j]).0@ != k);
    } else {
        let w = choose|i: int| 0 <= i < pairs.len() && (#[trigger] pairs[i]).0@ == k;
        assert(pairs.skip(1)[w - 1] == pairs[w]);
        lemma_first_occurrence(pairs.skip(1), k);
        let i2 = choose|i: int|
            0 <= i < pairs.skip(1).len() && (#[trigger] pairs.skip(1)[i]).0@ == k && forall|j: int|
                0 <= j < i ==> (#[trigger] pairs.skip(1)[j]).0@ != k;
        assert(pairs[i2 + 1].0@ == k);
        assert forall|j: int| 0 <= j < i2 + 1 implies (#[trigger] pairs[j]).0@ != k by {
            if j >= 1 {
                assert(pairs.skip(1)[j - 1] == pairs[j]);
                assert(pairs.skip(1)[j - 1].0@ != k);
            }
        }
    }
}

/// What repeated removal answers on a unique-keyed list: named keys read
/// as missing, the rest as before.
proof fn lemma_obj_removed_all_get(pairs: Seq<(String, JsonValue)>, keys: Seq<String>, f: Seq<char>)
    requires
        spec_assoc_unique(pairs),
    ensures
        spec_assoc_unique(spec_obj_removed_all(pairs, keys)),
        spec_obj_get(spec_obj_removed_all(pairs, keys), f) == (if exists|j: int|
            0 <= j < keys.len() && (#[trigger] keys[j])@ == f {
            None
        } else {
            spec_obj_get(pairs, f)
        }),
    decreases keys.len(),
{
    if keys.len() == 0 {
    } else {
        let prev = spec_obj_removed_all(pairs, keys.drop_last());
        lemma_obj_removed_all_get(pairs, keys.drop_last(), f);
        let k = keys.last()@;
        lemma_obj_remove_first_unique(prev, k);
        if f == k {
            assert forall|j: int|
                0 <= j < spec_obj_remove_first(prev, k).len() implies (
            #[trigger] spec_obj_remove_first(prev, k)[j]).0@ != f by {}
            lemma_obj_get_absent(spec_obj_remove_first(prev, k), f);
            assert(keys[keys.len() - 1]@ == f);
        } else {
            assert((exists|j: int| 0 <= j < keys.len() && (#[trigger] keys[j])@ == f) == (exists|
                j: int,
            | 0 <= j < keys.len() - 1 && (#[trigger] keys.drop_last()[j])@ == f)) by {
                if exists|j: int| 0 <= j < keys.len() && (#[trigger] keys[j])@ == f {
                    let j0 = choose|j: int| 0 <= j < keys.len() && (#[trigger] keys[j])@ == f;
                    assert(j0 < keys.len() - 1);
                    assert(keys.drop_last()[j0] == keys[j0]);
                }
                if exists|j: int|
                    0 <= j < keys.len() - 1 && (#[trigger] keys.drop_last()[j])@ == f {
                    let j0 = choose|j: int|
                        0 <= j < keys.len() - 1 && (#[trigger] keys.drop_last()[j])@ == f;
                    assert(keys[j0]@ == f);
                }
            }
        }
    }
}

/// Versions count overwrites: along any chain of upserts of one id that
/// starts fresh, each overwrite assigns the successor version, so after
/// `n` upserts the stored version is `n - 1`.
pub proof fn lemma_upsert_version_counts(versions: Seq<u64>)
    requires
        1 <= versions.len() <= u64::MAX,
        versions[0] == 0,
        forall|i: int|
            1 <= i < versions.len() ==> versions[i] == spec_next_version(
                #[trigger] versions[i - 1],
            ),
    ensures
        versions.last() == versions.len() - 1,
    decreases versions.len(),
{
    if versions.len() > 1 {
        let prefix = versions.drop_last();
        assert(forall|i: int|
            1 <= i < prefix.len() ==> prefix[i] == spec_next_version(#[trigger] prefix[i - 1]));
        lemma_upsert_version_counts(prefix);
        assert(versions.last() == spec_next_version(versions[versions.len() - 2]));
    }
}

/// Upserting a point twice under one id and then deleting that id leaves
/// an initially empty store empty again.
pub proof fn lemma_double_upsert_then_delete(
    m0: Map<Seq<char>, Point>,
    k: Seq<char>,
    p1: Point,
    p2: Point,
)
    requires
        m0 == Map::<Seq<char>, Point>::empty(),
    ensures
        m0.insert(k, p1).insert(k, p2).remove(k).len() == 0,
{
    assert(m0.insert(k, p1).insert(k, p2).remove(k) =~= Map::<Seq<char>, Point>::empty());
}

} // verus!
