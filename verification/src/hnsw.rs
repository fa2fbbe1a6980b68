//! The navigable small-world graph index.
//!
//! Nodes reference one another by dense indices; every node's vector also
//! sits in one contiguous arena at `index * dim`.  Distances are computed
//! by the caller against the arena and handed in as a table of
//! single-precision bit patterns (entry `i` holding the distance from the
//! query to node `i`), so the traversal below is ordinary integer logic:
//! a generation bitmap for visited nodes, a candidate pool expanded best
//! first, and a bounded result window.

use vstd::prelude::*;
use vstd::pervasive::VecAdditionalExecFns;
use crate::fbits::{f32_lt, f32_is_nan, f32_bits_lt};
use crate::point::{Point, spec_canonical_id};
use crate::visited::VisitedSet;
use crate::assoc::{spec_assoc_map, spec_assoc_unique, assoc_get, assoc_set};
use vstd::set_lib::{set_int_range, lemma_int_range};
use vstd::set_lib::lemma_len_subset;

verus! {

/// A graph node: the stored point and its neighbour lists, one per layer.
pub struct HnswNode {
    pub point: Point,
    pub layers: Vec<Vec<usize>>,
}

/// No pair in the list repeats.
pub open spec fn spec_pairs_distinct(s: Seq<(usize, u32)>) -> bool {
    forall|i: int, j: int| 0 <= i < j < s.len() ==> (#[trigger] s[i]).0 != (#[trigger] s[j]).0
}

/// Every pair is a node index with its distance-table entry.
pub open spec fn spec_pairs_wf(s: Seq<(usize, u32)>, dists: Seq<u32>) -> bool {
    forall|i: int|
        0 <= i < s.len() ==> (#[trigger] s[i]).0 < dists.len() && s[i].1 == dists[s[i].0 as int]
}

/// Pairs ordered by ascending distance.
pub open spec fn spec_pairs_sorted_asc(s: Seq<(usize, u32)>) -> bool {
    forall|i: int, j: int|
        0 <= i < j < s.len() ==> !f32_lt((#[trigger] s[j]).1, (#[trigger] s[i]).1)
}

/// A well-shaped neighbour list: pairwise distinct node indices below
/// `bound`, at most `cap` of them.
pub open spec fn spec_neighbor_list_ok(list: Seq<usize>, bound: int, cap: int) -> bool {
    &&& list.len() <= cap
    &&& forall|q: int| 0 <= q < list.len() ==> (#[trigger] list[q]) < bound
    &&& forall|q1: int, q2: int|
        0 <= q1 < q2 < list.len() ==> (#[trigger] list[q1]) != (#[trigger] list[q2])
}

/// What pruning leaves at a layer: at most `cap` entries, each a valid
/// node index drawn from the old list, ordered by ascending distance when
/// the table is NaN-free.
pub open spec fn spec_pruned_list(newl: Seq<usize>, oldl: Seq<usize>, dists: Seq<u32>, cap: int) -> bool {
    &&& newl.len() <= cap
    &&& forall|q: int| 0 <= q < newl.len() ==> (#[trigger] newl[q]) < dists.len()
    &&& forall|q: int|
        0 <= q < newl.len() ==> exists|p: int| 0 <= p < oldl.len() && oldl[p] == #[trigger] newl[q]
    &&& (spec_dists_no_nan(dists) ==> forall|q1: int, q2: int|
        0 <= q1 < q2 < newl.len() ==> !f32_lt(
            dists[(#[trigger] newl[q2]) as int],
            dists[(#[trigger] newl[q1]) as int],
        ))
}

/// No distance in the table is NaN.
pub open spec fn spec_dists_no_nan(dists: Seq<u32>) -> bool {
    forall|i: int| 0 <= i < dists.len() ==> !f32_is_nan(#[trigger] dists[i])
}

/// Take the pair with the smallest distance out of a non-empty pool.
fn pop_min(v: &mut Vec<(usize, u32)>) -> (r: (usize, u32))
    requires
        old(v)@.len() > 0,
    ensures
        final(v)@.len() == old(v)@.len() - 1,
        exists|i: int| 0 <= i < old(v)@.len() && old(v)@[i] == r && final(v)@ == old(v)@.remove(i),
{
    let n = v.len();
    let mut best: usize = 0;
    let mut i: usize = 1;
    while i < n
        invariant
            1 <= i <= n == v@.len(),
            best < i,
        decreases n - i,
    {
        if f32_bits_lt(v[i].1, v[best].1) {
            best = i;
        }
        i = i + 1;
    }
    let r = v.remove(best);
    proof {
        assert(old(v)@[best as int] == r);
    }
    r
}

/// Drop the pair with the largest distance from a non-empty window and
/// report the largest remaining distance.
fn evict_max(v: &mut Vec<(usize, u32)>) -> (worst: u32)
    requires
        old(v)@.len() >= 2,
    ensures
        final(v)@.len() == old(v)@.len() - 1,
        exists|i: int| 0 <= i < old(v)@.len() && final(v)@ == old(v)@.remove(i),
{
    let n = v.len();
    let mut worst_at: usize = 0;
    let mut i: usize = 1;
    while i < n
        invariant
            1 <= i <= n == v@.len(),
            worst_at < i,
        decreases n - i,
    {
        if f32_bits_lt(v[worst_at].1, v[i].1) {
            worst_at = i;
        }
        i = i + 1;
    }
    let _ = v.remove(worst_at);
    let m = v.len();
    let mut worst = v[0].1;
    let mut j: usize = 1;
    while j < m
        invariant
            1 <= j <= m == v@.len(),
        decreases m - j,
    {
        if f32_bits_lt(worst, v[j].1) {
            worst = v[j].1;
        }
        j = j + 1;
    }
    worst
}

/// Arrange distance pairs in ascending distance order, keeping exactly the
/// same pairs.
fn sort_pairs_asc(input: Vec<(usize, u32)>) -> (r: Vec<(usize, u32)>)
    ensures
        r@.len() == input@.len(),
        forall|q: int|
            0 <= q < r@.len() ==> exists|p: int|
                0 <= p < input@.len() && (#[trigger] r@[q]) == input@[p],
        spec_pairs_distinct(input@) ==> spec_pairs_distinct(r@),
        (forall|i: int| 0 <= i < input@.len() ==> !f32_is_nan((#[trigger] input@[i]).1))
            ==> spec_pairs_sorted_asc(r@),
{
    let ghost inp = input@;
    let n = input.len();
    let mut out: Vec<(usize, u32)> = Vec::new();
    let mut i: usize = 0;
    while i < n
        invariant
            i <= n == inp.len(),
            input@ == inp,
            out@.len() == i,
            forall|q: int|
                0 <= q < out@.len() ==> exists|p: int|
                    0 <= p < i && (#[trigger] out@[q]) == inp[p],
            spec_pairs_distinct(inp) ==> spec_pairs_distinct(out@),
            (forall|q: int| 0 <= q < inp.len() ==> !f32_is_nan((#[trigger] inp[q]).1))
                ==> spec_pairs_sorted_asc(out@),
        decreases n - i,
    {
        let ghost before = out@;
        let e = input[i];
        // First position whose distance is strictly above the new one.
        let mut p: usize = 0;
        while p < out.len() && !f32_bits_lt(e.1, out[p].1)
            invariant
                p <= out@.len(),
                out@ == before,
                forall|q: int| 0 <= q < p ==> !f32_lt(e.1, (#[trigger] out@[q]).1),
            decreases out@.len() - p,
        {
            p = p + 1;
        }
        out.insert(p, e);
        proof {
            assert(out@ == before.insert(p as int, e));
            assert forall|q: int| 0 <= q < out@.len() implies exists|p2: int|
                0 <= p2 < i + 1 && (#[trigger] out@[q]) == inp[p2] by {
                if q < p {
                    assert(out@[q] == before[q]);
                } else if q == p {
                    assert(out@[q] == inp[i as int]);
                } else {
                    assert(out@[q] == before[q - 1]);
                }
            }
            if spec_pairs_distinct(inp) {
                assert forall|a: int, b: int| 0 <= a < b < out@.len() implies (
                #[trigger] out@[a]).0 != (#[trigger] out@[b]).0 by {
                    let va = if a < p {
                        before[a]
                    } else if a == p {
                        e
                    } else {
                        before[a - 1]
                    };
                    let vb = if b < p {
                        before[b]
                    } else if b == p {
                        e
                    } else {
                        before[b - 1]
                    };
                    assert(out@[a] == va && out@[b] == vb);
                    if a == p || b == p {
                        let other = if a == p {
                            vb
                        } else {
                            va
                        };
                        let oq = choose|p2: int| 0 <= p2 < i && other == inp[p2];
                        assert(inp[oq].0 != inp[i as int].0);
                    }
                }
            }
            if forall|q: int| 0 <= q < inp.len() ==> !f32_is_nan((#[trigger] inp[q]).1) {
                assert forall|a: int, b: int| 0 <= a < b < out@.len() implies !f32_lt(
                    (#[trigger] out@[b]).1,
                    (#[trigger] out@[a]).1,
                ) by {
                    if a < p && b < p {
                        assert(out@[a] == before[a] && out@[b] == before[b]);
                    } else if a < p && b == p {
                        assert(out@[a] == before[a] && out@[b] == e);
                    } else if a < p && b > p {
                        assert(out@[a] == before[a] && out@[b] == before[b - 1]);
                    } else if a == p && b > p {
                        assert(out@[a] == e && out@[b] == before[b - 1]);
                        assert(f32_lt(e.1, before[p as int].1));
                        let x = before[p as int].1;
                        let y = before[b - 1].1;
                        assert(!f32_lt(y, x));
                        let ghost ea = e.1;
                        let qe = choose|p2: int| 0 <= p2 < i && e == inp[p2];
                        let qx = choose|p2: int| 0 <= p2 < i && before[p as int] == inp[p2];
                        let qy = choose|p2: int| 0 <= p2 < i && before[b - 1] == inp[p2];
                        if f32_lt(y, ea) {
                            crate::fbits::lemma_f32_le_total(x, y);
                            crate::fbits::lemma_f32_lt_trans(x, y, ea);
                        }
                    } else {
                        assert(a > p && b > p);
                        assert(out@[a] == before[a - 1] && out@[b] == before[b - 1]);
                    }
                }
            }
        }
        i = i + 1;
    }
    out
}

/// Relies on `rand::random`: a fresh sample of the requested type; nothing
/// is assumed about its value.
pub assume_specification<T>[ rand::random::<T> ]() -> (r: T)
    where
        rand::distributions::Standard: rand::distributions::Distribution<T>,
;

pub struct HnswIndex {
    nodes: Vec<HnswNode>,
    vectors: Vec<u32>,
    dim: usize,
    point_id_to_index: Vec<(String, usize)>,
    max_connections: usize,
    max_layers: usize,
    ef_construction: usize,
    visited: VisitedSet,
}

impl HnswIndex {
    /// Number of nodes.
    pub closed spec fn spec_len(&self) -> nat {
        self.nodes@.len()
    }

    /// The vector dimension the arena is laid out for.
    pub closed spec fn spec_dim(&self) -> nat {
        self.dim as nat
    }

    /// The contiguous vector arena.
    pub closed spec fn spec_arena(&self) -> Seq<u32> {
        self.vectors@
    }

    /// The nodes.
    pub closed spec fn spec_nodes(&self) -> Seq<HnswNode> {
        self.nodes@
    }

    /// Canonical id text to node index.
    pub closed spec fn spec_id_map(&self) -> Map<Seq<char>, usize> {
        spec_assoc_map(self.point_id_to_index@)
    }

    /// The maximum out-degree parameter.
    pub closed spec fn spec_max_connections(&self) -> nat {
        self.max_connections as nat
    }

    /// The number of layers.
    pub closed spec fn spec_max_layers(&self) -> nat {
        self.max_layers as nat
    }

    /// The construction-time candidate-window size.
    pub closed spec fn spec_ef_construction(&self) -> nat {
        self.ef_construction as nat
    }

    /// Everything but the scratch bitmap is unchanged between two states.
    pub closed spec fn spec_frozen(a: HnswIndex, b: HnswIndex) -> bool {
        &&& a.nodes == b.nodes
        &&& a.vectors == b.vectors
        &&& a.dim == b.dim
        &&& a.point_id_to_index == b.point_id_to_index
        &&& a.max_connections == b.max_connections
        &&& a.max_layers == b.max_layers
        &&& a.ef_construction == b.ef_construction
    }

    /// Structural invariant: the arena holds one vector per node, the id
    /// map points into the node list, and the scratch bitmap is sound.
    pub closed spec fn wf(&self) -> bool {
        &&& self.vectors@.len() == self.nodes@.len() * self.dim
        &&& spec_assoc_unique(self.point_id_to_index@)
        &&& forall|i: int|
            0 <= i < self.point_id_to_index@.len() ==> (#[trigger] self.point_id_to_index@[i]).1
                < self.nodes@.len()
        &&& self.visited.wf()
        &&& self.max_layers >= 1
        &&& self.max_connections >= 1
        &&& self.ef_construction >= 1
    }

    /// A fresh, empty graph.
    pub fn new(max_connections: usize, max_layers: usize) -> (r: HnswIndex)
        requires
            max_connections >= 1,
            max_layers >= 1,
        ensures
            r.wf(),
            r.spec_len() == 0,
            r.spec_dim() == 0,
            r.spec_id_map() == Map::<Seq<char>, usize>::empty(),
    {
        HnswIndex {
            nodes: Vec::new(),
            vectors: Vec::new(),
            dim: 0,
            point_id_to_index: Vec::new(),
            max_connections,
            max_layers,
            ef_construction: 200,
            visited: VisitedSet::new(1024),
        }
    }

    /// Number of indexed points.
    pub fn len(&self) -> (r: usize)
        ensures
            r == self.spec_len(),
    {
        self.nodes.len()
    }

    /// Whether the graph is empty.
    pub fn is_empty(&self) -> (r: bool)
        ensures
            r == (self.spec_len() == 0),
    {
        self.nodes.is_empty()
    }

    /// The stored point of a node.
    pub fn point_at<'a>(&'a self, i: usize) -> (r: &'a Point)
        requires
            i < self.spec_len(),
        ensures
            *r == self.spec_nodes()[i as int].point,
    {
        &self.nodes[i].point
    }

    /// The node index a canonical id maps to, if any.
    pub fn index_of(&self, id: &str) -> (r: Option<usize>)
        requires
            self.wf(),
        ensures
            match r {
                Some(i) => self.spec_id_map().contains_key(id@) && self.spec_id_map()[id@] == i
                    && i < self.spec_len(),
                None => !self.spec_id_map().contains_key(id@),
            },
    {
        let found = assoc_get(&self.point_id_to_index, id);
        proof {
            crate::assoc::lemma_assoc_contains(self.point_id_to_index@, id@);
            if found is Some {
                let e = choose|e: int|
                    0 <= e < self.point_id_to_index@.len() && (#[trigger] self.point_id_to_index@[
                        e
                    ]).0@ == id@;
                crate::assoc::lemma_assoc_index(self.point_id_to_index@, e);
            }
        }
        match found {
            Some(i) => Some(*i),
            None => None,
        }
    }

    /// A copy of the arena slice of one node.
    pub fn vector_of(&self, i: usize) -> (r: Vec<u32>)
        requires
            self.wf(),
            i < self.spec_len(),
        ensures
            r@ == self.spec_arena().subrange(
                i as int * self.spec_dim() as int,
                (i + 1) as int * self.spec_dim() as int,
            ),
    {
        proof {
            vstd::arithmetic::mul::lemma_mul_inequality(
                i as int + 1,
                self.nodes@.len() as int,
                self.dim as int,
            );
            vstd::arithmetic::mul::lemma_mul_is_distributive_add_other_way(
                self.dim as int,
                i as int,
                1,
            );
            vstd::arithmetic::mul::lemma_mul_is_commutative(i as int + 1, self.dim as int);
            vstd::arithmetic::mul::lemma_mul_is_commutative(i as int, self.dim as int);
            vstd::arithmetic::mul::lemma_mul_nonnegative(i as int, self.dim as int);
        }
        let total = self.vectors.len();
        proof {
            assert(i as int * self.dim as int >= 0);
            assert((i as int + 1) * self.dim as int <= total as int);
        }
        let start = i * self.dim;
        let mut out: Vec<u32> = Vec::new();
        let mut j: usize = 0;
        while j < self.dim
            invariant
                self.wf(),
                i < self.nodes@.len(),
                start == i * self.dim,
                total == self.vectors@.len(),
                start + self.dim <= total,
                j <= self.dim,
                out@ =~= self.vectors@.subrange(start as int, start as int + j as int),
            decreases self.dim - j,
        {
            out.push(self.vectors[start + j]);
            j = j + 1;
        }
        proof {
            assert(out@ =~= self.spec_arena().subrange(
                i as int * self.spec_dim() as int,
                (i + 1) as int * self.spec_dim() as int,
            ));
        }
        out
    }

    /// Pick the layer of a fresh node: start at zero and climb while a fair
    /// coin keeps coming up, never past the top layer.
    pub fn select_layer(&self) -> (r: usize)
        requires
            self.wf(),
        ensures
            r < self.spec_max_layers(),
    {
        let mut layer: usize = 0;
        while layer < self.max_layers - 1
            invariant
                self.wf(),
                layer < self.max_layers,
            decreases self.max_layers - 1 - layer,
        {
            let sample = rand::random::<u64>();
            if sample < 0x8000_0000_0000_0000 {
                layer = layer + 1;
            } else {
                return layer;
            }
        }
        layer
    }

    /// Explore one layer from an entry node: expand the closest unvisited
    /// candidates, keep a window of at most `ef` nodes, and return them in
    /// ascending distance order.  The graph itself is untouched; only the
    /// scratch bitmap changes.
    pub fn search_layer(
        &mut self,
        dists: &Vec<u32>,
        entry_point: usize,
        ef: usize,
        layer: usize,
    ) -> (r: Vec<(usize, u32)>)
        requires
            old(self).wf(),
            dists@.len() == old(self).spec_len(),
            entry_point < old(self).spec_len(),
            ef >= 1,
            old(self).spec_len() + 64 <= usize::MAX,
        ensures
            final(self).wf(),
            HnswIndex::spec_frozen(*old(self), *final(self)),
            final(self).spec_nodes() == old(self).spec_nodes(),
            final(self).spec_arena() == old(self).spec_arena(),
            final(self).spec_id_map() == old(self).spec_id_map(),
            final(self).spec_dim() == old(self).spec_dim(),
            final(self).spec_max_connections() == old(self).spec_max_connections(),
            final(self).spec_max_layers() == old(self).spec_max_layers(),
            1 <= r@.len() <= ef,
            spec_pairs_wf(r@, dists@),
            spec_pairs_distinct(r@),
            spec_dists_no_nan(dists@) ==> spec_pairs_sorted_asc(r@),
    {
        let ghost n = self.nodes@.len();
        self.visited.clear();
        self.visited.ensure_capacity(self.nodes.len());

        let mut candidates: Vec<(usize, u32)> = Vec::new();
        let mut results: Vec<(usize, u32)> = Vec::new();
        let entry_dist = dists[entry_point];
        candidates.push((entry_point, entry_dist));
        results.push((entry_point, entry_dist));
        let _ = self.visited.insert(entry_point);
        let mut worst_dist = entry_dist;

        let ghost mut pops: int = 0;
        let mut done = false;
        while !done && candidates.len() > 0
            invariant
                self.wf(),
                HnswIndex::spec_frozen(*old(self), *self),
                n == self.nodes@.len(),
                n + 64 <= usize::MAX,
                dists@.len() == n,
                self.visited@.finite(),
                self.visited@.subset_of(set_int_range(0, n as int)),
                spec_pairs_wf(candidates@, dists@),
                forall|q: int|
                    0 <= q < candidates@.len() ==> self.visited@.contains(
                        (#[trigger] candidates@[q]).0 as int,
                    ),
                spec_pairs_wf(results@, dists@),
                spec_pairs_distinct(results@),
                forall|q: int|
                    0 <= q < results@.len() ==> self.visited@.contains(
                        (#[trigger] results@[q]).0 as int,
                    ),
                1 <= results@.len() <= ef,
                0 <= pops,
                pops + candidates@.len() <= 1 + self.visited@.len(),
                self.visited@.len() <= n,
            decreases n + 1 - pops,
        {
            let (current_idx, current_dist) = pop_min(&mut candidates);
            proof {
                pops = pops + 1;
                lemma_int_range(0, n as int);
                lemma_len_subset(self.visited@, set_int_range(0, n as int));
            }
            if results.len() >= ef && f32_bits_lt(worst_dist, current_dist) {
                done = true;
            } else {
                if layer < self.nodes[current_idx].layers.len() {
                    let ghost pre_visited = self.visited@;
                    let neighbor_count = self.nodes[current_idx].layers[layer].len();
                    let mut t: usize = 0;
                    while t < neighbor_count
                        invariant
                            self.wf(),
                            HnswIndex::spec_frozen(*old(self), *self),
                            n == self.nodes@.len(),
                            n + 64 <= usize::MAX,
                            dists@.len() == n,
                            current_idx < n,
                            layer < self.nodes@[current_idx as int].layers@.len(),
                            neighbor_count == self.nodes@[current_idx as int].layers@[
                                layer as int
                            ]@.len(),
                            t <= neighbor_count,
                            self.visited@.finite(),
                            self.visited@.subset_of(set_int_range(0, n as int)),
                            pre_visited.subset_of(self.visited@),
                            spec_pairs_wf(candidates@, dists@),
                            forall|q: int|
                                0 <= q < candidates@.len() ==> self.visited@.contains(
                                    (#[trigger] candidates@[q]).0 as int,
                                ),
                            spec_pairs_wf(results@, dists@),
                            spec_pairs_distinct(results@),
                            forall|q: int|
                                0 <= q < results@.len() ==> self.visited@.contains(
                                    (#[trigger] results@[q]).0 as int,
                                ),
                            1 <= results@.len() <= ef,
                            0 <= pops,
                            pops + candidates@.len() <= 1 + self.visited@.len(),
                            self.visited@.len() <= n,
                        decreases neighbor_count - t,
                    {
                        let neighbor_idx = self.nodes[current_idx].layers[layer][t];
                        if neighbor_idx < self.nodes.len() {
                            let fresh = self.visited.insert(neighbor_idx);
                            proof {
                                lemma_int_range(0, n as int);
                                lemma_len_subset(self.visited@, set_int_range(0, n as int));
                            }
                            if fresh {
                                let d = dists[neighbor_idx];
                                if results.len() < ef || f32_bits_lt(d, worst_dist) {
                                    candidates.push((neighbor_idx, d));
                                    results.push((neighbor_idx, d));
                                    if results.len() > ef {
                                        worst_dist = evict_max(&mut results);
                                    } else {
                                        if f32_bits_lt(worst_dist, d) {
                                            worst_dist = d;
                                        }
                                    }
                                }
                            }
                        }
                        t = t + 1;
                    }
                }
            }
        }
        sort_pairs_asc(results)
    }

    /// Search the graph: resolve the candidate-window size (never below
    /// `k` or sixteen), descend from the top layer when the graph is
    /// large, explore layer zero, and keep the best `k` pairs in
    /// ascending distance order.
    pub fn search(&mut self, dists: &Vec<u32>, k: usize, ef: Option<usize>) -> (r: Vec<
        (usize, u32),
    >)
        requires
            old(self).wf(),
            dists@.len() == old(self).spec_len(),
            old(self).spec_len() + 64 <= usize::MAX,
        ensures
            final(self).wf(),
            final(self).spec_nodes() == old(self).spec_nodes(),
            final(self).spec_arena() == old(self).spec_arena(),
            final(self).spec_id_map() == old(self).spec_id_map(),
            final(self).spec_dim() == old(self).spec_dim(),
            r@.len() <= k,
            old(self).spec_len() > 0 && k >= 1 ==> r@.len() >= 1,
            spec_pairs_wf(r@, dists@),
            spec_pairs_distinct(r@),
            spec_dists_no_nan(dists@) ==> spec_pairs_sorted_asc(r@),
    {
        if self.nodes.len() == 0 {
            return Vec::new();
        }
        let mut ef_resolved: usize = match ef {
            Some(e) => e,
            None => {
                let half = k / 2;
                if k <= usize::MAX - half {
                    if k + half > 16 {
                        k + half
                    } else {
                        16
                    }
                } else {
                    k
                }
            },
        };
        if ef_resolved < k {
            ef_resolved = k;
        }
        if ef_resolved < 16 {
            ef_resolved = 16;
        }
        if self.nodes.len() >= 1000 {
            let ghost pre_s = *self;
            let mut current_layer = self.max_layers - 1;
            let mut descending = current_layer > 0;
            while descending
                invariant
                    self.wf(),
                    HnswIndex::spec_frozen(pre_s, *self),
                    HnswIndex::spec_frozen(*old(self), pre_s),
                    dists@.len() == self.nodes@.len(),
                    self.nodes@.len() + 64 <= usize::MAX,
                    self.nodes@.len() > 0,
                    current_layer < self.max_layers,
                    descending ==> current_layer > 0,
                decreases current_layer,
            {
                let found = self.search_layer(dists, 0, 1, current_layer);
                if found.len() > 0 {
                    current_layer = current_layer - 1;
                    descending = current_layer > 0;
                } else {
                    descending = false;
                }
            }
        }

        let results = self.search_layer(dists, 0, ef_resolved, 0);
        let mut out: Vec<(usize, u32)> = Vec::new();
        let mut i: usize = 0;
        let limit = if k < results.len() {
            k
        } else {
            results.len()
        };
        while i < limit
            invariant
                i <= limit <= results@.len(),
                out@ =~= results@.take(i as int),
            decreases limit - i,
        {
            out.push(results[i]);
            i = i + 1;
        }
        proof {
            assert(out@ =~= results@.take(limit as int));
            assert forall|a: int| 0 <= a < out@.len() implies (#[trigger] out@[a]) == results@[
                a
            ] by {}
        }
        out
    }

    /// Insert a point: pick a random layer, descend towards it, choose the
    /// nearest stored nodes as neighbours, append the node and its vector,
    /// and add back-edges.  Back-edges can push a neighbour's degree past
    /// twice the connection bound; those neighbours are returned so the
    /// caller can prune them with fresh distances.
    pub fn insert(&mut self, point: Point, dists: &Vec<u32>) -> (r: (Vec<usize>, usize))
        requires
            old(self).wf(),
            dists@.len() == old(self).spec_len(),
            (old(self).spec_len() > 0 || old(self).spec_dim() != 0) ==> point.vector@.len() == old(self).spec_dim(),
            old(self).spec_len() + 64 <= usize::MAX - 1,
            old(self).spec_arena().len() + point.vector@.len() <= usize::MAX,
            old(self).spec_max_connections() * 2 <= usize::MAX,
        ensures
            final(self).wf(),
            final(self).spec_len() == old(self).spec_len() + 1,
            final(self).spec_dim() == (if old(self).spec_dim() == 0 {
                point.vector@.len()
            } else {
                old(self).spec_dim()
            }),
            final(self).spec_arena() == old(self).spec_arena() + point.vector@,
            final(self).spec_id_map() == old(self).spec_id_map().insert(
                spec_canonical_id(point.id),
                old(self).spec_len() as usize,
            ),
            final(self).spec_max_connections() == old(self).spec_max_connections(),
            final(self).spec_max_layers() == old(self).spec_max_layers(),
            final(self).spec_ef_construction() == old(self).spec_ef_construction(),
            final(self).spec_nodes()[old(self).spec_len() as int].point == point,
            // The new node occupies layers up to the returned one; only
            // that layer carries neighbours, chosen among existing nodes.
            r.1 < old(self).spec_max_layers(),
            final(self).spec_nodes()[old(self).spec_len() as int].layers@.len() == r.1 + 1,
            forall|j: int|
                0 <= j < r.1 ==> (#[trigger] final(self).spec_nodes()[old(self).spec_len() as int].layers@[j])@.len() == 0,
            spec_neighbor_list_ok(
                final(self).spec_nodes()[old(self).spec_len() as int].layers@[r.1 as int]@,
                old(self).spec_len() as int,
                old(self).spec_max_connections() as int,
            ),
            forall|i: int|
                0 <= i < old(self).spec_len() ==> (#[trigger] final(self).spec_nodes()[i]).point
                    == old(self).spec_nodes()[i].point,
            forall|q: int|
                0 <= q < r.0@.len() ==> (#[trigger] r.0@[q]) < old(self).spec_len(),
    {
        let ghost oldn = self.nodes@.len();
        let id_str = point.id.to_string();
        let layer = self.select_layer();
        proof {
            assert(layer < self.max_layers);
        }

        let mut layer_lists: Vec<Vec<usize>> = Vec::new();
        let mut li: usize = 0;
        while li < layer + 1
            invariant
                layer + 1 <= usize::MAX,
                li <= layer + 1,
                layer_lists@.len() == li,
                forall|q: int| 0 <= q < li ==> (#[trigger] layer_lists@[q])@.len() == 0,
            decreases layer + 1 - li,
        {
            layer_lists.push(Vec::new());
            li = li + 1;
        }

        if self.nodes.len() == 0 {
            if self.dim == 0 {
                self.dim = point.vector.dim();
            }
            self.vectors.extend_from_slice(point.vector.as_slice());
            let ghost pre0 = self.point_id_to_index@;
            let ghost key0 = id_str@;
            let node = HnswNode { point, layers: layer_lists };
            self.nodes.push(node);
            assoc_set(&mut self.point_id_to_index, id_str, 0);
            proof {
                assert(self.vectors@.len() == self.nodes@.len() * self.dim) by {
                    vstd::arithmetic::mul::lemma_mul_basics(self.dim as int);
                }
                lemma_map_bounded_after_insert(pre0, self.point_id_to_index@, key0, 0, 1);
                assert(self.nodes@[0].layers@.len() == layer + 1);
                assert(spec_neighbor_list_ok(self.nodes@[0].layers@[layer as int]@, 0, self.max_connections as int));
            }
            return (Vec::new(), layer);
        }

        let ghost pre = *self;

        // Descend towards the chosen layer.
        let mut current_layer = self.max_layers - 1;
        let mut descending = current_layer > layer;
        while descending
            invariant
                self.wf(),
                HnswIndex::spec_frozen(pre, *self),
                dists@.len() == self.nodes@.len(),
                self.nodes@.len() + 64 <= usize::MAX,
                self.nodes@.len() > 0,
                current_layer < self.max_layers,
                descending ==> current_layer > layer,
            decreases current_layer,
        {
            let found = self.search_layer(dists, 0, 1, current_layer);
            if found.len() > 0 {
                current_layer = current_layer - 1;
                descending = current_layer > layer;
            } else {
                descending = false;
            }
        }

        let candidates = self.search_layer(dists, 0, self.ef_construction, layer);
        let candidates = sort_pairs_asc(candidates);
        let mut neighbors: Vec<usize> = Vec::new();
        let mut ci: usize = 0;
        while ci < candidates.len() && ci < self.max_connections
            invariant
                self.wf(),
                HnswIndex::spec_frozen(pre, *self),
                ci <= candidates@.len(),
                ci <= self.max_connections,
                neighbors@.len() == ci,
                spec_pairs_wf(candidates@, dists@),
                spec_pairs_distinct(candidates@),
                dists@.len() == self.nodes@.len(),
                forall|q: int|
                    0 <= q < ci ==> (#[trigger] neighbors@[q]) == candidates@[q].0,
                forall|q: int| 0 <= q < ci ==> (#[trigger] neighbors@[q]) < self.nodes@.len(),
            decreases candidates@.len() - ci,
        {
            neighbors.push(candidates[ci].0);
            ci = ci + 1;
        }
        if self.dim == 0 {
            self.dim = point.vector.dim();
        }
        self.vectors.extend_from_slice(point.vector.as_slice());
        proof {
            assert forall|q1: int, q2: int| 0 <= q1 < q2 < neighbors@.len() implies (
            #[trigger] neighbors@[q1]) != (#[trigger] neighbors@[q2]) by {
                assert(neighbors@[q1] == candidates@[q1].0);
                assert(neighbors@[q2] == candidates@[q2].0);
            }
        }
        let own_list = copy_usize_vec(&neighbors);
        layer_lists.set(layer, own_list);
        let node = HnswNode { point, layers: layer_lists };
        self.nodes.push(node);
        let node_idx = self.nodes.len() - 1;
        let ghost key0 = id_str@;
        assoc_set(&mut self.point_id_to_index, id_str, node_idx);
        proof {
            assert(self.vectors@.len() == self.nodes@.len() * self.dim) by {
                vstd::arithmetic::mul::lemma_mul_is_distributive_add_other_way(
                    self.dim as int,
                    oldn as int,
                    1,
                );
                vstd::arithmetic::mul::lemma_mul_is_commutative(oldn as int, self.dim as int);
                vstd::arithmetic::mul::lemma_mul_is_commutative(
                    oldn as int + 1,
                    self.dim as int,
                );
            }
            lemma_map_bounded_after_insert(
                pre.point_id_to_index@,
                self.point_id_to_index@,
                key0,
                node_idx as int,
                self.nodes@.len() as int,
            );
        }

        // Back-edges from each chosen neighbour.
        let ghost after_push = self.nodes@;
        let degree_cap = self.max_connections * 2;
        let mut overflowed: Vec<usize> = Vec::new();
        let mut bi: usize = 0;
        while bi < neighbors.len()
            invariant
                self.wf(),
                self.vectors@ == pre.vectors@ + point.vector@,
                self.point_id_to_index@.len() >= 1,
                spec_assoc_map(self.point_id_to_index@) == spec_assoc_map(
                    pre.point_id_to_index@,
                ).insert(spec_canonical_id(point.id), node_idx),
                self.dim == (if pre.dim == 0 {
                    point.vector@.len() as usize
                } else {
                    pre.dim
                }),
                bi <= neighbors@.len(),
                node_idx == pre.nodes@.len(),
                self.nodes@.len() == pre.nodes@.len() + 1,
                forall|q: int|
                    0 <= q < neighbors@.len() ==> (#[trigger] neighbors@[q]) < node_idx,
                self.max_connections == pre.max_connections,
                self.max_layers == pre.max_layers,
                self.ef_construction == pre.ef_construction,
                neighbors@.len() <= pre.max_connections,
                forall|q1: int, q2: int|
                    0 <= q1 < q2 < neighbors@.len() ==> (#[trigger] neighbors@[q1]) != (
                    #[trigger] neighbors@[q2]),
                self.nodes@[node_idx as int] == after_push[node_idx as int],
                self.nodes@[node_idx as int].point == point,
                forall|i: int|
                    0 <= i < node_idx ==> (#[trigger] self.nodes@[i]).point == pre.nodes@[i].point,
                forall|q: int| 0 <= q < overflowed@.len() ==> (#[trigger] overflowed@[q]) < node_idx,
            decreases neighbors@.len() - bi,
        {
            let nb = neighbors[bi];
            if layer < self.nodes[nb].layers.len() {
                let mut tmp = HnswNode {
                    point: Point::new(
                        crate::point::PointId::Integer(0),
                        crate::point::Vector::new(Vec::new()),
                        None,
                    ),
                    layers: Vec::new(),
                };
                self.nodes.set_and_swap(nb, &mut tmp);
                let mut inner: Vec<usize> = Vec::new();
                tmp.layers.set_and_swap(layer, &mut inner);
                inner.push(node_idx);
                let degree = inner.len();
                tmp.layers.set_and_swap(layer, &mut inner);
                self.nodes.set_and_swap(nb, &mut tmp);
                if degree > degree_cap {
                    overflowed.push(nb);
                }
            }
            bi = bi + 1;
        }
        proof {
            let new_node = self.nodes@[node_idx as int];
            assert(new_node == after_push[node_idx as int]);
            assert(new_node.layers@.len() == layer + 1);
            assert forall|j: int| 0 <= j < layer implies (#[trigger] new_node.layers@[j])@.len()
                == 0 by {}
            assert(new_node.layers@[layer as int]@ == neighbors@);
            assert(spec_neighbor_list_ok(neighbors@, oldn as int, self.max_connections as int));
        }
        (overflowed, layer)
    }

}

/// Values of an id map stay below a bound after one insertion below it.
proof fn lemma_map_values_bounded_insert(
    pre_pairs: Seq<(String, usize)>,
    post_pairs: Seq<(String, usize)>,
    key: Seq<char>,
    v: int,
    bound: int,
)
    requires
        spec_assoc_unique(pre_pairs),
        spec_assoc_unique(post_pairs),
        forall|i: int| 0 <= i < pre_pairs.len() ==> (#[trigger] pre_pairs[i]).1 < bound,
        0 <= v < bound,
        spec_assoc_map(post_pairs) == spec_assoc_map(pre_pairs).insert(key, v as usize),
    ensures
        forall|i: int| 0 <= i < post_pairs.len() ==> (#[trigger] post_pairs[i]).1 < bound,
{
    assert forall|i: int| 0 <= i < post_pairs.len() implies (#[trigger] post_pairs[i]).1
        < bound by {
        crate::assoc::lemma_assoc_index(post_pairs, i);
        let k = post_pairs[i].0@;
        if k != key {
            crate::assoc::lemma_assoc_contains(pre_pairs, k);
            let j = choose|j: int| 0 <= j < pre_pairs.len() && (#[trigger] pre_pairs[j]).0@ == k;
            crate::assoc::lemma_assoc_index(pre_pairs, j);
        }
    }
}

/// After adding one entry whose value is the new node's index, every
/// id-map entry stays within the grown node list.
proof fn lemma_map_bounded_after_insert(
    pre_pairs: Seq<(String, usize)>,
    post_pairs: Seq<(String, usize)>,
    key: Seq<char>,
    new_idx: int,
    new_len: int,
)
    requires
        spec_assoc_unique(pre_pairs),
        spec_assoc_unique(post_pairs),
        forall|i: int| 0 <= i < pre_pairs.len() ==> (#[trigger] pre_pairs[i]).1 < new_len - 1,
        0 <= new_idx < new_len,
        spec_assoc_map(post_pairs) == spec_assoc_map(pre_pairs).insert(key, new_idx as usize),
    ensures
        forall|i: int| 0 <= i < post_pairs.len() ==> (#[trigger] post_pairs[i]).1 < new_len,
{
    assert forall|i: int| 0 <= i < post_pairs.len() implies (#[trigger] post_pairs[i]).1
        < new_len by {
        crate::assoc::lemma_assoc_index(post_pairs, i);
        let k = post_pairs[i].0@;
        if k != key {
            crate::assoc::lemma_assoc_contains(pre_pairs, k);
            crate::assoc::lemma_assoc_contains(post_pairs, k);
            let j = choose|j: int| 0 <= j < pre_pairs.len() && (#[trigger] pre_pairs[j]).0@ == k;
            crate::assoc::lemma_assoc_index(pre_pairs, j);
        }
    }
}

impl HnswIndex {
    /// Remove the node a canonical id maps to: its arena slice is spliced
    /// out, the node list closes the gap, and the id map is rebuilt over
    /// the shifted indices.  Reports whether the id was known.
    pub fn remove(&mut self, point_id: &str) -> (r: bool)
        requires
            old(self).wf(),
        ensures
            final(self).wf(),
            final(self).spec_dim() == old(self).spec_dim(),
            final(self).spec_max_connections() == old(self).spec_max_connections(),
            final(self).spec_max_layers() == old(self).spec_max_layers(),
            r == old(self).spec_id_map().contains_key(point_id@),
            r ==> final(self).spec_len() + 1 == old(self).spec_len() && final(self).spec_nodes()
                == old(self).spec_nodes().remove(
                old(self).spec_id_map()[point_id@] as int,
            ),
            // The removed node's slice leaves the arena; the id map is
            // rebuilt onto the remaining nodes: every remaining node is
            // indexed, and every entry points at a node bearing its id.
            r ==> final(self).spec_arena() == old(self).spec_arena().subrange(
                0,
                old(self).spec_id_map()[point_id@] as int * old(self).spec_dim() as int,
            ) + old(self).spec_arena().subrange(
                (old(self).spec_id_map()[point_id@] + 1) as int * old(self).spec_dim() as int,
                old(self).spec_arena().len() as int,
            ),
            r ==> forall|i: int|
                0 <= i < final(self).spec_len() ==> final(self).spec_id_map().contains_key(
                    spec_canonical_id((#[trigger] final(self).spec_nodes()[i]).point.id),
                ),
            r ==> forall|k: Seq<char>|
                #[trigger] final(self).spec_id_map().contains_key(k) ==> final(self).spec_id_map()[
                    k
                ] < final(self).spec_len() && spec_canonical_id(
                    final(self).spec_nodes()[final(self).spec_id_map()[k] as int].point.id,
                ) == k,
            !r ==> final(self).spec_nodes() == old(self).spec_nodes() && final(self).spec_arena()
                == old(self).spec_arena() && final(self).spec_id_map() == old(self).spec_id_map(),
    {
        let found = self.index_of(point_id);
        match found {
            None => false,
            Some(index) => {
                // Splice the node's slice out of the arena.
                let total = self.vectors.len();
                proof {
                    vstd::arithmetic::mul::lemma_mul_inequality(
                        index as int + 1,
                        self.nodes@.len() as int,
                        self.dim as int,
                    );
                    vstd::arithmetic::mul::lemma_mul_is_distributive_add_other_way(
                        self.dim as int,
                        index as int,
                        1,
                    );
                    vstd::arithmetic::mul::lemma_mul_is_commutative(
                        index as int + 1,
                        self.dim as int,
                    );
                    vstd::arithmetic::mul::lemma_mul_is_commutative(index as int, self.dim as int);
                    vstd::arithmetic::mul::lemma_mul_nonnegative(index as int, self.dim as int);
                }
                let start = index * self.dim;
                let mut new_arena: Vec<u32> = Vec::new();
                let mut a: usize = 0;
                while a < start
                    invariant
                        a <= start,
                        start + self.dim <= total,
                        total == self.vectors@.len(),
                        new_arena@ =~= self.vectors@.subrange(0, a as int),
                    decreases start - a,
                {
                    new_arena.push(self.vectors[a]);
                    a = a + 1;
                }
                let mut b: usize = start + self.dim;
                while b < total
                    invariant
                        start + self.dim <= b <= total,
                        total == self.vectors@.len(),
                        new_arena@ =~= self.vectors@.subrange(0, start as int)
                            + self.vectors@.subrange(start as int + self.dim as int, b as int),
                    decreases total - b,
                {
                    new_arena.push(self.vectors[b]);
                    b = b + 1;
                }
                self.vectors = new_arena;
                let _ = self.nodes.remove(index);

                // Rebuild the id map over the shifted indices.
                let ghost spliced_arena = self.vectors@;
                let ghost remaining = self.nodes@;
                let mut new_map: Vec<(String, usize)> = Vec::new();
                let n = self.nodes.len();
                let mut i: usize = 0;
                while i < n
                    invariant
                        i <= n == self.nodes@.len(),
                        self.nodes@ == remaining,
                        self.vectors@ == spliced_arena,
                        spec_assoc_unique(new_map@),
                        forall|q: int|
                            0 <= q < new_map@.len() ==> (#[trigger] new_map@[q]).1 < n
                                && spec_canonical_id(
                                self.nodes@[new_map@[q].1 as int].point.id,
                            ) == new_map@[q].0@,
                        forall|j: int|
                            0 <= j < i ==> spec_assoc_map(new_map@).contains_key(
                                spec_canonical_id((#[trigger] self.nodes@[j]).point.id),
                            ),
                    decreases n - i,
                {
                    let ghost prem = new_map@;
                    let key = self.nodes[i].point.id.to_string();
                    let ghost key_view = key@;
                    assoc_set(&mut new_map, key, i);
                    proof {
                        assert forall|q: int| 0 <= q < new_map@.len() implies (
                        #[trigger] new_map@[q]).1 < n && spec_canonical_id(
                            self.nodes@[new_map@[q].1 as int].point.id,
                        ) == new_map@[q].0@ by {
                            crate::assoc::lemma_assoc_index(new_map@, q);
                            let k = new_map@[q].0@;
                            if k != key_view {
                                crate::assoc::lemma_assoc_contains(prem, k);
                                crate::assoc::lemma_assoc_contains(new_map@, k);
                                let q2 = choose|q2: int|
                                    0 <= q2 < prem.len() && (#[trigger] prem[q2]).0@ == k;
                                crate::assoc::lemma_assoc_index(prem, q2);
                            }
                        }
                    }
                    i = i + 1;
                }
                self.point_id_to_index = new_map;
                proof {
                    assert forall|k: Seq<char>| #[trigger] spec_assoc_map(
                        self.point_id_to_index@,
                    ).contains_key(k) implies spec_assoc_map(self.point_id_to_index@)[k]
                        < self.nodes@.len() && spec_canonical_id(
                        self.nodes@[spec_assoc_map(self.point_id_to_index@)[k] as int].point.id,
                    ) == k by {
                        crate::assoc::lemma_assoc_contains(self.point_id_to_index@, k);
                        let q = choose|q: int|
                            0 <= q < self.point_id_to_index@.len() && (
                            #[trigger] self.point_id_to_index@[q]).0@ == k;
                        crate::assoc::lemma_assoc_index(self.point_id_to_index@, q);
                    }
                }
                proof {
                    let oldn = old(self).nodes@.len();
                    assert(self.vectors@.len() == self.nodes@.len() * self.dim) by {
                        vstd::arithmetic::mul::lemma_mul_is_distributive_sub(
                            self.dim as int,
                            oldn as int,
                            1,
                        );
                        vstd::arithmetic::mul::lemma_mul_is_commutative(
                            oldn as int,
                            self.dim as int,
                        );
                        vstd::arithmetic::mul::lemma_mul_is_commutative(
                            oldn as int - 1,
                            self.dim as int,
                        );
                    }
                }
                true
            },
        }
    }

    /// Re-rank one node's neighbour list at a layer by the given distance
    /// table (distances from that node) and keep the closest, at most
    /// twice the connection bound.  Stale indices are dropped; a layer the
    /// node does not occupy leaves it untouched.
    pub fn prune_neighbor(&mut self, node: usize, layer: usize, dists: &Vec<u32>)
        requires
            old(self).wf(),
            node < old(self).spec_len(),
            dists@.len() == old(self).spec_len(),
            old(self).spec_max_connections() * 2 <= usize::MAX,
        ensures
            final(self).wf(),
            final(self).spec_len() == old(self).spec_len(),
            final(self).spec_arena() == old(self).spec_arena(),
            final(self).spec_id_map() == old(self).spec_id_map(),
            final(self).spec_dim() == old(self).spec_dim(),
            final(self).spec_max_connections() == old(self).spec_max_connections(),
            final(self).spec_max_layers() == old(self).spec_max_layers(),
            forall|i: int|
                0 <= i < old(self).spec_len() && i != node ==> final(self).spec_nodes()[i] == old(self).spec_nodes()[i],
            final(self).spec_nodes()[node as int].point == old(self).spec_nodes()[
                node as int
            ].point,
            layer >= old(self).spec_nodes()[node as int].layers@.len() ==> final(self).spec_nodes()[node as int] == old(self).spec_nodes()[node as int],
            layer < old(self).spec_nodes()[node as int].layers@.len() ==> {
                &&& final(self).spec_nodes()[node as int].layers@.len() == old(self).spec_nodes()[node as int].layers@.len()
                &&& forall|j: int|
                    0 <= j < old(self).spec_nodes()[node as int].layers@.len() && j != layer
                        ==> (#[trigger] final(self).spec_nodes()[node as int].layers@[j]) == old(self).spec_nodes()[node as int].layers@[j]
                &&& spec_pruned_list(
                    final(self).spec_nodes()[node as int].layers@[layer as int]@,
                    old(self).spec_nodes()[node as int].layers@[layer as int]@,
                    dists@,
                    2 * old(self).spec_max_connections() as int,
                )
            },
    {
        if layer >= self.nodes[node].layers.len() {
            return ;
        }
        let ghost orig_node = self.nodes@[node as int];
        let ghost orig_list = orig_node.layers@[layer as int]@;
        let cap = self.max_connections * 2;
        let mut tmp = HnswNode {
            point: Point::new(
                crate::point::PointId::Integer(0),
                crate::point::Vector::new(Vec::new()),
                None,
            ),
            layers: Vec::new(),
        };
        self.nodes.set_and_swap(node, &mut tmp);
        let mut inner: Vec<usize> = Vec::new();
        tmp.layers.set_and_swap(layer, &mut inner);
        proof {
            assert(tmp == orig_node || tmp.layers@ == orig_node.layers@.update(
                layer as int,
                tmp.layers@[layer as int],
            ));
            assert(inner@ == orig_list);
        }
        let n = self.nodes.len();
        let mut pairs: Vec<(usize, u32)> = Vec::new();
        let mut i: usize = 0;
        while i < inner.len()
            invariant
                i <= inner@.len(),
                inner@ == orig_list,
                dists@.len() == n,
                spec_pairs_wf(pairs@, dists@),
                forall|q: int|
                    0 <= q < pairs@.len() ==> exists|p: int|
                        0 <= p < orig_list.len() && orig_list[p] == (#[trigger] pairs@[q]).0,
            decreases inner@.len() - i,
        {
            let c = inner[i];
            if c < n {
                pairs.push((c, dists[c]));
                proof {
                    assert(orig_list[i as int] == pairs@[pairs@.len() - 1].0);
                }
            }
            i = i + 1;
        }
        let ghost prepairs = pairs@;
        let pairs = sort_pairs_asc(pairs);
        let mut kept: Vec<usize> = Vec::new();
        let mut j: usize = 0;
        while j < pairs.len() && j < cap
            invariant
                j <= pairs@.len(),
                j <= cap,
                kept@.len() == j,
                forall|q: int| 0 <= q < j ==> (#[trigger] kept@[q]) == pairs@[q].0,
            decreases pairs@.len() - j,
        {
            kept.push(pairs[j].0);
            j = j + 1;
        }
        proof {
            // Each kept entry is an entry of the sorted pairs, hence one of
            // the valid entries of the original list, carrying its own
            // distance-table value.
            assert forall|q: int| 0 <= q < kept@.len() implies (#[trigger] kept@[q])
                < dists@.len() && (exists|p: int|
                0 <= p < orig_list.len() && orig_list[p] == kept@[q]) by {
                let p2 = choose|p2: int| 0 <= p2 < prepairs.len() && pairs@[q] == prepairs[p2];
                assert(prepairs[p2].0 < dists@.len());
            }
            if spec_dists_no_nan(dists@) {
                assert(forall|q: int|
                    0 <= q < prepairs.len() ==> !crate::fbits::f32_is_nan(
                        (#[trigger] prepairs[q]).1,
                    ));
                assert forall|q1: int, q2: int| 0 <= q1 < q2 < kept@.len() implies !f32_lt(
                    dists@[(#[trigger] kept@[q2]) as int],
                    dists@[(#[trigger] kept@[q1]) as int],
                ) by {
                    assert(!f32_lt(pairs@[q2].1, pairs@[q1].1));
                    let p1 = choose|p: int| 0 <= p < prepairs.len() && pairs@[q1] == prepairs[p];
                    let p2 = choose|p: int| 0 <= p < prepairs.len() && pairs@[q2] == prepairs[p];
                    assert(pairs@[q1].1 == dists@[pairs@[q1].0 as int]);
                    assert(pairs@[q2].1 == dists@[pairs@[q2].0 as int]);
                }
            }
            assert(spec_pruned_list(kept@, orig_list, dists@, cap as int));
        }
        let ghost kept_view = kept@;
        let mut replacement = kept;
        tmp.layers.set_and_swap(layer, &mut replacement);
        self.nodes.set_and_swap(node, &mut tmp);
        proof {
            let cur = self.nodes@[node as int];
            assert(cur.point == orig_node.point);
            assert(cur.layers@.len() == orig_node.layers@.len());
            assert forall|j2: int|
                0 <= j2 < orig_node.layers@.len() && j2 != layer implies (
            #[trigger] cur.layers@[j2]) == orig_node.layers@[j2] by {}
            assert(cur.layers@[layer as int]@ == kept_view);
            assert forall|i2: int| 0 <= i2 < old(self).spec_len() && i2 != node implies (
            #[trigger] self.nodes@[i2]) == old(self).nodes@[i2] by {}
        }
    }
}

/// Copy a list of node indices.
fn copy_usize_vec(v: &Vec<usize>) -> (r: Vec<usize>)
    ensures
        r@ == v@,
{
    let n = v.len();
    let mut out: Vec<usize> = Vec::new();
    let mut i: usize = 0;
    while i < n
        invariant
            i <= n == v@.len(),
            out@ =~= v@.take(i as int),
        decreases n - i,
    {
        out.push(v[i]);
        i = i + 1;
    }
    proof {
        assert(out@ =~= v@);
    }
    out
}

} // verus!
