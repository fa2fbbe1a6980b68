//! Points: identifiers, dense vectors, multivectors and sparse vectors.
//!
//! Vector components are single-precision values carried as `u32` bit
//! patterns; all arithmetic on them happens outside this crate, while
//! dimensions, identities and versions are handled and proved here.

use vstd::prelude::*;
use crate::json::JsonValue;
use crate::text::{spec_u64_dec, u64_to_string};

verus! {

/// A point identifier: free-form text, the canonical hyphenated text of a
/// UUID, or a non-negative integer.  All three index the primary store by
/// their canonical text form.
#[derive(Debug)]
pub enum PointId {
    String(String),
    Uuid(String),
    Integer(u64),
}

/// The canonical text of an identifier: the text itself for the two textual
/// forms, the decimal representation for integers.
pub open spec fn spec_canonical_id(id: PointId) -> Seq<char> {
    match id {
        PointId::String(s) => s@,
        PointId::Uuid(u) => u@,
        PointId::Integer(n) => spec_u64_dec(n as int),
    }
}

impl PointId {
    /// The canonical text form, used as the indexing key everywhere.
    pub fn to_string(&self) -> (r: String)
        ensures
            r@ == spec_canonical_id(*self),
    {
        match self {
            PointId::String(s) => s.clone(),
            PointId::Uuid(u) => u.clone(),
            PointId::Integer(n) => u64_to_string(*n),
        }
    }
}

impl Clone for PointId {
    /// A copy equal to the original.
    fn clone(&self) -> (r: Self)
        ensures
            r == *self,
    {
        match self {
            PointId::String(s) => PointId::String(s.clone()),
            PointId::Uuid(u) => PointId::Uuid(u.clone()),
            PointId::Integer(n) => PointId::Integer(*n),
        }
    }
}

/// A dense vector: single-precision components as bit patterns.
#[derive(Debug)]
pub struct Vector {
    data: Vec<u32>,
}

impl View for Vector {
    type V = Seq<u32>;

    closed spec fn view(&self) -> Seq<u32> {
        self.data@
    }
}

impl Vector {
    /// Wrap an owned buffer of components.
    pub fn new(data: Vec<u32>) -> (r: Vector)
        ensures
            r@ == data@,
    {
        Vector { data }
    }

    /// Copy a borrowed slice of components.
    pub fn from_slice(data: &[u32]) -> (r: Vector)
        ensures
            r@ == data@,
    {
        Vector { data: vstd::slice::slice_to_vec(data) }
    }

    /// Number of components.
    pub fn dim(&self) -> (r: usize)
        ensures
            r == self@.len(),
    {
        self.data.len()
    }

    /// Whether there are no components.
    pub fn is_empty(&self) -> (r: bool)
        ensures
            r == (self@.len() == 0),
    {
        self.data.is_empty()
    }

    /// The components as a slice.
    pub fn as_slice(&self) -> (r: &[u32])
        ensures
            r@ == self@,
    {
        self.data.as_slice()
    }

    /// The component at `i`.
    pub fn get(&self, i: usize) -> (r: u32)
        requires
            i < self@.len(),
        ensures
            r == self@[i as int],
    {
        self.data[i]
    }
}

impl Clone for Vector {
    /// A copy with the same components.
    fn clone(&self) -> (r: Self)
        ensures
            r@ == self@,
    {
        let n = self.data.len();
        let mut data: Vec<u32> = Vec::new();
        let mut i: usize = 0;
        while i < n
            invariant
                i <= n == self.data@.len(),
                data@ =~= self.data@.take(i as int),
            decreases n - i,
        {
            data.push(self.data[i]);
            i = i + 1;
        }
        proof {
            assert(data@ =~= self.data@);
        }
        Vector { data }
    }
}

/// Copy a vector of components.
pub fn clone_u32_vec(v: &Vec<u32>) -> (r: Vec<u32>)
    ensures
        r@ == v@,
{
    let n = v.len();
    let mut data: Vec<u32> = Vec::new();
    let mut i: usize = 0;
    while i < n
        invariant
            i <= n == v@.len(),
            data@ =~= v@.take(i as int),
        decreases n - i,
    {
        data.push(v[i]);
        i = i + 1;
    }
    proof {
        assert(data@ =~= v@);
    }
    data
}

/// How multivectors are compared.
#[derive(Debug, Clone, Copy, PartialEq, Eq, Structural)]
pub enum MultiVectorComparator {
    /// For each query row, the best similarity over document rows, summed.
    MaxSim,
}

impl Default for MultiVectorComparator {
    /// Late-interaction scoring is the only comparator.
    fn default() -> (r: Self)
        ensures
            r == MultiVectorComparator::MaxSim,
    {
        MultiVectorComparator::MaxSim
    }
}

/// Configuration for multivector storage and search.
#[derive(Debug, Clone, Copy, PartialEq, Eq, Structural)]
pub struct MultiVectorConfig {
    pub comparator: MultiVectorComparator,
}

impl Default for MultiVectorConfig {
    /// The default comparator throughout.
    fn default() -> (r: Self)
        ensures
            r.comparator == MultiVectorComparator::MaxSim,
    {
        MultiVectorConfig { comparator: MultiVectorComparator::MaxSim }
    }
}

/// Whether a list of rows forms a well-shaped multivector: non-empty, with
/// non-empty rows all of one dimension.
pub open spec fn spec_multivector_shape_ok(rows: Seq<Seq<u32>>) -> bool {
    &&& rows.len() > 0
    &&& rows[0].len() > 0
    &&& forall|i: int| 0 <= i < rows.len() ==> (#[trigger] rows[i]).len() == rows[0].len()
}

/// An ordered group of equal-dimension sub-vectors, scored by late
/// interaction (for each query row, the best match over document rows).
#[derive(Debug)]
pub struct MultiVector {
    vectors: Vec<Vec<u32>>,
    dim: usize,
}

impl MultiVector {
    /// The rows.
    pub closed spec fn spec_rows(&self) -> Seq<Seq<u32>> {
        Seq::new(self.vectors@.len(), |i: int| self.vectors@[i]@)
    }

    /// The recorded row dimension.
    pub closed spec fn spec_dim(&self) -> nat {
        self.dim as nat
    }

    /// Structural invariant, established by the constructors.
    pub closed spec fn wf(&self) -> bool {
        &&& spec_multivector_shape_ok(self.spec_rows())
        &&& self.dim == self.vectors@[0]@.len()
    }

    /// Build a multivector, rejecting empty or ragged input.
    pub fn new(vectors: Vec<Vec<u32>>) -> (r: Result<MultiVector, &'static str>)
        ensures
            match r {
                Ok(mv) => {
                    &&& spec_multivector_shape_ok(Seq::new(vectors@.len(), |i: int| vectors@[i]@))
                    &&& mv.wf()
                    &&& mv.spec_rows() == Seq::new(vectors@.len(), |i: int| vectors@[i]@)
                },
                Err(_) => !spec_multivector_shape_ok(
                    Seq::new(vectors@.len(), |i: int| vectors@[i]@),
                ),
            },
    {
        let ghost rows = Seq::new(vectors@.len(), |i: int| vectors@[i]@);
        if vectors.len() == 0 {
            return Err("MultiVector cannot be empty");
        }
        let dim = vectors[0].len();
        if dim == 0 {
            return Err("Sub-vectors cannot be empty");
        }
        let n = vectors.len();
        let mut i: usize = 0;
        while i < n
            invariant
                i <= n == vectors@.len(),
                dim == vectors@[0]@.len(),
                forall|k: int| 0 <= k < i ==> (#[trigger] vectors@[k]@).len() == dim,
            decreases n - i,
        {
            if vectors[i].len() != dim {
                proof {
                    let rows = Seq::new(vectors@.len(), |k: int| vectors@[k]@);
                    assert(rows[i as int] == vectors@[i as int]@);
                    assert(rows[0] == vectors@[0]@);
                }
                return Err("All sub-vectors must have the same dimension");
            }
            i = i + 1;
        }
        let mv = MultiVector { vectors, dim };
        proof {
            assert(mv.spec_rows() =~= rows);
        }
        Ok(mv)
    }

    /// Wrap one dense vector as a single-row multivector.
    pub fn from_single(vector: Vec<u32>) -> (r: Result<MultiVector, &'static str>)
        ensures
            match r {
                Ok(mv) => {
                    &&& vector@.len() > 0
                    &&& mv.wf()
                    &&& mv.spec_rows() =~= seq![vector@]
                },
                Err(_) => vector@.len() == 0,
            },
    {
        if vector.len() == 0 {
            return Err("Vector cannot be empty");
        }
        let dim = vector.len();
        let mut vectors: Vec<Vec<u32>> = Vec::new();
        vectors.push(vector);
        let mv = MultiVector { vectors, dim };
        proof {
            assert(mv.spec_rows() =~= seq![mv.vectors@[0]@]);
        }
        Ok(mv)
    }

    /// The dimension shared by every row.
    pub fn dim(&self) -> (r: usize)
        requires
            self.wf(),
        ensures
            r == self.spec_rows()[0].len(),
    {
        self.dim
    }

    /// Number of rows.
    pub fn len(&self) -> (r: usize)
        ensures
            r == self.spec_rows().len(),
    {
        self.vectors.len()
    }

    /// Whether there are no rows (never, for a well-formed multivector).
    pub fn is_empty(&self) -> (r: bool)
        ensures
            r == (self.spec_rows().len() == 0),
    {
        self.vectors.is_empty()
    }

    /// The rows as a slice of component buffers.
    pub fn vectors(&self) -> (r: &Vec<Vec<u32>>)
        ensures
            r@.len() == self.spec_rows().len(),
            forall|i: int| 0 <= i < r@.len() ==> (#[trigger] r@[i]@) == self.spec_rows()[i],
    {
        &self.vectors
    }

    /// The first row, if any.
    pub fn first(&self) -> (r: Option<&Vec<u32>>)
        ensures
            match r {
                Some(row) => self.spec_rows().len() > 0 && row@ == self.spec_rows()[0],
                None => self.spec_rows().len() == 0,
            },
    {
        if self.vectors.len() > 0 {
            Some(&self.vectors[0])
        } else {
            None
        }
    }

    /// The first row as a dense vector.
    pub fn to_single_vector(&self) -> (r: Vector)
        requires
            self.wf(),
        ensures
            r@ == self.spec_rows()[0],
    {
        proof {
            assert(self.spec_rows()[0] == self.vectors@[0]@);
        }
        Vector::new(clone_u32_vec(&self.vectors[0]))
    }
}

impl Clone for MultiVector {
    /// A copy with the same rows and dimension.
    fn clone(&self) -> (r: Self)
        ensures
            r.spec_rows() == self.spec_rows(),
            r.spec_dim() == self.spec_dim(),
            r.wf() == self.wf(),
    {
        let n = self.vectors.len();
        let mut vectors: Vec<Vec<u32>> = Vec::new();
        let mut i: usize = 0;
        while i < n
            invariant
                i <= n == self.vectors@.len(),
                vectors@.len() == i,
                forall|k: int| 0 <= k < i ==> (#[trigger] vectors@[k])@ == self.vectors@[k]@,
            decreases n - i,
        {
            vectors.push(clone_u32_vec(&self.vectors[i]));
            i = i + 1;
        }
        let r = MultiVector { vectors, dim: self.dim };
        proof {
            assert(r.spec_rows() =~= self.spec_rows());
        }
        r
    }
}

/// A sparse vector: parallel lists of indices and component bit patterns.
#[derive(Debug)]
pub struct SparseVector {
    pub indices: Vec<u32>,
    pub values: Vec<u32>,
}

impl SparseVector {
    /// Pair up indices and values.
    pub fn new(indices: Vec<u32>, values: Vec<u32>) -> (r: SparseVector)
        ensures
            r.indices@ == indices@,
            r.values@ == values@,
    {
        SparseVector { indices, values }
    }

    /// Whether there are no entries.
    pub fn is_empty(&self) -> (r: bool)
        ensures
            r == (self.indices@.len() == 0),
    {
        self.indices.is_empty()
    }
}

impl Clone for SparseVector {
    /// A copy with the same entries.
    fn clone(&self) -> (r: Self)
        ensures
            r.indices@ == self.indices@,
            r.values@ == self.values@,
    {
        let indices = clone_u32_vec(&self.indices);
        let values = clone_u32_vec(&self.values);
        SparseVector { indices, values }
    }
}

/// Structural identity of two points: same identifier, version, vector
/// components, multivector rows, sparse entries and payload shape.
pub open spec fn spec_points_identical(a: Point, b: Point) -> bool {
    &&& a.id == b.id
    &&& a.version == b.version
    &&& a.vector@ == b.vector@
    &&& match (a.multivector, b.multivector) {
        (Some(x), Some(y)) => x.spec_rows() == y.spec_rows() && x.spec_dim() == y.spec_dim()
            && x.wf() == y.wf(),
        (None, None) => true,
        _ => false,
    }
    &&& a.sparse_vectors@.len() == b.sparse_vectors@.len()
    &&& forall|i: int|
        0 <= i < a.sparse_vectors@.len() ==> {
            &&& (#[trigger] a.sparse_vectors@[i]).0@ == b.sparse_vectors@[i].0@
            &&& a.sparse_vectors@[i].1.indices@ == b.sparse_vectors@[i].1.indices@
            &&& a.sparse_vectors@[i].1.values@ == b.sparse_vectors@[i].1.values@
        }
    &&& match (a.payload, b.payload) {
        (Some(x), Some(y)) => crate::json::spec_json_identical(x, y),
        (None, None) => true,
        _ => false,
    }
}

/// Structural identity of points is reflexive.
pub proof fn lemma_points_identical_reflexive(p: Point)
    ensures
        spec_points_identical(p, p),
{
    match p.payload {
        Some(v) => crate::json::lemma_json_identical_reflexive(v),
        None => {},
    }
}

/// A stored point: identifier, overwrite counter, dense vector, optional
/// multivector, named sparse vectors, and an optional payload.
#[derive(Debug)]
pub struct Point {
    pub id: PointId,
    /// Incremented by one on every overwrite of the same identifier.
    pub version: u64,
    pub vector: Vector,
    pub multivector: Option<MultiVector>,
    pub sparse_vectors: Vec<(String, SparseVector)>,
    pub payload: Option<JsonValue>,
}

impl Point {
    /// A fresh point with a dense vector.
    pub fn new(id: PointId, vector: Vector, payload: Option<JsonValue>) -> (r: Point)
        ensures
            r.id == id,
            r.version == 0,
            r.vector == vector,
            r.multivector is None,
            r.sparse_vectors@.len() == 0,
            r.payload == payload,
    {
        Point { id, version: 0, vector, multivector: None, sparse_vectors: Vec::new(), payload }
    }

    /// A fresh point carrying a multivector; its first row doubles as the
    /// dense vector.
    pub fn new_multi(id: PointId, multivector: MultiVector, payload: Option<JsonValue>) -> (r:
        Point)
        requires
            multivector.wf(),
        ensures
            r.id == id,
            r.version == 0,
            r.vector@ == multivector.spec_rows()[0],
            r.multivector == Some(multivector),
            r.sparse_vectors@.len() == 0,
            r.payload == payload,
    {
        let vector = multivector.to_single_vector();
        Point {
            id,
            version: 0,
            vector,
            multivector: Some(multivector),
            sparse_vectors: Vec::new(),
            payload,
        }
    }

    /// A fresh sparse-only point; the dense vector is a one-component
    /// placeholder.
    pub fn new_sparse(
        id: PointId,
        sparse_vectors: Vec<(String, SparseVector)>,
        payload: Option<JsonValue>,
    ) -> (r: Point)
        ensures
            r.id == id,
            r.version == 0,
            r.vector@ =~= seq![0u32],
            r.multivector is None,
            r.sparse_vectors == sparse_vectors,
            r.payload == payload,
    {
        let mut data: Vec<u32> = Vec::new();
        data.push(0);
        Point {
            id,
            version: 0,
            vector: Vector::new(data),
            multivector: None,
            sparse_vectors,
            payload,
        }
    }

    /// Whether multivector data is attached.
    pub fn has_multivector(&self) -> (r: bool)
        ensures
            r == (self.multivector is Some),
    {
        self.multivector.is_some()
    }

    /// The attached multivector, if any.
    pub fn get_multivector(&self) -> (r: Option<&MultiVector>)
        ensures
            match r {
                Some(mv) => self.multivector == Some(*mv),
                None => self.multivector is None,
            },
    {
        self.multivector.as_ref()
    }

    /// The named sparse vector, if any.
    pub fn get_sparse_vector(&self, name: &str) -> (r: Option<&SparseVector>)
        ensures
            match r {
                Some(sv) => exists|i: int|
                    0 <= i < self.sparse_vectors@.len() && (#[trigger] self.sparse_vectors@[i]).0@
                        == name@ && self.sparse_vectors@[i].1 == *sv,
                None => forall|i: int|
                    0 <= i < self.sparse_vectors@.len() ==> (#[trigger] self.sparse_vectors@[i]).0@
                        != name@,
            },
    {
        let n = self.sparse_vectors.len();
        let mut i: usize = 0;
        while i < n
            invariant
                i <= n == self.sparse_vectors@.len(),
                forall|k: int|
                    0 <= k < i ==> (#[trigger] self.sparse_vectors@[k]).0@ != name@,
            decreases n - i,
        {
            if crate::json::str_eq(self.sparse_vectors[i].0.as_str(), name) {
                return Some(&self.sparse_vectors[i].1);
            }
            i = i + 1;
        }
        None
    }

    /// Attach or replace a named sparse vector.
    pub fn add_sparse_vector(&mut self, name: String, sparse: SparseVector)
        ensures
            final(self).id == old(self).id,
            final(self).version == old(self).version,
            final(self).vector == old(self).vector,
            final(self).multivector == old(self).multivector,
            final(self).payload == old(self).payload,
            final(self).sparse_vectors@.len() >= old(self).sparse_vectors@.len(),
            exists|i: int|
                0 <= i < final(self).sparse_vectors@.len()
                && (#[trigger] final(self).sparse_vectors@[i]).0@ == name@
                && final(self).sparse_vectors@[i].1 == sparse,
    {
        let n = self.sparse_vectors.len();
        let mut i: usize = 0;
        while i < n
            invariant
                n == self.sparse_vectors@.len(),
                i <= n,
                *self == *old(self),
            decreases n - i,
        {
            if crate::json::str_eq(self.sparse_vectors[i].0.as_str(), name.as_str()) {
                self.sparse_vectors.set(i, (name, sparse));
                proof {
                    assert((final(self).sparse_vectors@[i as int]).0@ == name@);
                }
                return ;
            }
            i = i + 1;
        }
        self.sparse_vectors.push((name, sparse));
        proof {
            let last = final(self).sparse_vectors@.len() - 1;
            assert((final(self).sparse_vectors@[last]).0@ == name@);
        }
    }

    /// The same point with this payload attached.
    pub fn with_payload(self, payload: JsonValue) -> (r: Point)
        ensures
            r.id == self.id,
            r.version == self.version,
            r.vector == self.vector,
            r.multivector == self.multivector,
            r.sparse_vectors == self.sparse_vectors,
            r.payload == Some(payload),
    {
        Point { payload: Some(payload), ..self }
    }

    /// The same point with this multivector attached.
    pub fn with_multivector(self, multivector: MultiVector) -> (r: Point)
        ensures
            r.id == self.id,
            r.version == self.version,
            r.vector == self.vector,
            r.multivector == Some(multivector),
            r.sparse_vectors == self.sparse_vectors,
            r.payload == self.payload,
    {
        Point { multivector: Some(multivector), ..self }
    }
}

impl Clone for Point {
    /// A copy structurally identical to the original.
    fn clone(&self) -> (r: Self)
        ensures
            spec_points_identical(r, *self),
    {
        let multivector = match &self.multivector {
            Some(mv) => Some(mv.clone()),
            None => None,
        };
        let n = self.sparse_vectors.len();
        let mut sparse_vectors: Vec<(String, SparseVector)> = Vec::new();
        let mut i: usize = 0;
        while i < n
            invariant
                i <= n == self.sparse_vectors@.len(),
                sparse_vectors@.len() == i,
                forall|k: int|
                    0 <= k < i ==> {
                        &&& (#[trigger] sparse_vectors@[k]).0@ == self.sparse_vectors@[k].0@
                        &&& sparse_vectors@[k].1.indices@ == self.sparse_vectors@[k].1.indices@
                        &&& sparse_vectors@[k].1.values@ == self.sparse_vectors@[k].1.values@
                    },
            decreases n - i,
        {
            let name = self.sparse_vectors[i].0.clone();
            let sv = self.sparse_vectors[i].1.clone();
            sparse_vectors.push((name, sv));
            i = i + 1;
        }
        let payload = match &self.payload {
            Some(p) => Some(p.clone()),
            None => None,
        };
        Point {
            id: self.id.clone(),
            version: self.version,
            vector: self.vector.clone(),
            multivector,
            sparse_vectors,
            payload,
        }
    }
}

} // verus!
