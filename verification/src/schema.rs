//! Structured-field schema vocabulary and text decomposition.
//!
//! The reranking layer describes payload fields by type, similarity family
//! and embedding style; text similarity decomposes strings into padded
//! character trigrams.  The scoring formulas themselves are
//! floating-point work and live with the caller.

use vstd::prelude::*;
use crate::point::PointId;
use crate::text::chars_to_string;
use crate::tokenize::str_to_chars;

verus! {

/// The kinds a schema field can have.
#[derive(Debug, Clone, Copy, PartialEq, Eq, Structural)]
pub enum FieldType {
    /// Text, matched exactly or by trigram similarity.
    Text,
    /// Numbers, compared by absolute or relative distance.
    Number,
    /// Categories, matched exactly or by overlap.
    Categorical,
    /// Booleans, matched exactly.
    Boolean,
}

/// The similarity family used for a field.
#[derive(Debug, Clone, Copy, PartialEq, Eq, Structural)]
pub enum DistanceType {
    /// Trigram or embedding similarity for text.
    Semantic,
    /// Absolute numeric distance.
    Absolute,
    /// Relative numeric distance.
    Relative,
    /// Equality: full score or none.
    Exact,
    /// Overlap of token sets.
    Overlap,
}

impl Default for DistanceType {
    /// Text similarity is the default family.
    fn default() -> (r: Self)
        ensures
            r == DistanceType::Semantic,
    {
        DistanceType::Semantic
    }
}

/// How text is turned into vectors for semantic matching.
#[derive(Debug, Clone, Copy, PartialEq, Eq, Structural)]
pub enum EmbeddingType {
    /// Hash-based embeddings.
    Semantic,
    /// Exact string matching only.
    Exact,
}

/// Rejections of a reranking schema.
#[derive(Debug, Clone, PartialEq, Eq)]
pub enum SchemaError {
    EmptySchema,
    NegativeWeight(String),
    ZeroTotalWeight,
    FieldNotFound(String),
}

/// A point id as the explanation layer serialises it: text or integer
/// (UUIDs travel as their text).
#[derive(Debug, Clone, PartialEq, Eq)]
pub enum PointIdSer {
    String(String),
    Integer(u64),
}

impl PointIdSer {
    /// The serialised form of an id: integers stay integers, both textual
    /// forms become text.
    pub fn from_point_id(id: &PointId) -> (r: PointIdSer)
        ensures
            match (id, r) {
                (PointId::Integer(i), PointIdSer::Integer(j)) => i == j,
                (PointId::String(s), PointIdSer::String(t)) => s@ == t@,
                (PointId::Uuid(u), PointIdSer::String(t)) => u@ == t@,
                _ => false,
            },
    {
        match id {
            PointId::String(s) => PointIdSer::String(s.clone()),
            PointId::Uuid(u) => PointIdSer::String(u.clone()),
            PointId::Integer(i) => PointIdSer::Integer(*i),
        }
    }
}

/// The schema format version written into serialised schemas.
pub fn default_version() -> (r: u32)
    ensures
        r == 1,
{
    1
}

/// A string padded with two spaces on each side, as trigram decomposition
/// reads it.
pub open spec fn spec_padded(s: Seq<char>) -> Seq<char> {
    seq![' ', ' '] + s + seq![' ', ' ']
}

/// Whether some reported trigram equals the padded text's window at `w`.
pub open spec fn spec_covers_window(out: Seq<String>, s: Seq<char>, w: int) -> bool {
    exists|q: int|
        0 <= q < out.len() && (#[trigger] out[q])@ == spec_padded(s).subrange(w, w + 3)
}

/// Whether `t` is one of the length-three windows of the padded text.
pub open spec fn spec_is_trigram_of(s: Seq<char>, t: Seq<char>) -> bool {
    exists|i: int|
        0 <= i <= spec_padded(s).len() - 3 && #[trigger] spec_padded(s).subrange(i, i + 3) == t
}

/// The distinct character trigrams of a string, padded with two spaces on
/// each side: every window of three consecutive characters, each reported
/// once.
pub fn generate_trigrams(s: &str) -> (r: Vec<String>)
    ensures
        forall|q: int| 0 <= q < r@.len() ==> spec_is_trigram_of(s@, (#[trigger] r@[q])@),
        forall|q1: int, q2: int|
            0 <= q1 < q2 < r@.len() ==> (#[trigger] r@[q1])@ != (#[trigger] r@[q2])@,
        forall|i: int|
            0 <= i <= spec_padded(s@).len() - 3 ==> #[trigger] spec_covers_window(r@, s@, i),
{
    let body = str_to_chars(s);
    let mut padded: Vec<char> = Vec::new();
    padded.push(' ');
    padded.push(' ');
    let mut bi: usize = 0;
    while bi < body.len()
        invariant
            bi <= body@.len(),
            body@ == s@,
            padded@ =~= seq![' ', ' '] + s@.take(bi as int),
        decreases body@.len() - bi,
    {
        padded.push(body[bi]);
        bi = bi + 1;
    }
    padded.push(' ');
    padded.push(' ');
    proof {
        assert(padded@ =~= spec_padded(s@));
    }
    let n = padded.len();
    proof {
        assert(n >= 4);
    }
    let mut out: Vec<String> = Vec::new();
    let mut i: usize = 0;
    while i <= n - 3
        invariant
            n == spec_padded(s@).len(),
            n >= 4,
            padded@ == spec_padded(s@),
            i <= n - 2,
            forall|q: int| 0 <= q < out@.len() ==> spec_is_trigram_of(s@, (#[trigger] out@[q])@),
            forall|q1: int, q2: int|
                0 <= q1 < q2 < out@.len() ==> (#[trigger] out@[q1])@ != (#[trigger] out@[q2])@,
            forall|w: int| 0 <= w < i ==> #[trigger] spec_covers_window(out@, s@, w),
        decreases n - i,
    {
        let mut window: Vec<char> = Vec::new();
        window.push(padded[i]);
        window.push(padded[i + 1]);
        window.push(padded[i + 2]);
        proof {
            assert(window@ =~= spec_padded(s@).subrange(i as int, i as int + 3));
        }
        let tri = chars_to_string(&window);
        let mut seen = false;
        let mut q: usize = 0;
        while q < out.len()
            invariant
                q <= out@.len(),
                tri@ == spec_padded(s@).subrange(i as int, i as int + 3),
                seen ==> exists|q2: int|
                    0 <= q2 < out@.len() && (#[trigger] out@[q2])@ == tri@,
                !seen ==> forall|q2: int| 0 <= q2 < q ==> (#[trigger] out@[q2])@ != tri@,
            decreases out@.len() - q,
        {
            if crate::json::str_eq(out[q].as_str(), tri.as_str()) {
                seen = true;
                proof {
                    assert(out@[q as int]@ == tri@);
                }
                q = out.len();
            } else {
                q = q + 1;
            }
        }
        let ghost before_push = out@;
        if !seen {
            out.push(tri);
        }
        proof {
            if !seen {
                assert(out@[out@.len() - 1]@ == spec_padded(s@).subrange(i as int, i as int + 3));
                assert forall|q1: int, q2: int| 0 <= q1 < q2 < out@.len() implies (
                #[trigger] out@[q1])@ != (#[trigger] out@[q2])@ by {
                    if q2 == out@.len() - 1 {
                        assert(out@[q1] == before_push[q1]);
                        assert(before_push[q1]@ != tri@);
                    } else {
                        assert(out@[q1] == before_push[q1] && out@[q2] == before_push[q2]);
                    }
                }
            }
            assert forall|w: int| 0 <= w < i + 1 implies #[trigger] spec_covers_window(
                out@,
                s@,
                w,
            ) by {
                if w < i {
                    assert(spec_covers_window(before_push, s@, w));
                    let q0 = choose|q: int|
                        0 <= q < before_push.len() && (#[trigger] before_push[q])@ == spec_padded(
                            s@,
                        ).subrange(w, w + 3);
                    assert(out@[q0] == before_push[q0]);
                } else {
                    if seen {
                        let q0 = choose|q2: int|
                            0 <= q2 < before_push.len() && (#[trigger] before_push[q2])@ == tri@;
                        assert(out@[q0] == before_push[q0]);
                        assert(out@[q0]@ == spec_padded(s@).subrange(w, w + 3));
                    } else {
                        assert(out@[out@.len() - 1]@ == spec_padded(s@).subrange(
                            i as int,
                            i as int + 3,
                        ));
                    }
                }
            }
        }
        i = i + 1;
    }
    proof {
        assert forall|w: int|
            0 <= w <= spec_padded(s@).len() - 3 implies #[trigger] spec_covers_window(
            out@,
            s@,
            w,
        ) by {
            assert(w < i);
        }
    }
    out
}

} // verus!
