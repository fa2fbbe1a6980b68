use vectx::collection::{Collection, CollectionConfig, Distance};
use vectx::filter::{FilterCondition, PayloadFilter};
use vectx::hnsw::HnswIndex;
use vectx::json::JsonValue;
use vectx::point::{Point, PointId, Vector};
use vectx::ranking::top_k_desc;
use vectx::tokenize::tokenize;

fn bits(values: &[f32]) -> Vec<u32> {
    values.iter().map(|v| v.to_bits()).collect()
}

fn floats(values: &[u32]) -> Vec<f32> {
    values.iter().map(|v| f32::from_bits(*v)).collect()
}

fn dot(a: &[f32], b: &[f32]) -> f32 {
    a.iter().zip(b.iter()).map(|(x, y)| x * y).sum()
}

fn normalize(v: &[f32]) -> Vec<f32> {
    let norm: f32 = v.iter().map(|x| x * x).sum::<f32>().sqrt();
    if norm > f32::EPSILON {
        v.iter().map(|x| x / norm).collect()
    } else {
        v.to_vec()
    }
}

/// The caller-side scoring step of a brute-force cosine search.
fn cosine_scores(points: &[Point], query: &[f32]) -> Vec<u32> {
    let q = normalize(query);
    points
        .iter()
        .map(|p| {
            let v = normalize(&floats(p.vector.as_slice()));
            dot(&q, &v).to_bits()
        })
        .collect()
}

#[test]
fn test_basic_cosine_search() {
    // Collection of ids 1..9 with vectors [i, i, i]; query [5, 5, 5].
    let mut collection = Collection::new(CollectionConfig {
        name: "c1".to_string(),
        vector_dim: 3,
        distance: Distance::Cosine,
        use_hnsw: true,
        enable_bm25: false,
    });
    for i in 1..=9u64 {
        let v = i as f32;
        let point = Point::new(PointId::Integer(i), Vector::new(bits(&[v, v, v])), None);
        collection.upsert(point).unwrap();
    }
    let candidates = collection.filtered_points::<PayloadFilter>(None);
    assert_eq!(candidates.len(), 9);
    let scores = cosine_scores(&candidates, &[5.0, 5.0, 5.0]);
    let picked = top_k_desc(&scores, 3);
    assert_eq!(picked.len(), 3);
    for &idx in picked.iter() {
        let sim = f32::from_bits(scores[idx]);
        assert!((sim - 1.0).abs() < 1e-6);
    }
}

#[test]
fn test_payload_filter_search() {
    // Ids 0..19, category "A" on the even ones; filtering keeps exactly
    // the ten "A" points.
    let mut collection = Collection::new(CollectionConfig {
        name: "c".to_string(),
        vector_dim: 3,
        distance: Distance::Cosine,
        use_hnsw: false,
        enable_bm25: false,
    });
    for i in 0..20u64 {
        let v = i as f32;
        let category = if i % 2 == 0 { "A" } else { "B" };
        let payload = JsonValue::Object(vec![(
            "category".to_string(),
            JsonValue::Str(category.to_string()),
        )]);
        let point =
            Point::new(PointId::Integer(i), Vector::new(bits(&[v, v, v])), Some(payload));
        collection.upsert(point).unwrap();
    }
    let filter = PayloadFilter::new(FilterCondition::Equals {
        field: "category".to_string(),
        value: JsonValue::Str("A".to_string()),
    });
    let candidates = collection.filtered_points(Some(&filter));
    assert_eq!(candidates.len(), 10);
    for p in candidates.iter() {
        match p.payload.as_ref().unwrap().get("category") {
            Some(JsonValue::Str(s)) => assert_eq!(s, "A"),
            _ => panic!("category missing"),
        }
    }
    let scores = cosine_scores(&candidates, &[10.0, 10.0, 10.0]);
    let picked = top_k_desc(&scores, 10);
    assert_eq!(picked.len(), 10);
}

#[test]
fn test_bm25_search() {
    // Ten documents about one topic; five results, scores non-negative.
    let mut collection = Collection::new(CollectionConfig {
        name: "docs".to_string(),
        vector_dim: 3,
        distance: Distance::Cosine,
        use_hnsw: false,
        enable_bm25: true,
    });
    for i in 0..10u64 {
        let text = format!("document about topic {}", i);
        let payload = JsonValue::Object(vec![("text".to_string(), JsonValue::Str(text))]);
        let point = Point::new(
            PointId::String(format!("doc{}", i)),
            Vector::new(bits(&[0.1, 0.2, 0.3])),
            Some(payload),
        );
        collection.upsert(point).unwrap();
    }
    let index = collection.bm25().expect("bm25 enabled");
    assert_eq!(index.len(), 10);

    // Caller-side Okapi weighting over the verified index state.
    let query_terms = tokenize("topic");
    assert_eq!(query_terms.len(), 1);
    let total = index.total_docs() as f32;
    let lengths = index.doc_lengths_entries();
    let avgdl: f32 = lengths.iter().map(|(_, l)| *l as f32).sum::<f32>() / total;
    let mut scored: Vec<(String, f32)> = Vec::new();
    for term in query_terms.iter() {
        if let Some(postings) = index.postings_of(term.as_str()) {
            let df = index.term_df(term.as_str()).unwrap_or(0) as f32;
            let idf = ((total - df + 0.5) / (df + 0.5)).ln().max(0.0);
            for (doc, tf) in postings.iter() {
                let dl = index.doc_length(doc.as_str()).unwrap_or(0) as f32;
                let tf = *tf as f32;
                let score = idf * (tf * 2.5) / (tf + 1.5 * (1.0 - 0.75 + 0.75 * dl / avgdl));
                scored.push((doc.clone(), score));
            }
        }
    }
    assert_eq!(scored.len(), 10);
    scored.sort_by(|a, b| b.1.partial_cmp(&a.1).unwrap_or(std::cmp::Ordering::Equal));
    let top: Vec<&(String, f32)> = scored.iter().take(5).collect();
    assert_eq!(top.len(), 5);
    for (doc, score) in top.iter() {
        assert!(*score >= 0.0, "score of {} negative", doc);
    }
    let mut names: Vec<String> = top.iter().map(|(d, _)| d.clone()).collect();
    names.sort();
    names.dedup();
    assert_eq!(names.len(), 5);
}

#[test]
fn test_bm25_monotonicity() {
    // More copies of the query term in one document never score it below
    // a sibling left unchanged.
    let mut collection = Collection::new(CollectionConfig {
        name: "docs".to_string(),
        vector_dim: 0,
        distance: Distance::Cosine,
        use_hnsw: false,
        enable_bm25: true,
    });
    let mk = |id: &str, text: &str| {
        Point::new(
            PointId::String(id.to_string()),
            Vector::new(vec![0]),
            Some(JsonValue::Object(vec![(
                "text".to_string(),
                JsonValue::Str(text.to_string()),
            )])),
        )
    };
    collection.upsert(mk("one", "topic filler words here")).unwrap();
    collection.upsert(mk("two", "topic topic filler words")).unwrap();
    let index = collection.bm25().unwrap();
    let tf_one = {
        let postings = index.postings_of("topic").unwrap();
        postings.iter().find(|(d, _)| d == "one").unwrap().1
    };
    let tf_two = {
        let postings = index.postings_of("topic").unwrap();
        postings.iter().find(|(d, _)| d == "two").unwrap().1
    };
    assert_eq!(tf_one, 1);
    assert_eq!(tf_two, 2);
    // Same document length and document frequency, so the score is
    // monotone in the term frequency.
    let score = |tf: f32, dl: f32, avgdl: f32| (tf * 2.5) / (tf + 1.5 * (0.25 + 0.75 * dl / avgdl));
    assert!(score(2.0, 4.0, 4.0) >= score(1.0, 4.0, 4.0));
}

#[test]
fn test_hnsw_insert_search() {
    let mut index = HnswIndex::new(16, 3);
    for i in 0..10u64 {
        let v = i as f32;
        let vec_bits = bits(&normalize(&[v.max(0.1), v.max(0.1), v.max(0.1)]));
        let point = Point::new(PointId::Integer(i), Vector::new(vec_bits), None);
        let dists = query_dists(&index, &floats(point.vector.as_slice()));
        let (overflowed, layer) = index.insert(point, &dists);
        assert!(overflowed.is_empty());
        assert!(layer < 3);
    }
    assert_eq!(index.len(), 10);

    let query = normalize(&[5.0, 5.0, 5.0]);
    let dists = query_dists(&index, &query);
    let results = index.search(&dists, 3, None);
    assert!(!results.is_empty());
    assert!(results.len() <= 3);
    // Ascending by graph distance, so descending by similarity.
    for w in results.windows(2) {
        assert!(f32::from_bits(w[0].1) <= f32::from_bits(w[1].1));
    }
    for (idx, d) in results.iter() {
        let sim = 1.0 - f32::from_bits(*d);
        assert!((-1.0 - 1e-5..=1.0 + 1e-5).contains(&sim));
        assert!(*idx < index.len());
    }
}

/// Caller-side distance table: graph distance from the query to each node.
fn query_dists(index: &HnswIndex, query: &[f32]) -> Vec<u32> {
    let mut out = Vec::new();
    for i in 0..index.len() {
        let v = floats(&index.vector_of(i));
        out.push((1.0 - dot(query, &v)).to_bits());
    }
    out
}

#[test]
fn test_hnsw_search_returns_k() {
    // On a graph with at least k points the search returns exactly k.
    let mut index = HnswIndex::new(16, 3);
    for i in 0..30u64 {
        let angle = i as f32 / 30.0;
        let v = normalize(&[angle.cos(), angle.sin(), 0.5]);
        let point = Point::new(PointId::Integer(i), Vector::new(bits(&v)), None);
        let dists = query_dists(&index, &v);
        index.insert(point, &dists);
    }
    let query = normalize(&[1.0, 0.0, 0.5]);
    let dists = query_dists(&index, &query);
    let results = index.search(&dists, 5, None);
    assert_eq!(results.len(), 5);
    let mut seen: Vec<usize> = results.iter().map(|(i, _)| *i).collect();
    seen.sort();
    seen.dedup();
    assert_eq!(seen.len(), 5);
}

#[test]
fn test_hnsw_remove() {
    let mut index = HnswIndex::new(16, 3);
    for i in 0..4u64 {
        let v = normalize(&[1.0 + i as f32, 2.0, 3.0]);
        let point = Point::new(PointId::Integer(i), Vector::new(bits(&v)), None);
        let dists = query_dists(&index, &v);
        index.insert(point, &dists);
    }
    assert!(index.remove("2"));
    assert!(!index.remove("2"));
    assert_eq!(index.len(), 3);
    assert!(index.index_of("2").is_none());
    assert!(index.index_of("0").is_some());
}

#[test]
fn test_top_k_ordering() {
    let scores = bits(&[1.0, 3.0, 2.0, -1.0]);
    let picked = top_k_desc(&scores, 3);
    assert_eq!(picked, vec![1, 2, 0]);
    let all = top_k_desc(&scores, 10);
    assert_eq!(all, vec![1, 2, 0, 3]);
}

#[test]
fn test_max_sim_identity() {
    // A multivector scored against itself (dot variant) sums the squared
    // norms of its rows: [[1,0],[0,1]] scores exactly 2.0.
    let m = vectx::point::MultiVector::new(vec![bits(&[1.0, 0.0]), bits(&[0.0, 1.0])]).unwrap();
    let rows: Vec<Vec<f32>> = m.vectors().iter().map(|r| floats(r)).collect();
    let mut total = 0.0f32;
    for q in rows.iter() {
        let mut best = f32::NEG_INFINITY;
        for d in rows.iter() {
            let s = dot(q, d);
            if s > best {
                best = s;
            }
        }
        total += best;
    }
    assert_eq!(total, 2.0);
}

#[test]
fn test_hnsw_backedge_pruning() {
    // A tiny connection bound makes back-edges overflow quickly; pruning
    // at the insert layer keeps the graph searchable.
    let mut index = HnswIndex::new(2, 3);
    for i in 0..12u64 {
        let v = normalize(&[1.0, 1.0 + (i as f32) * 1e-3, 1.0]);
        let point = Point::new(PointId::Integer(i), Vector::new(bits(&v)), None);
        let dists = query_dists(&index, &v);
        let (overflowed, layer) = index.insert(point, &dists);
        for nb in overflowed {
            let origin = floats(&index.vector_of(nb));
            let mut conn_dists = Vec::new();
            for j in 0..index.len() {
                let w = floats(&index.vector_of(j));
                let l2 = origin
                    .iter()
                    .zip(w.iter())
                    .map(|(a, b)| (a - b) * (a - b))
                    .sum::<f32>()
                    .sqrt();
                conn_dists.push(l2.to_bits());
            }
            index.prune_neighbor(nb, layer, &conn_dists);
        }
    }
    assert_eq!(index.len(), 12);
    let query = normalize(&[1.0, 1.0, 1.0]);
    let dists = query_dists(&index, &query);
    let results = index.search(&dists, 4, None);
    assert!(!results.is_empty());
    assert!(results.len() <= 4);
    let mut seen: Vec<usize> = results.iter().map(|(i, _)| *i).collect();
    seen.sort();
    seen.dedup();
    assert_eq!(seen.len(), results.len());
}
