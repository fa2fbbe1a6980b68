use vectx::collection::{
    Collection, CollectionConfig, Distance, PayloadIndexType, RebuildAction, SearchRoute,
};
use vectx::error::Error;
use vectx::json::JsonValue;
use vectx::point::{MultiVector, Point, PointId, Vector};

fn bits(values: &[f32]) -> Vec<u32> {
    values.iter().map(|v| v.to_bits()).collect()
}

fn config(name: &str, dim: usize, use_hnsw: bool, enable_bm25: bool) -> CollectionConfig {
    CollectionConfig {
        name: name.to_string(),
        vector_dim: dim,
        distance: Distance::Cosine,
        use_hnsw,
        enable_bm25,
    }
}

#[test]
fn test_collection_creation() {
    let collection = Collection::new(config("test", 3, false, false));
    assert_eq!(collection.count(), 0);
    assert!(collection.is_empty());
    assert_eq!(collection.name(), "test");
    assert_eq!(collection.vector_dim(), 3);
    assert_eq!(collection.distance(), Distance::Cosine);
    assert!(!collection.use_hnsw());
    assert!(!collection.enable_bm25());
}

#[test]
fn test_point_insertion() {
    let mut collection = Collection::new(config("c", 3, false, false));
    let point = Point::new(PointId::Integer(1), Vector::new(bits(&[1.0, 2.0, 3.0])), None);
    assert!(collection.upsert(point).is_ok());
    assert_eq!(collection.count(), 1);
    let got = collection.get("1").expect("point should be stored");
    assert_eq!(got.version, 0);
    assert_eq!(got.vector.as_slice(), bits(&[1.0, 2.0, 3.0]).as_slice());
}

#[test]
fn test_upsert_version_counting() {
    // Each overwrite of the same id bumps the version by one.
    let mut collection = Collection::new(config("c", 3, false, false));
    for round in 0..5u64 {
        let point = Point::new(PointId::Integer(7), Vector::new(bits(&[1.0, 0.0, 0.0])), None);
        collection.upsert(point).unwrap();
        let got = collection.get("7").unwrap();
        assert_eq!(got.version, round);
    }
    assert_eq!(collection.count(), 1);
}

#[test]
fn test_upsert_twice_then_delete_leaves_empty() {
    let mut collection = Collection::new(config("c", 2, false, false));
    let p1 = Point::new(PointId::String("a".to_string()), Vector::new(bits(&[1.0, 0.0])), None);
    let p2 = Point::new(PointId::String("a".to_string()), Vector::new(bits(&[0.0, 1.0])), None);
    collection.upsert(p1).unwrap();
    collection.upsert(p2).unwrap();
    assert_eq!(collection.count(), 1);
    assert_eq!(collection.delete("a"), Ok(true));
    assert_eq!(collection.count(), 0);
}

#[test]
fn test_dimension_validation() {
    // A 127-component vector is rejected by a 128-dimensional collection.
    let mut collection = Collection::new(config("c", 128, false, false));
    let short: Vec<f32> = vec![0.5; 127];
    let point = Point::new(PointId::Integer(0), Vector::new(bits(&short)), None);
    match collection.upsert(point) {
        Err(Error::InvalidDimension { expected, actual }) => {
            assert_eq!(expected, 128);
            assert_eq!(actual, 127);
        },
        other => panic!("expected a dimension error, got {:?}", other.is_ok()),
    }
    assert_eq!(collection.count(), 0);
}

#[test]
fn test_batch_upsert() {
    let mut collection = Collection::new(config("c", 2, false, false));
    let mut points = Vec::new();
    for i in 0..5u64 {
        points.push(Point::new(PointId::Integer(i), Vector::new(bits(&[i as f32, 1.0])), None));
    }
    let action = collection.batch_upsert(points).unwrap();
    assert_eq!(action, RebuildAction::Unneeded);
    assert_eq!(collection.count(), 5);
    assert!(!collection.batch_mode());
}

#[test]
fn test_search_route_small_collection() {
    let mut collection = Collection::new(config("c", 2, true, false));
    for i in 0..10u64 {
        let point = Point::new(PointId::Integer(i), Vector::new(bits(&[i as f32, 1.0])), None);
        collection.upsert(point).unwrap();
    }
    assert_eq!(collection.search_route(), SearchRoute::BruteForce);
}

#[test]
fn test_payload_overwrite_and_clear() {
    let mut collection = Collection::new(config("c", 2, false, false));
    let point = Point::new(PointId::Integer(1), Vector::new(bits(&[1.0, 2.0])), None);
    collection.upsert(point).unwrap();

    let payload = JsonValue::Object(vec![("k".to_string(), JsonValue::NumU(9))]);
    assert_eq!(collection.overwrite_payload("1", payload), Ok(true));
    let got = collection.get("1").unwrap();
    match got.payload.as_ref().unwrap().get("k") {
        Some(JsonValue::NumU(9)) => {},
        other => panic!("unexpected payload field: {:?}", other.is_some()),
    }

    assert_eq!(collection.clear_payload("1"), Ok(true));
    assert!(collection.get("1").unwrap().payload.is_none());
    assert_eq!(collection.clear_payload("missing"), Ok(false));
}

#[test]
fn test_payload_merge_and_delete_keys() {
    let mut collection = Collection::new(config("c", 2, false, false));
    let initial = JsonValue::Object(vec![
        ("a".to_string(), JsonValue::NumU(1)),
        ("b".to_string(), JsonValue::NumU(2)),
    ]);
    let point =
        Point::new(PointId::Integer(1), Vector::new(bits(&[1.0, 2.0])), Some(initial));
    collection.upsert(point).unwrap();

    let update = JsonValue::Object(vec![
        ("b".to_string(), JsonValue::NumU(20)),
        ("c".to_string(), JsonValue::NumU(3)),
    ]);
    assert_eq!(collection.set_payload("1", update), Ok(true));
    let got = collection.get("1").unwrap();
    let payload = got.payload.as_ref().unwrap();
    assert!(matches!(payload.get("a"), Some(JsonValue::NumU(1))));
    assert!(matches!(payload.get("b"), Some(JsonValue::NumU(20))));
    assert!(matches!(payload.get("c"), Some(JsonValue::NumU(3))));

    assert_eq!(collection.delete_payload_keys("1", &vec!["a".to_string()]), Ok(true));
    let got = collection.get("1").unwrap();
    let payload = got.payload.as_ref().unwrap();
    assert!(payload.get("a").is_none());
    assert!(matches!(payload.get("b"), Some(JsonValue::NumU(20))));
}

#[test]
fn test_update_vector() {
    let mut collection = Collection::new(config("c", 2, false, false));
    let point = Point::new(PointId::Integer(1), Vector::new(bits(&[1.0, 2.0])), None);
    collection.upsert(point).unwrap();
    assert_eq!(collection.update_vector("1", Vector::new(bits(&[9.0, 8.0]))), Ok(true));
    let got = collection.get("1").unwrap();
    assert_eq!(got.vector.as_slice(), bits(&[9.0, 8.0]).as_slice());
    assert_eq!(collection.update_vector("2", Vector::new(bits(&[0.0, 0.0]))), Ok(false));
}

#[test]
fn test_payload_index_bookkeeping() {
    let mut collection = Collection::new(config("c", 2, false, false));
    assert!(!collection.is_field_indexed("city"));
    assert_eq!(collection.create_payload_index("city", PayloadIndexType::Keyword), Ok(true));
    assert!(collection.is_field_indexed("city"));
    assert_eq!(collection.delete_payload_index("city"), Ok(true));
    assert_eq!(collection.delete_payload_index("city"), Ok(false));
}

#[test]
fn test_multivector_creation() {
    let mv = MultiVector::new(vec![bits(&[1.0, 0.0, 0.0]), bits(&[0.0, 1.0, 0.0])]).unwrap();
    assert_eq!(mv.dim(), 3);
    assert_eq!(mv.len(), 2);
}

#[test]
fn test_multivector_rejects_bad_shapes() {
    assert!(MultiVector::new(Vec::new()).is_err());
    assert!(MultiVector::new(vec![Vec::new()]).is_err());
    assert!(MultiVector::new(vec![bits(&[1.0]), bits(&[1.0, 2.0])]).is_err());
    let single = MultiVector::from_single(bits(&[1.0, 2.0])).unwrap();
    assert_eq!(single.len(), 1);
    assert_eq!(single.dim(), 2);
}

#[test]
fn test_point_id_canonical_text() {
    assert_eq!(PointId::Integer(42).to_string(), "42");
    assert_eq!(PointId::String("abc".to_string()).to_string(), "abc");
    assert_eq!(
        PointId::Uuid("123e4567-e89b-12d3-a456-426614174000".to_string()).to_string(),
        "123e4567-e89b-12d3-a456-426614174000"
    );
}

#[test]
fn test_rebuild_from_points_round_trip() {
    // Rebuilding a collection from its own point dump preserves every id,
    // vector and payload (versions restart, as restoring through upsert
    // does).
    let mut source = Collection::new(config("persistent", 3, false, false));
    for i in 0..10u64 {
        let v = i as f32;
        let payload = JsonValue::Object(vec![("n".to_string(), JsonValue::NumU(i))]);
        let point =
            Point::new(PointId::Integer(i), Vector::new(bits(&[v, v, v])), Some(payload));
        source.upsert(point).unwrap();
    }
    let dumped = source.get_all_points();
    assert_eq!(dumped.len(), 10);

    let mut restored = Collection::new(config("persistent", 3, false, false));
    for p in dumped {
        restored.upsert(p).unwrap();
    }
    assert_eq!(restored.count(), 10);
    for i in 0..10u64 {
        let id = format!("{}", i);
        let original_point = source.get(&id).unwrap();
        let restored_point = restored.get(&id).unwrap();
        assert_eq!(restored_point.vector.as_slice(), original_point.vector.as_slice());
        assert!(restored_point
            .payload
            .as_ref()
            .unwrap()
            .json_eq(original_point.payload.as_ref().unwrap()));
        assert_eq!(restored_point.version, 0);
    }
}
