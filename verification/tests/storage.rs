use vectx::background::{BackgroundJobSystem, BackgroundJobType, BackgroundWorker};
use vectx::collection::{CollectionConfig, Distance};
use vectx::error::Error;
use vectx::manager::StorageManager;
use vectx::persistence::ForkBasedPersistence;
use vectx::json::JsonValue;
use vectx::snapshot::{
    classify_snapshot_bytes, describe_snapshot, generate_snapshot_name, gzip_compress,
    gzip_decompress, has_snapshot_suffix, imported_collection_config, quarantine_name,
    recovery_action, sha256_hex, tar_entry_with_suffix, version_marker, RecoveryAction,
    SnapshotFraming, SnapshotManager,
};

fn config(name: &str) -> CollectionConfig {
    CollectionConfig {
        name: name.to_string(),
        vector_dim: 3,
        distance: Distance::Cosine,
        use_hnsw: false,
        enable_bm25: false,
    }
}

#[test]
fn test_storage_manager() {
    let mut manager = StorageManager::new();
    assert!(manager.create_collection(config("a")).is_ok());
    assert!(manager.collection_exists("a"));
    assert_eq!(manager.collection_count(), 1);
    match manager.create_collection(config("a")) {
        Err(Error::CollectionExists(name)) => assert_eq!(name, "a"),
        _ => panic!("duplicate name must be refused"),
    }
    let names = manager.list_collections();
    assert_eq!(names, vec!["a".to_string()]);
    assert_eq!(manager.delete_collection("a"), Ok(true));
    assert_eq!(manager.delete_collection("a"), Ok(false));
}

#[test]
fn test_take_and_put_collection() {
    let mut manager = StorageManager::new();
    manager.create_collection(config("c")).unwrap();
    let mut taken = manager.take_collection("c").expect("present");
    assert!(!manager.collection_exists("c"));
    let point = vectx::point::Point::new(
        vectx::point::PointId::Integer(1),
        vectx::point::Vector::new(vec![0; 3]),
        None,
    );
    taken.upsert(point).unwrap();
    manager.put_collection("c".to_string(), taken);
    assert_eq!(manager.get_collection("c").unwrap().count(), 1);
}

#[test]
fn test_aliases() {
    let mut manager = StorageManager::new();
    manager.create_collection(config("real")).unwrap();
    match manager.create_alias("nick", "missing") {
        Err(Error::CollectionNotFound(name)) => assert_eq!(name, "missing"),
        _ => panic!("alias to a missing collection must be refused"),
    }
    assert_eq!(manager.create_alias("nick", "real"), Ok(true));
    assert_eq!(manager.resolve_name("nick"), Some("real".to_string()));
    assert_eq!(manager.resolve_name("real"), Some("real".to_string()));
    assert_eq!(manager.resolve_name("other"), None);
    assert_eq!(manager.list_aliases(), vec![("nick".to_string(), "real".to_string())]);
    assert_eq!(manager.list_collection_aliases("real"), vec!["nick".to_string()]);
    assert_eq!(manager.rename_alias("nick", "alias2"), Ok(true));
    assert_eq!(manager.resolve_name("alias2"), Some("real".to_string()));
    assert_eq!(manager.delete_alias("alias2"), Ok(true));
    assert_eq!(manager.delete_alias("alias2"), Ok(false));
}

#[test]
fn test_recovery_decisions() {
    assert_eq!(recovery_action(false, false, 0), RecoveryAction::StartEmpty);
    assert_eq!(recovery_action(true, false, 100), RecoveryAction::QuarantineIncomplete);
    // A ten-byte dump is quarantined as too small.
    assert_eq!(recovery_action(true, true, 10), RecoveryAction::QuarantineTooSmall);
    assert_eq!(recovery_action(true, true, 16), RecoveryAction::TryDecode);
    assert_eq!(quarantine_name("too_small", 7), "dump.too_small.7.bak");
    assert_eq!(version_marker(1234), "distx:0.1.0:1234");
}

#[test]
fn test_persistence_latch() {
    let mut p = ForkBasedPersistence::new("/tmp/data");
    assert_eq!(p.rdb_path(), "/tmp/data/dump.rdb");
    assert!(!p.is_bgsave_in_progress());
    assert!(p.begin_bgsave());
    assert!(!p.begin_bgsave());
    p.finish_bgsave(true, 777);
    assert!(!p.is_bgsave_in_progress());
    assert_eq!(p.last_save_time(), 777);
    assert!(p.begin_bgsave());
    p.finish_bgsave(false, 999);
    assert_eq!(p.last_save_time(), 777);
}

#[test]
fn test_snapshot_paths_and_names() {
    let manager = SnapshotManager::new("/data/snapshots");
    assert_eq!(manager.collection_snapshot_dir("c1"), "/data/snapshots/c1");
    assert_eq!(manager.get_snapshot_path("c1", "c1-x.snapshot"), "/data/snapshots/c1/c1-x.snapshot");
    assert_eq!(generate_snapshot_name("c1", "2024-01-02-03-04-05"), "c1-2024-01-02-03-04-05.snapshot");
    assert!(has_snapshot_suffix("c1-x.snapshot"));
    assert!(!has_snapshot_suffix("c1-x.tar"));
    assert!(!has_snapshot_suffix("short"));
}

#[test]
fn test_snapshot_framing() {
    let gz = vec![0x1f, 0x8b, 0x08, 0x00];
    assert_eq!(classify_snapshot_bytes(&gz), SnapshotFraming::Gzip);
    let mut tar = vec![0u8; 600];
    tar[257] = b'u';
    tar[258] = b's';
    tar[259] = b't';
    tar[260] = b'a';
    tar[261] = b'r';
    assert_eq!(classify_snapshot_bytes(&tar), SnapshotFraming::Tar);
    assert_eq!(classify_snapshot_bytes(&vec![1, 2, 3]), SnapshotFraming::Plain);
}

#[test]
fn test_gzip_round_trip_and_checksum() {
    let data: Vec<u8> = (0..200u16).map(|i| (i % 251) as u8).collect();
    let packed = gzip_compress(&data);
    assert_eq!(classify_snapshot_bytes(&packed), SnapshotFraming::Gzip);
    let unpacked = gzip_decompress(&packed).expect("valid gzip");
    assert_eq!(unpacked, data);
    assert!(gzip_decompress(&vec![1, 2, 3]).is_none());

    let abc = vec![b'a', b'b', b'c'];
    assert_eq!(
        sha256_hex(&abc),
        "ba7816bf8f01cfea414140de5dae2223b00361a396177a9cb410ff61f20015ad"
    );
    let described = describe_snapshot("s.snapshot".to_string(), &abc, None);
    assert_eq!(described.size, 3);
    assert_eq!(
        described.checksum.as_deref(),
        Some("ba7816bf8f01cfea414140de5dae2223b00361a396177a9cb410ff61f20015ad")
    );
}

#[test]
fn test_background_queues() {
    let mut worker = BackgroundWorker::new();
    assert_eq!(worker.pending_jobs(), 0);
    worker.submit(11);
    worker.submit(22);
    assert_eq!(worker.pending_jobs(), 2);
    assert_eq!(worker.next_job(), Some(11));
    assert_eq!(worker.next_job(), Some(22));
    assert_eq!(worker.next_job(), None);
    // Shutdown stops the waiting, not the draining: a ticket queued
    // before shutdown is still handed out.
    worker.submit(33);
    worker.shutdown();
    assert_eq!(worker.next_job(), Some(33));
    assert_eq!(worker.next_job(), None);

    let mut system = BackgroundJobSystem::new();
    system.submit(BackgroundJobType::HnswRebuild, 1);
    system.submit(BackgroundJobType::HnswRebuild, 2);
    system.submit(BackgroundJobType::LazyFree, 9);
    assert_eq!(system.pending_jobs(BackgroundJobType::HnswRebuild), 2);
    assert_eq!(system.pending_jobs(BackgroundJobType::LazyFree), 1);
    assert_eq!(system.jobs_processed(BackgroundJobType::HnswRebuild), 2);
    assert_eq!(system.next_job(BackgroundJobType::HnswRebuild), Some(1));
    assert_eq!(system.next_job(BackgroundJobType::LazyFree), Some(9));
}

#[test]
fn test_batch_rebuild_policy() {
    let mut collection = vectx::collection::Collection::new(CollectionConfig {
        name: "c".to_string(),
        vector_dim: 2,
        distance: Distance::Cosine,
        use_hnsw: true,
        enable_bm25: false,
    });
    collection.start_batch();
    assert!(collection.batch_mode());
    let action = collection.end_batch().unwrap();
    // Small collections rebuild lazily, not in the background.
    assert_eq!(action, vectx::collection::RebuildAction::Unneeded);
    assert!(!collection.batch_mode());
}

#[test]
fn test_imported_collection_config() {
    let direct = JsonValue::Object(vec![(
        "params".to_string(),
        JsonValue::Object(vec![(
            "vectors".to_string(),
            JsonValue::Object(vec![
                ("size".to_string(), JsonValue::NumU(256)),
                ("distance".to_string(), JsonValue::Str("Dot".to_string())),
            ]),
        )]),
    )]);
    assert_eq!(imported_collection_config(&direct), (256, "Dot".to_string()));

    let named = JsonValue::Object(vec![(
        "vectors".to_string(),
        JsonValue::Object(vec![(
            "dense".to_string(),
            JsonValue::Object(vec![
                ("size".to_string(), JsonValue::NumU(64)),
                ("distance".to_string(), JsonValue::Str("Euclidean".to_string())),
            ]),
        )]),
    )]);
    assert_eq!(imported_collection_config(&named), (64, "Euclidean".to_string()));

    let bare = JsonValue::Object(vec![("other".to_string(), JsonValue::Null)]);
    assert_eq!(imported_collection_config(&bare), (128, "Cosine".to_string()));
}

#[test]
fn test_tar_entry_scan() {
    // A minimal two-entry archive: a data file, then the configuration.
    let mut archive: Vec<u8> = Vec::new();
    let mut push_entry = |name: &str, body: &[u8]| {
        let mut header = vec![0u8; 512];
        header[..name.len()].copy_from_slice(name.as_bytes());
        let size = format!("{:011o}\0", body.len());
        header[124..124 + 12].copy_from_slice(size.as_bytes());
        header[257..262].copy_from_slice(b"ustar");
        archive.extend_from_slice(&header);
        archive.extend_from_slice(body);
        let pad = (512 - body.len() % 512) % 512;
        archive.extend(std::iter::repeat(0u8).take(pad));
    };
    push_entry("points.bin", b"irrelevant");
    push_entry("collection/config.json", b"{\"params\":{}}");
    archive.extend(std::iter::repeat(0u8).take(1024));

    let suffix = b"config.json".to_vec();
    let body = tar_entry_with_suffix(&archive, 0, &suffix).expect("entry present");
    assert_eq!(body, b"{\"params\":{}}".to_vec());

    let missing = b"absent.txt".to_vec();
    assert!(tar_entry_with_suffix(&archive, 0, &missing).is_none());
}
