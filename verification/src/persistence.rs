//! Whole-process dump bookkeeping.
//!
//! The dump itself is written, renamed and re-read by the caller (the
//! fork-based save included); decided here are the file names, the
//! single-flight background-save latch, the save timestamps, and the
//! shapes the dump serialises.

use vstd::prelude::*;

verus! {

use vstd::string::StringExecFns;

/// A collection's configuration as the dump carries it.
#[derive(Debug)]
pub struct CollectionConfigSnapshot {
    pub vector_dim: usize,
    pub distance: String,
    pub use_hnsw: bool,
    pub enable_bm25: bool,
}

/// A point as the dump carries it: canonical id text and the vector's
/// component bit patterns.
#[derive(Debug)]
pub struct PointSnapshot {
    pub id: String,
    pub vector: Vec<u32>,
    pub payload: Option<crate::json::JsonValue>,
}

/// One collection in the dump.
#[derive(Debug)]
pub struct CollectionSnapshot {
    pub name: String,
    pub config: CollectionConfigSnapshot,
    pub points: Vec<PointSnapshot>,
}

/// The whole dump: every collection and the moment it was taken.
#[derive(Debug)]
pub struct SnapshotData {
    pub collections: Vec<CollectionSnapshot>,
    pub timestamp: u64,
}

/// The dump bookkeeping: paths, the background-save latch, and the last
/// successful save time.
pub struct ForkBasedPersistence {
    data_dir: String,
    rdb_filename: String,
    bgsave_in_progress: bool,
    last_save: u64,
}

impl ForkBasedPersistence {
    /// The dump file's path.
    pub closed spec fn spec_rdb_filename(&self) -> Seq<char> {
        self.rdb_filename@
    }

    /// The data directory.
    pub closed spec fn spec_data_dir(&self) -> Seq<char> {
        self.data_dir@
    }

    /// Whether a background save is in flight.
    pub closed spec fn spec_bgsave_in_progress(&self) -> bool {
        self.bgsave_in_progress
    }

    /// The unix second of the last successful save.
    pub closed spec fn spec_last_save_time(&self) -> u64 {
        self.last_save
    }

    /// Bookkeeping for a data directory: the dump lives at `dump.rdb`
    /// inside it.
    pub fn new(data_dir: &str) -> (r: ForkBasedPersistence)
        ensures
            r.spec_data_dir() == data_dir@,
            r.spec_rdb_filename() == data_dir@ + "/dump.rdb"@,
            !r.spec_bgsave_in_progress(),
            r.spec_last_save_time() == 0,
    {
        let mut rdb_filename = data_dir.to_owned();
        rdb_filename.append("/dump.rdb");
        ForkBasedPersistence {
            data_dir: data_dir.to_owned(),
            rdb_filename,
            bgsave_in_progress: false,
            last_save: 0,
        }
    }

    /// The dump file's path.
    pub fn rdb_path<'a>(&'a self) -> (r: &'a str)
        ensures
            r@ == self.spec_rdb_filename(),
    {
        self.rdb_filename.as_str()
    }

    /// Whether a background save is in flight.
    pub fn is_bgsave_in_progress(&self) -> (r: bool)
        ensures
            r == self.spec_bgsave_in_progress(),
    {
        self.bgsave_in_progress
    }

    /// The unix second of the last successful save.
    pub fn last_save_time(&self) -> (r: u64)
        ensures
            r == self.spec_last_save_time(),
    {
        self.last_save
    }

    /// Try to take the single-flight latch: succeeds exactly when no
    /// background save was in flight, which the caller then starts.
    pub fn begin_bgsave(&mut self) -> (r: bool)
        ensures
            r == !old(self).spec_bgsave_in_progress(),
            final(self).spec_bgsave_in_progress(),
            final(self).spec_last_save_time() == old(self).spec_last_save_time(),
            final(self).spec_rdb_filename() == old(self).spec_rdb_filename(),
            final(self).spec_data_dir() == old(self).spec_data_dir(),
    {
        if self.bgsave_in_progress {
            false
        } else {
            self.bgsave_in_progress = true;
            true
        }
    }

    /// Release the latch when the save's child finished; a success records
    /// its moment.
    pub fn finish_bgsave(&mut self, success: bool, now: u64)
        ensures
            !final(self).spec_bgsave_in_progress(),
            final(self).spec_last_save_time() == (if success {
                now
            } else {
                old(self).spec_last_save_time()
            }),
            final(self).spec_rdb_filename() == old(self).spec_rdb_filename(),
            final(self).spec_data_dir() == old(self).spec_data_dir(),
    {
        self.bgsave_in_progress = false;
        if success {
            self.last_save = now;
        }
    }
}

} // verus!
