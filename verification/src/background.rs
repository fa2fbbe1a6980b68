//! The background job system's bookkeeping: typed FIFO queues.
//!
//! Worker threads, waiting and waking live with the caller; what each
//! queue holds, in what order jobs leave it, and how many were handed out
//! is exact.  Jobs are carried as tickets (the caller maps a ticket to the
//! captured work).

use vstd::prelude::*;

verus! {

/// The job families, one queue and worker each.
#[derive(Debug, Clone, Copy, PartialEq, Eq, Structural)]
pub enum BackgroundJobType {
    /// Rebuild a collection's graph index from a point snapshot.
    HnswRebuild,
    /// Free retired memory off the hot path.
    LazyFree,
}

/// What a queued job declares about itself; the work it captures runs
/// with the caller.
pub trait BackgroundJob {
    /// Which family's queue carries the job.
    fn job_type(&self) -> BackgroundJobType;
}

/// One job queue: a FIFO of tickets, a running flag, and a counter of
/// tickets accepted.
pub struct BackgroundWorker {
    jobs: Vec<u64>,
    running: bool,
    accepted: u64,
}

impl BackgroundWorker {
    /// The queued tickets, oldest first.
    pub closed spec fn spec_jobs(&self) -> Seq<u64> {
        self.jobs@
    }

    /// Whether the queue still accepts and hands out work.
    pub closed spec fn spec_running(&self) -> bool {
        self.running
    }

    /// How many tickets were ever accepted.
    pub closed spec fn spec_accepted(&self) -> u64 {
        self.accepted
    }

    /// A fresh, running, empty queue.
    pub fn new() -> (r: BackgroundWorker)
        ensures
            r.spec_jobs().len() == 0,
            r.spec_running(),
            r.spec_accepted() == 0,
    {
        BackgroundWorker { jobs: Vec::new(), running: true, accepted: 0 }
    }

    /// Accept a ticket at the back of the queue.
    pub fn submit(&mut self, ticket: u64)
        ensures
            final(self).spec_jobs() == old(self).spec_jobs().push(ticket),
            final(self).spec_running() == old(self).spec_running(),
            final(self).spec_accepted() == (if old(self).spec_accepted() == u64::MAX {
                u64::MAX
            } else {
                (old(self).spec_accepted() + 1) as u64
            }),
    {
        self.jobs.push(ticket);
        if self.accepted < u64::MAX {
            self.accepted = self.accepted + 1;
        }
    }

    /// Hand out the oldest ticket, if any.  A stopped queue still drains:
    /// shutdown stops the worker's waiting, not the work already queued.
    pub fn next_job(&mut self) -> (r: Option<u64>)
        ensures
            final(self).spec_running() == old(self).spec_running(),
            final(self).spec_accepted() == old(self).spec_accepted(),
            match r {
                Some(t) => old(self).spec_jobs().len() > 0 && t == old(self).spec_jobs()[0]
                    && final(self).spec_jobs() == old(self).spec_jobs().skip(1),
                None => old(self).spec_jobs().len() == 0 && final(self).spec_jobs() == old(self).spec_jobs(),
            },
    {
        if self.jobs.len() == 0 {
            return None;
        }
        let t = self.jobs.remove(0);
        proof {
            assert(old(self).jobs@.remove(0) =~= old(self).jobs@.skip(1));
        }
        Some(t)
    }

    /// Number of queued tickets.
    pub fn pending_jobs(&self) -> (r: usize)
        ensures
            r == self.spec_jobs().len(),
    {
        self.jobs.len()
    }

    /// Stop the worker's waiting; tickets already queued still drain.
    pub fn shutdown(&mut self)
        ensures
            !final(self).spec_running(),
            final(self).spec_jobs() == old(self).spec_jobs(),
            final(self).spec_accepted() == old(self).spec_accepted(),
    {
        self.running = false;
    }
}

/// The process-wide system: one queue per job family and a counter of
/// submissions per family.
pub struct BackgroundJobSystem {
    hnsw_rebuild: BackgroundWorker,
    lazy_free: BackgroundWorker,
}

impl BackgroundJobSystem {
    /// The queue of a family.
    pub closed spec fn spec_worker(&self, job_type: BackgroundJobType) -> BackgroundWorker {
        match job_type {
            BackgroundJobType::HnswRebuild => self.hnsw_rebuild,
            BackgroundJobType::LazyFree => self.lazy_free,
        }
    }

    /// Fresh queues all round.
    pub fn new() -> (r: BackgroundJobSystem)
        ensures
            r.spec_worker(BackgroundJobType::HnswRebuild).spec_jobs().len() == 0,
            r.spec_worker(BackgroundJobType::LazyFree).spec_jobs().len() == 0,
            r.spec_worker(BackgroundJobType::HnswRebuild).spec_running(),
            r.spec_worker(BackgroundJobType::LazyFree).spec_running(),
    {
        BackgroundJobSystem { hnsw_rebuild: BackgroundWorker::new(), lazy_free: BackgroundWorker::new() }
    }

    /// Queue a ticket with the family's worker; the family's submission
    /// counter rises with it.
    pub fn submit(&mut self, job_type: BackgroundJobType, ticket: u64)
        ensures
            final(self).spec_worker(job_type).spec_jobs() == old(self).spec_worker(job_type).spec_jobs().push(ticket),
            final(self).spec_worker(job_type).spec_running() == old(self).spec_worker(
                job_type,
            ).spec_running(),
            final(self).spec_worker(job_type).spec_accepted() == (if old(self).spec_worker(
                job_type,
            ).spec_accepted() == u64::MAX {
                u64::MAX
            } else {
                (old(self).spec_worker(job_type).spec_accepted() + 1) as u64
            }),
            forall|other: BackgroundJobType|
                other != job_type ==> final(self).spec_worker(other) == old(self).spec_worker(other),
    {
        match job_type {
            BackgroundJobType::HnswRebuild => self.hnsw_rebuild.submit(ticket),
            BackgroundJobType::LazyFree => self.lazy_free.submit(ticket),
        }
    }

    /// Take the oldest ticket of a family, if any.
    pub fn next_job(&mut self, job_type: BackgroundJobType) -> (r: Option<u64>)
        ensures
            forall|other: BackgroundJobType|
                other != job_type ==> final(self).spec_worker(other) == old(self).spec_worker(other),
            match r {
                Some(t) => old(self).spec_worker(job_type).spec_jobs().len() > 0 && t == old(self).spec_worker(job_type).spec_jobs()[0] && final(self).spec_worker(job_type).spec_jobs() == old(self).spec_worker(job_type).spec_jobs().skip(1),
                None => old(self).spec_worker(job_type).spec_jobs().len() == 0 && final(self).spec_worker(job_type).spec_jobs() == old(self).spec_worker(job_type).spec_jobs(),
            },
            final(self).spec_worker(job_type).spec_running() == old(self).spec_worker(
                job_type,
            ).spec_running(),
            final(self).spec_worker(job_type).spec_accepted() == old(self).spec_worker(
                job_type,
            ).spec_accepted(),
    {
        match job_type {
            BackgroundJobType::HnswRebuild => self.hnsw_rebuild.next_job(),
            BackgroundJobType::LazyFree => self.lazy_free.next_job(),
        }
    }

    /// Number of queued tickets of a family.
    pub fn pending_jobs(&self, job_type: BackgroundJobType) -> (r: usize)
        ensures
            r == self.spec_worker(job_type).spec_jobs().len(),
    {
        match job_type {
            BackgroundJobType::HnswRebuild => self.hnsw_rebuild.pending_jobs(),
            BackgroundJobType::LazyFree => self.lazy_free.pending_jobs(),
        }
    }

    /// How many tickets a family ever accepted.
    pub fn jobs_processed(&self, job_type: BackgroundJobType) -> (r: u64)
        ensures
            r == self.spec_worker(job_type).spec_accepted(),
    {
        match job_type {
            BackgroundJobType::HnswRebuild => self.hnsw_rebuild.accepted,
            BackgroundJobType::LazyFree => self.lazy_free.accepted,
        }
    }

    /// Stop every queue's waiting; queued tickets still drain.
    pub fn shutdown(&mut self)
        ensures
            !final(self).spec_worker(BackgroundJobType::HnswRebuild).spec_running(),
            !final(self).spec_worker(BackgroundJobType::LazyFree).spec_running(),
            forall|t: BackgroundJobType|
                #[trigger] final(self).spec_worker(t).spec_jobs() == old(self).spec_worker(
                    t,
                ).spec_jobs() && final(self).spec_worker(t).spec_accepted() == old(
                    self,
                ).spec_worker(t).spec_accepted(),
    {
        self.hnsw_rebuild.shutdown();
        self.lazy_free.shutdown();
    }
}

} // verus!
