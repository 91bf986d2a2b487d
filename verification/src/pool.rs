//! A model of the worker pool: a fixed set of numbered workers sharing
//! one FIFO job queue.
//!
//! The pool here carries the decisions — size validation at
//! construction, FIFO queuing on submission, front-of-queue dequeue by
//! a worker — while the caller owns the threads, the channel and the
//! actual job closures, drives `take_job` from its worker loops, and
//! runs the closure belonging to each returned job id. Jobs are named
//! by caller-chosen ids; the model accounts for every id it was handed,
//! so that submission, execution and queue content can be related
//! exactly.
//!
//! As in the design this models, a worker loop never exits on its own:
//! no shutdown, drain or cancellation is offered, and a job that brings
//! its worker thread down is not isolated — the pool just loses that
//! slot. The model does not hide this: `take_job` records a job as
//! executed when a worker takes it, whatever becomes of the worker.

use vstd::prelude::*;

verus! {

/// Why pool construction failed.
#[derive(Clone, Copy, Debug, PartialEq, Eq, Structural)]
pub enum PoolCreationError {
    InvalidSize,
}

/// A worker slot: an ordinal identity.
struct Worker {
    id: usize,
}

/// The pool: its workers, the queue of pending job ids, the ids
/// already taken, and the ghost record of every id ever submitted.
pub struct ThreadPool {
    workers: Vec<Worker>,
    pending: Vec<u64>,
    executed: Vec<u64>,
    submitted: Ghost<Seq<u64>>,
}

impl ThreadPool {
    /// Number of worker slots, fixed at construction.
    pub closed spec fn size(self) -> nat {
        self.workers@.len()
    }

    /// Every job id ever submitted, in submission order.
    pub closed spec fn submitted_jobs(self) -> Seq<u64> {
        self.submitted@
    }

    /// Job ids enqueued and not yet taken, front of the queue first.
    pub closed spec fn pending_jobs(self) -> Seq<u64> {
        self.pending@
    }

    /// Job ids already taken by workers, in the order they were taken.
    pub closed spec fn executed_jobs(self) -> Seq<u64> {
        self.executed@
    }

    /// The pool invariant: at least one worker, workers numbered 0, 1,
    /// ... in order, and every submitted job accounted for — taken
    /// already, or still in the queue, and nothing else anywhere.
    pub closed spec fn wf(self) -> bool {
        &&& self.workers@.len() >= 1
        &&& (forall|i: int| 0 <= i < self.workers@.len() ==> self.workers@[i].id == i)
        &&& self.submitted@ == self.executed@ + self.pending@
    }

    /// Builds a pool of `size` workers eagerly; a size of zero is the
    /// one construction error, and then nothing is built.
    pub fn new(size: usize) -> (r: Result<ThreadPool, PoolCreationError>)
        ensures
            match r {
                Ok(p) => size >= 1 && p.wf() && p.size() == size && p.submitted_jobs()
                    == Seq::<u64>::empty() && p.pending_jobs() == Seq::<u64>::empty()
                    && p.executed_jobs() == Seq::<u64>::empty(),
                Err(e) => size == 0 && e == PoolCreationError::InvalidSize,
            },
    {
        if size == 0 {
            return Err(PoolCreationError::InvalidSize);
        }
        let mut workers: Vec<Worker> = Vec::new();
        let mut id: usize = 0;
        while id < size
            invariant
                id <= size,
                workers@.len() == id,
                forall|i: int| 0 <= i < id ==> (#[trigger] workers@[i]).id == i,
            decreases size - id,
        {
            let ghost pre = workers@;
            workers.push(Worker { id });
            proof {
                assert(forall|i: int|
                    0 <= i < pre.len() ==> workers@[i] == pre[i]);
            }
            id = id + 1;
        }
        let pool = ThreadPool {
            workers,
            pending: Vec::new(),
            executed: Vec::new(),
            submitted: Ghost(Seq::empty()),
        };
        proof {
            assert(pool.submitted@ =~= pool.executed@ + pool.pending@);
        }
        Ok(pool)
    }

    /// Enqueues a job at the back of the queue and returns at once:
    /// submission is fire-and-forget, with no completion handle. The
    /// job waits in FIFO order for a worker.
    pub fn execute(&mut self, job: u64)
        requires
            old(self).wf(),
        ensures
            final(self).wf(),
            final(self).size() == old(self).size(),
            final(self).pending_jobs() == old(self).pending_jobs().push(job),
            final(self).submitted_jobs() == old(self).submitted_jobs().push(job),
            final(self).executed_jobs() == old(self).executed_jobs(),
    {
        self.pending.push(job);
        proof {
            self.submitted@ = self.submitted@.push(job);
            assert(self.submitted@ =~= self.executed@ + self.pending@);
        }
    }

    /// One worker's dequeue step: takes the front pending job,
    /// recording it as executed, or reports the queue empty. Jobs
    /// leave the queue in FIFO submission order.
    pub fn take_job(&mut self) -> (r: Option<u64>)
        requires
            old(self).wf(),
        ensures
            final(self).wf(),
            final(self).size() == old(self).size(),
            final(self).submitted_jobs() == old(self).submitted_jobs(),
            match r {
                Some(job) => old(self).pending_jobs().len() > 0 && job == old(
                    self,
                ).pending_jobs()[0] && final(self).pending_jobs() == old(
                    self,
                ).pending_jobs().drop_first() && final(self).executed_jobs() == old(
                    self,
                ).executed_jobs().push(job),
                None => old(self).pending_jobs().len() == 0 && *final(self) == *old(self),
            },
    {
        if self.pending.len() == 0 {
            return None;
        }
        let job = self.pending.remove(0);
        self.executed.push(job);
        proof {
            assert(self.pending@ =~= old(self).pending@.drop_first());
            assert(self.submitted@ =~= self.executed@ + self.pending@);
        }
        Some(job)
    }
}

/// Accounting law: in every reachable pool state, the submitted jobs
/// are exactly the executed jobs followed by the pending ones — no job
/// is dropped, duplicated or reordered on its way through the queue.
pub proof fn lemma_pool_accounting(p: ThreadPool)
    requires
        p.wf(),
    ensures
        p.submitted_jobs() == p.executed_jobs() + p.pending_jobs(),
{
}

/// Drained-queue law: once nothing is pending, the executed jobs are
/// exactly the submitted jobs — every submitted job was taken exactly
/// once, in submission order, none dropped and none run twice.
pub proof fn lemma_drained_pool_ran_every_job(p: ThreadPool)
    requires
        p.wf(),
        p.pending_jobs().len() == 0,
    ensures
        p.executed_jobs() == p.submitted_jobs(),
{
    assert(p.executed_jobs() =~= p.executed_jobs() + p.pending_jobs());
}

} // verus!
