//! The admission rule of the worker pool.
//!
//! A pool has a fixed number of workers and a queue of fixed length. A job
//! is admitted if the queue has room; a worker that is idle takes the oldest
//! job from the queue and holds it until the job has ended. Submitting never
//! waits: where the queue is full the job is turned away. This module keeps
//! the count; the pool itself owns the threads and the queue.

use vstd::prelude::*;

verus! {

/// The count of a pool: how many jobs its workers hold and how many wait.
#[derive(Clone, Copy, Debug)]
pub struct Admission {
    workers: usize,
    queue_len: usize,
    running: usize,
    queued: usize,
}

impl Admission {
    /// The number of workers.
    pub closed spec fn workers(&self) -> nat {
        self.workers as nat
    }

    /// The length of the queue.
    pub closed spec fn queue_len(&self) -> nat {
        self.queue_len as nat
    }

    /// The number of jobs that workers hold.
    pub closed spec fn running(&self) -> nat {
        self.running as nat
    }

    /// The number of jobs that wait in the queue.
    pub closed spec fn queued(&self) -> nat {
        self.queued as nat
    }

    /// The jobs that were admitted and have not ended.
    pub open spec fn in_flight(&self) -> nat {
        self.running() + self.queued()
    }

    /// No more jobs run than there are workers, and no more wait than the
    /// queue is long.
    pub open spec fn wf(&self) -> bool {
        &&& self.workers() > 0
        &&& self.queue_len() > 0
        &&& self.running() <= self.workers()
        &&& self.queued() <= self.queue_len()
    }

    /// The same pool: the same workers and the same queue.
    pub open spec fn same_pool(&self, other: &Admission) -> bool {
        self.workers() == other.workers() && self.queue_len() == other.queue_len()
    }

    /// An idle pool of `threads` workers with a queue of length `queue_len`.
    pub fn new(threads: usize, queue_len: usize) -> (a: Admission)
        requires
            threads > 0,
            queue_len > 0,
        ensures
            a.wf(),
            a.workers() == threads,
            a.queue_len() == queue_len,
            a.running() == 0,
            a.queued() == 0,
    {
        Admission { workers: threads, queue_len, running: 0, queued: 0 }
    }

    /// Submits a job: it is admitted, and waits in the queue, if and only if
    /// the queue has room.
    pub fn try_submit(&mut self) -> (admitted: bool)
        requires
            old(self).wf(),
        ensures
            final(self).wf(),
            final(self).same_pool(old(self)),
            admitted == old(self).admits(),
            final(self).running() == old(self).running(),
            final(self).queued() == old(self).queued() + if admitted {
                1nat
            } else {
                0nat
            },
    {
        if self.queued < self.queue_len {
            self.queued = self.queued + 1;
            true
        } else {
            false
        }
    }

    /// Whether an idle worker can take a job: one waits, and not every
    /// worker holds one.
    pub fn can_take(&self) -> (r: bool)
        requires
            self.wf(),
        ensures
            r == (self.queued() > 0 && self.running() < self.workers()),
    {
        self.queued > 0 && self.running < self.workers
    }

    /// A worker takes the oldest job from the queue.
    pub fn take(&mut self)
        requires
            old(self).wf(),
            old(self).queued() > 0,
            old(self).running() < old(self).workers(),
        ensures
            final(self).wf(),
            final(self).same_pool(old(self)),
            final(self).queued() == old(self).queued() - 1,
            final(self).running() == old(self).running() + 1,
    {
        self.queued = self.queued - 1;
        self.running = self.running + 1;
    }

    /// A job that a worker held has ended.
    pub fn finish(&mut self)
        requires
            old(self).wf(),
            old(self).running() > 0,
        ensures
            final(self).wf(),
            final(self).same_pool(old(self)),
            final(self).queued() == old(self).queued(),
            final(self).running() == old(self).running() - 1,
    {
        self.running = self.running - 1;
    }

    /// Whether the next job is admitted: the queue has room.
    pub open spec fn admits(&self) -> bool {
        self.queued() < self.queue_len()
    }

    /// The admission cap: a pool never has more jobs in flight than it has
    /// workers and places in its queue. While every worker holds a job, the
    /// next job is admitted if and only if fewer jobs are in flight than
    /// that: the job that comes when workers and queue are full is turned
    /// away.
    pub proof fn lemma_admission_cap(&self)
        requires
            self.wf(),
        ensures
            self.in_flight() <= self.workers() + self.queue_len(),
            self.in_flight() == self.workers() + self.queue_len() ==> !self.admits(),
            self.running() == self.workers() ==> (self.admits() <==> self.in_flight()
                < self.workers() + self.queue_len()),
    {
    }
}

} // verus!
