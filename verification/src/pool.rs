//! The bookkeeping of a fixed-size worker pool: a first-in, first-out queue
//! of jobs, the workers that take from it, and an orderly shutdown.
//!
//! The pool holds jobs and hands them out; it runs nothing. A worker asks for
//! its next step and is told to run a job, to wait, or to exit.

use vstd::prelude::*;

verus! {

/// Why a job was refused.
#[derive(Clone, Copy, Debug, PartialEq, Eq, Structural)]
pub enum PoolError {
    /// The pool no longer accepts jobs.
    PoolClosed,
}

/// The stages of a pool's life.
#[derive(Clone, Copy, Debug, PartialEq, Eq, Structural)]
pub enum PoolPhase {
    /// Jobs are accepted.
    Running,
    /// No job is accepted any more; some worker has not exited yet.
    Draining,
    /// Every worker has exited.
    Joined,
}

/// One worker of a pool.
pub struct Worker {
    /// The worker's number.
    pub id: usize,
    /// Whether the worker has not exited yet.
    pub running: bool,
}

impl Worker {
    /// A running worker with the given number.
    pub fn new(id: usize) -> (worker: Worker)
        ensures
            worker.id == id,
            worker.running,
    {
        Worker { id, running: true }
    }
}

/// What a worker is to do next.
pub enum WorkerStep<J> {
    /// Run this job, then ask again.
    Run(J),
    /// No job is queued and the pool still accepts jobs: wait, then ask again.
    Wait,
    /// The queue is closed and drained: exit.
    Exit,
}

/// A pool of a fixed number of workers that share one queue of jobs.
pub struct ThreadPool<J> {
    workers: Vec<Worker>,
    queue: Vec<J>,
    accepting: bool,
}

impl<J> ThreadPool<J> {
    /// The number of workers the pool was made with.
    pub closed spec fn size(&self) -> nat {
        self.workers@.len()
    }

    /// The jobs that wait, oldest first.
    pub closed spec fn pending(&self) -> Seq<J> {
        self.queue@
    }

    /// Whether the pool accepts jobs.
    pub closed spec fn accepting(&self) -> bool {
        self.accepting
    }

    /// Whether worker `i` has not exited yet.
    pub closed spec fn running(&self, i: int) -> bool {
        self.workers@[i].running
    }

    /// That every worker is in the same state as in `before`.
    pub open spec fn same_workers(&self, before: &Self) -> bool {
        &&& self.size() == before.size()
        &&& forall|i: int| 0 <= i < before.size() ==> self.running(i) == before.running(i)
    }

    /// Whether some worker has not exited yet.
    pub open spec fn any_running(&self) -> bool {
        exists|i: int| 0 <= i < self.size() && self.running(i)
    }

    /// The pool's invariant: it has at least one worker, worker `i` carries
    /// the number `i`, and a worker exits only once the queue is closed and
    /// drained.
    pub closed spec fn wf(&self) -> bool {
        &&& self.workers@.len() > 0
        &&& forall|i: int| 0 <= i < self.workers@.len() ==> (#[trigger] self.workers@[i]).id == i
        &&& (forall|i: int| 0 <= i < self.workers@.len() ==> (#[trigger] self.workers@[i]).running)
            || (!self.accepting && self.queue@.len() == 0)
    }

    /// The stage the pool is in.
    pub open spec fn phase_of(&self) -> PoolPhase {
        if self.accepting() {
            PoolPhase::Running
        } else if self.any_running() {
            PoolPhase::Draining
        } else {
            PoolPhase::Joined
        }
    }

    /// A pool in which some worker has exited accepts nothing and holds nothing.
    pub proof fn lemma_exit_means_drained(&self, i: int)
        requires
            self.wf(),
            0 <= i < self.size(),
            !self.running(i),
        ensures
            !self.accepting(),
            self.pending().len() == 0,
    {
    }

    /// A pool that has reached its last stage holds no job: every job that
    /// was accepted has been handed out.
    pub proof fn lemma_joined_means_drained(&self)
        requires
            self.wf(),
            self.phase_of() == PoolPhase::Joined,
        ensures
            !self.accepting(),
            self.pending().len() == 0,
    {
        assert(!self.running(0));
    }

    /// A pool of `size` running workers with an empty queue.
    pub fn new(size: usize) -> (pool: Self)
        requires
            size > 0,
        ensures
            pool.wf(),
            pool.size() == size,
            pool.accepting(),
            pool.pending() == Seq::<J>::empty(),
            forall|i: int| 0 <= i < size ==> pool.running(i),
    {
        let mut workers: Vec<Worker> = Vec::new();
        let mut id: usize = 0;
        while id < size
            invariant
                id <= size,
                workers@.len() == id,
                forall|i: int|
                    0 <= i < id ==> (#[trigger] workers@[i]).id == i && workers@[i].running,
            decreases size - id,
        {
            workers.push(Worker::new(id));
            id = id + 1;
        }
        ThreadPool { workers, queue: Vec::new(), accepting: true }
    }

    /// Queues a job behind those that wait. A pool that no longer accepts
    /// jobs refuses it and stays as it was.
    pub fn execute(&mut self, job: J) -> (queued: Result<(), PoolError>)
        requires
            old(self).wf(),
        ensures
            final(self).wf(),
            final(self).same_workers(old(self)),
            final(self).accepting() == old(self).accepting(),
            queued is Ok <==> old(self).accepting(),
            queued is Err ==> queued == Err::<(), PoolError>(PoolError::PoolClosed),
            final(self).pending() == if old(self).accepting() {
                old(self).pending().push(job)
            } else {
                old(self).pending()
            },
    {
        if self.accepting {
            self.queue.push(job);
            Ok(())
        } else {
            Err(PoolError::PoolClosed)
        }
    }

    /// Stops accepting jobs. Jobs that wait are still handed out. Closing a
    /// closed pool changes nothing.
    pub fn close(&mut self)
        requires
            old(self).wf(),
        ensures
            final(self).wf(),
            !final(self).accepting(),
            final(self).same_workers(old(self)),
            final(self).pending() == old(self).pending(),
    {
        self.accepting = false;
    }

    /// Tells worker `worker` what to do next. A running worker gets the oldest
    /// job that waits; if none waits it is told to wait while the pool accepts
    /// jobs, and to exit once it does not. A worker that has exited is told to
    /// exit again.
    pub fn next_job(&mut self, worker: usize) -> (step: WorkerStep<J>)
        requires
            old(self).wf(),
            worker < old(self).size(),
        ensures
            final(self).wf(),
            final(self).size() == old(self).size(),
            final(self).accepting() == old(self).accepting(),
            match step {
                WorkerStep::Run(job) => {
                    &&& old(self).running(worker as int)
                    &&& old(self).pending().len() > 0
                    &&& job == old(self).pending()[0]
                    &&& final(self).pending() == old(self).pending().skip(1)
                    &&& final(self).same_workers(old(self))
                },
                WorkerStep::Wait => {
                    &&& old(self).running(worker as int)
                    &&& old(self).pending().len() == 0
                    &&& old(self).accepting()
                    &&& final(self).pending() == old(self).pending()
                    &&& final(self).same_workers(old(self))
                },
                WorkerStep::Exit => {
                    &&& !old(self).running(worker as int) || (old(self).pending().len() == 0
                        && !old(self).accepting())
                    &&& final(self).pending() == old(self).pending()
                    &&& forall|i: int|
                        0 <= i < old(self).size() ==> final(self).running(i) == (old(
                            self,
                        ).running(i) && i != worker)
                },
            },
    {
        if !self.workers[worker].running {
            return WorkerStep::Exit;
        }
        if self.queue.len() > 0 {
            let job: J = self.queue.remove(0);
            assert(self.queue@ =~= old(self).queue@.skip(1));
            return WorkerStep::Run(job);
        }
        if self.accepting {
            return WorkerStep::Wait;
        }
        self.workers[worker].running = false;
        WorkerStep::Exit
    }

    /// The stage the pool is in.
    pub fn phase(&self) -> (phase: PoolPhase)
        requires
            self.wf(),
        ensures
            phase == self.phase_of(),
    {
        if self.accepting {
            return PoolPhase::Running;
        }
        let mut i: usize = 0;
        while i < self.workers.len()
            invariant
                i <= self.workers@.len(),
                !self.accepting(),
                forall|k: int| 0 <= k < i ==> !self.running(k),
            decreases self.workers@.len() - i,
        {
            if self.workers[i].running {
                assert(self.running(i as int));
                return PoolPhase::Draining;
            }
            i = i + 1;
        }
        PoolPhase::Joined
    }

    /// The number of workers the pool was made with.
    pub fn worker_count(&self) -> (n: usize)
        ensures
            n == self.size(),
    {
        self.workers.len()
    }

    /// The number of jobs that wait.
    pub fn queued(&self) -> (n: usize)
        ensures
            n == self.pending().len(),
    {
        self.queue.len()
    }
}

} // verus!
