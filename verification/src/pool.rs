//! The pool itself: a fixed set of workers behind one job channel.
use crate::channel::JobChannel;
use crate::bookkeeping::alive_after_update;
use crate::bookkeeping::alive_workers_exist;
use crate::bookkeeping::complete_preserves_inv;
use crate::bookkeeping::fault_preserves_inv;
use crate::laws::fresh_pool_is_ready;
use crate::bookkeeping::submit_preserves_inv;
use crate::bookkeeping::take_preserves_inv;
use crate::model::PoolState;
use crate::worker::Activity;
use crate::worker::Worker;
use crate::worker::WorkerState;
use vstd::prelude::*;

verus! {

/// A pool of a fixed number of workers that share one unbounded channel of
/// jobs.
///
/// The pool is generic in the job: it moves jobs and never looks into one.
/// A job enters with [`ThreadPool::execute`], leaves towards exactly one
/// worker with [`ThreadPool::take`], and that worker reports how the job
/// ended with [`ThreadPool::complete`] or [`ThreadPool::fault`].
pub struct ThreadPool<J> {
    workers: Vec<Worker>,
    channel: JobChannel<J>,
    completed: Ghost<Seq<nat>>,
}

impl<J> View for ThreadPool<J> {
    type V = PoolState<J>;

    closed spec fn view(&self) -> PoolState<J> {
        PoolState {
            accepted: self.channel@.sent,
            dispatched: self.channel@.received,
            workers: Seq::new(self.workers@.len(), |id: int| self.workers@[id]@),
            completed: self.completed@,
        }
    }
}

impl<J> ThreadPool<J> {
    /// Whether the pool is well formed: it has at least one worker, each
    /// worker's identity is its position, the workers that are alive are the
    /// holders of the channel's receiving end, and the books are consistent.
    pub closed spec fn wf(&self) -> bool {
        &&& self.workers@.len() > 0
        &&& forall|id: int|
            0 <= id < self.workers@.len() ==> (#[trigger] self.workers@[id]).spec_id() == id
        &&& self.channel.wf()
        &&& self.channel@.receivers == self@.alive()
        &&& self@.inv()
    }

    /// A well-formed pool has at least one worker and consistent books.
    pub proof fn lemma_wf(&self)
        requires
            self.wf(),
        ensures
            self@.size() > 0,
            self@.inv(),
    {
    }

    /// Creates a pool of `size` workers, numbered from 0 in the order of
    /// their creation, all idle, with an empty channel.
    pub fn new(size: usize) -> (pool: ThreadPool<J>)
        requires
            size > 0,
        ensures
            pool.wf(),
            pool@ == PoolState::<J>::fresh(size as nat),
            pool@.is_open(),
    {
        let mut workers: Vec<Worker> = Vec::new();
        for id in 0..size
            invariant
                workers@.len() == id,
                forall|k: int|
                    0 <= k < id ==> (#[trigger] workers@[k]).spec_id() == k && workers@[k]@
                        == Activity::Waiting,
        {
            workers.push(Worker::new(id));
        }
        let pool = ThreadPool {
            workers,
            channel: JobChannel::new(size),
            completed: Ghost(Seq::empty()),
        };
        proof {
            fresh_pool_is_ready::<J>(size as nat);
            assert(pool@.workers =~= PoolState::<J>::fresh(size as nat).workers);
        }
        pool
    }

    /// The number of workers that the pool was built with. It never changes.
    pub fn size(&self) -> (size: usize)
        requires
            self.wf(),
        ensures
            size == self@.size(),
            size > 0,
    {
        self.workers.len()
    }

    /// The number of jobs that wait in the channel.
    pub fn queued(&self) -> (count: usize)
        requires
            self.wf(),
        ensures
            count == self@.pending().len(),
    {
        self.channel.len()
    }

    /// The number of workers that have not been lost.
    pub fn alive(&self) -> (alive: usize)
        requires
            self.wf(),
        ensures
            alive == self@.alive(),
            alive <= self@.size(),
    {
        proof {
            alive_workers_exist(self@.workers);
        }
        self.channel.receivers()
    }

    /// The worker with the given identity, if the pool has one.
    pub fn worker(&self, id: usize) -> (worker: Option<&Worker>)
        requires
            self.wf(),
        ensures
            match worker {
                Some(w) => self@.has_worker(id as int) && w.spec_id() == id && w@
                    == self@.workers[id as int],
                None => !self@.has_worker(id as int),
            },
    {
        if id < self.workers.len() {
            Some(&self.workers[id])
        } else {
            None
        }
    }

    /// Whether the channel still has a receiving end, that is, whether at
    /// least one worker has not been lost.
    pub fn is_open(&self) -> (open: bool)
        requires
            self.wf(),
        ensures
            open == self@.is_open(),
    {
        proof {
            alive_workers_exist(self@.workers);
        }
        self.channel.is_open()
    }

    /// Submits a job: it joins the end of the channel, whatever the workers
    /// are doing and however many jobs already wait.
    pub fn execute(&mut self, job: J)
        requires
            old(self).wf(),
            old(self)@.is_open(),
        ensures
            final(self).wf(),
            final(self)@ == old(self)@.submit(job),
            final(self)@.pending() == old(self)@.pending().push(job),
            final(self)@.is_open(),
    {
        proof {
            submit_preserves_inv(self@, job);
            alive_workers_exist(self@.workers);
        }
        match self.channel.send(job) {
            Ok(()) => {},
            Err(_) => {
                assert(false);
            },
        }
    }

    /// Worker `id` asks for a job. If it is idle and a job waits, it gets the
    /// oldest one and is executing from now on. Otherwise it gets nothing and
    /// nothing changes.
    pub fn take(&mut self, id: usize) -> (job: Option<J>)
        requires
            old(self).wf(),
        ensures
            final(self).wf(),
            match job {
                Some(j) => {
                    &&& old(self)@.can_take(id as int)
                    &&& j == old(self)@.pending()[0]
                    &&& final(self)@ == old(self)@.take(id as int)
                    &&& final(self)@.pending() == old(self)@.pending().drop_first()
                },
                None => !old(self)@.can_take(id as int) && final(self)@ == old(self)@,
            },
    {
        if id >= self.workers.len() {
            return None;
        }
        match self.workers[id].state() {
            WorkerState::Waiting => {},
            _ => {
                return None;
            },
        }
        let ghost before = self@;
        proof {
            self.channel.lemma_wf();
        }
        match self.channel.try_recv() {
            None => None,
            Some(job) => {
                proof {
                    take_preserves_inv(before, id as int);
                    alive_after_update(
                        before.workers,
                        id as int,
                        Activity::Executing { ticket: before.dispatched },
                    );
                }
                self.workers[id].start(Ghost(before.dispatched));
                assert(self@.workers =~= before.take(id as int).workers);
                Some(job)
            },
        }
    }

    /// Worker `id` reports that the job it was running has returned. If the
    /// worker was executing, it is idle again and the job is entered as
    /// completed; the result is then `true`. Otherwise nothing changes.
    pub fn complete(&mut self, id: usize) -> (done: bool)
        requires
            old(self).wf(),
        ensures
            final(self).wf(),
            done == old(self)@.is_executing(id as int),
            done ==> final(self)@ == old(self)@.complete(id as int),
            !done ==> final(self)@ == old(self)@,
    {
        if id >= self.workers.len() {
            return false;
        }
        match self.workers[id].state() {
            WorkerState::Executing => {},
            _ => {
                return false;
            },
        }
        let ghost before = self@;
        proof {
            complete_preserves_inv(before, id as int);
            alive_after_update(before.workers, id as int, Activity::Waiting);
        }
        self.completed = Ghost(before.complete(id as int).completed);
        self.workers[id].finish();
        assert(self@.workers =~= before.complete(id as int).workers);
        true
    }

    /// Worker `id` reports that the job it was running has faulted. If the
    /// worker was executing, it is lost for good: the pool keeps it on its
    /// list, hands it no further job and does not replace it; the result is
    /// then `true`. Otherwise nothing changes.
    pub fn fault(&mut self, id: usize) -> (lost: bool)
        requires
            old(self).wf(),
        ensures
            final(self).wf(),
            lost == old(self)@.is_executing(id as int),
            lost ==> final(self)@ == old(self)@.fault(id as int),
            !lost ==> final(self)@ == old(self)@,
    {
        if id >= self.workers.len() {
            return false;
        }
        match self.workers[id].state() {
            WorkerState::Executing => {},
            _ => {
                return false;
            },
        }
        let ghost before = self@;
        proof {
            fault_preserves_inv(before, id as int);
            alive_workers_exist(before.workers);
            alive_after_update(
                before.workers,
                id as int,
                Activity::Terminated { ticket: before.workers[id as int]->Executing_ticket },
            );
        }
        self.workers[id].terminate();
        self.channel.drop_receiver();
        assert(self@.workers =~= before.fault(id as int).workers);
        true
    }
}

} // verus!
