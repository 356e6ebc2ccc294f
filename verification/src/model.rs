//! The pool as a mathematical state machine: its states, its steps, and what
//! holds of every state that the steps can reach.
use crate::worker::Activity;
use vstd::prelude::*;

verus! {

/// How many of the workers have not been lost.
pub open spec fn count_alive(workers: Seq<Activity>) -> nat
    decreases workers.len(),
{
    if workers.len() == 0 {
        0
    } else if workers.last() is Terminated {
        count_alive(workers.drop_last())
    } else {
        count_alive(workers.drop_last()) + 1
    }
}

/// Whether each of `states` follows the one before it in one step.
pub open spec fn is_run<J>(states: Seq<PoolState<J>>) -> bool {
    forall|i: int| 0 <= i < states.len() - 1 ==> (#[trigger] states[i]).next(states[i + 1])
}

/// The state of a pool.
///
/// Jobs are known by their ticket: the job with ticket `t` is `accepted[t]`.
/// Tickets below `dispatched` have been handed to a worker; the others wait
/// in the channel, in ticket order.
pub struct PoolState<J> {
    /// Every job that was ever submitted, in the order of submission.
    pub accepted: Seq<J>,
    /// How many jobs have left the channel.
    pub dispatched: nat,
    /// What each worker is doing; a worker's identity is its position.
    pub workers: Seq<Activity>,
    /// The tickets of the jobs that ran to completion, in the order in which
    /// they completed.
    pub completed: Seq<nat>,
}

impl<J> PoolState<J> {
    /// A pool of `size` idle workers that has seen no job yet.
    pub open spec fn fresh(size: nat) -> Self {
        PoolState {
            accepted: Seq::empty(),
            dispatched: 0,
            workers: Seq::new(size, |id: int| Activity::Waiting),
            completed: Seq::empty(),
        }
    }

    /// The number of workers that the pool was built with.
    pub open spec fn size(self) -> nat {
        self.workers.len()
    }

    /// The jobs that wait in the channel, oldest first.
    pub open spec fn pending(self) -> Seq<J> {
        self.accepted.skip(self.dispatched as int)
    }

    /// Whether `id` names a worker of the pool.
    pub open spec fn has_worker(self, id: int) -> bool {
        0 <= id < self.workers.len()
    }

    /// Whether worker `id` took the job with ticket `t` and did not complete it.
    pub open spec fn holds(self, id: int, t: nat) -> bool {
        self.has_worker(id) && self.workers[id].holds(t)
    }

    /// Whether the job with ticket `t` is running or has faulted.
    pub open spec fn held(self, t: nat) -> bool {
        exists|id: int| self.holds(id, t)
    }

    /// Whether the channel still has a receiving end: some worker is alive.
    pub open spec fn is_open(self) -> bool {
        exists|id: int| self.has_worker(id) && !(#[trigger] self.workers[id] is Terminated)
    }

    /// How many workers have not been lost: the holders of the channel's
    /// receiving end.
    pub open spec fn alive(self) -> nat {
        count_alive(self.workers)
    }

    /// Whether nothing waits and nothing runs.
    pub open spec fn drained(self) -> bool {
        &&& self.dispatched == self.accepted.len()
        &&& forall|id: int| self.has_worker(id) ==> !(#[trigger] self.workers[id] is Executing)
    }

    /// Whether no worker has been lost.
    pub open spec fn healthy(self) -> bool {
        forall|id: int| self.has_worker(id) ==> !(#[trigger] self.workers[id] is Terminated)
    }

    /// A submission: `job` joins the end of the channel.
    pub open spec fn submit(self, job: J) -> Self {
        PoolState { accepted: self.accepted.push(job), ..self }
    }

    /// A burst of submissions, in the order of `jobs`, with no other step in
    /// between.
    pub open spec fn submit_all(self, jobs: Seq<J>) -> Self
        decreases jobs.len(),
    {
        if jobs.len() == 0 {
            self
        } else {
            self.submit_all(jobs.drop_last()).submit(jobs.last())
        }
    }

    /// Whether worker `id` can take a job now: it is idle and a job waits.
    pub open spec fn can_take(self, id: int) -> bool {
        &&& self.has_worker(id)
        &&& self.workers[id] is Waiting
        &&& self.dispatched < self.accepted.len()
    }

    /// Worker `id` takes the oldest waiting job and starts to run it.
    pub open spec fn take(self, id: int) -> Self {
        PoolState {
            dispatched: self.dispatched + 1,
            workers: self.workers.update(id, Activity::Executing { ticket: self.dispatched }),
            ..self
        }
    }

    /// Whether worker `id` is running a job.
    pub open spec fn is_executing(self, id: int) -> bool {
        self.has_worker(id) && self.workers[id] is Executing
    }

    /// The job that worker `id` runs has returned: the worker is idle again.
    pub open spec fn complete(self, id: int) -> Self {
        PoolState {
            workers: self.workers.update(id, Activity::Waiting),
            completed: self.completed.push(self.workers[id]->Executing_ticket),
            ..self
        }
    }

    /// The job that worker `id` runs has faulted: the worker is lost, and
    /// nothing takes its place.
    pub open spec fn fault(self, id: int) -> Self {
        PoolState {
            workers: self.workers.update(
                id,
                Activity::Terminated { ticket: self.workers[id]->Executing_ticket },
            ),
            ..self
        }
    }

    /// Whether `after` can follow `self` in one step.
    pub open spec fn next(self, after: Self) -> bool {
        ||| exists|job: J| self.is_open() && after == #[trigger] self.submit(job)
        ||| exists|id: int| self.can_take(id) && after == #[trigger] self.take(id)
        ||| exists|id: int| self.is_executing(id) && after == #[trigger] self.complete(id)
        ||| exists|id: int| self.is_executing(id) && after == #[trigger] self.fault(id)
    }

    /// Whether `after` can be reached from `self` in any number of steps.
    pub open spec fn reaches(self, after: Self) -> bool {
        exists|states: Seq<Self>| #[trigger]
            is_run(states) && states.len() > 0 && states.first() == self && states.last() == after
    }

    /// Worker `id` takes the oldest waiting job and runs it to completion.
    pub open spec fn serve(self, id: int) -> Self {
        self.take(id).complete(id)
    }

    /// Worker `id` serves `count` jobs, one after the other.
    pub open spec fn serve_many(self, id: int, count: nat) -> Self
        decreases count,
    {
        if count == 0 {
            self
        } else {
            self.serve_many(id, (count - 1) as nat).serve(id)
        }
    }

    /// The bookkeeping that every reachable state obeys: each job that left
    /// the channel is accounted for exactly once, either as completed or as
    /// held by exactly one worker.
    pub open spec fn inv(self) -> bool {
        &&& self.dispatched <= self.accepted.len()
        &&& self.completed.no_duplicates()
        &&& forall|t: nat| #[trigger] self.completed.contains(t) ==> t < self.dispatched
        &&& forall|id: int, t: nat| #[trigger]
            self.holds(id, t) ==> t < self.dispatched && !self.completed.contains(t)
        &&& forall|a: int, b: int, t: nat| #[trigger]
            self.holds(a, t) && #[trigger] self.holds(b, t) ==> a == b
        &&& forall|t: nat|
            t < self.dispatched ==> self.completed.contains(t) || #[trigger] self.held(t)
        &&& self.workers.len() == 1 ==> forall|i: int|
            0 <= i < self.completed.len() ==> #[trigger] self.completed[i] == i
    }
}

} // verus!
