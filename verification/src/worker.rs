//! One worker of the pool: its identity and what it is doing.
use vstd::prelude::*;

verus! {

/// What a worker is doing, as the pool can observe it.
#[derive(Clone, Copy, Debug, PartialEq, Eq, Structural)]
pub enum WorkerState {
    /// Idle: ready to take the next job from the channel.
    Waiting,
    /// Running a job that it took from the channel.
    Executing,
    /// Gone for good: a job that it ran faulted and took the worker with it.
    Terminated,
}

/// What a worker is doing, together with the ticket of the job concerned.
///
/// A job's ticket is its position in the order of submission, counted from 0.
pub enum Activity {
    /// Idle.
    Waiting,
    /// Running the job with this ticket.
    Executing { ticket: nat },
    /// Brought down by the job with this ticket.
    Terminated { ticket: nat },
}

impl Activity {
    /// The observable state, without the ticket.
    pub open spec fn state(self) -> WorkerState {
        match self {
            Activity::Waiting => WorkerState::Waiting,
            Activity::Executing { .. } => WorkerState::Executing,
            Activity::Terminated { .. } => WorkerState::Terminated,
        }
    }

    /// Whether the worker took the job with ticket `t` and did not complete it.
    pub open spec fn holds(self, t: nat) -> bool {
        self == (Activity::Executing { ticket: t }) || self == (Activity::Terminated { ticket: t })
    }
}

/// A worker: a fixed identity and a current state.
pub struct Worker {
    id: usize,
    state: WorkerState,
    ticket: Ghost<nat>,
}

impl View for Worker {
    type V = Activity;

    closed spec fn view(&self) -> Activity {
        match self.state {
            WorkerState::Waiting => Activity::Waiting,
            WorkerState::Executing => Activity::Executing { ticket: self.ticket@ },
            WorkerState::Terminated => Activity::Terminated { ticket: self.ticket@ },
        }
    }
}

impl Worker {
    /// The identity that the worker was created with.
    pub closed spec fn spec_id(&self) -> usize {
        self.id
    }

    /// A new worker with the given identity, waiting for its first job.
    pub fn new(id: usize) -> (worker: Worker)
        ensures
            worker.spec_id() == id,
            worker@ == Activity::Waiting,
    {
        Worker { id, state: WorkerState::Waiting, ticket: Ghost(0) }
    }

    /// The worker's identity.
    #[verifier::when_used_as_spec(spec_id)]
    pub fn id(&self) -> (id: usize)
        ensures
            id == self.spec_id(),
    {
        self.id
    }

    /// What the worker is doing.
    pub fn state(&self) -> (state: WorkerState)
        ensures
            state == self@.state(),
    {
        self.state
    }

    /// The worker takes the job with the given ticket and starts to run it.
    pub(crate) fn start(&mut self, ticket: Ghost<nat>)
        requires
            old(self)@ is Waiting,
        ensures
            final(self).spec_id() == old(self).spec_id(),
            final(self)@ == (Activity::Executing { ticket: ticket@ }),
    {
        self.state = WorkerState::Executing;
        self.ticket = ticket;
    }

    /// The job that the worker was running has returned.
    pub(crate) fn finish(&mut self)
        requires
            old(self)@ is Executing,
        ensures
            final(self).spec_id() == old(self).spec_id(),
            final(self)@ == Activity::Waiting,
    {
        self.state = WorkerState::Waiting;
    }

    /// The job that the worker was running has faulted: the worker is lost.
    pub(crate) fn terminate(&mut self)
        requires
            old(self)@ is Executing,
        ensures
            final(self).spec_id() == old(self).spec_id(),
            final(self)@ == (Activity::Terminated { ticket: old(self)@->Executing_ticket }),
    {
        self.state = WorkerState::Terminated;
    }
}

} // verus!
