//! What the pool promises, stated over its model and proved from the
//! bookkeeping that every reachable state obeys.
use crate::bookkeeping::alive_after_update;
use crate::bookkeeping::alive_workers_exist;
use crate::bookkeeping::complete_preserves_inv;
use crate::bookkeeping::healthy_means_all_alive;
use crate::bookkeeping::idle_workers_are_alive;
use crate::bookkeeping::reaches_one_more;
use crate::bookkeeping::submit_preserves_inv;
use crate::bookkeeping::take_preserves_inv;
use crate::model::is_run;
use crate::model::PoolState;
use crate::worker::Activity;
use vstd::prelude::*;

verus! {

/// A pool built with at least one worker starts with all its workers idle,
/// an empty channel and consistent books, and it is open: the first
/// submission can follow at once.
pub proof fn fresh_pool_is_ready<J>(size: nat)
    requires
        size > 0,
    ensures
        PoolState::<J>::fresh(size).inv(),
        PoolState::<J>::fresh(size).size() == size,
        PoolState::<J>::fresh(size).is_open(),
        PoolState::<J>::fresh(size).alive() == size,
        PoolState::<J>::fresh(size).healthy(),
        PoolState::<J>::fresh(size).drained(),
        PoolState::<J>::fresh(size).pending() == Seq::<J>::empty(),
        forall|job: J| PoolState::<J>::fresh(size).next(#[trigger] PoolState::<J>::fresh(size).submit(job)),
{
    let s = PoolState::<J>::fresh(size);
    idle_workers_are_alive(s.workers);
    assert(s.has_worker(0) && !(s.workers[0] is Terminated));
    assert(s.pending() =~= Seq::<J>::empty());
    assert forall|t: nat| !s.held(t) by {
        assert forall|id: int| !s.holds(id, t) by {}
    }
}

/// A submission appends the job to the channel and touches nothing else.
pub proof fn submit_appends<J>(s: PoolState<J>, job: J)
    requires
        s.inv(),
    ensures
        s.submit(job).pending() == s.pending().push(job),
        s.submit(job).workers == s.workers,
        s.submit(job).completed == s.completed,
        s.submit(job).dispatched == s.dispatched,
{
    assert(s.submit(job).pending() =~= s.pending().push(job));
}

/// A worker that takes a job gets the oldest one that waits, and the others
/// stay in the channel in their order.
pub proof fn take_is_first_in_first_out<J>(s: PoolState<J>, id: int)
    requires
        s.inv(),
        s.can_take(id),
    ensures
        s.pending().len() > 0,
        s.pending()[0] == s.accepted[s.dispatched as int],
        s.take(id).pending() == s.pending().drop_first(),
        s.take(id).accepted == s.accepted,
        s.take(id).completed == s.completed,
{
    assert(s.take(id).pending() =~= s.pending().drop_first());
}

/// Submission never waits for a worker. On an open pool any number of jobs
/// can be submitted in a row, whatever the workers are doing and however many
/// jobs already wait: all of them join the channel in their order, behind
/// those that waited before, and the pool is open for the next.
pub proof fn burst_is_queued<J>(s: PoolState<J>, jobs: Seq<J>)
    requires
        s.inv(),
        s.is_open(),
    ensures
        s.reaches(s.submit_all(jobs)),
        s.submit_all(jobs).inv(),
        s.submit_all(jobs).is_open(),
        s.submit_all(jobs).workers == s.workers,
        s.submit_all(jobs).completed == s.completed,
        s.submit_all(jobs).dispatched == s.dispatched,
        s.submit_all(jobs).accepted == s.accepted + jobs,
        s.submit_all(jobs).pending() == s.pending() + jobs,
    decreases jobs.len(),
{
    if jobs.len() == 0 {
        let alone = seq![s];
        assert(is_run(alone) && alone.len() > 0 && alone.first() == s && alone.last() == s);
        assert(s.accepted + jobs =~= s.accepted);
        assert(s.pending() + jobs =~= s.pending());
    } else {
        let head = jobs.drop_last();
        let mid = s.submit_all(head);
        burst_is_queued(s, head);
        reaches_one_more(s, mid, mid.submit(jobs.last()));
        submit_preserves_inv(mid, jobs.last());
        submit_appends(mid, jobs.last());
        let id = choose|id: int| mid.has_worker(id) && !(#[trigger] mid.workers[id] is Terminated);
        assert(s.submit_all(jobs).has_worker(id) && !(s.submit_all(jobs).workers[id] is Terminated));
        assert(s.submit_all(jobs).accepted =~= s.accepted + jobs);
        assert(s.submit_all(jobs).pending() =~= s.pending() + jobs);
    }
}

/// No job is stranded while a worker is alive: if a job waits and the
/// channel is open, some worker can take it now, or can take it as soon as
/// the job that it is running has returned.
pub proof fn waiting_job_can_be_served<J>(s: PoolState<J>)
    requires
        s.inv(),
        s.is_open(),
        s.pending().len() > 0,
    ensures
        exists|id: int| #[trigger]
            s.has_worker(id) && (s.can_take(id) || (s.is_executing(id) && s.complete(
                id,
            ).can_take(id))),
{
    let id = choose|id: int| s.has_worker(id) && !(#[trigger] s.workers[id] is Terminated);
    assert(s.has_worker(id));
}

/// A worker runs one job at a time, and a job runs on one worker: a worker
/// that is executing is handed nothing until it reports back, its job has
/// left the channel and is not yet completed, and no other worker holds the
/// same job, neither one that is executing nor one that was lost.
pub proof fn one_job_per_worker<J>(s: PoolState<J>, id: int)
    requires
        s.inv(),
        s.is_executing(id),
    ensures
        !s.can_take(id),
        s.workers[id]->Executing_ticket < s.dispatched,
        !s.completed.contains(s.workers[id]->Executing_ticket),
        forall|other: int|
            other != id ==> !#[trigger] s.holds(other, s.workers[id]->Executing_ticket),
{
    assert(s.holds(id, s.workers[id]->Executing_ticket));
}

/// A pool of one worker runs its jobs strictly one after the other, in the
/// order of their submission: the completed jobs are the tickets from 0 on
/// with none left out, the job that runs is the next one, and no job behind
/// it has left the channel.
pub proof fn single_worker_runs_in_order<J>(s: PoolState<J>)
    requires
        s.inv(),
        s.size() == 1,
    ensures
        forall|i: int| 0 <= i < s.completed.len() ==> #[trigger] s.completed[i] == i,
        s.workers[0] is Waiting ==> s.dispatched == s.completed.len(),
        s.workers[0] is Executing ==> s.workers[0]->Executing_ticket == s.completed.len()
            && s.dispatched == s.completed.len() + 1,
{
    let k = s.completed.len();
    assert forall|t: nat| t < k implies s.completed.contains(t) by {
        assert(s.completed[t as int] == t);
    }
    assert forall|t: nat| s.completed.contains(t) implies t < k by {
        let i = choose|i: int| 0 <= i < s.completed.len() && s.completed[i] == t;
        assert(s.completed[i] == i);
    }
    if k > 0 {
        assert(s.completed.contains((k - 1) as nat));
    }
    if s.workers[0] is Waiting {
        if s.dispatched > k {
            assert(s.held(k));
            let w = choose|w: int| s.holds(w, k);
            assert(w == 0);
        }
    }
    if s.workers[0] is Executing {
        let t0 = s.workers[0]->Executing_ticket;
        assert(s.holds(0, t0));
        if t0 > k {
            assert(s.held(k));
            let w = choose|w: int| s.holds(w, k);
            assert(w == 0);
        }
        let after = k + 1;
        if s.dispatched > after {
            assert(s.held(after));
            let w = choose|w: int| s.holds(w, after);
            assert(w == 0);
        }
    }
}

/// The tickets below `n`.
pub open spec fn tickets_below(n: nat) -> Set<nat> {
    Set::new(|t: nat| t < n)
}

/// There are `n` tickets below `n`.
pub proof fn tickets_below_count(n: nat)
    ensures
        tickets_below(n).finite(),
        tickets_below(n).len() == n,
    decreases n,
{
    if n == 0 {
        assert(tickets_below(n) =~= Set::<nat>::empty());
    } else {
        let m = (n - 1) as nat;
        tickets_below_count(m);
        assert(tickets_below(n) =~= tickets_below(m).insert(m));
    }
}

/// When nothing waits and nothing runs, every job that was submitted has been
/// run, and run once: its ticket is either in the list of completed jobs, in
/// which no ticket stands twice, or in the hands of the one worker that it
/// brought down, never both. If no worker has been lost, the completed jobs
/// are all the submitted jobs, each once, in some order.
pub proof fn drained_pool_ran_every_job<J>(s: PoolState<J>)
    requires
        s.inv(),
        s.drained(),
    ensures
        s.pending() == Seq::<J>::empty(),
        s.completed.no_duplicates(),
        forall|t: nat| #[trigger] s.completed.contains(t) ==> t < s.accepted.len(),
        forall|t: nat| t < s.accepted.len() ==> (#[trigger] s.completed.contains(t) <==> !s.held(t)),
        forall|id: int, t: nat| #[trigger]
            s.holds(id, t) ==> s.workers[id] == (Activity::Terminated { ticket: t }),
        s.healthy() ==> s.completed.len() == s.accepted.len(),
        s.healthy() ==> forall|t: nat|
            t < s.accepted.len() ==> #[trigger] s.completed.contains(t),
{
    assert(s.pending() =~= Seq::<J>::empty());
    assert forall|t: nat| t < s.accepted.len() implies (#[trigger] s.completed.contains(t)
        <==> !s.held(t)) by {
        if s.held(t) {
            let id = choose|id: int| s.holds(id, t);
            assert(s.holds(id, t));
        }
    }
    if s.healthy() {
        assert forall|t: nat| t < s.accepted.len() implies #[trigger] s.completed.contains(t) by {
            if s.held(t) {
                let id = choose|id: int| s.holds(id, t);
                assert(s.holds(id, t));
                assert(!(s.workers[id] is Terminated));
                assert(!(s.workers[id] is Executing));
            }
        }
        s.completed.unique_seq_to_set();
        tickets_below_count(s.accepted.len());
        assert(s.completed.to_set() =~= tickets_below(s.accepted.len()));
    }
}

/// One idle worker is enough to run everything that waits: serving the
/// waiting jobs one after the other is a run of the pool, at the end of which
/// nothing waits, the jobs that waited are completed in the order of their
/// submission, behind those completed before, and every worker is doing what
/// it did at the start.
pub proof fn one_worker_can_drain<J>(s: PoolState<J>, id: int, count: nat)
    requires
        s.inv(),
        s.has_worker(id),
        s.workers[id] is Waiting,
        count <= s.pending().len(),
    ensures
        s.reaches(s.serve_many(id, count)),
        s.serve_many(id, count).inv(),
        s.serve_many(id, count).workers == s.workers,
        s.serve_many(id, count).accepted == s.accepted,
        s.serve_many(id, count).dispatched == s.dispatched + count,
        s.serve_many(id, count).pending() == s.pending().skip(count as int),
        s.serve_many(id, count).completed == s.completed + Seq::new(
            count,
            |i: int| (s.dispatched + i) as nat,
        ),
    decreases count,
{
    let end = s.serve_many(id, count);
    let tickets = Seq::new(count, |i: int| (s.dispatched + i) as nat);
    if count == 0 {
        let alone = seq![s];
        assert(is_run(alone) && alone.len() > 0 && alone.first() == s && alone.last() == s);
        assert(end.completed =~= s.completed + tickets);
        assert(end.pending() =~= s.pending().skip(count as int));
    } else {
        let fewer = (count - 1) as nat;
        let mid = s.serve_many(id, fewer);
        one_worker_can_drain(s, id, fewer);
        let taken = mid.take(id);
        assert(mid.can_take(id));
        take_preserves_inv(mid, id);
        reaches_one_more(s, mid, taken);
        assert(taken.is_executing(id));
        complete_preserves_inv(taken, id);
        reaches_one_more(s, taken, end);
        assert(end.workers =~= s.workers);
        assert(end.completed =~= s.completed + tickets);
        assert(end.pending() =~= s.pending().skip(count as int));
    }
}

/// The channel is open exactly if some worker is alive, and no worker is
/// lost exactly if all of them are alive.
pub proof fn open_means_alive<J>(s: PoolState<J>)
    ensures
        s.is_open() <==> s.alive() > 0,
        s.alive() <= s.size(),
        s.healthy() <==> s.alive() == s.size(),
{
    alive_workers_exist(s.workers);
    healthy_means_all_alive(s.workers);
}

/// A faulting job costs the pool one worker, and only a fault does: the
/// number of workers alive goes down by one with a fault and stays as it is
/// with every other step. The lost worker stays on the pool's list, where it
/// neither takes a job nor runs one.
pub proof fn only_a_fault_costs_a_worker<J>(s: PoolState<J>, id: int, job: J)
    requires
        s.inv(),
    ensures
        s.submit(job).alive() == s.alive(),
        s.can_take(id) ==> s.take(id).alive() == s.alive(),
        s.is_executing(id) ==> s.complete(id).alive() == s.alive(),
        s.is_executing(id) ==> s.fault(id).alive() == s.alive() - 1,
        s.is_executing(id) ==> s.fault(id).size() == s.size(),
        s.is_executing(id) ==> !s.fault(id).can_take(id) && !s.fault(id).is_executing(id),
{
    if s.can_take(id) {
        alive_after_update(s.workers, id, Activity::Executing { ticket: s.dispatched });
    }
    if s.is_executing(id) {
        let ticket = s.workers[id]->Executing_ticket;
        alive_after_update(s.workers, id, Activity::Waiting);
        alive_after_update(s.workers, id, Activity::Terminated { ticket });
    }
}

} // verus!
