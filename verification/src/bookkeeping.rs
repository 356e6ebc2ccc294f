//! Why the books of the pool stay consistent: each step keeps them so, and
//! so does every run of steps.
use crate::model::count_alive;
use crate::model::is_run;
use crate::model::PoolState;
use crate::worker::Activity;
use vstd::prelude::*;

verus! {

/// Workers that are all idle are all alive.
pub proof fn idle_workers_are_alive(workers: Seq<Activity>)
    requires
        forall|id: int| 0 <= id < workers.len() ==> workers[id] == Activity::Waiting,
    ensures
        count_alive(workers) == workers.len(),
    decreases workers.len(),
{
    if workers.len() > 0 {
        idle_workers_are_alive(workers.drop_last());
    }
}

/// There are no more workers alive than workers, and one is alive exactly if
/// some worker is not lost.
pub proof fn alive_workers_exist(workers: Seq<Activity>)
    ensures
        count_alive(workers) <= workers.len(),
        count_alive(workers) > 0 <==> exists|id: int|
            0 <= id < workers.len() && !(#[trigger] workers[id] is Terminated),
    decreases workers.len(),
{
    if workers.len() > 0 {
        let head = workers.drop_last();
        let last = workers.len() - 1;
        alive_workers_exist(head);
        if workers[last] is Terminated {
            if count_alive(workers) > 0 {
                let id = choose|id: int| 0 <= id < head.len() && !(#[trigger] head[id] is Terminated);
                assert(!(workers[id] is Terminated));
            }
            if exists|id: int| 0 <= id < workers.len() && !(#[trigger] workers[id] is Terminated) {
                let id = choose|id: int|
                    0 <= id < workers.len() && !(#[trigger] workers[id] is Terminated);
                assert(!(head[id] is Terminated));
            }
        } else {
            assert(!(workers[last] is Terminated));
        }
    }
}

/// All workers are alive exactly if none is lost.
pub proof fn healthy_means_all_alive(workers: Seq<Activity>)
    ensures
        count_alive(workers) == workers.len() <==> forall|id: int|
            0 <= id < workers.len() ==> !(#[trigger] workers[id] is Terminated),
    decreases workers.len(),
{
    if workers.len() > 0 {
        let head = workers.drop_last();
        let last = workers.len() - 1;
        healthy_means_all_alive(head);
        alive_workers_exist(head);
        if count_alive(workers) == workers.len() {
            assert forall|id: int| 0 <= id < workers.len() implies !(#[trigger] workers[id] is Terminated) by {
                if id < last {
                    assert(!(head[id] is Terminated));
                }
            }
        }
        if forall|id: int| 0 <= id < workers.len() ==> !(#[trigger] workers[id] is Terminated) {
            assert(!(workers[last] is Terminated));
            assert forall|id: int| 0 <= id < head.len() implies !(#[trigger] head[id] is Terminated) by {
                assert(!(workers[id] is Terminated));
            }
        }
    }
}

/// Replacing one worker's activity changes the number of workers alive by
/// that worker alone.
pub proof fn alive_after_update(workers: Seq<Activity>, id: int, activity: Activity)
    requires
        0 <= id < workers.len(),
    ensures
        count_alive(workers.update(id, activity)) + (if workers[id] is Terminated {
            0nat
        } else {
            1nat
        }) == count_alive(workers) + (if activity is Terminated {
            0nat
        } else {
            1nat
        }),
    decreases workers.len(),
{
    let after = workers.update(id, activity);
    if id == workers.len() - 1 {
        assert(after.drop_last() =~= workers.drop_last());
    } else {
        assert(after.drop_last() =~= workers.drop_last().update(id, activity));
        alive_after_update(workers.drop_last(), id, activity);
    }
}

/// A submission keeps the books consistent.
pub proof fn submit_preserves_inv<J>(s: PoolState<J>, job: J)
    requires
        s.inv(),
    ensures
        s.submit(job).inv(),
{
    let n = s.submit(job);
    assert forall|id: int, t: nat| n.holds(id, t) == s.holds(id, t) by {}
    assert forall|t: nat| t < n.dispatched implies n.completed.contains(t) || #[trigger] n.held(t) by {
        if !s.completed.contains(t) {
            assert(s.held(t));
            let id = choose|id: int| s.holds(id, t);
            assert(n.holds(id, t));
        }
    }
}

/// Handing a job to an idle worker keeps the books consistent.
pub proof fn take_preserves_inv<J>(s: PoolState<J>, id: int)
    requires
        s.inv(),
        s.can_take(id),
    ensures
        s.take(id).inv(),
{
    let n = s.take(id);
    let d = s.dispatched;
    assert forall|w: int, t: nat| n.holds(w, t) <==> (w == id && t == d) || (w != id && s.holds(
        w,
        t,
    )) by {}
    assert(n.holds(id, d));
    assert forall|t: nat| t < n.dispatched implies n.completed.contains(t) || #[trigger] n.held(t) by {
        if t == d {
            assert(n.holds(id, t));
        } else if !s.completed.contains(t) {
            assert(s.held(t));
            let w = choose|w: int| s.holds(w, t);
            assert(n.holds(w, t));
        }
    }
    if n.workers.len() == 1 {
        assert(s.workers.len() == 1);
    }
}

/// A job that returns is entered as completed, once, and the books stay
/// consistent. On a pool of one worker the jobs complete in ticket order.
pub proof fn complete_preserves_inv<J>(s: PoolState<J>, id: int)
    requires
        s.inv(),
        s.is_executing(id),
    ensures
        s.complete(id).inv(),
{
    broadcast use vstd::seq_lib::lemma_seq_contains_after_push;

    let n = s.complete(id);
    let t0 = s.workers[id]->Executing_ticket;
    assert(s.holds(id, t0));
    assert forall|w: int, t: nat| n.holds(w, t) <==> (w != id && s.holds(w, t)) by {}
    assert forall|t: nat| n.completed.contains(t) <==> (s.completed.contains(t) || t == t0) by {}
    assert(n.completed.no_duplicates()) by {
        assert forall|i: int, j: int|
            0 <= i < n.completed.len() && 0 <= j < n.completed.len() && i != j implies n.completed[i]
            != n.completed[j] by {
            if i == s.completed.len() {
                assert(s.completed.contains(n.completed[j]));
            } else if j == s.completed.len() {
                assert(s.completed.contains(n.completed[i]));
            }
        }
    }
    assert forall|w: int, t: nat| #[trigger] n.holds(w, t) implies t < n.dispatched
        && !n.completed.contains(t) by {
        assert(s.holds(w, t));
        if t == t0 {
            assert(s.holds(id, t0));
        }
    }
    assert forall|t: nat| t < n.dispatched implies n.completed.contains(t) || #[trigger] n.held(t) by {
        if !n.completed.contains(t) {
            assert(s.held(t));
            let w = choose|w: int| s.holds(w, t);
            assert(n.holds(w, t));
        }
    }
    if n.workers.len() == 1 {
        assert(id == 0);
        let k = s.completed.len();
        assert forall|i: int| 0 <= i < n.completed.len() implies #[trigger] n.completed[i] == i by {
            if i == k {
                // Every ticket below `k` is completed, so `t0` is not below `k`.
                if t0 < k {
                    assert(s.completed[t0 as int] == t0);
                    assert(s.completed.contains(t0));
                }
                // The ticket `k` is dispatched and not completed, so the only
                // worker holds it.
                if t0 > k {
                    assert(!s.completed.contains(k)) by {
                        if s.completed.contains(k) {
                            let j = choose|j: int| 0 <= j < s.completed.len() && s.completed[j] == k;
                            assert(s.completed[j] == j);
                        }
                    }
                    assert(s.held(k));
                    let w = choose|w: int| s.holds(w, k);
                    assert(w == 0);
                }
            } else {
                assert(n.completed[i] == s.completed[i]);
            }
        }
    }
}

/// A worker lost to a faulting job keeps the ticket of that job, and the
/// books stay consistent.
pub proof fn fault_preserves_inv<J>(s: PoolState<J>, id: int)
    requires
        s.inv(),
        s.is_executing(id),
    ensures
        s.fault(id).inv(),
{
    let n = s.fault(id);
    assert forall|w: int, t: nat| n.holds(w, t) == s.holds(w, t) by {}
    assert forall|t: nat| t < n.dispatched implies n.completed.contains(t) || #[trigger] n.held(t) by {
        if !s.completed.contains(t) {
            assert(s.held(t));
            let w = choose|w: int| s.holds(w, t);
            assert(n.holds(w, t));
        }
    }
}

/// Consistent books stay consistent across every step.
pub proof fn step_preserves_inv<J>(before: PoolState<J>, after: PoolState<J>)
    requires
        before.inv(),
        before.next(after),
    ensures
        after.inv(),
{
    if exists|job: J| before.is_open() && after == #[trigger] before.submit(job) {
        let job = choose|job: J| before.is_open() && after == #[trigger] before.submit(job);
        submit_preserves_inv(before, job);
    } else if exists|id: int| before.can_take(id) && after == #[trigger] before.take(id) {
        let id = choose|id: int| before.can_take(id) && after == #[trigger] before.take(id);
        take_preserves_inv(before, id);
    } else if exists|id: int| before.is_executing(id) && after == #[trigger] before.complete(id) {
        let id = choose|id: int| before.is_executing(id) && after == #[trigger] before.complete(id);
        complete_preserves_inv(before, id);
    } else {
        let id = choose|id: int| before.is_executing(id) && after == #[trigger] before.fault(id);
        fault_preserves_inv(before, id);
    }
}

/// No step takes anything back: the pool keeps its size, a submitted job
/// stays submitted under its ticket, a dispatched job is never dispatched
/// again, a completed job stays completed, and a lost worker stays lost.
pub proof fn step_keeps_history<J>(before: PoolState<J>, after: PoolState<J>)
    requires
        before.inv(),
        before.next(after),
    ensures
        after.size() == before.size(),
        before.accepted.is_prefix_of(after.accepted),
        before.dispatched <= after.dispatched,
        before.completed.is_prefix_of(after.completed),
        forall|id: int|
            before.has_worker(id) && #[trigger] before.workers[id] is Terminated
                ==> after.workers[id] == before.workers[id],
{
    if exists|job: J| before.is_open() && after == #[trigger] before.submit(job) {
        let job = choose|job: J| before.is_open() && after == #[trigger] before.submit(job);
        assert(before.accepted.is_prefix_of(after.accepted));
    } else if exists|id: int| before.can_take(id) && after == #[trigger] before.take(id) {
    } else if exists|id: int| before.is_executing(id) && after == #[trigger] before.complete(id) {
        assert(before.completed.is_prefix_of(after.completed));
    } else {
    }
}

/// Along a run that starts with consistent books, the books stay consistent
/// and nothing is taken back.
pub proof fn run_keeps_the_books<J>(states: Seq<PoolState<J>>, i: int)
    requires
        is_run(states),
        0 <= i < states.len(),
        states[0].inv(),
    ensures
        states[i].inv(),
        states[i].size() == states[0].size(),
        states[0].accepted.is_prefix_of(states[i].accepted),
        states[0].dispatched <= states[i].dispatched,
        states[0].completed.is_prefix_of(states[i].completed),
        forall|id: int|
            states[0].has_worker(id) && #[trigger] states[0].workers[id] is Terminated
                ==> states[i].workers[id] == states[0].workers[id],
    decreases i,
{
    if i > 0 {
        let before = states[i - 1];
        run_keeps_the_books(states, i - 1);
        assert(before.next(states[i - 1 + 1]));
        step_preserves_inv(before, states[i]);
        step_keeps_history(before, states[i]);
    }
}

/// Whatever state a pool reaches from a state with consistent books, its
/// books are consistent, it has the workers it had, every job submitted or
/// completed before is still on record under its ticket, and a worker that
/// was lost is still lost.
pub proof fn reachable_states_keep_the_books<J>(before: PoolState<J>, after: PoolState<J>)
    requires
        before.inv(),
        before.reaches(after),
    ensures
        after.inv(),
        after.size() == before.size(),
        before.accepted.is_prefix_of(after.accepted),
        before.dispatched <= after.dispatched,
        before.completed.is_prefix_of(after.completed),
        forall|id: int|
            before.has_worker(id) && #[trigger] before.workers[id] is Terminated
                ==> after.workers[id] == before.workers[id],
{
    let states = choose|states: Seq<PoolState<J>>| #[trigger]
        is_run(states) && states.len() > 0 && states.first() == before && states.last() == after;
    run_keeps_the_books(states, states.len() - 1);
}

/// Every state reaches itself, and a state that is reached can be left by one
/// more step.
pub proof fn reaches_one_more<J>(start: PoolState<J>, before: PoolState<J>, after: PoolState<J>)
    requires
        start.reaches(before),
        before.next(after),
    ensures
        start.reaches(start),
        start.reaches(after),
{
    let alone = seq![start];
    assert(is_run(alone) && alone.len() > 0 && alone.first() == start && alone.last() == start);
    let states = choose|states: Seq<PoolState<J>>| #[trigger]
        is_run(states) && states.len() > 0 && states.first() == start && states.last() == before;
    let longer = states.push(after);
    assert forall|i: int| 0 <= i < longer.len() - 1 implies (#[trigger] longer[i]).next(
        longer[i + 1],
    ) by {
        if i < states.len() - 1 {
            assert(states[i].next(states[i + 1]));
        }
    }
    assert(is_run(longer) && longer.len() > 0 && longer.first() == start && longer.last() == after);
}

} // verus!
