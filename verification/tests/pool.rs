use std::cell::Cell;
use std::cell::RefCell;
use std::rc::Rc;

use thread_pool::ThreadPool;
use thread_pool::Worker;
use thread_pool::WorkerState;

type Job = Box<dyn FnOnce() -> Result<(), String>>;

fn state_of<J>(pool: &ThreadPool<J>, id: usize) -> Option<WorkerState> {
    pool.worker(id).map(|worker| worker.state())
}

/// Lets the workers take turns until nothing waits and nothing runs. A job
/// that returns an error stands for one that faults.
fn drain(pool: &mut ThreadPool<Job>) {
    loop {
        let mut progress = false;
        for id in 0..pool.size() {
            if let Some(job) = pool.take(id) {
                progress = true;
                match job() {
                    Ok(()) => assert!(pool.complete(id)),
                    Err(_) => assert!(pool.fault(id)),
                }
            }
        }
        if !progress {
            break;
        }
    }
}

#[test]
fn new_pool_has_idle_workers_in_creation_order() {
    for size in [1usize, 2, 3, 8, 64] {
        let pool: ThreadPool<u32> = ThreadPool::new(size);
        assert_eq!(pool.size(), size);
        assert_eq!(pool.queued(), 0);
        assert_eq!(pool.alive(), size);
        assert!(pool.is_open());
        for id in 0..size {
            let worker = pool.worker(id).unwrap();
            assert_eq!(worker.id(), id);
            assert_eq!(worker.state(), WorkerState::Waiting);
        }
        assert!(pool.worker(size).is_none());
    }
}

#[test]
fn new_pool_accepts_submissions_at_once() {
    for size in 1usize..=16 {
        let mut pool: ThreadPool<usize> = ThreadPool::new(size);
        assert!(pool.is_open());
        pool.execute(size);
        assert_eq!(pool.queued(), 1);
        assert_eq!(pool.take(size - 1), Some(size));
        assert_eq!(pool.queued(), 0);
    }
}

#[test]
fn worker_starts_waiting() {
    let worker = Worker::new(5);
    assert_eq!(worker.id(), 5);
    assert_eq!(worker.state(), WorkerState::Waiting);
    let other = Worker::new(0);
    assert_eq!(other.id(), 0);
    assert_eq!(other.state(), WorkerState::Waiting);
}

#[test]
fn jobs_leave_in_submission_order() {
    let mut pool: ThreadPool<&str> = ThreadPool::new(3);
    pool.execute("a");
    pool.execute("b");
    pool.execute("c");
    pool.execute("d");
    assert_eq!(pool.queued(), 4);
    assert_eq!(pool.take(2), Some("a"));
    assert_eq!(pool.take(0), Some("b"));
    assert_eq!(pool.queued(), 2);
    assert_eq!(pool.take(1), Some("c"));
    assert_eq!(pool.take(1), None);
    assert!(pool.complete(0));
    assert_eq!(pool.take(0), Some("d"));
    assert_eq!(pool.queued(), 0);
}

#[test]
fn take_gives_nothing_when_nothing_waits() {
    let mut pool: ThreadPool<u8> = ThreadPool::new(2);
    assert_eq!(pool.take(0), None);
    assert_eq!(pool.take(1), None);
    assert_eq!(state_of(&pool, 0), Some(WorkerState::Waiting));
    assert_eq!(state_of(&pool, 1), Some(WorkerState::Waiting));
}

#[test]
fn take_gives_nothing_to_an_unknown_worker() {
    let mut pool: ThreadPool<u8> = ThreadPool::new(2);
    pool.execute(1);
    assert_eq!(pool.take(2), None);
    assert_eq!(pool.take(usize::MAX), None);
    assert_eq!(pool.queued(), 1);
    assert_eq!(pool.take(1), Some(1));
}

#[test]
fn busy_worker_is_handed_nothing() {
    let mut pool: ThreadPool<u8> = ThreadPool::new(2);
    pool.execute(1);
    pool.execute(2);
    pool.execute(3);
    assert_eq!(pool.take(0), Some(1));
    assert_eq!(state_of(&pool, 0), Some(WorkerState::Executing));
    assert_eq!(pool.take(0), None);
    assert_eq!(pool.queued(), 2);
    assert_eq!(state_of(&pool, 0), Some(WorkerState::Executing));
    assert_eq!(pool.take(1), Some(2));
    assert!(pool.complete(0));
    assert_eq!(state_of(&pool, 0), Some(WorkerState::Waiting));
    assert_eq!(pool.take(0), Some(3));
}

#[test]
fn long_job_does_not_keep_others_from_the_channel() {
    let mut pool: ThreadPool<u8> = ThreadPool::new(2);
    for job in 0..5u8 {
        pool.execute(job);
    }
    assert_eq!(pool.take(0), Some(0));
    for job in 1..5u8 {
        assert_eq!(pool.take(1), Some(job));
        assert!(pool.complete(1));
    }
    assert_eq!(state_of(&pool, 0), Some(WorkerState::Executing));
    assert_eq!(pool.queued(), 0);
}

#[test]
fn complete_and_fault_need_an_executing_worker() {
    let mut pool: ThreadPool<u8> = ThreadPool::new(2);
    pool.execute(1);
    assert!(!pool.complete(0));
    assert!(!pool.fault(0));
    assert!(!pool.complete(2));
    assert!(!pool.fault(2));
    assert_eq!(state_of(&pool, 0), Some(WorkerState::Waiting));
    assert_eq!(pool.queued(), 1);
    assert_eq!(pool.take(0), Some(1));
    assert!(pool.complete(0));
    assert!(!pool.complete(0));
    assert!(!pool.fault(0));
    assert_eq!(state_of(&pool, 0), Some(WorkerState::Waiting));
}

#[test]
fn submission_does_not_wait_for_workers() {
    let mut pool: ThreadPool<usize> = ThreadPool::new(2);
    pool.execute(0);
    pool.execute(1);
    assert_eq!(pool.take(0), Some(0));
    assert_eq!(pool.take(1), Some(1));
    for job in 2..1000usize {
        pool.execute(job);
        assert_eq!(pool.queued(), job - 1);
    }
    assert_eq!(state_of(&pool, 0), Some(WorkerState::Executing));
    assert_eq!(state_of(&pool, 1), Some(WorkerState::Executing));
    assert_eq!(pool.size(), 2);
    assert!(pool.complete(1));
    assert_eq!(pool.take(1), Some(2));
    assert_eq!(pool.queued(), 997);
}

#[test]
fn every_job_runs_exactly_once() {
    for (size, jobs) in [(1usize, 1usize), (1, 17), (2, 5), (3, 50), (8, 3), (5, 0)] {
        let mut pool: ThreadPool<Job> = ThreadPool::new(size);
        let counter = Rc::new(Cell::new(0usize));
        let runs: Vec<Rc<Cell<usize>>> = (0..jobs).map(|_| Rc::new(Cell::new(0))).collect();
        for run in &runs {
            let counter = Rc::clone(&counter);
            let run = Rc::clone(run);
            pool.execute(Box::new(move || {
                counter.set(counter.get() + 1);
                run.set(run.get() + 1);
                Ok(())
            }));
        }
        assert_eq!(pool.queued(), jobs);
        assert_eq!(counter.get(), 0);
        drain(&mut pool);
        assert_eq!(counter.get(), jobs);
        for run in &runs {
            assert_eq!(run.get(), 1);
        }
        assert_eq!(pool.queued(), 0);
        for id in 0..size {
            assert_eq!(state_of(&pool, id), Some(WorkerState::Waiting));
        }
    }
}

#[test]
fn four_workers_run_a_hundred_jobs() {
    let mut pool: ThreadPool<Job> = ThreadPool::new(4);
    let seen: Rc<RefCell<Vec<usize>>> = Rc::new(RefCell::new(Vec::new()));
    for index in 0..100usize {
        let seen = Rc::clone(&seen);
        pool.execute(Box::new(move || {
            seen.borrow_mut().push(index);
            Ok(())
        }));
    }
    assert_eq!(pool.queued(), 100);

    // The workers overlap: each takes a job before the one before it has
    // reported back, and they report back in another order than they took.
    let mut running: Vec<Option<Job>> = vec![None, None, None, None];
    loop {
        for id in 0..4 {
            running[id] = pool.take(id);
        }
        if running.iter().all(|job| job.is_none()) {
            break;
        }
        for id in [2usize, 0, 3, 1] {
            if let Some(job) = running[id].take() {
                assert_eq!(job(), Ok(()));
                assert!(pool.complete(id));
            }
        }
    }

    assert_eq!(pool.queued(), 0);
    let mut got = seen.borrow().clone();
    assert_eq!(got.len(), 100);
    assert_ne!(got, (0..100).collect::<Vec<usize>>());
    got.sort();
    assert_eq!(got, (0..100).collect::<Vec<usize>>());
}

#[test]
fn single_worker_runs_jobs_one_after_the_other() {
    let mut pool: ThreadPool<Job> = ThreadPool::new(1);
    let log: Rc<RefCell<Vec<&str>>> = Rc::new(RefCell::new(Vec::new()));
    let log_a = Rc::clone(&log);
    let log_b = Rc::clone(&log);
    pool.execute(Box::new(move || {
        log_a.borrow_mut().push("a");
        Ok(())
    }));
    pool.execute(Box::new(move || {
        log_b.borrow_mut().push("b");
        Ok(())
    }));

    let a = pool.take(0).unwrap();
    // While the first job runs, the second cannot start.
    assert!(pool.take(0).is_none());
    assert_eq!(pool.queued(), 1);
    assert_eq!(a(), Ok(()));
    assert!(pool.take(0).is_none());
    assert_eq!(*log.borrow(), vec!["a"]);
    assert!(pool.complete(0));

    let b = pool.take(0).unwrap();
    assert_eq!(b(), Ok(()));
    assert!(pool.complete(0));
    assert_eq!(*log.borrow(), vec!["a", "b"]);
    assert_eq!(pool.queued(), 0);
}

#[test]
fn faulting_job_costs_one_worker() {
    let mut pool: ThreadPool<Job> = ThreadPool::new(2);
    let done: Rc<RefCell<Vec<usize>>> = Rc::new(RefCell::new(Vec::new()));
    pool.execute(Box::new(|| Err(String::from("fault"))));
    for index in 0..10usize {
        let done = Rc::clone(&done);
        pool.execute(Box::new(move || {
            done.borrow_mut().push(index);
            Ok(())
        }));
    }
    assert_eq!(pool.queued(), 11);

    drain(&mut pool);

    assert_eq!(*done.borrow(), (0..10).collect::<Vec<usize>>());
    assert_eq!(pool.queued(), 0);
    assert_eq!(state_of(&pool, 0), Some(WorkerState::Terminated));
    assert_eq!(state_of(&pool, 1), Some(WorkerState::Waiting));
    // The pool still lists both workers, and the lost one stays lost.
    assert_eq!(pool.size(), 2);
    assert_eq!(pool.alive(), 1);
    assert!(pool.is_open());
    pool.execute(Box::new(|| Ok(())));
    assert!(pool.take(0).is_none());
    assert!(!pool.complete(0));
    assert!(!pool.fault(0));
    assert_eq!(state_of(&pool, 0), Some(WorkerState::Terminated));
    let job = pool.take(1).unwrap();
    assert_eq!(job(), Ok(()));
    assert!(pool.complete(1));
}

#[test]
fn channel_closes_when_the_last_worker_is_lost() {
    let mut pool: ThreadPool<u8> = ThreadPool::new(2);
    pool.execute(1);
    pool.execute(2);
    pool.execute(3);
    assert_eq!(pool.take(0), Some(1));
    assert_eq!(pool.take(1), Some(2));
    assert_eq!(pool.alive(), 2);
    assert!(pool.fault(0));
    assert_eq!(pool.alive(), 1);
    assert!(pool.is_open());
    assert!(pool.fault(1));
    assert_eq!(pool.alive(), 0);
    assert!(!pool.is_open());
    // What still waits is never handed out.
    assert_eq!(pool.queued(), 1);
    assert_eq!(pool.take(0), None);
    assert_eq!(pool.take(1), None);
    assert_eq!(pool.queued(), 1);
    assert_eq!(pool.size(), 2);
}
