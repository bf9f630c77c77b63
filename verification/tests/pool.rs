use std::cell::RefCell;
use std::rc::Rc;
use taskpool::model::{PoolState, Stop, WorkerState};
use taskpool::pool::{Shutdown, ThreadPool};

type Job = Box<dyn FnOnce()>;

fn appending_job(log: &Rc<RefCell<Vec<usize>>>, index: usize) -> Job {
    let log = Rc::clone(log);
    Box::new(move || log.borrow_mut().push(index))
}

#[test]
fn new_pool_is_running_with_all_workers_live() {
    let pool: ThreadPool<u32> = ThreadPool::new(4);
    assert_eq!(pool.size(), 4);
    assert_eq!(pool.state(), PoolState::Running);
    assert_eq!(pool.queued(), 0);
    for id in 0..4 {
        assert_eq!(pool.worker_state(id), WorkerState::Running);
    }
}

#[test]
fn every_submitted_task_runs_exactly_once() {
    for workers in 1..=5usize {
        for tasks in [0usize, 1, 2, 10, 37] {
            let log = Rc::new(RefCell::new(Vec::new()));
            let mut pool: ThreadPool<Job> = ThreadPool::new(workers);
            for index in 0..tasks {
                pool.execute(appending_job(&log, index));
            }
            assert_eq!(pool.queued(), tasks);
            let report = pool.shutdown();
            assert_eq!(
                report,
                Shutdown { markers_sent: workers, workers_joined: workers, jobs_run: tasks }
            );
            let mut seen = log.borrow().clone();
            seen.sort();
            assert_eq!(seen, (0..tasks).collect::<Vec<usize>>());
        }
    }
}

#[test]
fn shutdown_with_no_tasks_joins_every_worker() {
    for workers in [1usize, 2, 3, 8, 64] {
        let pool: ThreadPool<Job> = ThreadPool::new(workers);
        let report = pool.shutdown();
        assert_eq!(report.jobs_run, 0);
        assert_eq!(report.markers_sent, workers);
        assert_eq!(report.workers_joined, workers);
    }
}

#[test]
fn teardown_queues_one_marker_per_worker_and_each_worker_takes_one() {
    for workers in 1..=6usize {
        let mut pool: ThreadPool<u32> = ThreadPool::new(workers);
        pool.execute(100);
        pool.execute(200);
        assert_eq!(pool.begin_shutdown(), workers);
        assert_eq!(pool.queued(), 2 + workers);
        // The last worker takes the two jobs, then every worker asks for
        // messages until it is told to stop.
        assert_eq!(pool.worker_receive(workers - 1), Ok(100));
        assert_eq!(pool.worker_receive(workers - 1), Ok(200));
        let mut receipts = 0;
        for id in 0..workers {
            assert_eq!(pool.worker_receive(id), Err(Stop::Terminated));
            receipts += 1;
            assert_eq!(pool.worker_state(id), WorkerState::Exited);
            // It is never signalled twice.
            assert_eq!(pool.worker_receive(id), Err(Stop::Exited));
        }
        assert_eq!(receipts, workers);
        assert_eq!(pool.queued(), 0);
        let mut joins = 0;
        for id in 0..workers {
            if pool.join_worker(id) {
                joins += 1;
            }
            assert!(!pool.join_worker(id));
        }
        assert_eq!(joins, workers);
        assert!(pool.finish());
        assert_eq!(pool.state(), PoolState::Terminated);
    }
}

#[test]
fn interleaved_submissions_are_neither_lost_nor_duplicated() {
    // Three callers submit in turn while four workers take jobs in a rotating
    // order; the jobs come out once each, in the order they went in.
    let mut pool: ThreadPool<(usize, usize)> = ThreadPool::new(4);
    let mut sent = Vec::new();
    let mut got = Vec::new();
    let mut turn = 0usize;
    for round in 0..25usize {
        for caller in 0..3usize {
            pool.execute((caller, round));
            sent.push((caller, round));
            if (round + caller) % 2 == 0 {
                turn = (turn + 3) % 4;
                if let Ok(job) = pool.worker_receive(turn) {
                    got.push(job);
                }
            }
        }
    }
    assert_eq!(sent.len(), 75);
    pool.begin_shutdown();
    let mut live = 4;
    while live > 0 {
        turn = (turn + 1) % 4;
        match pool.worker_receive(turn) {
            Ok(job) => got.push(job),
            Err(Stop::Terminated) => live -= 1,
            Err(Stop::Exited) => {}
            Err(other) => panic!("unexpected {:?}", other),
        }
    }
    assert_eq!(got, sent);
    assert_eq!(pool.queued(), 0);
    for id in 0..4 {
        assert!(pool.join_worker(id));
    }
    assert!(pool.finish());
}

#[test]
fn idle_worker_finds_nothing_and_changes_nothing() {
    let mut pool: ThreadPool<u32> = ThreadPool::new(2);
    assert_eq!(pool.worker_receive(0), Err(Stop::Idle));
    assert_eq!(pool.worker_receive(1), Err(Stop::Idle));
    assert_eq!(pool.state(), PoolState::Running);
    assert_eq!(pool.worker_state(0), WorkerState::Running);
    pool.execute(9);
    assert_eq!(pool.worker_receive(1), Ok(9));
    assert_eq!(pool.worker_receive(0), Err(Stop::Idle));
}

#[test]
fn life_cycle_moves_forward_only() {
    let mut pool: ThreadPool<u32> = ThreadPool::new(2);
    assert_eq!(pool.state(), PoolState::Running);
    // Nothing to finish while the pool runs, and nobody to join.
    assert!(!pool.finish());
    assert!(!pool.join_worker(0));
    assert_eq!(pool.state(), PoolState::Running);

    pool.begin_shutdown();
    assert_eq!(pool.state(), PoolState::ShuttingDown);
    // Workers have not exited yet: the pool cannot terminate.
    assert!(!pool.finish());
    assert_eq!(pool.state(), PoolState::ShuttingDown);

    assert_eq!(pool.worker_receive(0), Err(Stop::Terminated));
    assert!(pool.join_worker(0));
    assert!(!pool.finish());
    assert_eq!(pool.state(), PoolState::ShuttingDown);

    assert_eq!(pool.worker_receive(1), Err(Stop::Terminated));
    assert!(pool.join_worker(1));
    assert!(pool.finish());
    assert_eq!(pool.state(), PoolState::Terminated);

    // Terminated is final.
    assert!(pool.finish());
    assert_eq!(pool.state(), PoolState::Terminated);
    assert_eq!(pool.worker_receive(0), Err(Stop::Exited));
    assert!(!pool.join_worker(1));
    assert_eq!(pool.worker_state(0), WorkerState::Joined);
    assert_eq!(pool.worker_state(1), WorkerState::Joined);
    assert_eq!(pool.state(), PoolState::Terminated);
}

#[test]
fn run_worker_drains_pending_jobs_in_order() {
    let log = Rc::new(RefCell::new(Vec::new()));
    let mut pool: ThreadPool<Job> = ThreadPool::new(3);
    for index in 0..5 {
        pool.execute(appending_job(&log, index));
    }
    let run = pool.run_worker(1);
    assert_eq!(run.jobs_run, 5);
    assert_eq!(run.stop, Stop::Idle);
    assert_eq!(*log.borrow(), vec![0, 1, 2, 3, 4]);
    assert_eq!(pool.queued(), 0);
    assert_eq!(pool.worker_state(1), WorkerState::Running);

    pool.execute(appending_job(&log, 5));
    pool.begin_shutdown();
    let run = pool.run_worker(2);
    assert_eq!(run.jobs_run, 1);
    assert_eq!(run.stop, Stop::Terminated);
    assert_eq!(pool.worker_state(2), WorkerState::Exited);
    assert_eq!(pool.queued(), 2);
    let again = pool.run_worker(2);
    assert_eq!(again.jobs_run, 0);
    assert_eq!(again.stop, Stop::Exited);
    assert_eq!(*log.borrow(), vec![0, 1, 2, 3, 4, 5]);
}

#[test]
fn jobs_taken_before_teardown_are_not_run_again() {
    let log = Rc::new(RefCell::new(Vec::new()));
    let mut pool: ThreadPool<Job> = ThreadPool::new(2);
    for index in 0..4 {
        pool.execute(appending_job(&log, index));
    }
    match pool.worker_receive(0) {
        Ok(job) => job(),
        Err(stop) => panic!("unexpected {:?}", stop),
    }
    let report = pool.shutdown();
    assert_eq!(report, Shutdown { markers_sent: 2, workers_joined: 2, jobs_run: 3 });
    assert_eq!(*log.borrow(), vec![0, 1, 2, 3]);
}
