use web_server::pool::PollOutcome;
use web_server::pool::ThreadPool;
use web_server::queue::DispatchQueue;
use web_server::queue::RecvOutcome;
use web_server::worker::Worker;
use web_server::worker::WorkerState;

fn pool_of(size: usize) -> ThreadPool {
    ThreadPool::new(size, &vec![true; size]).unwrap()
}

/// Drive one worker until it stops, returning the jobs it ran in order.
fn run_worker_down(pool: &mut ThreadPool, w: usize) -> Vec<u64> {
    let mut ran = Vec::new();
    loop {
        match pool.worker_poll(w) {
            PollOutcome::Started { job } => {
                ran.push(job);
                pool.worker_finish(w, false);
            }
            PollOutcome::WouldBlock => panic!("worker would block during drain"),
            PollOutcome::Halted => return ran,
        }
    }
}

#[test]
fn new_pool_then_shutdown_terminates() {
    for size in 1..5usize {
        let mut pool = pool_of(size);
        pool.shutdown();
        assert!(pool.execute(1).is_err());
    }
}

#[test]
fn spawn_failure_reports_an_error() {
    assert!(ThreadPool::new(3, &vec![true, false, true]).is_err());
    assert!(ThreadPool::new(1, &vec![false]).is_err());
    assert!(ThreadPool::new(2, &vec![true, true]).is_ok());
}

#[test]
fn submissions_are_delivered_in_fifo_order() {
    let mut pool = pool_of(2);
    for job in 10..20u64 {
        assert!(pool.execute(job).is_ok());
    }
    // Two workers take turns; delivery order follows submission order.
    let first: u64 = match pool.worker_poll(0) {
        PollOutcome::Started { job } => job,
        _ => panic!("expected a job"),
    };
    let second: u64 = match pool.worker_poll(1) {
        PollOutcome::Started { job } => job,
        _ => panic!("expected a job"),
    };
    assert_eq!(first, 10);
    assert_eq!(second, 11);
    pool.worker_finish(0, false);
    pool.worker_finish(1, false);
    pool.close();
    let mut rest = run_worker_down(&mut pool, 0);
    let mut ran = vec![first, second];
    ran.append(&mut rest);
    assert_eq!(ran, (10..20u64).collect::<Vec<u64>>());
    assert!(matches!(pool.worker_poll(1), PollOutcome::Halted));
}

#[test]
fn ten_jobs_on_two_workers_all_run() {
    let mut pool = pool_of(2);
    let mut counter: u64 = 0;
    for job in 0..10u64 {
        assert!(pool.execute(job).is_ok());
    }
    // Alternate the two workers until the queue runs dry.
    let mut w: usize = 0;
    loop {
        match pool.worker_poll(w) {
            PollOutcome::Started { job: _ } => {
                counter += 1;
                pool.worker_finish(w, false);
            }
            PollOutcome::WouldBlock => break,
            PollOutcome::Halted => break,
        }
        w = 1 - w;
    }
    assert_eq!(counter, 10);
    pool.shutdown();
    assert!(pool.execute(99).is_err());
}

#[test]
fn failing_job_does_not_block_later_jobs() {
    let mut pool = pool_of(1);
    assert!(pool.execute(1).is_ok());
    assert!(pool.execute(2).is_ok());
    assert!(matches!(pool.worker_poll(0), PollOutcome::Started { job: 1 }));
    // The first job fails inside; the worker still takes the next one.
    pool.worker_finish(0, true);
    assert!(matches!(pool.worker_poll(0), PollOutcome::Started { job: 2 }));
    pool.worker_finish(0, false);
    pool.shutdown();
}

#[test]
fn interleaved_submitters_lose_nothing() {
    let mut pool = pool_of(2);
    // Two producers alternate while the workers are busy; every
    // submission is accepted and every job is delivered, in order.
    for round in 0..50u64 {
        assert!(pool.execute(2 * round).is_ok());
        assert!(pool.execute(2 * round + 1).is_ok());
    }
    pool.close();
    let ran = run_worker_down(&mut pool, 0);
    assert_eq!(ran, (0..100u64).collect::<Vec<u64>>());
}

#[test]
fn shutdown_twice_is_safe() {
    let mut pool = pool_of(3);
    assert!(pool.execute(7).is_ok());
    pool.shutdown();
    // The second call returns at once and changes nothing.
    pool.shutdown();
    assert!(pool.execute(8).is_err());
}

#[test]
fn single_worker_runs_jobs_strictly_in_order() {
    let mut pool = pool_of(1);
    let job_a: u64 = 1;
    let job_b: u64 = 2;
    assert!(pool.execute(job_a).is_ok());
    assert!(pool.execute(job_b).is_ok());
    // With one worker, the second job cannot start before the first
    // has finished: the worker must finish before polling again.
    assert!(matches!(pool.worker_poll(0), PollOutcome::Started { job: 1 }));
    pool.worker_finish(0, false);
    assert!(matches!(pool.worker_poll(0), PollOutcome::Started { job: 2 }));
    pool.worker_finish(0, false);
    pool.close();
    assert!(matches!(pool.worker_poll(0), PollOutcome::Halted));
}

#[test]
fn idle_worker_waits_while_the_queue_is_open() {
    let mut pool = pool_of(1);
    assert!(matches!(pool.worker_poll(0), PollOutcome::WouldBlock));
    assert!(pool.execute(5).is_ok());
    assert!(matches!(pool.worker_poll(0), PollOutcome::Started { job: 5 }));
    pool.worker_finish(0, false);
}

#[test]
fn queue_is_fifo_and_drains_after_close() {
    let mut q = DispatchQueue::new();
    assert!(q.send(1).is_ok());
    assert!(q.send(2).is_ok());
    q.close();
    assert!(q.send(3).is_err());
    assert!(matches!(q.recv(), RecvOutcome::Job { job: 1 }));
    assert!(matches!(q.recv(), RecvOutcome::Job { job: 2 }));
    assert!(matches!(q.recv(), RecvOutcome::Disconnected));
}

#[test]
fn open_empty_queue_reports_empty() {
    let mut q = DispatchQueue::new();
    assert!(matches!(q.recv(), RecvOutcome::Empty));
    assert_eq!(q.pending_len(), 0);
    assert!(q.send(4).is_ok());
    assert_eq!(q.pending_len(), 1);
}

#[test]
fn fresh_worker_is_idle() {
    let worker = Worker::new(3);
    assert_eq!(worker.id, 3);
    assert!(matches!(worker.state, WorkerState::Idle));
}
