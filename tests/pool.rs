use echo_rs::pool::{Message, ThreadPool, WorkerState, QUEUE_CAPACITY};

fn take_job(p: &mut ThreadPool<u32>, w: usize) -> Option<u32> {
    match p.take(w) {
        Some(Message::Work(j)) => Some(j),
        Some(Message::Shutdown) => None,
        None => panic!("queue was empty"),
    }
}

#[test]
fn new_pool_has_idle_workers_and_empty_queue() {
    let p: ThreadPool<u32> = ThreadPool::new(3);
    assert_eq!(p.worker_count(), 3);
    assert_eq!(p.queued(), 0);
    assert!(!p.is_shutting_down());
    assert!(!p.all_stopped());
    for w in 0..3 {
        assert_eq!(p.worker_state(w), WorkerState::Idle);
    }
}

#[test]
fn jobs_are_handed_out_in_submission_order() {
    let mut p: ThreadPool<u32> = ThreadPool::new(2);
    assert_eq!(p.execute(10), Ok(()));
    assert_eq!(p.execute(20), Ok(()));
    assert_eq!(take_job(&mut p, 1), Some(10));
    assert_eq!(take_job(&mut p, 0), Some(20));
    assert_eq!(p.worker_state(0), WorkerState::Running);
    assert_eq!(p.worker_state(1), WorkerState::Running);
    // Completion order is free: the second job may return first.
    p.job_done(0);
    p.job_done(1);
    assert_eq!(p.worker_state(0), WorkerState::Idle);
}

#[test]
fn full_queue_hands_the_job_back_until_a_slot_frees() {
    let mut p: ThreadPool<u32> = ThreadPool::new(1);
    for j in 0..QUEUE_CAPACITY as u32 {
        assert_eq!(p.execute(j), Ok(()));
    }
    assert_eq!(p.queued(), QUEUE_CAPACITY);
    let extra = QUEUE_CAPACITY as u32;
    assert_eq!(p.execute(extra), Err(extra));
    assert_eq!(p.execute(extra), Err(extra));
    assert_eq!(p.queued(), QUEUE_CAPACITY);
    assert_eq!(take_job(&mut p, 0), Some(0));
    assert_eq!(p.execute(extra), Ok(()));
    assert_eq!(p.queued(), QUEUE_CAPACITY);
}

#[test]
fn empty_queue_leaves_worker_waiting() {
    let mut p: ThreadPool<u32> = ThreadPool::new(1);
    assert!(p.take(0).is_none());
    assert_eq!(p.worker_state(0), WorkerState::Idle);
}

fn drain_with_shutdown(size: u32, jobs: u32) -> (Vec<u32>, usize) {
    let mut p: ThreadPool<u32> = ThreadPool::new(size);
    for j in 0..jobs {
        assert_eq!(p.execute(j), Ok(()));
    }
    let mut run = Vec::new();
    let mut steps: usize = 0;
    while !p.all_stopped() {
        steps += 1;
        assert!(steps < 100_000, "shutdown did not finish");
        if p.send_stop() {
            continue;
        }
        let mut moved = false;
        for w in 0..p.worker_count() {
            match p.worker_state(w) {
                WorkerState::Running => {
                    p.job_done(w);
                    moved = true;
                }
                WorkerState::Idle if p.queued() > 0 => {
                    if let Some(j) = take_job(&mut p, w) {
                        run.push(j);
                    }
                    moved = true;
                }
                _ => {}
            }
        }
        assert!(moved, "no step was possible");
    }
    assert_eq!(p.queued(), 0);
    assert!(!p.send_stop());
    (run, steps)
}

#[test]
fn shutdown_runs_every_job_once_and_stops_every_worker() {
    for size in [1u32, 4, 16] {
        for jobs in [0u32, 1, 7, QUEUE_CAPACITY as u32] {
            let (run, _) = drain_with_shutdown(size, jobs);
            let expected: Vec<u32> = (0..jobs).collect();
            assert_eq!(run, expected);
        }
    }
}

#[test]
fn shutdown_queues_one_stop_per_worker() {
    let mut p: ThreadPool<u32> = ThreadPool::new(4);
    for _ in 0..4 {
        assert!(p.send_stop());
    }
    assert!(p.stops_all_sent());
    assert!(!p.send_stop());
    assert_eq!(p.queued(), 4);
    for w in 0..4 {
        assert_eq!(p.take(w).map(|m| matches!(m, Message::Shutdown)), Some(true));
        assert_eq!(p.worker_state(w), WorkerState::Stopped);
    }
    assert!(p.all_stopped());
}

#[test]
fn stop_orders_wait_behind_earlier_jobs() {
    let mut p: ThreadPool<u32> = ThreadPool::new(1);
    assert_eq!(p.execute(1), Ok(()));
    assert!(p.send_stop());
    assert!(p.is_shutting_down());
    assert_eq!(take_job(&mut p, 0), Some(1));
    assert!(!p.all_stopped());
    p.job_done(0);
    assert_eq!(take_job(&mut p, 0), None);
    assert!(p.all_stopped());
}

#[test]
fn two_workers_run_five_jobs_in_three_rounds() {
    // Each round every idle worker takes one job, then all running jobs
    // return: five jobs of equal length on two workers take three rounds.
    let mut p: ThreadPool<u32> = ThreadPool::new(2);
    for j in 0..5 {
        assert_eq!(p.execute(j), Ok(()));
    }
    let mut rounds = 0;
    while p.queued() > 0 {
        rounds += 1;
        for w in 0..2 {
            if p.queued() > 0 {
                assert!(take_job(&mut p, w).is_some());
            }
        }
        for w in 0..2 {
            if p.worker_state(w) == WorkerState::Running {
                p.job_done(w);
            }
        }
    }
    assert_eq!(rounds, 3);
}
