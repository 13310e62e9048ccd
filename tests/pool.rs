use httpserver::{Phase, PoolCore, Step, ThreadPoolError, WorkerState, MAX_POOL_SIZE};

#[test]
fn tp_wrong_size_zero() {
    let pool = PoolCore::<u32>::new(0);
    assert!(pool.is_err());
}

#[test]
fn tp_wrong_size_gt_100() {
    let pool = PoolCore::<u32>::new(200);
    assert!(pool.is_err());
}

#[test]
fn tp_good_size() {
    let pool = PoolCore::<u32>::new(2);
    assert!(pool.is_ok());
}

#[test]
fn zero_size_message_names_value_and_range() {
    let err = PoolCore::<u32>::new(0).err().unwrap();
    assert_eq!(
        err.message().as_str(),
        "Bad value provided for a thread pool size. 0 is not between 1 and 15"
    );
    assert_eq!(
        err.to_string(),
        "Error: Bad value provided for a thread pool size. 0 is not between 1 and 15"
    );
}

#[test]
fn large_size_message_names_value_and_range() {
    let err = PoolCore::<u32>::new(200).err().unwrap();
    assert_eq!(
        err.message().as_str(),
        "Bad value provided for a thread pool size. 200 is not between 1 and 15"
    );
}

#[test]
fn sixteen_is_refused() {
    let err = PoolCore::<u32>::new(16).err().unwrap();
    assert!(err.message().contains("16 is not between 1 and 15"));
}

#[test]
fn every_valid_size_gives_that_many_idle_workers() {
    for size in 1..=MAX_POOL_SIZE {
        let pool = PoolCore::<u32>::new(size).ok().unwrap();
        assert_eq!(pool.worker_count(), size);
        assert_eq!(pool.current_phase(), Phase::Running);
        for id in 0..size {
            assert_eq!(pool.state_of(id), WorkerState::Idle);
        }
    }
}

#[test]
fn error_from_message_keeps_text() {
    let err = ThreadPoolError::from_message("boom");
    assert_eq!(err.message().as_str(), "boom");
}

#[test]
fn idle_worker_waits_on_empty_queue() {
    let mut pool = PoolCore::<u32>::new(1).ok().unwrap();
    assert!(matches!(pool.next_step(0), Step::Wait));
    assert_eq!(pool.state_of(0), WorkerState::Idle);
}

#[test]
fn jobs_run_in_order_and_all_before_any_exit() {
    let mut pool = PoolCore::<u32>::new(2).ok().unwrap();
    for job in 0..10u32 {
        pool.submit(job);
    }
    assert_eq!(pool.pending_messages(), 10);
    assert_eq!(pool.begin_shutdown(), 2);
    assert_eq!(pool.current_phase(), Phase::Draining);
    assert_eq!(pool.pending_messages(), 12);

    let mut ran: Vec<u32> = Vec::new();
    let mut exited = [false, false];
    while !(exited[0] && exited[1]) {
        for id in 0..2 {
            if exited[id] {
                continue;
            }
            match pool.next_step(id) {
                Step::Run(job) => {
                    assert_eq!(pool.state_of(id), WorkerState::Busy);
                    ran.push(job);
                    pool.job_finished(id);
                }
                Step::Exit => {
                    assert_eq!(ran.len(), 10);
                    exited[id] = true;
                }
                Step::Wait => panic!("a draining pool always has a message"),
            }
        }
    }
    assert_eq!(ran, (0..10).collect::<Vec<u32>>());
    assert_eq!(pool.pending_messages(), 0);
    pool.worker_joined(0);
    assert_eq!(pool.current_phase(), Phase::Draining);
    pool.worker_joined(1);
    assert_eq!(pool.current_phase(), Phase::Stopped);
    assert_eq!(pool.joined_count(), 2);
}

#[test]
fn busy_workers_never_exceed_size() {
    let mut pool = PoolCore::<u32>::new(3).ok().unwrap();
    for job in 0..5u32 {
        pool.submit(job);
    }
    for id in 0..3 {
        assert!(matches!(pool.next_step(id), Step::Run(_)));
    }
    let busy = (0..3)
        .filter(|id| pool.state_of(*id) == WorkerState::Busy)
        .count();
    assert_eq!(busy, 3);
    assert_eq!(pool.pending_messages(), 2);
}

#[test]
fn shutdown_with_no_jobs_stops() {
    let mut pool = PoolCore::<u32>::new(1).ok().unwrap();
    assert_eq!(pool.begin_shutdown(), 1);
    assert!(matches!(pool.next_step(0), Step::Exit));
    assert_eq!(pool.state_of(0), WorkerState::Exited);
    pool.worker_joined(0);
    assert_eq!(pool.current_phase(), Phase::Stopped);
}
