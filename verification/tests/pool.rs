use hello::Action;
use hello::JobOutcome;
use hello::Message;
use hello::ThreadPool;
use hello::Worker;
use hello::WorkerState;

fn count(pool: &ThreadPool<usize>, state: WorkerState) -> usize {
    pool.count_in(state)
}

/// Lets every worker take steps in turn until none can take one, and
/// returns the jobs in the order in which they ended.
fn drive(pool: &mut ThreadPool<usize>) -> Vec<usize> {
    let size = pool.size();
    drive_from(pool, vec![None; size])
}

/// As `drive`, for a pool whose workers already hold the jobs `in_hand`.
fn drive_from(pool: &mut ThreadPool<usize>, mut in_hand: Vec<Option<usize>>) -> Vec<usize> {
    let size = pool.size();
    let mut ended = Vec::new();
    let mut progress = true;
    while progress {
        progress = false;
        for id in 0..size {
            match pool.state_of(id) {
                Some(WorkerState::Idle) => match pool.claim(id) {
                    Some(Action::Run(job)) => {
                        in_hand[id] = Some(job);
                        progress = true;
                    }
                    Some(Action::Exit) => progress = true,
                    None => {}
                },
                Some(WorkerState::Running) => {
                    assert!(pool.running() <= size);
                    ended.push(in_hand[id].take().unwrap());
                    pool.complete(id, JobOutcome::Completed);
                    progress = true;
                }
                Some(WorkerState::Stopped) => {}
                None => unreachable!(),
            }
        }
    }
    ended
}

#[test]
fn new_worker_is_idle() {
    let worker = Worker::new(3);
    assert_eq!(worker.id(), 3);
    assert_eq!(worker.state(), WorkerState::Idle);
}

#[test]
fn worker_runs_a_job_and_becomes_idle_again() {
    let mut worker = Worker::new(0);
    let action = worker.receive(Message::NewJob(41));
    assert_eq!(action, Action::Run(41));
    assert_eq!(worker.state(), WorkerState::Running);
    worker.finish();
    assert_eq!(worker.state(), WorkerState::Idle);
    assert_eq!(worker.id(), 0);
}

#[test]
fn worker_stops_on_terminate() {
    let mut worker = Worker::new(5);
    let action = worker.receive(Message::<u8>::Terminate);
    assert_eq!(action, Action::Exit);
    assert_eq!(worker.state(), WorkerState::Stopped);
    assert_eq!(worker.id(), 5);
}

#[test]
fn new_pool_has_idle_workers_and_an_empty_queue() {
    let pool: ThreadPool<usize> = ThreadPool::new(4);
    assert_eq!(pool.size(), 4);
    assert_eq!(pool.pending(), 0);
    assert!(!pool.is_closing());
    assert!(!pool.all_stopped());
    assert_eq!(pool.running(), 0);
    assert_eq!(pool.fault_count(), 0);
    for id in 0..4 {
        assert_eq!(pool.state_of(id), Some(WorkerState::Idle));
    }
    assert_eq!(pool.state_of(4), None);
}

#[test]
fn idle_worker_waits_on_an_empty_queue() {
    let mut pool: ThreadPool<usize> = ThreadPool::new(2);
    assert_eq!(pool.claim(0), None);
    assert_eq!(pool.state_of(0), Some(WorkerState::Idle));
    assert_eq!(pool.pending(), 0);
}

#[test]
fn jobs_are_claimed_oldest_first() {
    let mut pool: ThreadPool<usize> = ThreadPool::new(3);
    for job in [10, 20, 30] {
        assert_eq!(pool.execute(job), Ok(()));
    }
    assert_eq!(pool.pending(), 3);
    assert_eq!(pool.claim(2), Some(Action::Run(10)));
    assert_eq!(pool.claim(0), Some(Action::Run(20)));
    assert_eq!(pool.pending(), 1);
    assert_eq!(pool.state_of(0), Some(WorkerState::Running));
    assert_eq!(pool.state_of(1), Some(WorkerState::Idle));
    assert_eq!(pool.state_of(2), Some(WorkerState::Running));
    assert_eq!(pool.running(), 2);
    pool.complete(2, JobOutcome::Completed);
    assert_eq!(pool.claim(2), Some(Action::Run(30)));
    assert_eq!(pool.pending(), 0);
}

#[test]
fn never_more_jobs_in_execution_than_workers() {
    for size in [1usize, 2, 8] {
        let mut pool: ThreadPool<usize> = ThreadPool::new(size);
        for job in 0..3 * size {
            assert_eq!(pool.execute(job), Ok(()));
        }
        let mut in_hand = Vec::new();
        for id in 0..size {
            assert_eq!(pool.claim(id), Some(Action::Run(id)));
            in_hand.push(Some(id));
            assert_eq!(pool.running(), id + 1);
        }
        assert_eq!(pool.running(), size);
        assert_eq!(count(&pool, WorkerState::Idle), 0);
        assert_eq!(pool.pending(), 2 * size);
        pool.shutdown();
        let ended = drive_from(&mut pool, in_hand);
        assert_eq!(ended.len(), 3 * size);
        assert_eq!(pool.running(), 0);
    }
}

#[test]
fn every_job_submitted_before_shutdown_runs_exactly_once() {
    for size in [1usize, 2, 8] {
        let jobs = 50;
        let mut pool: ThreadPool<usize> = ThreadPool::new(size);
        for job in 0..jobs {
            assert_eq!(pool.execute(job), Ok(()));
        }
        pool.shutdown();
        let mut ended = drive(&mut pool);
        assert!(pool.all_stopped());
        ended.sort();
        let expected: Vec<usize> = (0..jobs).collect();
        assert_eq!(ended, expected);
        assert_eq!(pool.pending(), 0);
    }
}

#[test]
fn jobs_run_while_others_are_still_submitted() {
    let mut pool: ThreadPool<usize> = ThreadPool::new(2);
    let mut ended = Vec::new();
    for job in 0..10 {
        assert_eq!(pool.execute(job), Ok(()));
        ended.extend(drive(&mut pool));
    }
    pool.shutdown();
    ended.extend(drive(&mut pool));
    assert_eq!(ended, (0..10).collect::<Vec<usize>>());
    assert!(pool.all_stopped());
}

#[test]
fn shutdown_sends_one_notice_for_each_worker() {
    let mut pool: ThreadPool<usize> = ThreadPool::new(4);
    assert_eq!(pool.execute(1), Ok(()));
    pool.shutdown();
    assert!(pool.is_closing());
    assert_eq!(pool.pending(), 5);
    assert_eq!(pool.claim(0), Some(Action::Run(1)));
    for id in 1..4 {
        assert_eq!(pool.claim(id), Some(Action::Exit));
        assert_eq!(pool.state_of(id), Some(WorkerState::Stopped));
    }
    assert!(!pool.all_stopped());
    assert_eq!(pool.pending(), 1);
    pool.complete(0, JobOutcome::Completed);
    assert_eq!(pool.claim(0), Some(Action::Exit));
    assert!(pool.all_stopped());
    assert_eq!(pool.pending(), 0);
}

#[test]
fn shutdown_of_an_idle_pool_stops_every_worker() {
    for size in [1usize, 2, 8] {
        let mut pool: ThreadPool<usize> = ThreadPool::new(size);
        pool.shutdown();
        assert_eq!(pool.pending(), size);
        assert!(drive(&mut pool).is_empty());
        assert!(pool.all_stopped());
        assert_eq!(count(&pool, WorkerState::Stopped), size);
    }
}

#[test]
fn second_shutdown_changes_nothing() {
    let mut pool: ThreadPool<usize> = ThreadPool::new(3);
    pool.shutdown();
    assert_eq!(pool.pending(), 3);
    pool.shutdown();
    assert_eq!(pool.pending(), 3);
    assert_eq!(pool.claim(1), Some(Action::Exit));
    pool.shutdown();
    assert_eq!(pool.pending(), 2);
}

#[test]
fn closing_pool_hands_the_job_back() {
    let mut pool: ThreadPool<String> = ThreadPool::new(2);
    assert_eq!(pool.execute("kept".to_string()), Ok(()));
    pool.shutdown();
    assert_eq!(pool.execute("late".to_string()), Err("late".to_string()));
    assert_eq!(pool.pending(), 3);
    assert_eq!(pool.claim(0), Some(Action::Run("kept".to_string())));
}

#[test]
fn a_fault_ends_the_job_and_not_the_worker() {
    let mut pool: ThreadPool<usize> = ThreadPool::new(1);
    assert_eq!(pool.execute(1), Ok(()));
    assert_eq!(pool.execute(2), Ok(()));
    assert_eq!(pool.claim(0), Some(Action::Run(1)));
    pool.complete(0, JobOutcome::Faulted);
    assert_eq!(pool.fault_count(), 1);
    assert_eq!(pool.state_of(0), Some(WorkerState::Idle));
    assert_eq!(pool.size(), 1);
    assert_eq!(pool.claim(0), Some(Action::Run(2)));
    pool.complete(0, JobOutcome::Completed);
    assert_eq!(pool.fault_count(), 1);
    assert_eq!(pool.state_of(0), Some(WorkerState::Idle));
}

#[test]
fn count_in_counts_each_state() {
    let mut pool: ThreadPool<usize> = ThreadPool::new(3);
    assert_eq!(pool.execute(1), Ok(()));
    assert_eq!(pool.claim(1), Some(Action::Run(1)));
    pool.shutdown();
    assert_eq!(pool.claim(2), Some(Action::Exit));
    assert_eq!(count(&pool, WorkerState::Idle), 1);
    assert_eq!(count(&pool, WorkerState::Running), 1);
    assert_eq!(count(&pool, WorkerState::Stopped), 1);
}
