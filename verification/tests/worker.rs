use worker_pool::queue::{Claim, DispatchQueue};
use worker_pool::worker::{JoinOutcome, Worker, WorkerState};

#[test]
fn new_worker_runs_and_is_free() {
    let worker: Worker<u32> = Worker::new(3);
    assert_eq!(worker.id(), 3);
    assert_eq!(worker.state(), WorkerState::Running);
    assert!(!worker.is_busy());
    assert!(worker.is_idle());
    assert!(worker.is_joinable());
}

#[test]
fn worker_executes_what_it_claims() {
    let mut queue: DispatchQueue<u32> = DispatchQueue::new();
    assert!(queue.send(11).is_ok());
    assert!(queue.send(12).is_ok());
    let mut worker: Worker<u32> = Worker::new(0);
    assert!(matches!(worker.claim(&mut queue), Claim::Job(11)));
    assert_eq!(worker.state(), WorkerState::Running);
    assert!(worker.is_busy());
    assert!(!worker.is_idle());
    assert_eq!(queue.len(), 1);
    worker.finish();
    assert!(!worker.is_busy());
    assert!(worker.is_idle());
    assert!(matches!(worker.claim(&mut queue), Claim::Job(12)));
    worker.finish();
    assert_eq!(queue.len(), 0);
}

#[test]
fn worker_waits_on_an_empty_open_queue() {
    let mut queue: DispatchQueue<u32> = DispatchQueue::new();
    let mut worker: Worker<u32> = Worker::new(0);
    assert!(matches!(worker.claim(&mut queue), Claim::Wait));
    assert_eq!(worker.state(), WorkerState::Running);
    assert!(worker.is_idle());
    assert!(queue.is_open());
}

#[test]
fn worker_terminates_on_closure() {
    let mut queue: DispatchQueue<u32> = DispatchQueue::new();
    assert!(queue.send(1).is_ok());
    queue.close();
    let mut worker: Worker<u32> = Worker::new(0);
    assert!(matches!(worker.claim(&mut queue), Claim::Job(1)));
    assert_eq!(worker.state(), WorkerState::Running);
    worker.finish();
    assert!(matches!(worker.claim(&mut queue), Claim::Closed));
    assert_eq!(worker.state(), WorkerState::Terminated);
    assert!(!worker.is_busy());
    assert!(!worker.is_idle());
}

#[test]
fn running_worker_cannot_be_joined() {
    let mut queue: DispatchQueue<u32> = DispatchQueue::new();
    assert!(queue.send(1).is_ok());
    let mut worker: Worker<u32> = Worker::new(0);
    assert_eq!(worker.join(), JoinOutcome::StillRunning);
    assert!(worker.is_joinable());
    assert!(matches!(worker.claim(&mut queue), Claim::Job(1)));
    assert_eq!(worker.join(), JoinOutcome::StillRunning);
    assert!(worker.is_joinable());
    assert!(worker.is_busy());
}

#[test]
fn terminated_worker_is_joined_once() {
    let mut queue: DispatchQueue<u32> = DispatchQueue::new();
    queue.close();
    let mut worker: Worker<u32> = Worker::new(7);
    assert!(matches!(worker.claim(&mut queue), Claim::Closed));
    assert_eq!(worker.join(), JoinOutcome::Joined);
    assert!(!worker.is_joinable());
    assert_eq!(worker.join(), JoinOutcome::AlreadyJoined);
    assert!(!worker.is_joinable());
    assert_eq!(worker.state(), WorkerState::Terminated);
    assert_eq!(worker.id(), 7);
}
