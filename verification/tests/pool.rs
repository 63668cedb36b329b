use std::cell::{Cell, RefCell};
use std::rc::Rc;
use worker_pool::pool::ThreadPool;
use worker_pool::queue::Claim;
use worker_pool::worker::{JoinOutcome, WorkerState};

type Job = Box<dyn FnOnce()>;

/// The workers of a pool as a test drives them: each holds the job it has
/// claimed until its next turn, in which it runs the job to the end.
struct Crew {
    hands: Vec<Option<Job>>,
    peak: usize,
}

impl Crew {
    fn new(pool: &ThreadPool<Job>) -> Crew {
        let mut hands = Vec::new();
        for _ in 0..pool.size() {
            hands.push(None);
        }
        Crew { hands, peak: 0 }
    }

    /// One turn of one worker. A free worker claims; a busy one runs its
    /// job and reports the end; a terminated one does nothing.
    fn turn(&mut self, pool: &mut ThreadPool<Job>, worker: usize) {
        if pool.worker(worker).is_idle() {
            if let Claim::Job(job) = pool.claim(worker) {
                self.hands[worker] = Some(job);
            }
        } else if pool.worker(worker).is_busy() {
            let job = self.hands[worker].take().unwrap();
            job();
            pool.complete(worker);
        }
        let active = pool.active();
        assert!(active <= pool.size());
        assert_eq!(active, self.hands.iter().filter(|hand| hand.is_some()).count());
        if active > self.peak {
            self.peak = active;
        }
    }

    fn round(&mut self, pool: &mut ThreadPool<Job>) {
        for worker in 0..pool.size() {
            self.turn(pool, worker);
        }
    }

    /// Tears the pool down: closes it, then joins the workers in the order
    /// of construction, letting all of them take turns while one is waited
    /// for.
    fn dispose(&mut self, pool: &mut ThreadPool<Job>) {
        pool.close();
        while let Some(next) = pool.next_join() {
            while pool.join(next) == JoinOutcome::StillRunning {
                self.round(pool);
            }
        }
        assert!(pool.is_disposed());
    }
}

fn counting_job(counter: &Rc<Cell<usize>>) -> Job {
    let counter = Rc::clone(counter);
    Box::new(move || counter.set(counter.get() + 1))
}

fn logging_job(log: &Rc<RefCell<Vec<usize>>>, index: usize) -> Job {
    let log = Rc::clone(log);
    Box::new(move || log.borrow_mut().push(index))
}

#[test]
fn new_pool_has_idle_workers_and_an_open_queue() {
    let pool: ThreadPool<Job> = ThreadPool::new(4);
    assert_eq!(pool.size(), 4);
    assert!(pool.is_open());
    assert_eq!(pool.queued(), 0);
    assert_eq!(pool.active(), 0);
    assert!(!pool.is_disposed());
    assert_eq!(pool.next_join(), Some(0));
    for worker in 0..4 {
        assert_eq!(pool.worker(worker).id(), worker);
        assert_eq!(pool.worker(worker).state(), WorkerState::Running);
        assert!(pool.worker(worker).is_idle());
        assert!(pool.worker(worker).is_joinable());
    }
}

#[test]
fn every_job_runs_exactly_once() {
    for size in 1..=4 {
        for jobs in 0..=9 {
            let counter = Rc::new(Cell::new(0));
            let log = Rc::new(RefCell::new(Vec::new()));
            let mut pool: ThreadPool<Job> = ThreadPool::new(size);
            let mut crew = Crew::new(&pool);
            for index in 0..jobs {
                let counter = Rc::clone(&counter);
                let log = Rc::clone(&log);
                pool.execute(Box::new(move || {
                    counter.set(counter.get() + 1);
                    log.borrow_mut().push(index);
                }));
                if index % 3 == 2 {
                    crew.round(&mut pool);
                }
            }
            crew.dispose(&mut pool);
            assert_eq!(counter.get(), jobs);
            let mut ran = log.borrow().clone();
            ran.sort();
            assert_eq!(ran, (0..jobs).collect::<Vec<usize>>());
        }
    }
}

#[test]
fn pool_without_jobs_is_disposed_of_at_once() {
    let mut pool: ThreadPool<Job> = ThreadPool::new(3);
    let mut crew = Crew::new(&pool);
    crew.dispose(&mut pool);
    assert!(pool.is_disposed());
    assert_eq!(pool.active(), 0);
    assert_eq!(pool.next_join(), None);
    for worker in 0..3 {
        assert_eq!(pool.worker(worker).state(), WorkerState::Terminated);
        assert!(!pool.worker(worker).is_joinable());
    }
}

#[test]
fn two_workers_run_five_jobs_once_each() {
    let log = Rc::new(RefCell::new(Vec::new()));
    let mut pool: ThreadPool<Job> = ThreadPool::new(2);
    let mut crew = Crew::new(&pool);
    for index in 0..5 {
        pool.execute(logging_job(&log, index));
    }
    crew.dispose(&mut pool);
    let mut ran = log.borrow().clone();
    assert_eq!(ran.len(), 5);
    ran.sort();
    assert_eq!(ran, vec![0, 1, 2, 3, 4]);
}

#[test]
fn one_worker_runs_jobs_one_after_the_other() {
    let log = Rc::new(RefCell::new(Vec::new()));
    let mut pool: ThreadPool<Job> = ThreadPool::new(1);
    let mut crew = Crew::new(&pool);
    for index in 0..3 {
        pool.execute(logging_job(&log, index));
    }
    assert_eq!(pool.queued(), 3);
    for done in 0..3 {
        crew.turn(&mut pool, 0);
        assert_eq!(pool.active(), 1);
        assert_eq!(pool.queued(), 2 - done);
        assert_eq!(log.borrow().len(), done);
        crew.turn(&mut pool, 0);
        assert_eq!(pool.active(), 0);
        assert_eq!(log.borrow().len(), done + 1);
    }
    crew.dispose(&mut pool);
    assert_eq!(crew.peak, 1);
    assert_eq!(*log.borrow(), vec![0, 1, 2]);
}

#[test]
fn no_more_jobs_in_execution_than_workers() {
    let counter = Rc::new(Cell::new(0));
    let mut pool: ThreadPool<Job> = ThreadPool::new(3);
    let mut crew = Crew::new(&pool);
    for _ in 0..10 {
        pool.execute(counting_job(&counter));
    }
    crew.round(&mut pool);
    assert_eq!(pool.active(), 3);
    assert_eq!(pool.queued(), 7);
    assert_eq!(counter.get(), 0);
    for worker in 0..3 {
        assert!(pool.worker(worker).is_busy());
        assert!(!pool.worker(worker).is_idle());
    }
    crew.dispose(&mut pool);
    assert_eq!(crew.peak, 3);
    assert_eq!(counter.get(), 10);
    assert_eq!(pool.active(), 0);
}

#[test]
fn jobs_are_claimed_in_the_order_submitted() {
    let mut pool: ThreadPool<u32> = ThreadPool::new(3);
    for job in [5, 3, 8, 3] {
        pool.execute(job);
    }
    assert!(matches!(pool.claim(2), Claim::Job(5)));
    assert!(matches!(pool.claim(0), Claim::Job(3)));
    assert!(matches!(pool.claim(1), Claim::Job(8)));
    pool.complete(0);
    assert!(matches!(pool.claim(0), Claim::Job(3)));
    assert_eq!(pool.queued(), 0);
    assert_eq!(pool.active(), 3);
    pool.complete(1);
    assert!(matches!(pool.claim(1), Claim::Wait));
    assert_eq!(pool.active(), 2);
    assert!(pool.worker(1).is_idle());
}

#[test]
fn burst_of_jobs_is_kept_whole() {
    let counter = Rc::new(Cell::new(0));
    let mut pool: ThreadPool<Job> = ThreadPool::new(4);
    let mut crew = Crew::new(&pool);
    for _ in 0..1000 {
        pool.execute(counting_job(&counter));
    }
    assert_eq!(pool.queued(), 1000);
    assert_eq!(pool.active(), 0);
    assert_eq!(counter.get(), 0);
    crew.dispose(&mut pool);
    assert_eq!(pool.queued(), 0);
    assert_eq!(counter.get(), 1000);
}

#[test]
fn disposal_waits_for_queued_jobs() {
    let log = Rc::new(RefCell::new(Vec::new()));
    let mut pool: ThreadPool<Job> = ThreadPool::new(2);
    let mut crew = Crew::new(&pool);
    for index in 0..6 {
        pool.execute(logging_job(&log, index));
    }
    pool.close();
    assert!(!pool.is_open());
    assert!(!pool.is_disposed());
    assert_eq!(pool.queued(), 6);
    assert_eq!(pool.next_join(), Some(0));
    assert_eq!(pool.join(0), JoinOutcome::StillRunning);
    assert_eq!(pool.join(1), JoinOutcome::StillRunning);
    while pool.queued() > 0 || pool.active() > 0 {
        crew.round(&mut pool);
        assert_eq!(pool.join(0), JoinOutcome::StillRunning);
        assert_eq!(pool.join(1), JoinOutcome::StillRunning);
        assert!(!pool.is_disposed());
    }
    assert_eq!(log.borrow().len(), 6);
    crew.dispose(&mut pool);
    log.borrow_mut().push(usize::MAX);
    let ran = log.borrow().clone();
    assert_eq!(ran.len(), 7);
    assert_eq!(ran[6], usize::MAX);
    let mut jobs = ran[..6].to_vec();
    jobs.sort();
    assert_eq!(jobs, vec![0, 1, 2, 3, 4, 5]);
}

#[test]
fn workers_terminate_only_after_the_queue_is_closed_and_drained() {
    let mut pool: ThreadPool<u32> = ThreadPool::new(2);
    pool.execute(1);
    assert!(matches!(pool.claim(0), Claim::Job(1)));
    assert!(matches!(pool.claim(1), Claim::Wait));
    assert_eq!(pool.worker(1).state(), WorkerState::Running);
    pool.execute(2);
    pool.close();
    assert!(matches!(pool.claim(1), Claim::Job(2)));
    pool.complete(0);
    assert!(matches!(pool.claim(0), Claim::Closed));
    assert_eq!(pool.worker(0).state(), WorkerState::Terminated);
    assert_eq!(pool.worker(1).state(), WorkerState::Running);
    assert_eq!(pool.active(), 1);
    pool.complete(1);
    assert!(matches!(pool.claim(1), Claim::Closed));
    assert_eq!(pool.worker(1).state(), WorkerState::Terminated);
    assert_eq!(pool.active(), 0);
}

#[test]
fn workers_are_joined_in_the_order_of_construction() {
    let mut pool: ThreadPool<u32> = ThreadPool::new(3);
    pool.close();
    assert!(matches!(pool.claim(2), Claim::Closed));
    assert!(matches!(pool.claim(1), Claim::Closed));
    assert_eq!(pool.next_join(), Some(0));
    assert_eq!(pool.join(0), JoinOutcome::StillRunning);
    assert_eq!(pool.next_join(), Some(0));
    assert!(matches!(pool.claim(0), Claim::Closed));
    assert_eq!(pool.join(0), JoinOutcome::Joined);
    assert_eq!(pool.join(0), JoinOutcome::AlreadyJoined);
    assert_eq!(pool.next_join(), Some(1));
    assert!(!pool.is_disposed());
    assert_eq!(pool.join(1), JoinOutcome::Joined);
    assert_eq!(pool.next_join(), Some(2));
    assert_eq!(pool.join(2), JoinOutcome::Joined);
    assert_eq!(pool.next_join(), None);
    assert!(pool.is_disposed());
}

#[test]
fn closing_a_pool_twice_changes_nothing() {
    let mut pool: ThreadPool<u32> = ThreadPool::new(1);
    pool.execute(4);
    pool.close();
    pool.close();
    assert!(!pool.is_open());
    assert_eq!(pool.queued(), 1);
    assert!(matches!(pool.claim(0), Claim::Job(4)));
    pool.complete(0);
    assert!(matches!(pool.claim(0), Claim::Closed));
}
