//! The pool: a fixed set of workers around one dispatch queue.
use crate::model::{
    lemma_claim_inv, lemma_close_inv, lemma_complete_inv, lemma_initial_inv, lemma_join_inv,
    lemma_submit_inv, load_of, PoolView,
};
use crate::queue::{Claim, DispatchQueue};
use crate::worker::{JoinOutcome, Worker, WorkerView};
use vstd::prelude::*;

verus! {

/// A pool of a fixed number of workers that share one dispatch queue.
///
/// Submitted jobs wait in the queue in the order of submission. A worker
/// that is free claims the oldest one, executes it, and reports its end.
/// Closing the pool lets the workers drain the queue and terminate; the
/// pool is disposed of once each of them has been joined.
pub struct ThreadPool<J> {
    workers: Vec<Worker<J>>,
    queue: DispatchQueue<J>,
    completed: Ghost<Seq<J>>,
}

impl<J> View for ThreadPool<J> {
    type V = PoolView<J>;

    closed spec fn view(&self) -> PoolView<J> {
        PoolView {
            workers: Seq::new(self.workers@.len(), |i: int| self.workers@[i]@),
            queue: self.queue@,
            completed: self.completed@,
        }
    }
}

impl<J> ThreadPool<J> {
    /// The pool's parts are well formed and [`PoolView::inv`] holds of its
    /// content.
    pub closed spec fn wf(&self) -> bool {
        &&& forall|i: int| 0 <= i < self.workers@.len() ==> (#[trigger] self.workers@[i]).wf()
        &&& self.queue.wf()
        &&& self@.inv()
    }

    /// A well-formed pool satisfies [`PoolView::inv`], and so every law
    /// that rests on it.
    pub proof fn lemma_inv(&self)
        requires
            self.wf(),
        ensures
            self@.inv(),
    {
    }

    /// A pool of `size` running workers around an open, empty queue.
    pub fn new(size: usize) -> (pool: Self)
        requires
            size > 0,
        ensures
            pool.wf(),
            pool@ == PoolView::<J>::initial(size),
    {
        let queue = DispatchQueue::new();
        let mut workers: Vec<Worker<J>> = Vec::with_capacity(size);
        let mut i: usize = 0;
        while i < size
            invariant
                i <= size,
                workers@.len() == i,
                forall|k: int|
                    0 <= k < i ==> (#[trigger] workers@[k]).wf() && workers@[k]@
                        == WorkerView::<J>::initial(k as usize),
            decreases size - i,
        {
            workers.push(Worker::new(i));
            i += 1;
        }
        let pool = ThreadPool { workers, queue, completed: Ghost(Seq::empty()) };
        proof {
            assert(pool@.workers =~= PoolView::<J>::initial(size).workers);
            lemma_initial_inv::<J>(size);
        }
        pool
    }

    /// The number of workers.
    pub fn size(&self) -> (size: usize)
        ensures
            size == self@.size(),
    {
        self.workers.len()
    }

    /// Whether jobs can still be submitted.
    pub fn is_open(&self) -> (open: bool)
        ensures
            open == self@.queue.open,
    {
        self.queue.is_open()
    }

    /// The number of jobs that wait to be claimed.
    pub fn queued(&self) -> (queued: usize)
        ensures
            queued == self@.queue.pending.len(),
    {
        self.queue.len()
    }

    /// The worker at `worker`, counted in the order of construction.
    pub fn worker(&self, worker: usize) -> (w: &Worker<J>)
        requires
            self.wf(),
            worker < self@.size(),
        ensures
            w.wf(),
            w@ == self@.workers[worker as int],
    {
        &self.workers[worker]
    }

    /// Submits `job`: it joins the queue behind every job that waits there.
    pub fn execute(&mut self, job: J)
        requires
            old(self).wf(),
            old(self)@.queue.open,
        ensures
            final(self).wf(),
            final(self)@ == old(self)@.submit(job),
    {
        let _ = self.queue.send(job);
        proof {
            assert(final(self)@.workers =~= old(self)@.workers);
            lemma_submit_inv(old(self)@, job);
        }
    }

    /// Drops the producer side: nothing can be submitted any more, and the
    /// workers terminate once the queue is drained. Closing twice changes
    /// nothing.
    pub fn close(&mut self)
        requires
            old(self).wf(),
        ensures
            final(self).wf(),
            final(self)@ == old(self)@.close(),
    {
        self.queue.close();
        proof {
            assert(final(self)@.workers =~= old(self)@.workers);
            lemma_close_inv(old(self)@);
        }
    }

    /// The worker at `worker` claims: it receives the oldest pending job
    /// and starts executing it; or it is told to wait, while the queue is
    /// empty and open; or it terminates, once the queue is closed and
    /// drained.
    pub fn claim(&mut self, worker: usize) -> (claim: Claim<J>)
        requires
            old(self).wf(),
            worker < old(self)@.size(),
            old(self)@.workers[worker as int].idle(),
        ensures
            final(self).wf(),
            claim == old(self)@.next_claim(),
            final(self)@ == old(self)@.claim(worker as int),
    {
        let claim = self.workers[worker].claim(&mut self.queue);
        proof {
            assert(final(self)@.workers =~= old(self)@.claim(worker as int).workers);
            lemma_claim_inv(old(self)@, worker as int);
        }
        claim
    }

    /// The worker at `worker` reports that its job has run to the end: the
    /// job counts as completed and the worker is free to claim again.
    pub fn complete(&mut self, worker: usize)
        requires
            old(self).wf(),
            worker < old(self)@.size(),
            old(self)@.workers[worker as int].job is Some,
        ensures
            final(self).wf(),
            final(self)@ == old(self)@.complete(worker as int),
    {
        let ghost job = self@.workers[worker as int].job->0;
        self.workers[worker].finish();
        proof {
            self.completed@ = self.completed@.push(job);
        }
        proof {
            assert(final(self)@.workers =~= old(self)@.complete(worker as int).workers);
            lemma_complete_inv(old(self)@, worker as int);
        }
    }

    /// Tries to join the worker at `worker`. A worker that still runs is
    /// left alone and the caller has to wait; a terminated worker is joined
    /// by the first attempt and by no later one.
    pub fn join(&mut self, worker: usize) -> (outcome: JoinOutcome)
        requires
            old(self).wf(),
            worker < old(self)@.size(),
        ensures
            final(self).wf(),
            outcome == old(self)@.join_outcome(worker as int),
            final(self)@ == old(self)@.join(worker as int),
    {
        let outcome = self.workers[worker].join();
        proof {
            assert(final(self)@.workers =~= old(self)@.join(worker as int).workers);
            lemma_join_inv(old(self)@, worker as int);
        }
        outcome
    }

    /// The worker to join next in a teardown: the first, in the order of
    /// construction, that has not been joined. `None` once all have been.
    pub fn next_join(&self) -> (next: Option<usize>)
        requires
            self.wf(),
        ensures
            match next {
                Some(i) => {
                    &&& i < self@.size()
                    &&& self@.workers[i as int].joinable
                    &&& forall|k: int| 0 <= k < i ==> !(#[trigger] self@.workers[k]).joinable
                },
                None => self@.all_joined(),
            },
    {
        let mut i: usize = 0;
        while i < self.workers.len()
            invariant
                self.wf(),
                i <= self.workers@.len(),
                forall|k: int| 0 <= k < i ==> !(#[trigger] self@.workers[k]).joinable,
            decreases self.workers@.len() - i,
        {
            if self.workers[i].is_joinable() {
                return Some(i);
            }
            i += 1;
        }
        None
    }

    /// The number of jobs in execution; never more than there are workers.
    pub fn active(&self) -> (active: usize)
        requires
            self.wf(),
        ensures
            active == self@.active(),
            active <= self@.size(),
    {
        let mut active: usize = 0;
        let mut i: usize = 0;
        while i < self.workers.len()
            invariant
                self.wf(),
                i <= self.workers@.len(),
                active <= i,
                active == load_of(self@.workers.subrange(0, i as int)).len(),
            decreases self.workers@.len() - i,
        {
            proof {
                let next = self@.workers.subrange(0, i + 1);
                assert(next.drop_last() =~= self@.workers.subrange(0, i as int));
                assert(next.last() == self@.workers[i as int]);
                broadcast use vstd::multiset::group_multiset_axioms;

            }
            if self.workers[i].is_busy() {
                active += 1;
            }
            i += 1;
        }
        proof {
            assert(self@.workers.subrange(0, i as int) =~= self@.workers);
        }
        active
    }

    /// Whether teardown is over: the pool is closed and every worker has
    /// been joined.
    pub fn is_disposed(&self) -> (disposed: bool)
        requires
            self.wf(),
        ensures
            disposed == self@.disposed(),
    {
        !self.queue.is_open() && self.next_join().is_none()
    }
}

} // verus!
