//! The pool as a state machine: its states, its steps and its invariant.
use crate::queue::{Claim, QueueView};
use crate::worker::{JoinOutcome, WorkerState, WorkerView};
use vstd::multiset::Multiset;
use vstd::prelude::*;

verus! {

/// The jobs that the given workers are executing, taken together.
pub open spec fn load_of<J>(workers: Seq<WorkerView<J>>) -> Multiset<J>
    decreases workers.len(),
{
    if workers.len() == 0 {
        Multiset::empty()
    } else {
        load_of(workers.drop_last()).add(workers.last().load())
    }
}

/// The steps that the given workers still have to take, taken together.
pub open spec fn steps_of<J>(workers: Seq<WorkerView<J>>) -> nat
    decreases workers.len(),
{
    if workers.len() == 0 {
        0
    } else {
        steps_of(workers.drop_last()) + workers.last().steps_left()
    }
}

/// The state of a pool.
pub ghost struct PoolView<J> {
    /// The workers, in the order of construction.
    pub workers: Seq<WorkerView<J>>,
    /// The dispatch queue.
    pub queue: QueueView<J>,
    /// Every job that has run to its end, in the order of completion.
    pub completed: Seq<J>,
}

impl<J> PoolView<J> {
    /// A pool of `size` workers right after construction.
    pub open spec fn initial(size: usize) -> Self {
        PoolView {
            workers: Seq::new(size as nat, |i: int| WorkerView::<J>::initial(i as usize)),
            queue: QueueView::<J>::initial(),
            completed: Seq::empty(),
        }
    }

    /// The number of workers.
    pub open spec fn size(self) -> nat {
        self.workers.len()
    }

    /// The jobs in execution.
    pub open spec fn in_flight(self) -> Multiset<J> {
        load_of(self.workers)
    }

    /// The number of jobs in execution.
    pub open spec fn active(self) -> nat {
        self.in_flight().len()
    }

    /// Every worker has terminated.
    pub open spec fn all_terminated(self) -> bool {
        forall|i: int|
            0 <= i < self.workers.len() ==> (#[trigger] self.workers[i]).state
                == WorkerState::Terminated
    }

    /// Every worker has been joined.
    pub open spec fn all_joined(self) -> bool {
        forall|i: int| 0 <= i < self.workers.len() ==> !(#[trigger] self.workers[i]).joinable
    }

    /// Teardown is over: the queue is closed and every worker has been
    /// joined.
    pub open spec fn disposed(self) -> bool {
        !self.queue.open && self.all_joined()
    }

    /// The steps between this state and disposal, once the pool is closed:
    /// each waiting job is claimed and ended, and each worker ends its job,
    /// terminates and is joined.
    pub open spec fn work_left(self) -> nat {
        2 * self.queue.pending.len() + steps_of(self.workers)
    }

    /// The pool after `job` was submitted.
    pub open spec fn submit(self, job: J) -> Self {
        PoolView {
            queue: QueueView {
                pending: self.queue.pending.push(job),
                sent: self.queue.sent.push(job),
                ..self.queue
            },
            ..self
        }
    }

    /// The pool after the jobs of `jobs` were submitted one after the other.
    pub open spec fn submit_all(self, jobs: Seq<J>) -> Self
        decreases jobs.len(),
    {
        if jobs.len() == 0 {
            self
        } else {
            self.submit_all(jobs.drop_last()).submit(jobs.last())
        }
    }

    /// What a claim yields in this state.
    pub open spec fn next_claim(self) -> Claim<J> {
        if self.queue.pending.len() > 0 {
            Claim::Job(self.queue.pending[0])
        } else if self.queue.open {
            Claim::Wait
        } else {
            Claim::Closed
        }
    }

    /// The pool after the worker at `worker` claimed: it took the oldest
    /// pending job, or terminated on closure, or was told to wait.
    pub open spec fn claim(self, worker: int) -> Self {
        let w = self.workers[worker];
        if self.queue.pending.len() > 0 {
            let job = self.queue.pending[0];
            PoolView {
                workers: self.workers.update(worker, WorkerView { job: Some(job), ..w }),
                queue: QueueView {
                    pending: self.queue.pending.drop_first(),
                    delivered: self.queue.delivered.push(job),
                    ..self.queue
                },
                ..self
            }
        } else if self.queue.open {
            self
        } else {
            PoolView {
                workers: self.workers.update(
                    worker,
                    WorkerView { state: WorkerState::Terminated, ..w },
                ),
                ..self
            }
        }
    }

    /// The pool after the worker at `worker` ran its job to the end.
    pub open spec fn complete(self, worker: int) -> Self {
        let w = self.workers[worker];
        PoolView {
            workers: self.workers.update(worker, WorkerView { job: None, ..w }),
            completed: self.completed.push(w.job->0),
            ..self
        }
    }

    /// The pool after its producer side was dropped.
    pub open spec fn close(self) -> Self {
        PoolView { queue: QueueView { open: false, ..self.queue }, ..self }
    }

    /// What an attempt to join the worker at `worker` comes to.
    pub open spec fn join_outcome(self, worker: int) -> JoinOutcome {
        let w = self.workers[worker];
        if !w.joinable {
            JoinOutcome::AlreadyJoined
        } else if w.state == WorkerState::Terminated {
            JoinOutcome::Joined
        } else {
            JoinOutcome::StillRunning
        }
    }

    /// The pool after an attempt to join the worker at `worker`.
    pub open spec fn join(self, worker: int) -> Self {
        let w = self.workers[worker];
        if self.join_outcome(worker) == JoinOutcome::Joined {
            PoolView {
                workers: self.workers.update(worker, WorkerView { joinable: false, ..w }),
                ..self
            }
        } else {
            self
        }
    }

    /// The invariant of every pool.
    ///
    /// There is at least one worker, and each is named by its position. The
    /// queue delivers in the order of submission. Every delivered job is
    /// either completed or in execution, and counted once. A worker
    /// terminates only when the queue is closed and drained. A single
    /// worker completes jobs in the order it received them.
    pub open spec fn inv(self) -> bool {
        &&& self.workers.len() >= 1
        &&& forall|i: int|
            0 <= i < self.workers.len() ==> (#[trigger] self.workers[i]).inv() && self.workers[i].id
                == i
        &&& self.queue.inv()
        &&& self.queue.delivered.to_multiset() =~= self.completed.to_multiset().add(
            self.in_flight(),
        )
        &&& (exists|i: int|
            0 <= i < self.workers.len() && (#[trigger] self.workers[i]).state
                == WorkerState::Terminated) ==> self.queue.drained()
        &&& self.workers.len() == 1 ==> self.queue.delivered =~= self.completed
            + self.workers[0].running()
    }
}

/// Replacing one worker exchanges its load for the new worker's load, and
/// each worker's load is part of the whole.
pub proof fn lemma_load_update<J>(workers: Seq<WorkerView<J>>, i: int, w: WorkerView<J>)
    requires
        0 <= i < workers.len(),
    ensures
        workers[i].load().subset_of(load_of(workers)),
        load_of(workers.update(i, w)) =~= load_of(workers).sub(workers[i].load()).add(w.load()),
    decreases workers.len(),
{
    broadcast use vstd::multiset::group_multiset_axioms;

    let updated = workers.update(i, w);
    if i == workers.len() - 1 {
        assert(updated.drop_last() =~= workers.drop_last());
    } else {
        lemma_load_update(workers.drop_last(), i, w);
        assert(updated.drop_last() =~= workers.drop_last().update(i, w));
    }
}

/// Workers that execute nothing carry no load.
pub proof fn lemma_load_none<J>(workers: Seq<WorkerView<J>>)
    requires
        forall|i: int| 0 <= i < workers.len() ==> (#[trigger] workers[i]).job is None,
    ensures
        load_of(workers) =~= Multiset::empty(),
    decreases workers.len(),
{
    broadcast use vstd::multiset::group_multiset_axioms;

    if workers.len() > 0 {
        lemma_load_none(workers.drop_last());
    }
}

/// There are no more jobs in execution than workers.
pub proof fn lemma_load_len<J>(workers: Seq<WorkerView<J>>)
    ensures
        load_of(workers).len() <= workers.len(),
    decreases workers.len(),
{
    broadcast use vstd::multiset::group_multiset_axioms;

    if workers.len() > 0 {
        lemma_load_len(workers.drop_last());
    }
}

/// The empty sequence holds nothing.
pub proof fn lemma_empty_to_multiset<J>()
    ensures
        Seq::<J>::empty().to_multiset() =~= Multiset::empty(),
{
    broadcast use vstd::multiset::group_multiset_axioms;

    Seq::<J>::empty().to_multiset_ensures();
}

/// Replacing one worker exchanges its remaining steps for the new
/// worker's, and each worker's steps are part of the whole.
pub proof fn lemma_steps_update<J>(workers: Seq<WorkerView<J>>, i: int, w: WorkerView<J>)
    requires
        0 <= i < workers.len(),
    ensures
        workers[i].steps_left() <= steps_of(workers),
        steps_of(workers.update(i, w)) == steps_of(workers) - workers[i].steps_left()
            + w.steps_left(),
    decreases workers.len(),
{
    let updated = workers.update(i, w);
    if i == workers.len() - 1 {
        assert(updated.drop_last() =~= workers.drop_last());
    } else {
        lemma_steps_update(workers.drop_last(), i, w);
        assert(updated.drop_last() =~= workers.drop_last().update(i, w));
    }
}

/// Workers that have each nothing left to do have nothing left to do
/// together.
pub proof fn lemma_steps_none<J>(workers: Seq<WorkerView<J>>)
    requires
        forall|i: int| 0 <= i < workers.len() ==> (#[trigger] workers[i]).steps_left() == 0,
    ensures
        steps_of(workers) == 0,
    decreases workers.len(),
{
    if workers.len() > 0 {
        lemma_steps_none(workers.drop_last());
    }
}

/// A freshly constructed pool satisfies the invariant.
pub proof fn lemma_initial_inv<J>(size: usize)
    requires
        size > 0,
    ensures
        PoolView::<J>::initial(size).inv(),
{
    lemma_load_none(PoolView::<J>::initial(size).workers);
    lemma_empty_to_multiset::<J>();
}

/// Submitting to an open pool keeps the invariant.
pub proof fn lemma_submit_inv<J>(v: PoolView<J>, job: J)
    requires
        v.inv(),
        v.queue.open,
    ensures
        v.submit(job).inv(),
{
}

/// A claim by a free worker keeps the invariant.
pub proof fn lemma_claim_inv<J>(v: PoolView<J>, worker: int)
    requires
        v.inv(),
        0 <= worker < v.size(),
        v.workers[worker].idle(),
    ensures
        v.claim(worker).inv(),
{
    broadcast use vstd::multiset::group_multiset_axioms;

    lemma_load_update(v.workers, worker, v.claim(worker).workers[worker]);
    if v.queue.pending.len() > 0 {
        v.queue.delivered.to_multiset_ensures();
    }
}

/// The end of a job keeps the invariant.
pub proof fn lemma_complete_inv<J>(v: PoolView<J>, worker: int)
    requires
        v.inv(),
        0 <= worker < v.size(),
        v.workers[worker].job is Some,
    ensures
        v.complete(worker).inv(),
{
    broadcast use vstd::multiset::group_multiset_axioms;

    lemma_load_update(v.workers, worker, v.complete(worker).workers[worker]);
    v.completed.to_multiset_ensures();
}

/// Closing keeps the invariant.
pub proof fn lemma_close_inv<J>(v: PoolView<J>)
    requires
        v.inv(),
    ensures
        v.close().inv(),
{
}

/// An attempt to join keeps the invariant.
pub proof fn lemma_join_inv<J>(v: PoolView<J>, worker: int)
    requires
        v.inv(),
        0 <= worker < v.size(),
    ensures
        v.join(worker).inv(),
{
    broadcast use vstd::multiset::group_multiset_axioms;

    lemma_load_update(v.workers, worker, v.join(worker).workers[worker]);
}

} // verus!
