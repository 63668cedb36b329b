//! One worker of the pool: its life cycle and its steps.
use crate::queue::{Claim, DispatchQueue, QueueView};
use vstd::multiset::Multiset;
use vstd::prelude::*;

verus! {

/// The two states of a worker. A worker starts out running and stays so
/// until a claim reports closure; terminated is final.
#[derive(Clone, Copy, PartialEq, Eq, Structural, Debug)]
pub enum WorkerState {
    /// The worker claims jobs and executes them.
    Running,
    /// The worker has seen the queue closed and drained, and has left its
    /// loop.
    Terminated,
}

/// What an attempt to join a worker came to.
#[derive(Clone, Copy, PartialEq, Eq, Structural, Debug)]
pub enum JoinOutcome {
    /// The worker had terminated and its handle was still there: the handle
    /// is now consumed.
    Joined,
    /// The worker is still running: the caller has to wait and try again.
    StillRunning,
    /// The handle was consumed by an earlier join.
    AlreadyJoined,
}

/// The mathematical content of a [`Worker`].
pub ghost struct WorkerView<J> {
    /// The ordinal given at construction; it only names the worker.
    pub id: usize,
    /// Running or terminated.
    pub state: WorkerState,
    /// The job the worker is executing, if any.
    pub job: Option<J>,
    /// Whether the worker's handle has not been joined yet.
    pub joinable: bool,
}

impl<J> WorkerView<J> {
    /// A worker right after construction.
    pub open spec fn initial(id: usize) -> Self {
        WorkerView { id, state: WorkerState::Running, job: None, joinable: true }
    }

    /// Running and not executing: the worker is free to claim.
    pub open spec fn idle(self) -> bool {
        self.state == WorkerState::Running && self.job is None
    }

    /// The jobs this worker is executing: one or none.
    pub open spec fn load(self) -> Multiset<J> {
        match self.job {
            Some(job) => Multiset::singleton(job),
            None => Multiset::empty(),
        }
    }

    /// The job in execution, as a sequence of one or none.
    pub open spec fn running(self) -> Seq<J> {
        match self.job {
            Some(job) => seq![job],
            None => Seq::empty(),
        }
    }

    /// The steps this worker still has to take before it is done with: to
    /// end the job it executes, to terminate, and to be joined.
    pub open spec fn steps_left(self) -> nat {
        (if self.job is Some {
            1nat
        } else {
            0nat
        }) + (if self.state == WorkerState::Running {
            1nat
        } else {
            0nat
        }) + (if self.joinable {
            1nat
        } else {
            0nat
        })
    }

    /// Only a running worker executes a job, and only a terminated worker
    /// has been joined.
    pub open spec fn inv(self) -> bool {
        &&& self.state == WorkerState::Terminated ==> self.job is None
        &&& !self.joinable ==> self.state == WorkerState::Terminated
    }
}

/// A worker: an ordinal, a state, and a handle that is joined once.
pub struct Worker<J> {
    id: usize,
    state: WorkerState,
    busy: bool,
    joinable: bool,
    job: Ghost<Option<J>>,
}

impl<J> View for Worker<J> {
    type V = WorkerView<J>;

    closed spec fn view(&self) -> WorkerView<J> {
        WorkerView { id: self.id, state: self.state, job: self.job@, joinable: self.joinable }
    }
}

impl<J> Worker<J> {
    /// The worker's invariant: [`WorkerView::inv`] holds of its content.
    pub closed spec fn wf(&self) -> bool {
        &&& self.busy == (self.job@ is Some)
        &&& self@.inv()
    }

    /// A well-formed worker satisfies [`WorkerView::inv`].
    pub proof fn lemma_inv(&self)
        requires
            self.wf(),
        ensures
            self@.inv(),
    {
    }

    /// A running worker with the ordinal `id`, executing nothing, not yet
    /// joined.
    pub fn new(id: usize) -> (worker: Self)
        ensures
            worker.wf(),
            worker@ == WorkerView::<J>::initial(id),
    {
        Worker { id, state: WorkerState::Running, busy: false, joinable: true, job: Ghost(None) }
    }

    /// The ordinal given at construction.
    pub fn id(&self) -> (id: usize)
        ensures
            id == self@.id,
    {
        self.id
    }

    /// Running or terminated.
    pub fn state(&self) -> (state: WorkerState)
        ensures
            state == self@.state,
    {
        self.state
    }

    /// Whether the worker is executing a job.
    pub fn is_busy(&self) -> (busy: bool)
        requires
            self.wf(),
        ensures
            busy == (self@.job is Some),
    {
        self.busy
    }

    /// Whether the worker is free to claim: running and executing nothing.
    pub fn is_idle(&self) -> (idle: bool)
        requires
            self.wf(),
        ensures
            idle == self@.idle(),
    {
        match self.state {
            WorkerState::Running => !self.busy,
            WorkerState::Terminated => false,
        }
    }

    /// Whether the worker's handle has not been joined yet.
    pub fn is_joinable(&self) -> (joinable: bool)
        ensures
            joinable == self@.joinable,
    {
        self.joinable
    }

    /// One turn of the worker's loop: claim from `queue` and act on what
    /// came. With a job the worker starts executing it; told to wait it
    /// stays as it is; on closure it terminates.
    pub fn claim(&mut self, queue: &mut DispatchQueue<J>) -> (claim: Claim<J>)
        requires
            old(self).wf(),
            old(self)@.idle(),
            old(queue).wf(),
        ensures
            final(self).wf(),
            final(queue).wf(),
            old(queue)@.pending.len() > 0 ==> {
                let job = old(queue)@.pending[0];
                &&& claim == Claim::Job(job)
                &&& final(self)@ == (WorkerView { job: Some(job), ..old(self)@ })
                &&& final(queue)@ == (QueueView {
                    pending: old(queue)@.pending.drop_first(),
                    delivered: old(queue)@.delivered.push(job),
                    ..old(queue)@
                })
            },
            old(queue)@.pending.len() == 0 && old(queue)@.open ==> {
                &&& claim == Claim::<J>::Wait
                &&& final(self)@ == old(self)@
                &&& final(queue)@ == old(queue)@
            },
            old(queue)@.drained() ==> {
                &&& claim == Claim::<J>::Closed
                &&& final(self)@ == (WorkerView { state: WorkerState::Terminated, ..old(self)@ })
                &&& final(queue)@ == old(queue)@
            },
    {
        let claim = queue.claim();
        match &claim {
            Claim::Job(job) => {
                self.busy = true;
                proof {
                    self.job@ = Some(*job);
                }
            },
            Claim::Wait => {},
            Claim::Closed => {
                self.state = WorkerState::Terminated;
            },
        }
        claim
    }

    /// The job in execution has run to its end: the worker is free to claim
    /// again.
    pub fn finish(&mut self)
        requires
            old(self).wf(),
            old(self)@.job is Some,
        ensures
            final(self).wf(),
            final(self)@ == (WorkerView { job: None, ..old(self)@ }),
    {
        self.busy = false;
        proof {
            self.job@ = None;
        }
    }

    /// Tries to join the worker. The handle is consumed by the first join
    /// that finds the worker terminated, and by no other.
    pub fn join(&mut self) -> (outcome: JoinOutcome)
        requires
            old(self).wf(),
        ensures
            final(self).wf(),
            outcome == (if !old(self)@.joinable {
                JoinOutcome::AlreadyJoined
            } else if old(self)@.state == WorkerState::Terminated {
                JoinOutcome::Joined
            } else {
                JoinOutcome::StillRunning
            }),
            final(self)@ == (WorkerView {
                joinable: old(self)@.joinable && outcome != JoinOutcome::Joined,
                ..old(self)@
            }),
    {
        if !self.joinable {
            JoinOutcome::AlreadyJoined
        } else {
            match self.state {
                WorkerState::Terminated => {
                    self.joinable = false;
                    JoinOutcome::Joined
                },
                WorkerState::Running => JoinOutcome::StillRunning,
            }
        }
    }
}

} // verus!
