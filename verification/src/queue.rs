//! The dispatch queue: a closable FIFO of jobs.
use std::collections::VecDeque;
use vstd::prelude::*;

verus! {

/// What a claimant receives from the queue.
#[derive(Debug)]
pub enum Claim<J> {
    /// The oldest pending job; the claimant now owns it.
    Job(J),
    /// Nothing is pending, but the queue is still open: the claimant has to
    /// wait and claim again.
    Wait,
    /// The queue is closed and drained: no job will ever arrive.
    Closed,
}

/// The mathematical content of a [`DispatchQueue`].
pub ghost struct QueueView<J> {
    /// Jobs accepted and not yet claimed, oldest first.
    pub pending: Seq<J>,
    /// Whether the producer side is still present.
    pub open: bool,
    /// Every job ever accepted, in the order of acceptance.
    pub sent: Seq<J>,
    /// Every job ever handed to a claimant, in the order of delivery.
    pub delivered: Seq<J>,
}

impl<J> QueueView<J> {
    /// The queue right after construction.
    pub open spec fn initial() -> Self {
        QueueView { pending: Seq::empty(), open: true, sent: Seq::empty(), delivered: Seq::empty() }
    }

    /// Closed and nothing pending: every later claim reports closure.
    pub open spec fn drained(self) -> bool {
        !self.open && self.pending.len() == 0
    }

    /// What was delivered, followed by what is pending, is exactly what was
    /// sent. So deliveries follow the order of sending, and no job is
    /// delivered twice or lost.
    pub open spec fn inv(self) -> bool {
        self.sent =~= self.delivered + self.pending
    }
}

/// A closable first-in, first-out queue of jobs.
pub struct DispatchQueue<J> {
    pending: VecDeque<J>,
    open: bool,
    sent: Ghost<Seq<J>>,
    delivered: Ghost<Seq<J>>,
}

impl<J> View for DispatchQueue<J> {
    type V = QueueView<J>;

    closed spec fn view(&self) -> QueueView<J> {
        QueueView {
            pending: self.pending@,
            open: self.open,
            sent: self.sent@,
            delivered: self.delivered@,
        }
    }
}

impl<J> DispatchQueue<J> {
    /// The queue's invariant, [`QueueView::inv`], holds of its content.
    pub open spec fn wf(&self) -> bool {
        self@.inv()
    }

    /// An open queue with nothing in it.
    pub fn new() -> (queue: Self)
        ensures
            queue.wf(),
            queue@ == QueueView::<J>::initial(),
    {
        DispatchQueue {
            pending: VecDeque::new(),
            open: true,
            sent: Ghost(Seq::empty()),
            delivered: Ghost(Seq::empty()),
        }
    }

    /// Whether the producer side is still present.
    pub fn is_open(&self) -> (open: bool)
        ensures
            open == self@.open,
    {
        self.open
    }

    /// The number of pending jobs.
    pub fn len(&self) -> (len: usize)
        ensures
            len == self@.pending.len(),
    {
        self.pending.len()
    }

    /// Enqueues `job` behind every pending job. A closed queue accepts
    /// nothing and hands the job back.
    pub fn send(&mut self, job: J) -> (result: Result<(), J>)
        requires
            old(self).wf(),
        ensures
            final(self).wf(),
            old(self)@.open ==> result == Ok::<(), J>(()) && final(self)@ == (QueueView {
                pending: old(self)@.pending.push(job),
                sent: old(self)@.sent.push(job),
                ..old(self)@
            }),
            !old(self)@.open ==> result == Err::<(), J>(job) && final(self)@ == old(self)@,
    {
        if self.open {
            self.pending.push_back(job);
            proof {
                self.sent@ = self.sent@.push(job);
            }
            Ok(())
        } else {
            Err(job)
        }
    }

    /// Hands out the oldest pending job. With nothing pending, reports
    /// whether a job may still arrive.
    pub fn claim(&mut self) -> (claim: Claim<J>)
        requires
            old(self).wf(),
        ensures
            final(self).wf(),
            old(self)@.pending.len() > 0 ==> claim == Claim::Job(old(self)@.pending[0])
                && final(self)@ == (QueueView {
                pending: old(self)@.pending.drop_first(),
                delivered: old(self)@.delivered.push(old(self)@.pending[0]),
                ..old(self)@
            }),
            old(self)@.pending.len() == 0 ==> final(self)@ == old(self)@ && claim == (if old(
                self,
            )@.open {
                Claim::<J>::Wait
            } else {
                Claim::<J>::Closed
            }),
    {
        match self.pending.pop_front() {
            Some(job) => {
                proof {
                    self.delivered@ = self.delivered@.push(job);
                }
                Claim::Job(job)
            },
            None => {
                if self.open {
                    Claim::Wait
                } else {
                    Claim::Closed
                }
            },
        }
    }

    /// Drops the producer side. Pending jobs stay claimable; closing twice
    /// changes nothing.
    pub fn close(&mut self)
        requires
            old(self).wf(),
        ensures
            final(self).wf(),
            final(self)@ == (QueueView { open: false, ..old(self)@ }),
    {
        self.open = false;
    }
}

} // verus!
