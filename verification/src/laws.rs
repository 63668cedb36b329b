//! What holds of every pool, whatever its size and whatever was submitted.
use crate::model::{
    lemma_load_len, lemma_load_none, lemma_steps_none, lemma_steps_update, lemma_submit_inv,
    PoolView,
};
use crate::queue::QueueView;
use crate::worker::{JoinOutcome, WorkerState};
use vstd::multiset::Multiset;
use vstd::prelude::*;
use vstd::seq_lib::lemma_multiset_commutative;

verus! {

/// Every submitted job is in exactly one place: it waits in the queue, or
/// it is in execution, or it is completed. Jobs leave the queue in the
/// order of submission.
pub proof fn lemma_every_job_accounted<J>(v: PoolView<J>)
    requires
        v.inv(),
    ensures
        v.queue.delivered.is_prefix_of(v.queue.sent),
        v.queue.sent =~= v.queue.delivered + v.queue.pending,
        v.queue.sent.to_multiset() =~= v.completed.to_multiset().add(v.in_flight()).add(
            v.queue.pending.to_multiset(),
        ),
{
    lemma_multiset_commutative(v.queue.delivered, v.queue.pending);
}

/// At no time are more jobs in execution than the pool has workers.
pub proof fn lemma_active_bounded<J>(v: PoolView<J>)
    ensures
        v.active() <= v.size(),
{
    lemma_load_len(v.workers);
}

/// Once every worker has terminated, the pool is closed, nothing waits,
/// nothing is in execution, and the completed jobs are the submitted jobs,
/// each as often as it was submitted.
pub proof fn lemma_terminated_ran_all<J>(v: PoolView<J>)
    requires
        v.inv(),
        v.all_terminated(),
    ensures
        !v.queue.open,
        v.queue.pending.len() == 0,
        v.in_flight() =~= Multiset::empty(),
        v.completed.to_multiset() =~= v.queue.sent.to_multiset(),
        v.completed.len() == v.queue.sent.len(),
{
    broadcast use vstd::multiset::group_multiset_axioms;

    assert(v.workers[0].inv());
    assert forall|i: int| 0 <= i < v.workers.len() implies (#[trigger] v.workers[i]).job is None by {
        assert(v.workers[i].inv());
    }
    lemma_load_none(v.workers);
    assert(v.queue.sent =~= v.queue.delivered);
    v.completed.to_multiset_ensures();
    v.queue.sent.to_multiset_ensures();
}

/// A disposed pool has run everything: all its workers have terminated,
/// and the completed jobs are the submitted jobs, each as often as it was
/// submitted.
pub proof fn lemma_disposed_ran_all<J>(v: PoolView<J>)
    requires
        v.inv(),
        v.disposed(),
    ensures
        v.all_terminated(),
        v.queue.pending.len() == 0,
        v.in_flight() =~= Multiset::empty(),
        v.completed.to_multiset() =~= v.queue.sent.to_multiset(),
        v.completed.len() == v.queue.sent.len(),
{
    assert forall|i: int| 0 <= i < v.workers.len() implies (#[trigger] v.workers[i]).state
        == WorkerState::Terminated by {
        assert(v.workers[i].inv());
    }
    lemma_terminated_ran_all(v);
}

/// No worker can be joined while the pool is open, while a job waits, or
/// while the worker itself executes a job: the attempt changes nothing and
/// tells the caller to wait.
pub proof fn lemma_join_waits<J>(v: PoolView<J>, worker: int)
    requires
        v.inv(),
        0 <= worker < v.size(),
        v.queue.open || v.queue.pending.len() > 0 || v.workers[worker].job is Some,
    ensures
        v.join_outcome(worker) == JoinOutcome::StillRunning,
        v.join(worker) == v,
{
    assert(v.workers[worker].inv());
}

/// A burst of submissions loses nothing: the jobs stand in the queue in
/// the order of submission, behind what waited before, and nothing else
/// has changed.
pub proof fn lemma_burst_kept<J>(v: PoolView<J>, jobs: Seq<J>)
    requires
        v.inv(),
        v.queue.open,
    ensures
        v.submit_all(jobs).inv(),
        v.submit_all(jobs) == (PoolView {
            queue: QueueView {
                pending: v.queue.pending + jobs,
                sent: v.queue.sent + jobs,
                ..v.queue
            },
            ..v
        }),
    decreases jobs.len(),
{
    if jobs.len() == 0 {
        assert(v.queue.pending + jobs =~= v.queue.pending);
        assert(v.queue.sent + jobs =~= v.queue.sent);
    } else {
        let front = jobs.drop_last();
        lemma_burst_kept(v, front);
        lemma_submit_inv(v.submit_all(front), jobs.last());
        assert((v.queue.pending + front).push(jobs.last()) =~= v.queue.pending + jobs);
        assert((v.queue.sent + front).push(jobs.last()) =~= v.queue.sent + jobs);
    }
}

/// A pool of one worker is a serializer: at most one job is in execution,
/// and the jobs complete in the order of submission.
pub proof fn lemma_single_worker_serial<J>(v: PoolView<J>)
    requires
        v.inv(),
        v.size() == 1,
    ensures
        v.active() <= 1,
        v.completed + v.workers[0].running() =~= v.queue.delivered,
        v.completed.is_prefix_of(v.queue.sent),
{
    lemma_load_len(v.workers);
}

/// Once the pool is closed, every turn of a worker brings disposal one
/// step closer: a claim by a free worker, whether it yields a job or
/// closure, and the end of a job each take one from the work that is left.
pub proof fn lemma_turn_counts_down<J>(v: PoolView<J>, worker: int)
    requires
        v.inv(),
        !v.queue.open,
        0 <= worker < v.size(),
    ensures
        v.workers[worker].idle() ==> v.claim(worker).work_left() == v.work_left() - 1,
        v.workers[worker].job is Some ==> v.complete(worker).work_left() == v.work_left() - 1,
{
    assert(v.workers[worker].inv());
    if v.workers[worker].idle() {
        lemma_steps_update(v.workers, worker, v.claim(worker).workers[worker]);
    }
    if v.workers[worker].job is Some {
        lemma_steps_update(v.workers, worker, v.complete(worker).workers[worker]);
    }
}

/// A join that succeeds takes one from the work that is left; an attempt
/// that does not succeed leaves the pool as it was.
pub proof fn lemma_join_counts_down<J>(v: PoolView<J>, worker: int)
    requires
        v.inv(),
        0 <= worker < v.size(),
    ensures
        v.join_outcome(worker) == JoinOutcome::Joined ==> v.join(worker).work_left()
            == v.work_left() - 1,
        v.join_outcome(worker) != JoinOutcome::Joined ==> v.join(worker) == v,
{
    lemma_steps_update(v.workers, worker, v.join(worker).workers[worker]);
}

/// Teardown never gets stuck: in a closed pool, the worker that is to be
/// joined next can be joined, or can claim, or can end its job.
pub proof fn lemma_teardown_proceeds<J>(v: PoolView<J>, worker: int)
    requires
        v.inv(),
        !v.queue.open,
        0 <= worker < v.size(),
        v.workers[worker].joinable,
    ensures
        v.join_outcome(worker) == JoinOutcome::Joined || v.workers[worker].idle()
            || v.workers[worker].job is Some,
{
}

/// A closed pool is disposed exactly when no work is left.
pub proof fn lemma_disposed_iff_no_work_left<J>(v: PoolView<J>)
    requires
        v.inv(),
        !v.queue.open,
    ensures
        v.disposed() <==> v.work_left() == 0,
{
    if v.disposed() {
        lemma_disposed_ran_all(v);
        assert forall|i: int| 0 <= i < v.workers.len() implies (#[trigger] v.workers[i]).steps_left()
            == 0 by {
            assert(v.workers[i].inv());
        }
        lemma_steps_none(v.workers);
    }
    if v.work_left() == 0 {
        assert forall|i: int| 0 <= i < v.workers.len() implies !(#[trigger] v.workers[i]).joinable by {
            lemma_steps_update(v.workers, i, v.workers[i]);
        }
    }
}

} // verus!
