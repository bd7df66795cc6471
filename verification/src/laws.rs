//! Laws of the pool protocol: what holds of every run, stated over the
//! spec-level transitions of [`crate::pool`].

use vstd::prelude::*;
use crate::pool::Job;
use crate::pool::PoolView;
use crate::pool::QueueItem;
use crate::pool::execute_spec;
use crate::pool::lemma_sends_of_first;
use crate::pool::monitor_spec;
use crate::pool::new_spec;
use crate::pool::release_spec;
use crate::pool::sends_of;

verus! {

/// The monitor never resurrects a worker once shutdown has been signaled:
/// a monitor turn taken with the shutdown flag set leaves the workers
/// untouched and terminates the monitor.
pub proof fn lemma_no_respawn_after_shutdown(s: PoolView)
    requires
        s.shutdown,
    ensures
        monitor_spec(s).workers == s.workers,
        !monitor_spec(s).monitor_alive,
{
}

/// A list of jobs as the queue items their submission appends.
pub open spec fn as_work(jobs: Seq<Job>) -> Seq<QueueItem> {
    jobs.map_values(|j: Job| QueueItem::Work(j))
}

/// Submitting a list of jobs, oldest first.
pub open spec fn submit_all_spec(s: PoolView, jobs: Seq<Job>) -> PoolView
    decreases jobs.len(),
{
    if jobs.len() == 0 {
        s
    } else {
        submit_all_spec(execute_spec(s, jobs[0]), jobs.drop_first())
    }
}

/// The payloads of the sending jobs in a list, in order.
pub open spec fn payloads(jobs: Seq<Job>) -> Seq<u64>
    decreases jobs.len(),
{
    if jobs.len() == 0 {
        Seq::empty()
    } else {
        match jobs[0] {
            Job::Sends(v) => seq![v] + payloads(jobs.drop_first()),
            Job::Faults => payloads(jobs.drop_first()),
        }
    }
}

/// Submission only appends to the queue: after submitting a list of jobs
/// the queue has grown by exactly those jobs, in order, and no other part
/// of the pool has moved.
pub proof fn lemma_submit_all(s: PoolView, jobs: Seq<Job>)
    ensures
        submit_all_spec(s, jobs).queue == s.queue + as_work(jobs),
        submit_all_spec(s, jobs).workers == s.workers,
        submit_all_spec(s, jobs).tasks == s.tasks,
        submit_all_spec(s, jobs).notifications == s.notifications,
        submit_all_spec(s, jobs).shutdown == s.shutdown,
        submit_all_spec(s, jobs).monitor_alive == s.monitor_alive,
    decreases jobs.len(),
{
    if jobs.len() == 0 {
        assert(s.queue + as_work(jobs) =~= s.queue);
    } else {
        lemma_submit_all(execute_spec(s, jobs[0]), jobs.drop_first());
        assert(s.queue.push(QueueItem::Work(jobs[0])) + as_work(jobs.drop_first()) =~= s.queue
            + as_work(jobs));
    }
}

/// On a queue of plain jobs, the deliverable payloads are exactly the
/// payloads of the jobs' sending part.
pub proof fn lemma_sends_of_work(jobs: Seq<Job>)
    ensures
        sends_of(as_work(jobs)) == payloads(jobs),
    decreases jobs.len(),
{
    if jobs.len() > 0 {
        lemma_sends_of_first(as_work(jobs));
        assert(as_work(jobs)[0] == QueueItem::Work(jobs[0]));
        assert(as_work(jobs).drop_first() =~= as_work(jobs.drop_first()));
        lemma_sends_of_work(jobs.drop_first());
    }
}

/// Jobs that fault deliver nothing: a leading stretch of faulting jobs
/// drops out of the payloads.
pub proof fn lemma_payloads_skip_faults(faults: Seq<Job>, rest: Seq<Job>)
    requires
        forall|i: int| 0 <= i < faults.len() ==> faults[i] is Faults,
    ensures
        payloads(faults + rest) == payloads(rest),
    decreases faults.len(),
{
    if faults.len() == 0 {
        assert(faults + rest =~= rest);
    } else {
        assert((faults + rest)[0] == faults[0]);
        assert((faults + rest).drop_first() =~= faults.drop_first() + rest);
        lemma_payloads_skip_faults(faults.drop_first(), rest);
    }
}

/// Sending jobs deliver one payload each.
pub proof fn lemma_payloads_all_sends(jobs: Seq<Job>)
    requires
        forall|i: int| 0 <= i < jobs.len() ==> jobs[i] is Sends,
    ensures
        payloads(jobs).len() == jobs.len(),
    decreases jobs.len(),
{
    if jobs.len() > 0 {
        lemma_payloads_all_sends(jobs.drop_first());
    }
}

/// Every submitted job is accounted for.  Start a fresh pool of any size,
/// submit `M` sending jobs: what the pool owes the completion channel is
/// exactly the `M` payloads, one signal per job, in submission order —
/// however the jobs end up distributed among the workers.  Running the pool
/// to quiescence ([`crate::pool::TaskPool::drain`]) delivers exactly this
/// sequence.
pub proof fn lemma_all_jobs_signal(n: nat, jobs: Seq<Job>)
    requires
        n >= 1,
        forall|i: int| 0 <= i < jobs.len() ==> jobs[i] is Sends,
    ensures
        sends_of(submit_all_spec(new_spec(n), jobs).queue) == payloads(jobs),
        payloads(jobs).len() == jobs.len(),
{
    lemma_submit_all(new_spec(n), jobs);
    assert(new_spec(n).queue + as_work(jobs) =~= as_work(jobs));
    lemma_sends_of_work(jobs);
    lemma_payloads_all_sends(jobs);
}

/// The pool recovers from a total wipeout.  Submit faulting jobs enough to
/// take down every worker of a fresh pool, then further sending jobs: every
/// one of the later jobs still delivers its signal.  Running the pool to
/// quiescence ([`crate::pool::TaskPool::drain`]) delivers exactly those
/// payloads and ends with the full configured number of workers alive.
pub proof fn lemma_recovery_after_wipeout(n: nat, faults: Seq<Job>, sends: Seq<Job>)
    requires
        n >= 1,
        forall|i: int| 0 <= i < faults.len() ==> faults[i] is Faults,
        forall|i: int| 0 <= i < sends.len() ==> sends[i] is Sends,
    ensures
        sends_of(submit_all_spec(new_spec(n), faults + sends).queue) == payloads(sends),
        payloads(sends).len() == sends.len(),
{
    lemma_submit_all(new_spec(n), faults + sends);
    assert(new_spec(n).queue + as_work(faults + sends) =~= as_work(faults + sends));
    lemma_sends_of_work(faults + sends);
    lemma_payloads_skip_faults(faults, sends);
    lemma_payloads_all_sends(sends);
}

/// Releasing the pool after every worker has faulted is safe: the teardown
/// of a wiped-out pool leaves at least one death notification pending, so
/// the monitor wakes; and its next turn sees the shutdown flag, exits, and
/// respawns nothing.  Nothing in the protocol blocks, so the teardown
/// neither faults nor deadlocks.
pub proof fn lemma_release_after_wipeout(s: PoolView)
    requires
        s.wf(),
        !s.shutdown,
        s.workers.len() == 0,
    ensures
        release_spec(s).notifications >= 1,
        release_spec(s).monitor_alive,
        !monitor_spec(release_spec(s)).monitor_alive,
        monitor_spec(release_spec(s)).workers.len() == 0,
{
}

} // verus!
