//! Schedule-independent accounting.
//!
//! The functions of [`crate::pool`] are the individual transitions of the
//! protocol; a run of the pool is any interleaving of them.  This module
//! states what holds of every such interleaving: completion signals are
//! conserved.  A sending job's payload moves from the queue to the worker
//! that dequeued it and from there to the completion channel, and no step —
//! a fault, a respawn, a teardown — creates or loses one.  In particular,
//! any run that finishes the work delivers exactly the submitted payloads,
//! however the jobs were distributed among the workers.

use vstd::prelude::*;
use vstd::multiset::Multiset;
use crate::pool::Job;
use crate::pool::PoolView;
use crate::pool::QueueItem;
use crate::pool::Worker;
use crate::pool::dequeue_spec;
use crate::pool::execute_spec;
use crate::pool::finish_signal;
use crate::pool::finish_spec;
use crate::pool::monitor_spec;
use crate::pool::new_spec;
use crate::pool::lemma_stop_count_append;
use crate::pool::lemma_stop_count_first;
use crate::pool::lemma_stop_count_push;
use crate::pool::lemma_stop_count_stops;
use crate::pool::release_spec;

verus! {

/// The payload a queue item still owes the completion channel.
pub open spec fn item_payloads(it: QueueItem) -> Multiset<u64> {
    match it {
        QueueItem::Work(Job::Sends(v)) => Multiset::singleton(v),
        _ => Multiset::empty(),
    }
}

/// The payloads a queue still owes.
pub open spec fn queue_payloads(q: Seq<QueueItem>) -> Multiset<u64>
    decreases q.len(),
{
    if q.len() == 0 {
        Multiset::empty()
    } else {
        item_payloads(q[0]).add(queue_payloads(q.drop_first()))
    }
}

/// The payload a worker still owes for the job it is running.
pub open spec fn worker_payload(w: Worker) -> Multiset<u64> {
    match w {
        Worker::Running(Job::Sends(v)) => Multiset::singleton(v),
        _ => Multiset::empty(),
    }
}

/// The payloads the live workers still owe.
pub open spec fn workers_payloads(ws: Seq<Worker>) -> Multiset<u64>
    decreases ws.len(),
{
    if ws.len() == 0 {
        Multiset::empty()
    } else {
        worker_payload(ws[0]).add(workers_payloads(ws.drop_first()))
    }
}

/// Everything the pool still owes the completion channel.
pub open spec fn pending_payloads(s: PoolView) -> Multiset<u64> {
    queue_payloads(s.queue).add(workers_payloads(s.workers))
}

/// One event of a pool's run: a caller submits a job, worker `w` dequeues
/// the head of the queue, worker `w` finishes the job it is running, the
/// monitor takes one turn, or the handle is released.
pub enum Event {
    Submit(Job),
    Dequeue(int),
    Finish(int),
    Monitor,
    Release,
}

/// Whether the event can fire in state `s` — the `requires` of the
/// corresponding transition of [`crate::pool::TaskPool`].
pub open spec fn event_enabled(s: PoolView, e: Event) -> bool {
    match e {
        Event::Submit(_) => !s.shutdown,
        Event::Dequeue(w) => 0 <= w < s.workers.len() && s.workers[w] is Idle && s.queue.len()
            > 0,
        Event::Finish(w) => 0 <= w < s.workers.len() && s.workers[w] is Running,
        Event::Monitor => s.notifications >= 1 && s.monitor_alive,
        Event::Release => !s.shutdown,
    }
}

/// The state the event leads to.
pub open spec fn event_step(s: PoolView, e: Event) -> PoolView {
    match e {
        Event::Submit(job) => execute_spec(s, job),
        Event::Dequeue(w) => dequeue_spec(s, w),
        Event::Finish(w) => finish_spec(s, w),
        Event::Monitor => monitor_spec(s),
        Event::Release => release_spec(s),
    }
}

/// What the event puts on the completion channel.
pub open spec fn event_output(s: PoolView, e: Event) -> Multiset<u64> {
    match e {
        Event::Finish(w) => match finish_signal(s, w) {
            Some(v) => Multiset::singleton(v),
            None => Multiset::empty(),
        },
        _ => Multiset::empty(),
    }
}

/// What the event promises the completion channel.
pub open spec fn event_input(e: Event) -> Multiset<u64> {
    match e {
        Event::Submit(Job::Sends(v)) => Multiset::singleton(v),
        _ => Multiset::empty(),
    }
}

/// The state a sequence of events, oldest first, leads to.
pub open spec fn run(s: PoolView, es: Seq<Event>) -> PoolView
    decreases es.len(),
{
    if es.len() == 0 {
        s
    } else {
        run(event_step(s, es[0]), es.drop_first())
    }
}

/// Whether every event of the sequence is enabled when its turn comes.
pub open spec fn run_valid(s: PoolView, es: Seq<Event>) -> bool
    decreases es.len(),
{
    es.len() == 0 || (event_enabled(s, es[0]) && run_valid(event_step(s, es[0]), es.drop_first()))
}

/// Everything the run puts on the completion channel.
pub open spec fn run_outputs(s: PoolView, es: Seq<Event>) -> Multiset<u64>
    decreases es.len(),
{
    if es.len() == 0 {
        Multiset::empty()
    } else {
        event_output(s, es[0]).add(run_outputs(event_step(s, es[0]), es.drop_first()))
    }
}

/// Everything the run's submissions promise the completion channel.
pub open spec fn run_inputs(es: Seq<Event>) -> Multiset<u64>
    decreases es.len(),
{
    if es.len() == 0 {
        Multiset::empty()
    } else {
        event_input(es[0]).add(run_inputs(es.drop_first()))
    }
}

/// Unfolds `queue_payloads` one step at the head of a non-empty queue.
proof fn lemma_queue_payloads_first(q: Seq<QueueItem>)
    requires
        q.len() > 0,
    ensures
        queue_payloads(q) == item_payloads(q[0]).add(queue_payloads(q.drop_first())),
{
}

/// Pushing an item adds exactly its payload.
proof fn lemma_queue_payloads_push(q: Seq<QueueItem>, x: QueueItem)
    ensures
        queue_payloads(q.push(x)) == queue_payloads(q).add(item_payloads(x)),
    decreases q.len(),
{
    lemma_queue_payloads_first(q.push(x));
    if q.len() == 0 {
        assert(q.push(x)[0] == x);
        assert(q.push(x).drop_first() =~= Seq::<QueueItem>::empty());
        assert(item_payloads(x).add(Multiset::empty()) =~= Multiset::empty().add(
            item_payloads(x),
        ));
    } else {
        assert(q.push(x)[0] == q[0]);
        assert(q.push(x).drop_first() =~= q.drop_first().push(x));
        lemma_queue_payloads_push(q.drop_first(), x);
        assert(item_payloads(q[0]).add(queue_payloads(q.drop_first()).add(item_payloads(x)))
            =~= (item_payloads(q[0]).add(queue_payloads(q.drop_first()))).add(
            item_payloads(x),
        ));
    }
}

/// Appending queues adds their payloads.
proof fn lemma_queue_payloads_append(q1: Seq<QueueItem>, q2: Seq<QueueItem>)
    ensures
        queue_payloads(q1 + q2) == queue_payloads(q1).add(queue_payloads(q2)),
    decreases q1.len(),
{
    if q1.len() == 0 {
        assert(q1 + q2 =~= q2);
        assert(queue_payloads(q2) =~= Multiset::empty().add(queue_payloads(q2)));
    } else {
        assert((q1 + q2)[0] == q1[0]);
        assert((q1 + q2).drop_first() =~= q1.drop_first() + q2);
        lemma_queue_payloads_first(q1 + q2);
        lemma_queue_payloads_append(q1.drop_first(), q2);
        assert(item_payloads(q1[0]).add(queue_payloads(q1.drop_first()).add(queue_payloads(q2)))
            =~= (item_payloads(q1[0]).add(queue_payloads(q1.drop_first()))).add(
            queue_payloads(q2),
        ));
    }
}

/// Stop signals owe nothing.
proof fn lemma_stops_no_payloads(n: nat)
    ensures
        queue_payloads(Seq::new(n, |i: int| QueueItem::Stop)) == Multiset::<u64>::empty(),
    decreases n,
{
    if n > 0 {
        assert(Seq::new(n, |i: int| QueueItem::Stop).drop_first() =~= Seq::new(
            (n - 1) as nat,
            |i: int| QueueItem::Stop,
        ));
        lemma_stops_no_payloads((n - 1) as nat);
        assert(Multiset::<u64>::empty().add(Multiset::<u64>::empty())
            =~= Multiset::<u64>::empty());
    }
}

/// Unfolds `workers_payloads` one step at the head of a non-empty list.
proof fn lemma_workers_payloads_first(ws: Seq<Worker>)
    requires
        ws.len() > 0,
    ensures
        workers_payloads(ws) == worker_payload(ws[0]).add(workers_payloads(ws.drop_first())),
{
}

/// Adding a worker adds exactly its payload.
proof fn lemma_workers_payloads_push(ws: Seq<Worker>, x: Worker)
    ensures
        workers_payloads(ws.push(x)) == workers_payloads(ws).add(worker_payload(x)),
    decreases ws.len(),
{
    lemma_workers_payloads_first(ws.push(x));
    if ws.len() == 0 {
        assert(ws.push(x)[0] == x);
        assert(ws.push(x).drop_first() =~= Seq::<Worker>::empty());
        assert(worker_payload(x).add(Multiset::<u64>::empty()) =~= Multiset::<u64>::empty().add(
            worker_payload(x),
        ));
    } else {
        assert(ws.push(x)[0] == ws[0]);
        assert(ws.push(x).drop_first() =~= ws.drop_first().push(x));
        lemma_workers_payloads_first(ws);
        lemma_workers_payloads_push(ws.drop_first(), x);
        assert(worker_payload(ws[0]).add(workers_payloads(ws.drop_first()).add(worker_payload(x)))
            =~= (worker_payload(ws[0]).add(workers_payloads(ws.drop_first()))).add(
            worker_payload(x),
        ));
    }
}

/// Giving a job to a worker that owes nothing adds the job's payload.
proof fn lemma_workers_payloads_take(ws: Seq<Worker>, w: int, x: Worker)
    requires
        0 <= w < ws.len(),
        worker_payload(ws[w]) == Multiset::<u64>::empty(),
    ensures
        workers_payloads(ws.update(w, x)) == workers_payloads(ws).add(worker_payload(x)),
    decreases ws.len(),
{
    lemma_workers_payloads_first(ws);
    lemma_workers_payloads_first(ws.update(w, x));
    if w == 0 {
        assert(ws.update(0, x)[0] == x);
        assert(ws.update(0, x).drop_first() =~= ws.drop_first());
        assert(worker_payload(x).add(workers_payloads(ws.drop_first()))
            =~= (Multiset::<u64>::empty().add(workers_payloads(ws.drop_first()))).add(
            worker_payload(x),
        ));
    } else {
        assert(ws.update(w, x)[0] == ws[0]);
        assert(ws.update(w, x).drop_first() =~= ws.drop_first().update(w - 1, x));
        lemma_workers_payloads_take(ws.drop_first(), w - 1, x);
        assert(worker_payload(ws[0]).add(workers_payloads(ws.drop_first()).add(worker_payload(x)))
            =~= (worker_payload(ws[0]).add(workers_payloads(ws.drop_first()))).add(
            worker_payload(x),
        ));
    }
}

/// Taking worker `w`'s payload away — it goes back to idle — splits it off
/// the total.
proof fn lemma_workers_payloads_settle(ws: Seq<Worker>, w: int)
    requires
        0 <= w < ws.len(),
    ensures
        workers_payloads(ws) == workers_payloads(ws.update(w, Worker::Idle)).add(
            worker_payload(ws[w]),
        ),
    decreases ws.len(),
{
    lemma_workers_payloads_first(ws);
    lemma_workers_payloads_first(ws.update(w, Worker::Idle));
    if w == 0 {
        assert(ws.update(0, Worker::Idle)[0] == Worker::Idle);
        assert(ws.update(0, Worker::Idle).drop_first() =~= ws.drop_first());
        assert(worker_payload(ws[0]).add(workers_payloads(ws.drop_first()))
            =~= (Multiset::<u64>::empty().add(workers_payloads(ws.drop_first()))).add(
            worker_payload(ws[0]),
        ));
    } else {
        assert(ws.update(w, Worker::Idle)[0] == ws[0]);
        assert(ws.update(w, Worker::Idle).drop_first() =~= ws.drop_first().update(
            w - 1,
            Worker::Idle,
        ));
        lemma_workers_payloads_settle(ws.drop_first(), w - 1);
        assert(worker_payload(ws[0]).add(workers_payloads(ws.drop_first().update(
            w - 1,
            Worker::Idle,
        )).add(worker_payload(ws[w]))) =~= (worker_payload(ws[0]).add(workers_payloads(
            ws.drop_first().update(w - 1, Worker::Idle),
        ))).add(worker_payload(ws[w])));
    }
}

/// Removing a worker that owes nothing changes nothing.
proof fn lemma_workers_payloads_drop(ws: Seq<Worker>, w: int)
    requires
        0 <= w < ws.len(),
        worker_payload(ws[w]) == Multiset::<u64>::empty(),
    ensures
        workers_payloads(ws.remove(w)) == workers_payloads(ws),
    decreases ws.len(),
{
    lemma_workers_payloads_first(ws);
    if w == 0 {
        assert(ws.remove(0) =~= ws.drop_first());
        assert(workers_payloads(ws.drop_first()) =~= Multiset::<u64>::empty().add(
            workers_payloads(ws.drop_first()),
        ));
    } else {
        lemma_workers_payloads_first(ws.remove(w));
        assert(ws.remove(w)[0] == ws[0]);
        assert(ws.remove(w).drop_first() =~= ws.drop_first().remove(w - 1));
        lemma_workers_payloads_drop(ws.drop_first(), w - 1);
    }
}

/// Idle workers owe nothing.
proof fn lemma_workers_payloads_all_idle(ws: Seq<Worker>)
    requires
        forall|i: int| 0 <= i < ws.len() ==> ws[i] is Idle,
    ensures
        workers_payloads(ws) == Multiset::<u64>::empty(),
    decreases ws.len(),
{
    if ws.len() > 0 {
        lemma_workers_payloads_all_idle(ws.drop_first());
        assert(Multiset::<u64>::empty().add(Multiset::<u64>::empty())
            =~= Multiset::<u64>::empty());
    }
}

/// One event conserves signals: what it delivers plus what is owed
/// afterwards equals what was owed before plus what it submits.
pub proof fn lemma_event_conservation(s: PoolView, e: Event)
    requires
        event_enabled(s, e),
    ensures
        event_output(s, e).add(pending_payloads(event_step(s, e))) == pending_payloads(s).add(
            event_input(e),
        ),
{
    match e {
        Event::Submit(job) => {
            lemma_queue_payloads_push(s.queue, QueueItem::Work(job));
            assert(Multiset::<u64>::empty().add((queue_payloads(s.queue).add(item_payloads(
                QueueItem::Work(job),
            ))).add(workers_payloads(s.workers))) =~= (queue_payloads(s.queue).add(
                workers_payloads(s.workers),
            )).add(item_payloads(QueueItem::Work(job))));
        },
        Event::Dequeue(w) => {
            lemma_queue_payloads_first(s.queue);
            match s.queue[0] {
                QueueItem::Work(job) => {
                    assert(worker_payload(s.workers[w]) =~= Multiset::<u64>::empty());
                    lemma_workers_payloads_take(s.workers, w, Worker::Running(job));
                    assert(item_payloads(s.queue[0]) == worker_payload(Worker::Running(job)));
                    assert(Multiset::<u64>::empty().add(queue_payloads(s.queue.drop_first()).add(
                        workers_payloads(s.workers).add(worker_payload(Worker::Running(job))),
                    )) =~= ((item_payloads(s.queue[0]).add(queue_payloads(
                        s.queue.drop_first(),
                    ))).add(workers_payloads(s.workers))).add(Multiset::<u64>::empty()));
                },
                QueueItem::Stop => {
                    assert(worker_payload(s.workers[w]) =~= Multiset::<u64>::empty());
                    lemma_workers_payloads_drop(s.workers, w);
                    assert(item_payloads(s.queue[0]) =~= Multiset::<u64>::empty());
                    assert(Multiset::<u64>::empty().add(queue_payloads(s.queue.drop_first()).add(
                        workers_payloads(s.workers),
                    )) =~= ((Multiset::<u64>::empty().add(queue_payloads(
                        s.queue.drop_first(),
                    ))).add(workers_payloads(s.workers))).add(Multiset::<u64>::empty()));
                },
            }
        },
        Event::Finish(w) => {
            match s.workers[w] {
                Worker::Running(Job::Sends(v)) => {
                    lemma_workers_payloads_settle(s.workers, w);
                    assert(worker_payload(s.workers[w]) == Multiset::singleton(v));
                    assert(Multiset::singleton(v).add(queue_payloads(s.queue).add(
                        workers_payloads(s.workers.update(w, Worker::Idle)),
                    )) =~= (queue_payloads(s.queue).add(workers_payloads(s.workers.update(
                        w,
                        Worker::Idle,
                    )).add(Multiset::singleton(v)))).add(Multiset::<u64>::empty()));
                },
                Worker::Running(Job::Faults) => {
                    assert(worker_payload(s.workers[w]) =~= Multiset::<u64>::empty());
                    lemma_workers_payloads_drop(s.workers, w);
                    assert(Multiset::<u64>::empty().add(queue_payloads(s.queue).add(
                        workers_payloads(s.workers),
                    )) =~= (queue_payloads(s.queue).add(workers_payloads(s.workers))).add(
                        Multiset::<u64>::empty(),
                    ));
                },
                Worker::Idle => {},
            }
        },
        Event::Monitor => {
            if !s.shutdown {
                lemma_workers_payloads_push(s.workers, Worker::Idle);
            }
            assert(Multiset::<u64>::empty().add(pending_payloads(event_step(s, e)))
                =~= pending_payloads(s).add(Multiset::<u64>::empty()));
        },
        Event::Release => {
            lemma_queue_payloads_append(s.queue, Seq::new(s.tasks, |i: int| QueueItem::Stop));
            lemma_stops_no_payloads(s.tasks);
            assert(Multiset::<u64>::empty().add((queue_payloads(s.queue).add(
                Multiset::<u64>::empty(),
            )).add(workers_payloads(s.workers))) =~= (queue_payloads(s.queue).add(
                workers_payloads(s.workers),
            )).add(Multiset::<u64>::empty()));
        },
    }
}

/// Signal conservation over every schedule: for any valid run, the signals
/// delivered plus those still owed at the end equal those owed at the start
/// plus those submitted along the way.  A sending job's payload is never
/// created, duplicated or lost, however jobs, faults, respawns and the
/// teardown interleave.
pub proof fn lemma_signal_conservation(s: PoolView, es: Seq<Event>)
    requires
        run_valid(s, es),
    ensures
        run_outputs(s, es).add(pending_payloads(run(s, es))) == pending_payloads(s).add(
            run_inputs(es),
        ),
    decreases es.len(),
{
    if es.len() == 0 {
        assert(Multiset::<u64>::empty().add(pending_payloads(s)) =~= pending_payloads(s).add(
            Multiset::<u64>::empty(),
        ));
    } else {
        let mid = event_step(s, es[0]);
        let rest = es.drop_first();
        lemma_event_conservation(s, es[0]);
        lemma_signal_conservation(mid, rest);
        assert(run_outputs(s, es).add(pending_payloads(run(s, es))) =~= event_output(
            s,
            es[0],
        ).add(run_outputs(mid, rest).add(pending_payloads(run(mid, rest)))));
        assert(event_output(s, es[0]).add(pending_payloads(mid).add(run_inputs(rest)))
            =~= (event_output(s, es[0]).add(pending_payloads(mid))).add(run_inputs(rest)));
        assert((pending_payloads(s).add(event_input(es[0]))).add(run_inputs(rest))
            =~= pending_payloads(s).add(event_input(es[0]).add(run_inputs(rest))));
    }
}

/// A fresh pool satisfies the invariant, with every worker idle.
pub proof fn lemma_new_wf(n: nat)
    requires
        n >= 1,
    ensures
        new_spec(n).wf(),
        new_spec(n).all_idle(),
{
}

/// One enabled event preserves the pool's invariant.
pub proof fn lemma_event_preserves_wf(s: PoolView, e: Event)
    requires
        s.wf(),
        event_enabled(s, e),
    ensures
        event_step(s, e).wf(),
{
    match e {
        Event::Submit(job) => {
            lemma_stop_count_push(s.queue, QueueItem::Work(job));
        },
        Event::Dequeue(_) => {
            lemma_stop_count_first(s.queue);
        },
        Event::Finish(_) => {},
        Event::Monitor => {},
        Event::Release => {
            lemma_stop_count_append(s.queue, Seq::new(s.tasks, |i: int| QueueItem::Stop));
            lemma_stop_count_stops(s.tasks);
        },
    }
}

/// The invariant holds in every reachable state: whatever valid run a pool
/// takes from a well-formed state — submissions, dequeues, faults, monitor
/// turns, the teardown — each intermediate and the final state keep the
/// capacity accounting of [`PoolView::wf`].
pub proof fn lemma_run_preserves_wf(s: PoolView, es: Seq<Event>)
    requires
        s.wf(),
        run_valid(s, es),
    ensures
        run(s, es).wf(),
    decreases es.len(),
{
    if es.len() > 0 {
        lemma_event_preserves_wf(s, es[0]);
        lemma_run_preserves_wf(event_step(s, es[0]), es.drop_first());
    }
}

/// Every submitted signal is delivered, on every schedule that finishes the
/// work: a valid run of a fresh pool that ends with nothing owed has put on
/// the completion channel exactly the payloads of the jobs it submitted —
/// one signal per sending job, whichever workers ran them and however many
/// workers faulted and were replaced along the way.
pub proof fn lemma_complete_runs_deliver_everything(n: nat, es: Seq<Event>)
    requires
        run_valid(new_spec(n), es),
        pending_payloads(run(new_spec(n), es)) == Multiset::<u64>::empty(),
    ensures
        run_outputs(new_spec(n), es) == run_inputs(es),
{
    lemma_signal_conservation(new_spec(n), es);
    lemma_workers_payloads_all_idle(new_spec(n).workers);
    assert(pending_payloads(new_spec(n)) =~= Multiset::<u64>::empty());
    assert(run_outputs(new_spec(n), es).add(Multiset::<u64>::empty()) =~= run_outputs(
        new_spec(n),
        es,
    ));
    assert(Multiset::<u64>::empty().add(run_inputs(es)) =~= run_inputs(es));
}

} // verus!
