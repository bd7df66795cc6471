//! The worker-pool protocol: its state, its transitions, and the schedules
//! that drive it to quiescence.
//!
//! A [`TaskPool`] holds the whole pool: the shared job queue, the live
//! workers, the count of watcher notifications the monitor has not yet
//! consumed, the shared shutdown flag, and whether the monitor thread is
//! still running.  Each public function below is one transition of the
//! protocol; its contract says exactly how the new state relates to the old
//! one, through the spec-level transition functions on [`PoolView`].

use vstd::prelude::*;

verus! {

/// What a job does when a worker runs it, as the protocol sees it: the job
/// either runs to completion and sends its payload on the caller's
/// completion channel, or raises a fault that unwinds its worker's stack.
#[derive(Clone, Copy, PartialEq, Eq, Structural, Debug)]
pub enum Job {
    Sends(u64),
    Faults,
}

/// One item travelling the shared job queue: a job to run, or one of the
/// explicit stop signals that teardown pushes, one per configured worker.
#[derive(Clone, Copy, PartialEq, Eq, Structural, Debug)]
pub enum QueueItem {
    Work(Job),
    Stop,
}

/// A live worker: parked in the dequeue critical section waiting for a job,
/// or running the job it has dequeued.  A worker that leaves its loop —
/// through a stop signal or through a fault — is removed from the pool, and
/// its watcher fires.
#[derive(Clone, Copy, PartialEq, Eq, Structural, Debug)]
pub enum Worker {
    Idle,
    Running(Job),
}

/// The pool's state as contracts speak of it.
#[verifier::ext_equal]
pub struct PoolView {
    /// The configured worker count: the capacity the pool maintains.
    pub tasks: nat,
    /// The shared job queue, oldest item first.
    pub queue: Seq<QueueItem>,
    /// The live workers, in no significant order.
    pub workers: Seq<Worker>,
    /// Watcher notifications sent but not yet consumed by the monitor.
    pub notifications: nat,
    /// The shared shutdown flag, set once at teardown and never cleared.
    pub shutdown: bool,
    /// Whether the monitor thread is still in its loop.
    pub monitor_alive: bool,
}

/// How many stop signals a queue holds.
pub open spec fn stop_count(q: Seq<QueueItem>) -> nat
    decreases q.len(),
{
    if q.len() == 0 {
        0
    } else {
        (if q[0] is Stop {
            1nat
        } else {
            0nat
        }) + stop_count(q.drop_first())
    }
}

impl PoolView {
    /// The pool's invariant.
    ///
    /// A worker is either alive or has an unconsumed notification in flight,
    /// so live workers and pending notifications never exceed the configured
    /// capacity.  Until shutdown they account for the capacity exactly (the
    /// eventual-consistency form of "N workers are alive"), the monitor is
    /// running, and no stop signal has been pushed.  After shutdown the
    /// queue holds at least one stop signal per live worker, which is what
    /// lets every worker leave its loop.
    pub open spec fn wf(self) -> bool {
        &&& self.tasks >= 1
        &&& self.workers.len() + self.notifications <= self.tasks
        &&& (!self.shutdown ==> {
            &&& self.workers.len() + self.notifications == self.tasks
            &&& self.monitor_alive
            &&& stop_count(self.queue) == 0
        })
        &&& (self.shutdown ==> stop_count(self.queue) >= self.workers.len())
    }

    /// No worker is in the middle of running a job.
    pub open spec fn all_idle(self) -> bool {
        forall|i: int| 0 <= i < self.workers.len() ==> self.workers[i] is Idle
    }
}

/// The state of a freshly constructed pool of `tasks` workers.
pub open spec fn new_spec(tasks: nat) -> PoolView {
    PoolView {
        tasks,
        queue: Seq::empty(),
        workers: Seq::new(tasks, |i: int| Worker::Idle),
        notifications: 0,
        shutdown: false,
        monitor_alive: true,
    }
}

/// Submitting a job appends it to the shared queue; nothing else moves.
pub open spec fn execute_spec(s: PoolView, job: Job) -> PoolView {
    PoolView { queue: s.queue.push(QueueItem::Work(job)), ..s }
}

/// Spawning wires one fresh, idle worker into the pool.
pub open spec fn spawn_spec(s: PoolView) -> PoolView {
    PoolView { workers: s.workers.push(Worker::Idle), ..s }
}

/// Worker `w` takes the item at the head of the queue.  A job moves the
/// worker to `Running`; a stop signal makes it leave its loop, upon which
/// its watcher fires one notification.
pub open spec fn dequeue_spec(s: PoolView, w: int) -> PoolView
    recommends
        0 <= w < s.workers.len(),
        s.workers[w] is Idle,
        s.queue.len() > 0,
{
    match s.queue[0] {
        QueueItem::Work(job) => PoolView {
            queue: s.queue.drop_first(),
            workers: s.workers.update(w, Worker::Running(job)),
            ..s
        },
        QueueItem::Stop => PoolView {
            queue: s.queue.drop_first(),
            workers: s.workers.remove(w),
            notifications: s.notifications + 1,
            ..s
        },
    }
}

/// Worker `w` finishes the job it is running.  A sending job delivers its
/// payload and the worker goes back to idle; a faulting job unwinds the
/// worker, upon which its watcher fires one notification.
pub open spec fn finish_spec(s: PoolView, w: int) -> PoolView
    recommends
        0 <= w < s.workers.len(),
        s.workers[w] is Running,
{
    match s.workers[w] {
        Worker::Running(Job::Sends(_)) => PoolView {
            workers: s.workers.update(w, Worker::Idle),
            ..s
        },
        Worker::Running(Job::Faults) => PoolView {
            workers: s.workers.remove(w),
            notifications: s.notifications + 1,
            ..s
        },
        Worker::Idle => s,
    }
}

/// The completion signal, if any, that finishing worker `w`'s job delivers.
pub open spec fn finish_signal(s: PoolView, w: int) -> Option<u64>
    recommends
        0 <= w < s.workers.len(),
{
    match s.workers[w] {
        Worker::Running(Job::Sends(v)) => Some(v),
        _ => None,
    }
}

/// One turn of the monitor loop, taken when a notification is available:
/// consume it, then — checking the flag before anything else — either exit
/// because the pool is shutting down, or spawn a replacement worker.
pub open spec fn monitor_spec(s: PoolView) -> PoolView
    recommends
        s.notifications >= 1,
        s.monitor_alive,
{
    if s.shutdown {
        PoolView { notifications: (s.notifications - 1) as nat, monitor_alive: false, ..s }
    } else {
        PoolView {
            notifications: (s.notifications - 1) as nat,
            workers: s.workers.push(Worker::Idle),
            ..s
        }
    }
}

/// Teardown: set the shared shutdown flag, then push one stop signal per
/// configured worker onto the job queue.
pub open spec fn release_spec(s: PoolView) -> PoolView {
    PoolView {
        shutdown: true,
        queue: s.queue + Seq::new(s.tasks, |i: int| QueueItem::Stop),
        ..s
    }
}

/// The payloads that a queue's sending jobs deliver, in queue order.
/// Faulting jobs and stop signals deliver nothing.
pub open spec fn sends_of(q: Seq<QueueItem>) -> Seq<u64>
    decreases q.len(),
{
    if q.len() == 0 {
        Seq::empty()
    } else {
        match q[0] {
            QueueItem::Work(Job::Sends(v)) => seq![v] + sends_of(q.drop_first()),
            _ => sends_of(q.drop_first()),
        }
    }
}

/// The payloads delivered when `w` workers run a queue down with no monitor
/// left to replace them: each faulting job and each consumed stop signal
/// costs one worker, and delivery stops when no worker remains.
pub open spec fn run_down_of(q: Seq<QueueItem>, w: nat) -> Seq<u64>
    decreases q.len(),
{
    if q.len() == 0 || w == 0 {
        Seq::empty()
    } else {
        match q[0] {
            QueueItem::Work(Job::Sends(v)) => seq![v] + run_down_of(q.drop_first(), w),
            QueueItem::Work(Job::Faults) => run_down_of(q.drop_first(), (w - 1) as nat),
            QueueItem::Stop => run_down_of(q.drop_first(), (w - 1) as nat),
        }
    }
}

/// A failure resistant, load balancing task pool.
///
/// Holds the protocol state of a pool of `tasks` workers: the shared job
/// queue, the live workers, the pending watcher notifications, the shutdown
/// flag and the monitor.  All fields are plain data, so a handle can move
/// freely across thread and ownership boundaries.
pub struct TaskPool {
    tasks: usize,
    queue: Vec<QueueItem>,
    workers: Vec<Worker>,
    notifications: usize,
    shutdown: bool,
    monitor_alive: bool,
}

impl View for TaskPool {
    type V = PoolView;

    closed spec fn view(&self) -> PoolView {
        PoolView {
            tasks: self.tasks as nat,
            queue: self.queue@,
            workers: self.workers@,
            notifications: self.notifications as nat,
            shutdown: self.shutdown,
            monitor_alive: self.monitor_alive,
        }
    }
}

/// Wire one fresh worker into the pool, sharing its job queue and reporting
/// to its monitor.  The worker arms its watcher at loop entry, so from this
/// point its death is guaranteed to reach the monitor.
pub fn spawn_in_pool(pool: &mut TaskPool)
    ensures
        final(pool)@ == spawn_spec(old(pool)@),
{
    pool.workers.push(Worker::Idle);
    proof {
        assert(pool@ =~= spawn_spec(old(pool)@));
    }
}

impl TaskPool {
    /// Create a new `TaskPool` with `tasks` workers and start its monitor.
    pub fn new(tasks: usize) -> (pool: TaskPool)
        requires
            tasks >= 1,
        ensures
            pool@ == new_spec(tasks as nat),
            pool@.wf(),
            pool@.all_idle(),
    {
        let mut pool = TaskPool {
            tasks,
            queue: Vec::new(),
            workers: Vec::new(),
            notifications: 0,
            shutdown: false,
            monitor_alive: true,
        };
        let mut i: usize = 0;
        while i < tasks
            invariant
                i <= tasks,
                pool@.tasks == tasks as nat,
                pool@.queue == Seq::<QueueItem>::empty(),
                pool@.workers == Seq::new(i as nat, |j: int| Worker::Idle),
                pool@.notifications == 0,
                pool@.shutdown == false,
                pool@.monitor_alive == true,
            decreases tasks - i,
        {
            spawn_in_pool(&mut pool);
            i = i + 1;
            proof {
                assert(pool@.workers =~= Seq::new(i as nat, |j: int| Worker::Idle));
            }
        }
        proof {
            assert(pool@ =~= new_spec(tasks as nat));
        }
        pool
    }

    /// Run this job on any of the workers in the pool: append it to the
    /// shared queue.  Submission never blocks and never fails.
    pub fn execute(&mut self, job: Job)
        requires
            old(self)@.wf(),
            !old(self)@.shutdown,
        ensures
            final(self)@ == execute_spec(old(self)@, job),
            final(self)@.wf(),
    {
        self.queue.push(QueueItem::Work(job));
        proof {
            assert(self@ =~= execute_spec(old(self)@, job));
            lemma_stop_count_push(old(self)@.queue, QueueItem::Work(job));
        }
    }

    /// Worker `w`, parked in the dequeue critical section, takes the item at
    /// the head of the queue and releases the lock.  A job puts the worker to
    /// work; a stop signal ends its loop, and its watcher fires — on this
    /// exit path as on every other — exactly one notification to the
    /// monitor.
    pub fn worker_dequeue(&mut self, w: usize) -> (item: QueueItem)
        requires
            old(self)@.wf(),
            w < old(self)@.workers.len(),
            old(self)@.workers[w as int] is Idle,
            old(self)@.queue.len() > 0,
        ensures
            item == old(self)@.queue[0],
            final(self)@ == dequeue_spec(old(self)@, w as int),
            final(self)@.wf(),
    {
        proof {
            lemma_stop_count_first(old(self)@.queue);
        }
        let item = self.queue.remove(0);
        proof {
            assert(self@.queue =~= old(self)@.queue.drop_first());
        }
        match item {
            QueueItem::Work(job) => {
                self.workers[w] = Worker::Running(job);
                proof {
                    assert(self@ =~= dequeue_spec(old(self)@, w as int));
                }
            },
            QueueItem::Stop => {
                self.workers.remove(w);
                self.notifications = self.notifications + 1;
                proof {
                    assert(self@ =~= dequeue_spec(old(self)@, w as int));
                }
            },
        }
        item
    }

    /// Worker `w` finishes the job it is running, outside the queue's
    /// critical section.  A sending job delivers its payload — returned here
    /// as the value put on the caller's completion channel — and the worker
    /// goes back to idle.  A faulting job unwinds the worker's stack; the
    /// fault is contained to that one thread, and the watcher fires exactly
    /// one notification as the scope exits.
    pub fn worker_finish(&mut self, w: usize) -> (sent: Option<u64>)
        requires
            old(self)@.wf(),
            w < old(self)@.workers.len(),
            old(self)@.workers[w as int] is Running,
        ensures
            sent == finish_signal(old(self)@, w as int),
            final(self)@ == finish_spec(old(self)@, w as int),
            final(self)@.wf(),
    {
        let cur = self.workers[w];
        match cur {
            Worker::Running(Job::Sends(v)) => {
                self.workers[w] = Worker::Idle;
                proof {
                    assert(self@ =~= finish_spec(old(self)@, w as int));
                }
                Some(v)
            },
            Worker::Running(Job::Faults) => {
                self.workers.remove(w);
                self.notifications = self.notifications + 1;
                proof {
                    assert(self@ =~= finish_spec(old(self)@, w as int));
                }
                None
            },
            Worker::Idle => {
                proof {
                    assert(false);
                }
                None
            },
        }
    }

    /// One turn of the monitor loop, taken when a notification has arrived:
    /// consume it, and check the shutdown flag before anything else.  Set,
    /// the monitor terminates — it never respawns once shutdown has been
    /// signaled, so a worker that died because of an intentional teardown
    /// cannot resurrect the pool.  Clear, the death was a fault, and the
    /// monitor spawns one replacement worker on the same queue.
    pub fn monitor_step(&mut self) -> (respawned: bool)
        requires
            old(self)@.wf(),
            old(self)@.notifications >= 1,
            old(self)@.monitor_alive,
        ensures
            respawned == !old(self)@.shutdown,
            final(self)@ == monitor_spec(old(self)@),
            final(self)@.wf(),
            old(self)@.shutdown ==> final(self)@.workers == old(self)@.workers
                && !final(self)@.monitor_alive,
    {
        self.notifications = self.notifications - 1;
        if self.shutdown {
            self.monitor_alive = false;
            proof {
                assert(self@ =~= monitor_spec(old(self)@));
            }
            false
        } else {
            spawn_in_pool(self);
            proof {
                assert(self@ =~= monitor_spec(old(self)@));
            }
            true
        }
    }

    /// Teardown, run when the pool handle is released: set the shared
    /// shutdown flag first — so the monitor's next read of the flag reflects
    /// intent before any post-shutdown notification can arrive — then push
    /// exactly one stop signal per configured worker onto the job queue, so
    /// every live worker is woken from its blocked dequeue and exits its
    /// loop exactly once.
    pub fn release(&mut self)
        requires
            old(self)@.wf(),
            !old(self)@.shutdown,
        ensures
            final(self)@ == release_spec(old(self)@),
            final(self)@.wf(),
    {
        self.shutdown = true;
        let tasks = self.tasks;
        let mut i: usize = 0;
        while i < tasks
            invariant
                i <= tasks,
                self@.tasks == tasks as nat,
                self@.queue == old(self)@.queue + Seq::new(
                    i as nat,
                    |j: int| QueueItem::Stop,
                ),
                stop_count(self@.queue) == stop_count(old(self)@.queue) + i,
                self@.workers == old(self)@.workers,
                self@.notifications == old(self)@.notifications,
                self@.shutdown,
                self@.monitor_alive == old(self)@.monitor_alive,
            decreases tasks - i,
        {
            proof {
                lemma_stop_count_push(self@.queue, QueueItem::Stop);
                assert(self@.queue.push(QueueItem::Stop) =~= old(self)@.queue + Seq::new(
                    (i + 1) as nat,
                    |j: int| QueueItem::Stop,
                ));
            }
            self.queue.push(QueueItem::Stop);
            i = i + 1;
        }
        proof {
            assert(self@ =~= release_spec(old(self)@));
        }
    }

    /// Run the pool to quiescence under a serial schedule: one worker at a
    /// time dequeues and finishes the job at the head of the queue, the
    /// monitor replaces every worker a faulting job takes down, and the
    /// remaining notifications are consumed once the queue is empty.
    ///
    /// Every sending job in the queue delivers its payload, in queue order,
    /// however many workers fault along the way; and the pool comes back to
    /// its full configured capacity, with every worker idle and no
    /// notification pending.
    pub fn drain(&mut self) -> (signals: Vec<u64>)
        requires
            old(self)@.wf(),
            !old(self)@.shutdown,
            old(self)@.all_idle(),
        ensures
            signals@ == sends_of(old(self)@.queue),
            final(self)@.wf(),
            final(self)@.tasks == old(self)@.tasks,
            final(self)@.queue.len() == 0,
            final(self)@.workers.len() == old(self)@.tasks,
            final(self)@.all_idle(),
            final(self)@.notifications == 0,
            final(self)@.monitor_alive,
            !final(self)@.shutdown,
    {
        let mut signals: Vec<u64> = Vec::new();
        while self.queue.len() > 0
            invariant
                self@.wf(),
                !self@.shutdown,
                self@.all_idle(),
                self@.tasks == old(self)@.tasks,
                sends_of(old(self)@.queue) == signals@ + sends_of(self@.queue),
            decreases 2 * self@.queue.len() + self@.notifications,
        {
            let ghost pre = self@;
            if self.workers.len() > 0 {
                proof {
                    lemma_stop_count_first(pre.queue);
                    lemma_sends_of_first(pre.queue);
                }
                let item = self.worker_dequeue(0);
                match item {
                    QueueItem::Work(_) => {
                        let ghost sigs = signals@;
                        let sent = self.worker_finish(0);
                        if let Some(v) = sent {
                            signals.push(v);
                            proof {
                                assert(sigs.push(v) + sends_of(self@.queue) =~= sigs + (seq![v]
                                    + sends_of(self@.queue)));
                            }
                        }
                        proof {
                            assert forall|i: int| 0 <= i < self@.workers.len() implies self@
                                .workers[i] is Idle by {}
                        }
                    },
                    QueueItem::Stop => {
                        // Before shutdown no stop signal is ever queued.
                        proof {
                            assert(false);
                        }
                    },
                }
            } else {
                // Every worker is down, so its death notification is in
                // flight: the monitor restores one worker and the queue
                // makes progress again.
                self.monitor_step();
                proof {
                    assert forall|i: int| 0 <= i < self@.workers.len() implies self@
                        .workers[i] is Idle by {}
                }
            }
        }
        proof {
            assert(sends_of(self@.queue) =~= Seq::<u64>::empty());
            assert(signals@ + Seq::<u64>::empty() =~= signals@);
        }
        while self.notifications > 0
            invariant
                self@.wf(),
                !self@.shutdown,
                self@.all_idle(),
                self@.tasks == old(self)@.tasks,
                self@.queue.len() == 0,
                signals@ == sends_of(old(self)@.queue),
            decreases self@.notifications,
        {
            self.monitor_step();
            proof {
                assert forall|i: int| 0 <= i < self@.workers.len() implies self@
                    .workers[i] is Idle by {}
            }
        }
        signals
    }

    /// Wind a released pool down under the same serial schedule: the workers
    /// run what is left of the queue, each faulting job or consumed stop
    /// signal retiring one of them, and the monitor — which never respawns
    /// once the shutdown flag is set — exits when a notification reaches it.
    ///
    /// The schedule always terminates, every worker leaves the pool, and if
    /// any worker or notification was outstanding when teardown began, the
    /// monitor is gone afterwards.
    pub fn wind_down(&mut self) -> (signals: Vec<u64>)
        requires
            old(self)@.wf(),
            old(self)@.shutdown,
            old(self)@.all_idle(),
        ensures
            signals@ == run_down_of(old(self)@.queue, old(self)@.workers.len()),
            final(self)@.wf(),
            final(self)@.tasks == old(self)@.tasks,
            final(self)@.workers.len() == 0,
            final(self)@.shutdown,
            old(self)@.monitor_alive && old(self)@.workers.len() + old(self)@.notifications
                >= 1 ==> !final(self)@.monitor_alive,
            !old(self)@.monitor_alive ==> !final(self)@.monitor_alive,
            final(self)@.monitor_alive ==> final(self)@.notifications == 0,
    {
        let mut signals: Vec<u64> = Vec::new();
        while self.workers.len() > 0
            invariant
                self@.wf(),
                self@.shutdown,
                self@.all_idle(),
                self@.tasks == old(self)@.tasks,
                self@.monitor_alive == old(self)@.monitor_alive,
                self@.workers.len() + self@.notifications == old(self)@.workers.len() + old(
                    self,
                )@.notifications,
                run_down_of(old(self)@.queue, old(self)@.workers.len()) == signals@
                    + run_down_of(self@.queue, self@.workers.len()),
            decreases self@.queue.len(),
        {
            let ghost pre = self@;
            proof {
                // One stop signal per live worker is queued, so the queue
                // cannot be empty while a worker remains.
                if pre.queue.len() == 0 {
                    assert(stop_count(pre.queue) == 0);
                }
                lemma_run_down_first(pre.queue, pre.workers.len());
            }
            let item = self.worker_dequeue(0);
            match item {
                QueueItem::Work(_) => {
                    let ghost sigs = signals@;
                    let sent = self.worker_finish(0);
                    if let Some(v) = sent {
                        signals.push(v);
                        proof {
                            assert(sigs.push(v) + run_down_of(self@.queue, self@.workers.len())
                                =~= sigs + (seq![v] + run_down_of(
                                self@.queue,
                                self@.workers.len(),
                            )));
                        }
                    }
                    proof {
                        assert forall|i: int| 0 <= i < self@.workers.len() implies self@
                            .workers[i] is Idle by {}
                    }
                },
                QueueItem::Stop => {
                    proof {
                        assert forall|i: int| 0 <= i < self@.workers.len() implies self@
                            .workers[i] is Idle by {}
                    }
                },
            }
        }
        proof {
            assert(run_down_of(self@.queue, self@.workers.len()) =~= Seq::<u64>::empty());
            assert(signals@ + Seq::<u64>::empty() =~= signals@);
        }
        // The first notification the monitor consumes after teardown makes
        // it observe the shutdown flag and exit; later ones go nowhere, as
        // the channel keeps accepting sends that no receiver reads.
        if self.notifications > 0 && self.monitor_alive {
            self.monitor_step();
        }
        signals
    }

    /// The number of workers currently alive.
    pub fn worker_count(&self) -> (n: usize)
        ensures
            n == self@.workers.len(),
    {
        self.workers.len()
    }

    /// The number of items waiting in the shared job queue.
    pub fn queue_len(&self) -> (n: usize)
        ensures
            n == self@.queue.len(),
    {
        self.queue.len()
    }

    /// Watcher notifications sent but not yet consumed by the monitor.
    pub fn pending_notifications(&self) -> (n: usize)
        ensures
            n == self@.notifications,
    {
        self.notifications
    }

    /// Whether the monitor thread is still in its loop.
    pub fn monitor_running(&self) -> (b: bool)
        ensures
            b == self@.monitor_alive,
    {
        self.monitor_alive
    }

    /// Whether the shared shutdown flag has been set.
    pub fn is_shut_down(&self) -> (b: bool)
        ensures
            b == self@.shutdown,
    {
        self.shutdown
    }

    /// The configured worker count.
    pub fn task_count(&self) -> (n: usize)
        ensures
            n == self@.tasks,
    {
        self.tasks
    }
}

/// Unfolds `sends_of` one step at the head of a non-empty queue.
pub proof fn lemma_sends_of_first(q: Seq<QueueItem>)
    requires
        q.len() > 0,
    ensures
        sends_of(q) == (match q[0] {
            QueueItem::Work(Job::Sends(v)) => seq![v] + sends_of(q.drop_first()),
            _ => sends_of(q.drop_first()),
        }),
{
}

/// Unfolds `run_down_of` one step at the head of a non-empty queue, while a
/// worker remains.
pub proof fn lemma_run_down_first(q: Seq<QueueItem>, w: nat)
    requires
        q.len() > 0,
        w > 0,
    ensures
        run_down_of(q, w) == (match q[0] {
            QueueItem::Work(Job::Sends(v)) => seq![v] + run_down_of(q.drop_first(), w),
            QueueItem::Work(Job::Faults) => run_down_of(q.drop_first(), (w - 1) as nat),
            QueueItem::Stop => run_down_of(q.drop_first(), (w - 1) as nat),
        }),
{
}

/// Unfolds `stop_count` one step at the head of a non-empty queue.
pub proof fn lemma_stop_count_first(q: Seq<QueueItem>)
    requires
        q.len() > 0,
    ensures
        stop_count(q) == stop_count(q.drop_first()) + (if q[0] is Stop {
            1nat
        } else {
            0nat
        }),
{
}

/// Stop signals add up over an appended queue.
pub proof fn lemma_stop_count_append(q1: Seq<QueueItem>, q2: Seq<QueueItem>)
    ensures
        stop_count(q1 + q2) == stop_count(q1) + stop_count(q2),
    decreases q1.len(),
{
    if q1.len() == 0 {
        assert(q1 + q2 =~= q2);
    } else {
        assert((q1 + q2)[0] == q1[0]);
        assert((q1 + q2).drop_first() =~= q1.drop_first() + q2);
        lemma_stop_count_first(q1 + q2);
        lemma_stop_count_first(q1);
        lemma_stop_count_append(q1.drop_first(), q2);
    }
}

/// A queue of stop signals counts them all.
pub proof fn lemma_stop_count_stops(n: nat)
    ensures
        stop_count(Seq::new(n, |i: int| QueueItem::Stop)) == n,
    decreases n,
{
    if n > 0 {
        assert(Seq::new(n, |i: int| QueueItem::Stop).drop_first() =~= Seq::new(
            (n - 1) as nat,
            |i: int| QueueItem::Stop,
        ));
        lemma_stop_count_first(Seq::new(n, |i: int| QueueItem::Stop));
        lemma_stop_count_stops((n - 1) as nat);
    }
}

/// Pushing an item changes `stop_count` by one exactly when it is a stop
/// signal.
pub proof fn lemma_stop_count_push(q: Seq<QueueItem>, x: QueueItem)
    ensures
        stop_count(q.push(x)) == stop_count(q) + (if x is Stop {
            1nat
        } else {
            0nat
        }),
    decreases q.len(),
{
    lemma_stop_count_first(q.push(x));
    if q.len() == 0 {
        assert(q.push(x)[0] == x);
        assert(q.push(x).drop_first() =~= Seq::<QueueItem>::empty());
        assert(stop_count(Seq::<QueueItem>::empty()) == 0);
        assert(stop_count(q) == 0);
    } else {
        lemma_stop_count_first(q);
        assert(q.push(x)[0] == q[0]);
        assert(q.push(x).drop_first() =~= q.drop_first().push(x));
        lemma_stop_count_push(q.drop_first(), x);
    }
}

} // verus!
