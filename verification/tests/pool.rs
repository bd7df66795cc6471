use taskpool::pool::Job;
use taskpool::pool::QueueItem;
use taskpool::pool::TaskPool;

#[test]
fn fresh_pool_is_at_capacity() {
    let pool = TaskPool::new(4);
    assert_eq!(pool.task_count(), 4);
    assert_eq!(pool.worker_count(), 4);
    assert_eq!(pool.queue_len(), 0);
    assert_eq!(pool.pending_notifications(), 0);
    assert!(pool.monitor_running());
    assert!(!pool.is_shut_down());
}

#[test]
fn four_workers_four_jobs_sum_four() {
    let mut pool = TaskPool::new(4);
    for _ in 0..4 {
        pool.execute(Job::Sends(1));
    }
    let signals = pool.drain();
    assert_eq!(signals.len(), 4);
    let sum: u64 = signals.iter().sum();
    assert_eq!(sum, 4);
    assert_eq!(pool.worker_count(), 4);
}

#[test]
fn signals_arrive_one_per_job() {
    let mut pool = TaskPool::new(2);
    let values = [10u64, 20, 30, 40, 50];
    for v in values {
        pool.execute(Job::Sends(v));
    }
    let signals = pool.drain();
    assert_eq!(signals, vec![10, 20, 30, 40, 50]);
}

#[test]
fn wipeout_then_submit_recovers() {
    let mut pool = TaskPool::new(4);
    for _ in 0..4 {
        pool.execute(Job::Faults);
    }
    for _ in 0..4 {
        pool.execute(Job::Sends(1));
    }
    let signals = pool.drain();
    assert_eq!(signals.len(), 4);
    let sum: u64 = signals.iter().sum();
    assert_eq!(sum, 4);
    // The monitor replaced every worker the faults took down.
    assert_eq!(pool.worker_count(), 4);
    assert!(pool.monitor_running());
}

#[test]
fn fault_is_contained_and_worker_replaced() {
    let mut pool = TaskPool::new(1);
    pool.execute(Job::Faults);
    let item = pool.worker_dequeue(0);
    assert_eq!(item, QueueItem::Work(Job::Faults));
    let sent = pool.worker_finish(0);
    assert_eq!(sent, None);
    // The fault unwound the one worker; its watcher reported the death.
    assert_eq!(pool.worker_count(), 0);
    assert_eq!(pool.pending_notifications(), 1);
    let respawned = pool.monitor_step();
    assert!(respawned);
    assert_eq!(pool.worker_count(), 1);
    // The replacement worker is functional.
    pool.execute(Job::Sends(3));
    let signals = pool.drain();
    assert_eq!(signals, vec![3]);
}

#[test]
fn release_pushes_one_stop_signal_per_worker() {
    let mut pool = TaskPool::new(3);
    pool.release();
    assert!(pool.is_shut_down());
    assert_eq!(pool.queue_len(), 3);
}

#[test]
fn monitor_exits_on_first_post_shutdown_notification() {
    let mut pool = TaskPool::new(1);
    pool.release();
    let item = pool.worker_dequeue(0);
    assert_eq!(item, QueueItem::Stop);
    assert_eq!(pool.worker_count(), 0);
    assert_eq!(pool.pending_notifications(), 1);
    let respawned = pool.monitor_step();
    assert!(!respawned);
    assert_eq!(pool.worker_count(), 0);
    assert!(!pool.monitor_running());
}

#[test]
fn release_after_wipeout_completes() {
    let mut pool = TaskPool::new(4);
    for _ in 0..4 {
        pool.execute(Job::Faults);
    }
    // Destroy the pool at once, before any job has run.
    pool.release();
    let signals = pool.wind_down();
    // Nothing was delivered, every worker is gone, the monitor exited, and
    // the unconsumed stop signals sit harmlessly in the closed queue.
    assert!(signals.is_empty());
    assert_eq!(pool.worker_count(), 0);
    assert!(!pool.monitor_running());
    assert_eq!(pool.queue_len(), 4);
}

#[test]
fn release_with_all_workers_already_dead() {
    let mut pool = TaskPool::new(2);
    pool.execute(Job::Faults);
    pool.execute(Job::Faults);
    pool.worker_dequeue(0);
    pool.worker_finish(0);
    pool.worker_dequeue(0);
    pool.worker_finish(0);
    assert_eq!(pool.worker_count(), 0);
    assert_eq!(pool.pending_notifications(), 2);
    pool.release();
    // The pending death notifications wake the monitor, which sees the
    // flag, exits, and respawns nothing.
    let respawned = pool.monitor_step();
    assert!(!respawned);
    assert!(!pool.monitor_running());
    assert_eq!(pool.worker_count(), 0);
    let signals = pool.wind_down();
    assert!(signals.is_empty());
}

#[test]
fn wind_down_runs_queued_jobs_until_workers_are_gone() {
    let mut pool = TaskPool::new(2);
    pool.execute(Job::Sends(5));
    pool.execute(Job::Faults);
    pool.execute(Job::Sends(6));
    pool.release();
    let signals = pool.wind_down();
    // One worker survives the fault long enough to run the second sending
    // job; with no monitor respawn, both workers then retire on stop
    // signals, one stop signal left over.
    assert_eq!(signals, vec![5, 6]);
    assert_eq!(pool.worker_count(), 0);
    assert!(!pool.monitor_running());
    assert_eq!(pool.queue_len(), 1);
}

#[test]
fn submission_never_blocks_and_queue_is_unbounded() {
    let mut pool = TaskPool::new(1);
    for _ in 0..1000 {
        pool.execute(Job::Sends(1));
    }
    assert_eq!(pool.queue_len(), 1000);
    let signals = pool.drain();
    let sum: u64 = signals.iter().sum();
    assert_eq!(sum, 1000);
}

#[test]
fn drain_with_no_jobs_changes_nothing() {
    let mut pool = TaskPool::new(3);
    let signals = pool.drain();
    assert!(signals.is_empty());
    assert_eq!(pool.worker_count(), 3);
    assert!(pool.monitor_running());
}

#[test]
fn jobs_behind_a_teardown_wipeout_never_run() {
    // Once the pool is released the monitor respawns nothing, so when a
    // faulting job takes the last worker down, later queued jobs are left
    // behind: their side effects never occur.
    let mut pool = TaskPool::new(1);
    pool.execute(Job::Faults);
    pool.execute(Job::Sends(9));
    pool.release();
    let signals = pool.wind_down();
    assert!(signals.is_empty());
    assert_eq!(pool.worker_count(), 0);
    assert_eq!(pool.queue_len(), 2);
}

fn build_loaded_pool() -> TaskPool {
    let mut pool = TaskPool::new(2);
    pool.execute(Job::Sends(21));
    pool.execute(Job::Sends(21));
    pool
}

#[test]
fn pool_moves_across_ownership_boundaries() {
    // Construct the handle in one scope, move it through a boxed closure,
    // and use it in another: the handle is plain data and travels freely.
    let pool = build_loaded_pool();
    let run: Box<dyn FnOnce() -> u64> = Box::new(move || {
        let mut pool = pool;
        let signals = pool.drain();
        signals.iter().sum()
    });
    assert_eq!(run(), 42);
}
