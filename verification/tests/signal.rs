use std::cell::RefCell;
use std::rc::Rc;
use std::sync::Mutex;

use mf_ui::signal::{batch, batch_updates, collect_reads, distinct_callbacks, signal, unique_reads, BatchQueue, ErasedSignalHandle, ReadTracker, SignalHost};

#[derive(Default)]
struct HostState {
    next_id: u64,
    tracking: Option<Vec<u64>>,
    queue: Option<Vec<u64>>,
    runs: Vec<u64>,
    released: Vec<u64>,
}

static HOST: Mutex<Option<HostState>> = Mutex::new(None);

fn with<R>(f: impl FnOnce(&mut HostState) -> R) -> R {
    let mut guard = HOST.lock().unwrap();
    f(guard.get_or_insert_with(HostState::default))
}

struct TestHost;

impl SignalHost for TestHost {
    fn next_signal_id() -> u64 {
        with(|h| {
            h.next_id += 1;
            h.next_id
        })
    }

    fn record_read(handle: ErasedSignalHandle) {
        with(|h| {
            if let Some(list) = h.tracking.as_mut() {
                list.push(handle.id());
            }
        });
    }

    fn start_tracking() {
        with(|h| h.tracking = Some(Vec::new()));
    }

    fn stop_tracking() -> Vec<ErasedSignalHandle> {
        with(|h| h.tracking = None);
        Vec::new()
    }

    fn batching() -> bool {
        with(|h| h.queue.is_some())
    }

    fn open_batch() {
        with(|h| h.queue = Some(Vec::new()));
    }

    fn enqueue(callback: u64) {
        with(|h| {
            if let Some(queue) = h.queue.as_mut() {
                queue.push(callback);
            }
        });
    }

    fn close_batch() -> Vec<u64> {
        with(|h| h.queue.take().unwrap_or_default())
    }

    fn run(callback: u64) {
        with(|h| h.runs.push(callback));
    }

    fn retain(_callback: u64) {}

    fn release(callback: u64) {
        with(|h| h.released.push(callback));
    }
}

fn runs_of(ids: &[u64]) -> Vec<u64> {
    with(|h| h.runs.iter().copied().filter(|r| ids.contains(r)).collect())
}

fn released_of(ids: &[u64]) -> Vec<u64> {
    with(|h| h.released.iter().copied().filter(|r| ids.contains(r)).collect())
}

#[test]
fn signals_notify_batch_and_track_reads() {
    // a write runs live subscriptions and releases dropped ones
    let (count, set_count) = signal::<i32, TestHost>(0);
    let keep = count.subscribe(107);
    let dropped = count.subscribe(108);
    assert_eq!(keep.id(), dropped.id());
    drop(dropped);
    set_count.set(5);
    assert_eq!(count.get(), 5);
    assert_eq!(runs_of(&[107, 108]), vec![107]);
    assert_eq!(released_of(&[107, 108]), vec![108]);
    set_count.set(6);
    assert_eq!(runs_of(&[107, 108]), vec![107, 107]);
    assert_eq!(released_of(&[107, 108]), vec![108]);

    // batched writes run their callbacks once the batch closes, in order
    let (a, set_a) = signal::<i32, TestHost>(0);
    let (b, set_b) = signal::<i32, TestHost>(0);
    let _sa = a.subscribe(201);
    let _sb = b.subscribe(202);
    let seen = Rc::new(RefCell::new(Vec::new()));
    let inner = Rc::clone(&seen);
    batch::<TestHost, _>(|| {
        set_a.set(1);
        set_b.set(2);
        inner.borrow_mut().push(runs_of(&[201, 202]).len());
    });
    assert_eq!(*seen.borrow(), vec![0]);
    assert_eq!(runs_of(&[201, 202]), vec![201, 202]);

    // erased handles subscribe to the same signal
    let handle = a.erase();
    assert_eq!(handle.id(), a.erase().id());
    let sub = handle.subscribe_callback::<TestHost>(301);
    assert_eq!(sub.id(), handle.id());
    set_a.set(3);
    assert_eq!(runs_of(&[301]), vec![301]);

    // reads are tracked while collecting
    let (sum, _reads) = collect_reads::<TestHost, _, _>(|| a.get() + b.get());
    assert_eq!(sum, 5);
}

#[test]
fn unique_reads_keep_the_first_read_of_each_signal() {
    let (a, _set_a) = signal::<i32, TestHost>(3);
    let (b, _set_b) = signal::<String, TestHost>("x".to_string());
    let again = unique_reads(vec![b.erase(), a.erase(), b.erase(), a.erase()]);
    let ids: Vec<u64> = again.iter().map(|h| h.id()).collect();
    assert_eq!(ids, vec![b.erase().id(), a.erase().id()]);
    assert_ne!(a.erase().id(), b.erase().id());
}

#[test]
fn batch_queue_collects_only_while_open() {
    let mut queue = BatchQueue::new();
    assert!(!queue.is_open());
    queue.enqueue(1);
    assert_eq!(queue.close(), Vec::<u64>::new());
    queue.open();
    assert!(queue.is_open());
    queue.enqueue(2);
    queue.enqueue(3);
    queue.enqueue(2);
    assert_eq!(queue.close(), vec![2, 3]);
    assert!(!queue.is_open());
}

#[test]
fn read_tracker_records_each_signal_once_while_on() {
    let (a, _set_a) = signal::<i32, TestHost>(0);
    let (b, _set_b) = signal::<i32, TestHost>(0);
    let mut tracker = ReadTracker::new();
    tracker.record(a.erase());
    assert!(tracker.stop().is_empty());
    tracker.start();
    tracker.record(a.erase());
    tracker.record(b.erase());
    tracker.record(a.erase());
    let ids: Vec<u64> = tracker.stop().iter().map(|h| h.id()).collect();
    assert_eq!(ids, vec![a.erase().id(), b.erase().id()]);
    assert!(tracker.stop().is_empty());
}

#[test]
fn batched_setter_calls_notify_each_subscriber_once() {
    let (a, set_a) = signal::<i32, TestHost>(0);
    let _sub = a.subscribe(401);
    batch_updates::<TestHost, _>(|| {
        set_a.set(1);
        set_a.set(2);
        assert_eq!(runs_of(&[401]), Vec::<u64>::new());
    });
    assert_eq!(runs_of(&[401]), vec![401]);
    assert_eq!(a.get(), 2);
}

#[test]
fn nested_batches_run_callbacks_when_the_outer_one_closes() {
    let (a, set_a) = signal::<i32, TestHost>(0);
    let _sub = a.subscribe(501);
    batch::<TestHost, _>(|| {
        batch::<TestHost, _>(|| set_a.set(1));
        assert_eq!(runs_of(&[501]), Vec::<u64>::new());
    });
    assert_eq!(runs_of(&[501]), vec![501]);
}

#[test]
fn distinct_callbacks_keep_first_occurrences_in_order() {
    assert_eq!(distinct_callbacks(&vec![3, 1, 3, 2, 1]), vec![3, 1, 2]);
    assert_eq!(distinct_callbacks(&Vec::new()), Vec::<u64>::new());
}

#[test]
fn update_changes_the_value_in_place_and_notifies() {
    let (a, set_a) = signal::<i32, TestHost>(4);
    let _sub = a.subscribe(601);
    set_a.update(|v| *v += 3);
    assert_eq!(a.get(), 7);
    assert_eq!(runs_of(&[601]), vec![601]);
}
