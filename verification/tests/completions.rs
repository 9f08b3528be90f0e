use ring_reactor::completion::{Completion, CANCEL_TOKEN};
use ring_reactor::error::OsError;
use ring_reactor::inner::Inner;
use ring_reactor::lifecycle::Lifecycle;
use std::sync::atomic::{AtomicUsize, Ordering};
use std::sync::Arc;
use std::task::{Wake, Waker};

struct Counter(AtomicUsize);

impl Wake for Counter {
    fn wake(self: Arc<Self>) {
        self.0.fetch_add(1, Ordering::SeqCst);
    }
}

fn cqe(index: usize, result: i32, flags: u32) -> Completion {
    Completion { user_data: index as u64, result, flags }
}

fn cancellation() -> Completion {
    Completion { user_data: CANCEL_TOKEN, result: 0, flags: 0 }
}

#[test]
fn empty_batch_flushes_nothing() {
    let mut inner = Inner::new();
    let index = inner.ops.insert();
    assert_eq!(inner.flush_completions(&vec![]), 0);
    assert!(matches!(inner.ops.get(index), Some(Lifecycle::Submitted)));
}

#[test]
fn completion_is_routed_to_its_slot() {
    let mut inner = Inner::new();
    let a = inner.ops.insert();
    let b = inner.ops.insert();
    assert_eq!(inner.flush_completions(&vec![cqe(b, 42, 7)]), 1);
    assert!(matches!(inner.ops.get(a), Some(Lifecycle::Submitted)));
    assert!(matches!(inner.ops.get(b), Some(Lifecycle::Completed(Ok(42), 7))));
}

#[test]
fn negative_result_becomes_an_error() {
    let mut inner = Inner::new();
    let a = inner.ops.insert();
    assert_eq!(inner.flush_completions(&vec![cqe(a, -2, 0)]), 1);
    let expected = OsError::from_raw_os_error(2);
    assert!(matches!(inner.ops.get(a), Some(Lifecycle::Completed(Err(e), 0)) if *e == expected));
}

#[test]
fn cancellation_is_counted_and_touches_no_slot() {
    let mut inner = Inner::new();
    let a = inner.ops.insert();
    let b = inner.ops.insert();
    inner.ops.abandon(b);
    let flushed = inner.flush_completions(&vec![cancellation(), cancellation()]);
    assert_eq!(flushed, 2);
    assert_eq!(inner.num_operations(), 2);
    assert!(matches!(inner.ops.get(a), Some(Lifecycle::Submitted)));
    assert!(matches!(inner.ops.get(b), Some(Lifecycle::Ignored)));
}

#[test]
fn cancellation_between_completions_changes_nothing() {
    let mut with = Inner::new();
    let mut without = Inner::new();
    let a = with.ops.insert();
    let b = with.ops.insert();
    assert_eq!(without.ops.insert(), a);
    assert_eq!(without.ops.insert(), b);
    with.ops.abandon(a);
    without.ops.abandon(a);
    assert_eq!(with.flush_completions(&vec![cqe(a, 0, 0), cancellation(), cqe(b, 3, 1)]), 3);
    assert_eq!(without.flush_completions(&vec![cqe(a, 0, 0), cqe(b, 3, 1)]), 2);
    assert!(!with.ops.contains(a));
    assert!(!without.ops.contains(a));
    assert!(matches!(with.ops.get(b), Some(Lifecycle::Completed(Ok(3), 1))));
    assert!(matches!(without.ops.get(b), Some(Lifecycle::Completed(Ok(3), 1))));
}

#[test]
fn completions_are_taken_in_any_order() {
    let mut inner = Inner::new();
    let a = inner.ops.insert();
    let b = inner.ops.insert();
    let c = inner.ops.insert();
    assert_eq!(inner.flush_completions(&vec![cqe(c, 3, 0), cqe(a, 1, 0), cqe(b, 2, 0)]), 3);
    assert!(matches!(inner.ops.get(a), Some(Lifecycle::Completed(Ok(1), 0))));
    assert!(matches!(inner.ops.get(b), Some(Lifecycle::Completed(Ok(2), 0))));
    assert!(matches!(inner.ops.get(c), Some(Lifecycle::Completed(Ok(3), 0))));
}

#[test]
fn abandoned_slot_is_removed_by_its_completion_only() {
    let mut inner = Inner::new();
    let a = inner.ops.insert();
    let b = inner.ops.insert();
    inner.ops.abandon(a);
    assert_eq!(inner.flush_completions(&vec![cancellation(), cqe(b, 1, 0)]), 2);
    assert!(matches!(inner.ops.get(a), Some(Lifecycle::Ignored)));
    assert_eq!(inner.flush_completions(&vec![cqe(a, 99, 0)]), 1);
    assert!(!inner.ops.contains(a));
    assert!(inner.ops.get_mut(a).is_none());
    assert_eq!(inner.num_operations(), 1);
}

#[test]
fn waiting_observer_is_woken_by_the_flush() {
    let mut inner = Inner::new();
    let a = inner.ops.insert();
    let counter = Arc::new(Counter(AtomicUsize::new(0)));
    assert_eq!(inner.ops.poll(a, Waker::from(counter.clone())), None);
    assert_eq!(inner.flush_completions(&vec![cancellation()]), 1);
    assert_eq!(counter.0.load(Ordering::SeqCst), 0);
    assert_eq!(inner.flush_completions(&vec![cqe(a, 8, 0)]), 1);
    assert_eq!(counter.0.load(Ordering::SeqCst), 1);
}

#[test]
fn flush_leaves_pending_entries_alone() {
    let mut inner = Inner::new();
    let a = inner.ops.insert();
    inner.enqueue(io_uring::opcode::Nop::new().build().user_data(a as u64));
    assert_eq!(inner.flush_completions(&vec![cqe(a, 0, 0)]), 1);
    assert_eq!(inner.submissions.len(), 1);
}

#[test]
fn accepts_tells_what_the_registry_can_take() {
    let mut inner = Inner::new();
    let a = inner.ops.insert();
    let b = inner.ops.insert();
    inner.ops.abandon(b);
    assert!(inner.accepts(&cancellation()));
    assert!(inner.accepts(&cqe(a, 0, 0)));
    assert!(inner.accepts(&cqe(b, 0, 0)));
    assert!(!inner.accepts(&cqe(77, 0, 0)));
    assert_eq!(inner.flush_completions(&vec![cqe(a, 0, 0), cqe(b, 0, 0)]), 2);
    assert!(!inner.accepts(&cqe(a, 0, 0)));
    assert!(!inner.accepts(&cqe(b, 0, 0)));
    assert!(inner.accepts(&cancellation()));
}

#[test]
fn admits_tells_which_batch_can_be_flushed() {
    let mut inner = Inner::new();
    let a = inner.ops.insert();
    let b = inner.ops.insert();
    assert!(inner.admits(&vec![]));
    assert!(inner.admits(&vec![cqe(a, 0, 0), cancellation(), cqe(b, 0, 0), cancellation()]));
    assert!(inner.admits(&vec![cqe(b, 0, 0), cqe(a, 0, 0)]));
    assert!(!inner.admits(&vec![cqe(a, 0, 0), cqe(a, 1, 0)]));
    assert!(!inner.admits(&vec![cqe(a, 0, 0), cqe(b, 0, 0), cancellation(), cqe(a, 0, 0)]));
    assert!(!inner.admits(&vec![cqe(a, 0, 0), cqe(55, 0, 0)]));
    inner.ops.abandon(a);
    assert!(!inner.admits(&vec![cqe(a, 0, 0), cqe(a, 1, 0)]));
    assert!(inner.admits(&vec![cqe(a, 0, 0)]));
    assert_eq!(inner.flush_completions(&vec![cqe(b, 0, 0)]), 1);
    assert!(!inner.admits(&vec![cqe(b, 0, 0)]));
}
