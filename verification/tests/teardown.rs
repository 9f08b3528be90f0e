use ring_reactor::completion::{Completion, CANCEL_TOKEN};
use ring_reactor::inner::{Inner, Teardown, RING_ENTRIES};

fn cqe(index: usize) -> Completion {
    Completion { user_data: index as u64, result: 0, flags: 0 }
}

/// Runs teardown against a kernel that posts the given batches, one for each
/// wait, and returns how often teardown waited.
fn tear_down(inner: &mut Inner, mut kernel: Vec<Vec<Completion>>) -> usize {
    kernel.reverse();
    let mut waits = 0;
    let mut drained: Vec<Completion> = Vec::new();
    loop {
        assert!(inner.admits(&drained));
        match inner.teardown(&drained) {
            Teardown::Finished => return waits,
            Teardown::Wait => {
                waits += 1;
                drained = kernel.pop().expect("teardown waits though the kernel has posted everything");
            }
        }
    }
}

#[test]
fn ring_holds_256_entries() {
    assert_eq!(RING_ENTRIES, 256);
}

#[test]
fn idle_reactor_goes_at_once() {
    let mut inner = Inner::new();
    assert_eq!(inner.teardown(&vec![]), Teardown::Finished);
    assert_eq!(tear_down(&mut inner, vec![]), 0);
}

#[test]
fn teardown_waits_for_every_operation() {
    let mut inner = Inner::new();
    let mut indices = Vec::new();
    for _ in 0..5 {
        let index = inner.ops.insert();
        inner.ops.abandon(index);
        indices.push(index);
    }
    let kernel: Vec<Vec<Completion>> = indices.iter().rev().map(|i| vec![cqe(*i)]).collect();
    assert_eq!(tear_down(&mut inner, kernel), 5);
    assert!(inner.ops.is_empty());
    assert_eq!(inner.num_operations(), 0);
    assert_eq!(inner.teardown(&vec![]), Teardown::Finished);
}

#[test]
fn teardown_counts_down_with_the_completions() {
    let mut inner = Inner::new();
    let a = inner.ops.insert();
    let b = inner.ops.insert();
    let c = inner.ops.insert();
    inner.ops.abandon(a);
    inner.ops.abandon(b);
    inner.ops.abandon(c);
    assert_eq!(inner.teardown(&vec![]), Teardown::Wait);
    assert_eq!(inner.num_operations(), 3);
    assert_eq!(inner.teardown(&vec![cqe(b)]), Teardown::Wait);
    assert_eq!(inner.num_operations(), 2);
    assert_eq!(inner.teardown(&vec![cqe(c)]), Teardown::Wait);
    assert_eq!(inner.num_operations(), 1);
    assert_eq!(inner.teardown(&vec![cqe(a)]), Teardown::Finished);
    assert_eq!(inner.num_operations(), 0);
}

#[test]
fn teardown_takes_a_batch_in_one_round() {
    let mut inner = Inner::new();
    let a = inner.ops.insert();
    let b = inner.ops.insert();
    inner.ops.abandon(a);
    inner.ops.abandon(b);
    assert_eq!(tear_down(&mut inner, vec![vec![cqe(a), cqe(b)]]), 1);
    assert!(inner.ops.is_empty());
}

#[test]
fn teardown_goes_on_after_an_empty_wait() {
    let mut inner = Inner::new();
    let a = inner.ops.insert();
    inner.ops.abandon(a);
    let cancellation = Completion { user_data: CANCEL_TOKEN, result: 0, flags: 0 };
    assert_eq!(tear_down(&mut inner, vec![vec![], vec![cancellation], vec![cqe(a)]]), 3);
    assert!(inner.ops.is_empty());
}

#[test]
fn buffered_result_keeps_teardown_waiting() {
    let mut inner = Inner::new();
    let a = inner.ops.insert();
    assert_eq!(inner.teardown(&vec![cqe(a)]), Teardown::Wait);
    assert_eq!(inner.num_operations(), 1);
    inner.ops.abandon(a);
    assert_eq!(inner.teardown(&vec![]), Teardown::Finished);
}
