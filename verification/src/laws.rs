//! What holds of the reactor state whatever the kernel and the observers do.

use vstd::prelude::*;
use io_uring::squeue::Entry;
use crate::completion::Completion;
use crate::error::OsError;
use crate::inner::{
    dispatch, dispatchable, drain, drainable, next_action, next_pending, next_slots,
    teardown_action, FlushAction, FlushEvent, Teardown,
};
use crate::lifecycle::Lifecycle;
use crate::ops::{abandon_in, complete_in, no_slots, poll_in, polled};
use std::task::Waker;

verus! {

/// Whether the event is the completion of the operation at `index`.
pub open spec fn names(cqe: Completion, index: usize) -> bool {
    !cqe.cancels() && cqe.user_data == index
}

/// Whether two registries agree on the slot at `index`: both lack it, or
/// both hold it in the same state.
pub open spec fn same_slot(
    before: Map<usize, Lifecycle>,
    after: Map<usize, Lifecycle>,
    index: usize,
) -> bool {
    &&& after.contains_key(index) == before.contains_key(index)
    &&& before.contains_key(index) ==> after[index] == before[index]
}

/// A completion event changes no slot but the one it names.
pub proof fn lemma_dispatch_elsewhere(slots: Map<usize, Lifecycle>, cqe: Completion, index: usize)
    requires
        dispatchable(slots, cqe),
        !names(cqe, index),
    ensures
        same_slot(slots, dispatch(slots, cqe), index),
{
}

/// A batch of completion events changes no slot that none of them names.
pub proof fn lemma_drain_elsewhere(slots: Map<usize, Lifecycle>, cq: Seq<Completion>, index: usize)
    requires
        drainable(slots, cq),
        forall|i: int| 0 <= i < cq.len() ==> !names(#[trigger] cq[i], index),
    ensures
        same_slot(slots, drain(slots, cq), index),
    decreases cq.len(),
{
    if cq.len() > 0 {
        lemma_drain_elsewhere(slots, cq.drop_last(), index);
        lemma_dispatch_elsewhere(drain(slots, cq.drop_last()), cq.last(), index);
    }
}

/// The completion of a cancel request can always be taken, and the registry
/// is the same after it: no slot is touched, none is removed.
pub proof fn lemma_cancellation_touches_no_slot(slots: Map<usize, Lifecycle>, cqe: Completion)
    requires
        cqe.cancels(),
    ensures
        dispatchable(slots, cqe),
        dispatch(slots, cqe) == slots,
{
}

/// A completion of a cancel request anywhere in a batch is without effect:
/// with it and without it the batch can be taken on the same registries and
/// leaves the same registry behind.
pub proof fn lemma_drain_skips_cancellation(slots: Map<usize, Lifecycle>, cq: Seq<Completion>, at: int)
    requires
        0 <= at < cq.len(),
        cq[at].cancels(),
    ensures
        drainable(slots, cq) == drainable(slots, cq.remove(at)),
        drain(slots, cq) == drain(slots, cq.remove(at)),
    decreases cq.len(),
{
    if at == cq.len() - 1 {
        assert(cq.remove(at) =~= cq.drop_last());
    } else {
        lemma_drain_skips_cancellation(slots, cq.drop_last(), at);
        assert(cq.remove(at).drop_last() =~= cq.drop_last().remove(at));
        assert(cq.remove(at).last() == cq.last());
    }
}

/// A submission that the kernel refuses as "busy" is answered by draining
/// the completion ring, and nothing pending is lost over it. If the ring
/// held no event, the flush ends at once, in success. If it held one or
/// more, the submission is tried again.
pub proof fn lemma_busy_is_retried(pending: Seq<Entry>, e: OsError, cq: Vec<Completion>)
    requires
        e.busy(),
    ensures
        next_action(pending, FlushEvent::SubmitFailed(e)) == FlushAction::Drain,
        next_pending(pending, FlushEvent::SubmitFailed(e)) == pending,
        next_pending(pending, FlushEvent::Drained(cq)) == pending,
        cq@.len() == 0 ==> next_action(pending, FlushEvent::Drained(cq)) == FlushAction::Done(
            Ok(()),
        ),
        cq@.len() > 0 ==> next_action(pending, FlushEvent::Drained(cq)) == FlushAction::Submit,
{
}

/// Any other error of a submission ends the flush and is what the flush
/// returns; nothing pending is lost and no slot is touched.
pub proof fn lemma_failure_is_returned(
    slots: Map<usize, Lifecycle>,
    pending: Seq<Entry>,
    e: OsError,
)
    requires
        !e.busy(),
    ensures
        next_action(pending, FlushEvent::SubmitFailed(e)) == FlushAction::Done(Err(e)),
        next_pending(pending, FlushEvent::SubmitFailed(e)) == pending,
        next_slots(slots, FlushEvent::SubmitFailed(e)) == slots,
{
}

/// Whether two events are completions of one operation.
pub open spec fn same_operation(a: Completion, b: Completion) -> bool {
    !a.cancels() && !b.cancels() && a.user_data == b.user_data
}

/// Whether the registry, as it stands, can take each event of the batch, and
/// no two events of the batch complete one operation.
pub open spec fn admissible(slots: Map<usize, Lifecycle>, cq: Seq<Completion>) -> bool {
    forall|i: int|
        0 <= i < cq.len() ==> {
            &&& dispatchable(slots, #[trigger] cq[i])
            &&& forall|j: int| 0 <= j < i ==> !same_operation(#[trigger] cq[j], cq[i])
        }
}

/// Once the kernel has completed an operation, its slot is gone or holds the
/// result.
pub proof fn lemma_settled_once_completed(
    slots: Map<usize, Lifecycle>,
    cq: Seq<Completion>,
    index: usize,
)
    requires
        drainable(slots, cq),
        exists|i: int| 0 <= i < cq.len() && names(#[trigger] cq[i], index),
    ensures
        !drain(slots, cq).contains_key(index) || drain(slots, cq)[index] is Completed,
    decreases cq.len(),
{
    let before = cq.drop_last();
    if !names(cq.last(), index) {
        let i = choose|i: int| 0 <= i < cq.len() && names(#[trigger] cq[i], index);
        assert(names(before[i], index));
        lemma_settled_once_completed(slots, before, index);
        lemma_dispatch_elsewhere(drain(slots, before), cq.last(), index);
    }
}

/// The registry can take a batch, event after event, exactly if it can take
/// each event as it stands and no operation is completed twice in the batch.
pub proof fn lemma_drainable_is_admissible(slots: Map<usize, Lifecycle>, cq: Seq<Completion>)
    ensures
        drainable(slots, cq) == admissible(slots, cq),
    decreases cq.len(),
{
    if cq.len() > 0 {
        let before = cq.drop_last();
        let last = cq.last();
        let mid = drain(slots, before);
        lemma_drainable_is_admissible(slots, before);
        if drainable(slots, cq) {
            assert(admissible(slots, before));
            if !last.cancels() {
                let key = last.user_data as usize;
                if exists|j: int| 0 <= j < before.len() && names(#[trigger] before[j], key) {
                    lemma_settled_once_completed(slots, before, key);
                }
                assert forall|j: int| 0 <= j < before.len() implies !names(
                    #[trigger] before[j],
                    key,
                ) by {}
                lemma_drain_elsewhere(slots, before, key);
            }
            assert forall|i: int| 0 <= i < cq.len() implies {
                &&& dispatchable(slots, #[trigger] cq[i])
                &&& forall|j: int| 0 <= j < i ==> !same_operation(#[trigger] cq[j], cq[i])
            } by {
                if i < before.len() {
                    assert(cq[i] == before[i]);
                    assert forall|j: int| 0 <= j < i implies !same_operation(
                        #[trigger] cq[j],
                        cq[i],
                    ) by {
                        assert(cq[j] == before[j]);
                    }
                } else {
                    assert forall|j: int| 0 <= j < i implies !same_operation(
                        #[trigger] cq[j],
                        cq[i],
                    ) by {
                        assert(cq[j] == before[j]);
                        if !last.cancels() {
                            assert(!names(before[j], last.user_data as usize));
                        }
                    }
                }
            }
        }
        if admissible(slots, cq) {
            assert forall|i: int| 0 <= i < before.len() implies {
                &&& dispatchable(slots, #[trigger] before[i])
                &&& forall|j: int| 0 <= j < i ==> !same_operation(#[trigger] before[j], before[i])
            } by {
                assert(before[i] == cq[i]);
                assert forall|j: int| 0 <= j < i implies !same_operation(
                    #[trigger] before[j],
                    before[i],
                ) by {
                    assert(before[j] == cq[j]);
                }
            }
            assert(drainable(slots, before));
            assert(dispatchable(slots, cq[cq.len() - 1]));
            if !last.cancels() {
                let key = last.user_data as usize;
                assert forall|j: int| 0 <= j < before.len() implies !names(
                    #[trigger] before[j],
                    key,
                ) by {
                    assert(!same_operation(cq[j], cq[cq.len() - 1]));
                }
                lemma_drain_elsewhere(slots, before, key);
            }
        }
    }
}

/// How a round of pushing ends.
pub struct PushRound {
    /// The entries that went into the ring, in the order in which they went.
    pub pushed: Seq<Entry>,
    /// The entries that are still pending.
    pub pending: Seq<Entry>,
    /// What the flush asks for at the end of the round.
    pub action: FlushAction,
}

/// A round of pushing against a submission ring with `room` free places: the
/// ring takes every entry it is handed while it has room, and hands back the
/// first one that it has no room for. The round begins with `event` and goes
/// on until the flush asks for something other than a push.
pub open spec fn push_round(pending: Seq<Entry>, room: nat, event: FlushEvent) -> PushRound
    decreases room,
{
    let rest = next_pending(pending, event);
    match next_action(pending, event) {
        FlushAction::Push(sqe) => if room > 0 {
            let round = push_round(rest, (room - 1) as nat, FlushEvent::Pushed);
            PushRound { pushed: seq![sqe] + round.pushed, pending: round.pending, action: round.action }
        } else {
            PushRound {
                pushed: Seq::empty(),
                pending: next_pending(rest, FlushEvent::Full(sqe)),
                action: next_action(rest, FlushEvent::Full(sqe)),
            }
        },
        action => PushRound { pushed: Seq::empty(), pending: rest, action },
    }
}

/// Whether a round of pushing can begin with the event: at the start of a
/// flush, after a push, or after a submission.
pub open spec fn begins_round(event: FlushEvent) -> bool {
    event is Start || event is Pushed || event is Submitted
}

/// The number of entries that go into a ring with `room` free places when
/// `pending` entries wait.
pub open spec fn fitting(pending: Seq<Entry>, room: nat) -> int {
    if room < pending.len() {
        room as int
    } else {
        pending.len() as int
    }
}

/// Backpressure keeps the order. Against a ring with `room` free places, a
/// round of pushing puts the oldest pending entries into the ring, as many
/// as fit and in their order, and leaves the others pending, in their order.
/// If anything was pending, the round ends with a submission.
pub proof fn lemma_push_round(pending: Seq<Entry>, room: nat, event: FlushEvent)
    requires
        begins_round(event),
    ensures
        push_round(pending, room, event).pushed == pending.take(fitting(pending, room)),
        push_round(pending, room, event).pending == pending.skip(fitting(pending, room)),
        push_round(pending, room, event).pushed + push_round(pending, room, event).pending
            == pending,
        pending.len() > 0 ==> push_round(pending, room, event).action == FlushAction::Submit,
        pending.len() == 0 ==> push_round(pending, room, event).action == next_action(
            pending,
            event,
        ),
    decreases room,
{
    let round = push_round(pending, room, event);
    let n = fitting(pending, room);
    if pending.len() == 0 {
        assert(round.pushed =~= pending.take(n));
        assert(round.pending =~= pending.skip(n));
    } else if room == 0 {
        assert(round.pushed =~= pending.take(n));
        assert(round.pending =~= pending.skip(n));
    } else {
        let rest = pending.drop_first();
        lemma_push_round(rest, (room - 1) as nat, FlushEvent::Pushed);
        assert(fitting(rest, (room - 1) as nat) == n - 1);
        assert(round.pushed =~= pending.take(n));
        assert(round.pending =~= pending.skip(n));
    }
    assert(pending.take(n) + pending.skip(n) =~= pending);
}

/// With one entry more pending than the ring has room for, the flush pushes
/// exactly as many entries as fit, asks for a submission and keeps the last
/// entry pending. Once the kernel has freed a place and the submission went
/// through, the flush pushes that entry and asks for a submission again. So
/// all entries reach the ring, in the order in which they were queued.
pub proof fn lemma_backpressure(pending: Seq<Entry>, room: nat, freed: nat)
    requires
        pending.len() == room + 1,
        freed > 0,
    ensures
        ({
            let first = push_round(pending, room, FlushEvent::Start);
            let second = push_round(first.pending, freed, FlushEvent::Submitted);
            &&& first.pushed == pending.take(room as int)
            &&& first.pending == seq![pending[room as int]]
            &&& first.action == FlushAction::Submit
            &&& second.pushed == seq![pending[room as int]]
            &&& second.pending == Seq::<Entry>::empty()
            &&& second.action == FlushAction::Submit
            &&& first.pushed + second.pushed == pending
            &&& next_action(second.pending, FlushEvent::Submitted) == FlushAction::Done(Ok(()))
        }),
{
    let first = push_round(pending, room, FlushEvent::Start);
    lemma_push_round(pending, room, FlushEvent::Start);
    assert(first.pending =~= seq![pending[room as int]]);
    let second = push_round(first.pending, freed, FlushEvent::Submitted);
    lemma_push_round(first.pending, freed, FlushEvent::Submitted);
    assert(second.pushed =~= seq![pending[room as int]]);
    assert(second.pending =~= Seq::<Entry>::empty());
    assert(first.pushed + second.pushed =~= pending);
}

/// An abandoned slot is kept for the kernel and for nobody else. It hands
/// out no result. A batch of completion events in which none names it leaves
/// it where it is, abandoned; a batch in which one names it removes it.
pub proof fn lemma_abandoned_until_completed(
    slots: Map<usize, Lifecycle>,
    cq: Seq<Completion>,
    index: usize,
)
    requires
        slots.contains_key(index),
        slots[index] is Ignored,
        drainable(slots, cq),
    ensures
        polled(slots, index) is None,
        (forall|i: int| 0 <= i < cq.len() ==> !names(#[trigger] cq[i], index)) ==> drain(
            slots,
            cq,
        ).contains_key(index) && drain(slots, cq)[index] is Ignored,
        (exists|i: int| 0 <= i < cq.len() && names(#[trigger] cq[i], index)) ==> !drain(
            slots,
            cq,
        ).contains_key(index),
    decreases cq.len(),
{
    if forall|i: int| 0 <= i < cq.len() ==> !names(#[trigger] cq[i], index) {
        lemma_drain_elsewhere(slots, cq, index);
    }
    if exists|i: int| 0 <= i < cq.len() && names(#[trigger] cq[i], index) {
        let i = choose|i: int| 0 <= i < cq.len() && names(#[trigger] cq[i], index);
        let before = cq.drop_last();
        lemma_abandoned_until_completed(slots, before, index);
        if i < cq.len() - 1 {
            assert(names(before[i], index));
            if !names(cq.last(), index) {
                lemma_dispatch_elsewhere(drain(slots, before), cq.last(), index);
            }
        } else if forall|j: int| 0 <= j < before.len() ==> !names(#[trigger] before[j], index) {
        } else {
            let j = choose|j: int| 0 <= j < before.len() && names(#[trigger] before[j], index);
            assert(names(before[j], index));
        }
    }
}

/// What an observer does with another slot, and the registration of a new
/// operation, leave an abandoned slot where it is.
pub proof fn lemma_abandoned_kept_by_others(
    slots: Map<usize, Lifecycle>,
    index: usize,
    other: usize,
    waker: Waker,
)
    requires
        slots.contains_key(index),
        slots[index] is Ignored,
        other != index,
    ensures
        same_slot(slots, poll_in(slots, other, waker), index),
        same_slot(slots, abandon_in(slots, other), index),
        same_slot(slots, slots.remove(other), index),
        same_slot(slots, slots.insert(other, Lifecycle::Submitted), index),
{
}

/// Whether every slot of the registry is abandoned.
pub open spec fn all_abandoned(slots: Map<usize, Lifecycle>) -> bool {
    forall|index: usize| slots.contains_key(index) ==> #[trigger] slots[index] is Ignored
}

/// Whether each event of the batch completes an operation of the registry,
/// and no two of them the same.
pub open spec fn completes_once(slots: Map<usize, Lifecycle>, cq: Seq<Completion>) -> bool {
    &&& forall|i: int|
        0 <= i < cq.len() ==> {
            &&& !(#[trigger] cq[i]).cancels()
            &&& cq[i].user_data <= usize::MAX
            &&& slots.contains_key(cq[i].user_data as usize)
        }
    &&& forall|i: int, j: int|
        0 <= i < j < cq.len() ==> (#[trigger] cq[i]).user_data != (#[trigger] cq[j]).user_data
}

/// From a registry of abandoned slots, a batch that completes each of its
/// operations once removes exactly the slots that it names.
pub proof fn lemma_drain_abandoned(slots: Map<usize, Lifecycle>, cq: Seq<Completion>)
    requires
        all_abandoned(slots),
        completes_once(slots, cq),
    ensures
        drainable(slots, cq),
        all_abandoned(drain(slots, cq)),
        forall|index: usize| #[trigger]
            drain(slots, cq).contains_key(index) <==> slots.contains_key(index) && forall|i: int|
                0 <= i < cq.len() ==> !names(#[trigger] cq[i], index),
    decreases cq.len(),
{
    if cq.len() > 0 {
        let before = cq.drop_last();
        let last = cq.last();
        let key = last.user_data as usize;
        lemma_drain_abandoned(slots, before);
        let mid = drain(slots, before);
        assert(forall|i: int| 0 <= i < before.len() ==> !names(#[trigger] before[i], key)) by {
            assert forall|i: int| 0 <= i < before.len() implies !names(
                #[trigger] before[i],
                key,
            ) by {
                assert(cq[i].user_data != cq[cq.len() - 1].user_data);
            }
        }
        assert(mid.contains_key(key));
        assert(mid[key] is Ignored);
        assert(names(last, key));
        assert forall|index: usize| #[trigger]
            drain(slots, cq).contains_key(index) <==> slots.contains_key(index) && forall|i: int|
                0 <= i < cq.len() ==> !names(#[trigger] cq[i], index) by {
            if index == key {
                assert(names(cq[cq.len() - 1], index));
            } else {
                if forall|i: int| 0 <= i < cq.len() ==> !names(#[trigger] cq[i], index) {
                    assert forall|i: int| 0 <= i < before.len() implies !names(
                        #[trigger] before[i],
                        index,
                    ) by {
                        assert(before[i] == cq[i]);
                    }
                }
                if forall|i: int| 0 <= i < before.len() ==> !names(#[trigger] before[i], index) {
                    assert forall|i: int| 0 <= i < cq.len() implies !names(
                        #[trigger] cq[i],
                        index,
                    ) by {
                        if i < before.len() {
                            assert(before[i] == cq[i]);
                        }
                    }
                }
            }
        }
    }
}

/// Teardown ends, and not early. Let every operation in flight be abandoned,
/// and let the kernel complete each of them once. Then the registry can take
/// the completions in whatever order they come; as long as one is missing,
/// teardown has to wait; and when all have been drained the registry is
/// empty and teardown is finished.
pub proof fn lemma_teardown_ends(slots: Map<usize, Lifecycle>, cq: Seq<Completion>)
    requires
        all_abandoned(slots),
        completes_once(slots, cq),
        forall|index: usize| #[trigger]
            slots.contains_key(index) ==> exists|i: int|
                0 <= i < cq.len() && names(#[trigger] cq[i], index),
    ensures
        drainable(slots, cq),
        drain(slots, cq) == no_slots(),
        teardown_action(drain(slots, cq)) == Teardown::Finished,
        forall|n: int|
            0 <= n < cq.len() ==> teardown_action(#[trigger] drain(slots, cq.take(n)))
                == Teardown::Wait,
{
    lemma_drain_abandoned(slots, cq);
    assert(drain(slots, cq) =~= no_slots());
    assert forall|n: int| 0 <= n < cq.len() implies teardown_action(
        #[trigger] drain(slots, cq.take(n)),
    ) == Teardown::Wait by {
        let part = cq.take(n);
        lemma_drain_abandoned(slots, part);
        let key = cq[n].user_data as usize;
        assert forall|i: int| 0 <= i < part.len() implies !names(#[trigger] part[i], key) by {
            assert(cq[i].user_data != cq[n].user_data);
        }
        assert(drain(slots, part).contains_key(key));
    }
}

/// One thing that happens to the registry.
pub enum Step {
    /// A new operation is registered and gets this index.
    Insert(usize),
    /// The kernel posts this completion event.
    Complete(Completion),
    /// The observer of the operation at this index asks for its result.
    Poll(usize, Waker),
    /// The observer of the operation at this index goes away.
    Abandon(usize),
}

/// Whether the step can happen to the registry: a new operation gets an
/// index that no live slot has, a completion is one that the registry can
/// take, and an observer belongs to a live slot that was not abandoned.
pub open spec fn possible(slots: Map<usize, Lifecycle>, step: Step) -> bool {
    match step {
        Step::Insert(index) => !slots.contains_key(index),
        Step::Complete(cqe) => dispatchable(slots, cqe),
        Step::Poll(index, _) => slots.contains_key(index) && !(slots[index] is Ignored),
        Step::Abandon(index) => slots.contains_key(index) && !(slots[index] is Ignored),
    }
}

/// The registry after the step.
pub open spec fn after(slots: Map<usize, Lifecycle>, step: Step) -> Map<usize, Lifecycle> {
    match step {
        Step::Insert(index) => slots.insert(index, Lifecycle::Submitted),
        Step::Complete(cqe) => dispatch(slots, cqe),
        Step::Poll(index, waker) => poll_in(slots, index, waker),
        Step::Abandon(index) => abandon_in(slots, index),
    }
}

/// The registry after the steps, taken in their order.
pub open spec fn run(slots: Map<usize, Lifecycle>, steps: Seq<Step>) -> Map<usize, Lifecycle>
    decreases steps.len(),
{
    if steps.len() == 0 {
        slots
    } else {
        after(run(slots, steps.drop_last()), steps.last())
    }
}

/// Whether the steps can happen one after the other.
pub open spec fn runs(slots: Map<usize, Lifecycle>, steps: Seq<Step>) -> bool
    decreases steps.len(),
{
    steps.len() == 0 || {
        &&& runs(slots, steps.drop_last())
        &&& possible(run(slots, steps.drop_last()), steps.last())
    }
}

/// Whether the step is a completion of the operation at `index`.
pub open spec fn completes(step: Step, index: usize) -> bool {
    step matches Step::Complete(cqe) && names(cqe, index)
}

/// Of steps that can happen one after the other, each can happen when its
/// turn comes.
pub proof fn lemma_runs_up_to(slots: Map<usize, Lifecycle>, steps: Seq<Step>, n: int)
    requires
        runs(slots, steps),
        0 <= n <= steps.len(),
    ensures
        runs(slots, steps.take(n)),
        n < steps.len() ==> possible(run(slots, steps.take(n)), steps[n]),
        n < steps.len() ==> run(slots, steps.take(n + 1)) == after(
            run(slots, steps.take(n)),
            steps[n],
        ),
    decreases steps.len(),
{
    if n == steps.len() {
        assert(steps.take(n) =~= steps);
    } else {
        assert(steps.take(n + 1).drop_last() =~= steps.take(n));
        if n == steps.len() - 1 {
            assert(steps.take(n) =~= steps.drop_last());
        } else {
            lemma_runs_up_to(slots, steps.drop_last(), n);
            assert(steps.drop_last().take(n) =~= steps.take(n));
        }
    }
}

/// A slot stays live, under its index, until the kernel has completed its
/// operation: whatever else happens in between, the slot is there and holds
/// no result.
pub proof fn lemma_live_until_completed(
    slots: Map<usize, Lifecycle>,
    steps: Seq<Step>,
    from: int,
    to: int,
    index: usize,
)
    requires
        runs(slots, steps),
        0 <= from < to <= steps.len(),
        steps[from] == Step::Insert(index),
        forall|at: int| from < at < to ==> !completes(#[trigger] steps[at], index),
    ensures
        run(slots, steps.take(to)).contains_key(index),
        !(run(slots, steps.take(to))[index] is Completed),
    decreases to - from,
{
    lemma_runs_up_to(slots, steps, to - 1);
    if to - 1 > from {
        lemma_live_until_completed(slots, steps, from, to - 1, index);
        assert(!completes(steps[to - 1], index));
    }
}

/// No index is given out twice to live slots. A new operation gets an index
/// that no live slot has; and if the same index is given out a second time,
/// the kernel has completed the first operation in between, and the slot of
/// that operation is gone.
pub proof fn lemma_index_reused_after_completion(
    slots: Map<usize, Lifecycle>,
    steps: Seq<Step>,
    first: int,
    second: int,
    index: usize,
)
    requires
        runs(slots, steps),
        0 <= first < second < steps.len(),
        steps[first] == Step::Insert(index),
        steps[second] == Step::Insert(index),
    ensures
        !run(slots, steps.take(first)).contains_key(index),
        run(slots, steps.take(first + 1)).contains_key(index),
        exists|at: int| first < at < second && completes(#[trigger] steps[at], index),
        !run(slots, steps.take(second)).contains_key(index),
{
    lemma_runs_up_to(slots, steps, first);
    lemma_runs_up_to(slots, steps, second);
    if forall|at: int| first < at < second ==> !completes(#[trigger] steps[at], index) {
        lemma_live_until_completed(slots, steps, first, second, index);
    }
}

} // verus!
