//! The reactor state: the registry of operations in flight and the entries
//! that wait for room in the kernel's submission ring.

use vstd::prelude::*;
use io_uring::squeue::Entry;
use std::collections::VecDeque;
use crate::completion::{outcome_of, resultify, Completion};
use crate::error::OsError;
use crate::laws::{admissible, lemma_drainable_is_admissible, same_operation};
use crate::lifecycle::Lifecycle;
use crate::ops::{complete_in, no_slots, Ops};

verus! {

/// The number of entries that the reactor asks the kernel's ring to hold.
pub const RING_ENTRIES: u32 = 256;

/// `io_uring::squeue::Entry`, one request for the kernel's submission ring.
/// The reactor carries such entries and never looks inside.
#[verifier::external_type_specification]
#[verifier::external_body]
pub struct ExEntry(Entry);

/// Whether the registry can take the event: the completion of a cancel
/// request always, any other only if it names a live slot that holds no
/// result yet.
pub open spec fn dispatchable(slots: Map<usize, Lifecycle>, cqe: Completion) -> bool {
    cqe.cancels() || {
        &&& cqe.user_data <= usize::MAX
        &&& slots.contains_key(cqe.user_data as usize)
        &&& !(slots[cqe.user_data as usize] is Completed)
    }
}

/// The registry after one completion event. The completion of a cancel
/// request touches no slot; any other is recorded in the slot it names.
pub open spec fn dispatch(slots: Map<usize, Lifecycle>, cqe: Completion) -> Map<usize, Lifecycle> {
    if cqe.cancels() {
        slots
    } else {
        complete_in(slots, cqe.user_data as usize, outcome_of(cqe.result), cqe.flags)
    }
}

/// Whether the registry can take the events of `cq` one after the other.
pub open spec fn drainable(slots: Map<usize, Lifecycle>, cq: Seq<Completion>) -> bool
    decreases cq.len(),
{
    cq.len() == 0 || {
        &&& drainable(slots, cq.drop_last())
        &&& dispatchable(drain(slots, cq.drop_last()), cq.last())
    }
}

/// The registry after the events of `cq`, taken in the order of `cq`.
pub open spec fn drain(slots: Map<usize, Lifecycle>, cq: Seq<Completion>) -> Map<usize, Lifecycle>
    decreases cq.len(),
{
    if cq.len() == 0 {
        slots
    } else {
        dispatch(drain(slots, cq.drop_last()), cq.last())
    }
}

/// What the driver of the ring reports to a submission flush.
#[derive(Debug)]
pub enum FlushEvent {
    /// A flush begins.
    Start,
    /// The ring took the entry that was to be pushed.
    Pushed,
    /// The ring was full; the entry that was to be pushed comes back.
    Full(Entry),
    /// The kernel accepted what was pushed.
    Submitted,
    /// The kernel refused the submission with this error.
    SubmitFailed(OsError),
    /// The completion ring was drained; these events were in it.
    Drained(Vec<Completion>),
}

/// What a submission flush asks of the driver of the ring next.
#[derive(Debug)]
pub enum FlushAction {
    /// Push this entry into the submission ring, and report `Pushed` or,
    /// with the entry, `Full`.
    Push(Entry),
    /// Ask the kernel to submit what was pushed, and report `Submitted` or
    /// `SubmitFailed`.
    Submit,
    /// Drain the completion ring, and report `Drained`.
    Drain,
    /// The flush is over, with this outcome.
    Done(Result<(), OsError>),
}

/// The entry to push next if one is pending, `otherwise` if none is.
pub open spec fn push_or(pending: Seq<Entry>, otherwise: FlushAction) -> FlushAction {
    if pending.len() > 0 {
        FlushAction::Push(pending[0])
    } else {
        otherwise
    }
}

/// The pending entries without the one that is handed out for pushing.
pub open spec fn without_front(pending: Seq<Entry>) -> Seq<Entry> {
    if pending.len() > 0 {
        pending.drop_first()
    } else {
        pending
    }
}

/// What a submission flush asks for after `event`, with `pending` entries
/// waiting.
pub open spec fn next_action(pending: Seq<Entry>, event: FlushEvent) -> FlushAction {
    match event {
        FlushEvent::Start => push_or(pending, FlushAction::Done(Ok(()))),
        FlushEvent::Pushed => push_or(pending, FlushAction::Submit),
        FlushEvent::Full(_) => FlushAction::Submit,
        FlushEvent::Submitted => push_or(pending, FlushAction::Done(Ok(()))),
        FlushEvent::SubmitFailed(e) => if e.busy() {
            FlushAction::Drain
        } else {
            FlushAction::Done(Err(e))
        },
        FlushEvent::Drained(cq) => if cq@.len() == 0 {
            FlushAction::Done(Ok(()))
        } else {
            FlushAction::Submit
        },
    }
}

/// The pending entries after `event`. An entry that the ring had no room for
/// goes back to the front, so the order of submission is kept.
pub open spec fn next_pending(pending: Seq<Entry>, event: FlushEvent) -> Seq<Entry> {
    match event {
        FlushEvent::Start => without_front(pending),
        FlushEvent::Pushed => without_front(pending),
        FlushEvent::Full(sqe) => seq![sqe] + pending,
        FlushEvent::Submitted => without_front(pending),
        FlushEvent::SubmitFailed(_) => pending,
        FlushEvent::Drained(_) => pending,
    }
}

/// The registry after `event`: only drained completions change it.
pub open spec fn next_slots(slots: Map<usize, Lifecycle>, event: FlushEvent) -> Map<
    usize,
    Lifecycle,
> {
    match event {
        FlushEvent::Drained(cq) => drain(slots, cq@),
        _ => slots,
    }
}

/// What the teardown of a reactor has to do next.
#[derive(Clone, Copy, Debug, PartialEq, Eq, Structural)]
pub enum Teardown {
    /// Operations are in flight: block until the kernel posts a completion,
    /// drain the completion ring, and come back with what was in it.
    Wait,
    /// No operation is in flight: the reactor can go.
    Finished,
}

/// What teardown has to do with these slots in the registry: it is finished
/// exactly when there is none.
pub open spec fn teardown_action(slots: Map<usize, Lifecycle>) -> Teardown {
    if slots == no_slots() {
        Teardown::Finished
    } else {
        Teardown::Wait
    }
}

/// The state of the reactor.
pub struct Inner {
    /// The operations in flight.
    pub ops: Ops,
    /// The entries that are not in the submission ring yet, oldest first.
    pub submissions: VecDeque<Entry>,
}

impl Inner {
    /// A reactor state with no operation in flight and nothing pending.
    pub fn new() -> (inner: Inner)
        ensures
            inner.ops@ == no_slots(),
            inner.submissions@ == Seq::<Entry>::empty(),
    {
        Inner { ops: Ops::new(), submissions: VecDeque::new() }
    }

    /// Queues an entry behind all that are pending.
    pub fn enqueue(&mut self, sqe: Entry)
        ensures
            final(self).submissions@ == old(self).submissions@.push(sqe),
            final(self).ops@ == old(self).ops@,
    {
        self.submissions.push_back(sqe);
    }

    /// The number of operations in flight.
    pub fn num_operations(&self) -> (n: usize)
        ensures
            n == self.ops@.len(),
            (n == 0) == (self.ops@ == no_slots()),
    {
        self.ops.len()
    }

    /// Whether `flush_completions` can take the event as the registry stands.
    pub fn accepts(&self, cqe: &Completion) -> (ok: bool)
        ensures
            ok == dispatchable(self.ops@, *cqe),
    {
        if cqe.is_cancellation() {
            return true;
        }
        if cqe.user_data > usize::MAX as u64 {
            return false;
        }
        match self.ops.get(cqe.user_data as usize) {
            Some(Lifecycle::Completed(_, _)) => false,
            Some(_) => true,
            None => false,
        }
    }

    /// Whether `flush_completions` can take the whole batch: the registry
    /// can take each event, and no operation is completed twice.
    pub fn admits(&self, cq: &Vec<Completion>) -> (ok: bool)
        ensures
            ok == drainable(self.ops@, cq@),
    {
        proof {
            lemma_drainable_is_admissible(self.ops@, cq@);
        }
        let mut i: usize = 0;
        while i < cq.len()
            invariant
                i <= cq@.len(),
                drainable(self.ops@, cq@) == admissible(self.ops@, cq@),
                forall|k: int|
                    0 <= k < i ==> {
                        &&& dispatchable(self.ops@, #[trigger] cq@[k])
                        &&& forall|j: int| 0 <= j < k ==> !same_operation(#[trigger] cq@[j], cq@[k])
                    },
            decreases cq@.len() - i,
        {
            if !self.accepts(&cq[i]) {
                assert(!dispatchable(self.ops@, cq@[i as int]));
                return false;
            }
            let mut j: usize = 0;
            while j < i
                invariant
                    j <= i < cq@.len(),
                    drainable(self.ops@, cq@) == admissible(self.ops@, cq@),
                    forall|k: int| 0 <= k < j ==> !same_operation(#[trigger] cq@[k], cq@[i as int]),
                decreases i - j,
            {
                if !cq[j].is_cancellation() && !cq[i].is_cancellation() && cq[j].user_data
                    == cq[i].user_data {
                    assert(same_operation(cq@[j as int], cq@[i as int]));
                    return false;
                }
                j += 1;
            }
            i += 1;
        }
        true
    }

    /// Dispatches the events drained from the completion ring, in their
    /// order, and returns how many there were. The completion of a cancel
    /// request is counted and touches no slot. Any other event is recorded in
    /// the slot that it names, and ends that slot if the operation was
    /// abandoned.
    ///
    /// Each event must be one that the registry can take when its turn comes.
    pub fn flush_completions(&mut self, cq: &Vec<Completion>) -> (flushed: usize)
        requires
            drainable(old(self).ops@, cq@),
        ensures
            flushed == cq@.len(),
            final(self).ops@ == drain(old(self).ops@, cq@),
            final(self).submissions@ == old(self).submissions@,
    {
        let mut flushed: usize = 0;
        while flushed < cq.len()
            invariant
                flushed <= cq@.len(),
                drainable(old(self).ops@, cq@),
                self.ops@ == drain(old(self).ops@, cq@.take(flushed as int)),
                self.submissions@ == old(self).submissions@,
            decreases cq@.len() - flushed,
        {
            let cqe = &cq[flushed];
            proof {
                lemma_drainable_prefix(old(self).ops@, cq@, flushed as int + 1);
                assert(cq@.take(flushed as int + 1).drop_last() =~= cq@.take(flushed as int));
            }
            flushed += 1;
            if !cqe.is_cancellation() {
                let index = cqe.user_data as usize;
                let _ = self.ops.complete(index, resultify(cqe), cqe.flags);
            }
        }
        assert(cq@.take(flushed as int) =~= cq@);
        flushed
    }

    /// One step of a submission flush. The driver of the ring reports what
    /// happened, `Start` first, and is told what to do next, until it is
    /// told `Done`.
    ///
    /// Pending entries are handed out for pushing from the front, one at a
    /// time. When the ring is full, the entry goes back to the front and the
    /// kernel is asked to submit what was pushed; after a submission the
    /// rest follows. A submission refused as "busy" is no failure: the
    /// completion ring is drained, and if anything was in it the submission
    /// is tried again; if nothing was, the flush ends in success and leaves
    /// progress to whoever waits on the ring. Any other error ends the flush
    /// and is returned.
    pub fn flush_submissions(&mut self, event: FlushEvent) -> (action: FlushAction)
        requires
            event matches FlushEvent::Drained(cq) ==> drainable(old(self).ops@, cq@),
        ensures
            action == next_action(old(self).submissions@, event),
            final(self).submissions@ == next_pending(old(self).submissions@, event),
            final(self).ops@ == next_slots(old(self).ops@, event),
    {
        match event {
            FlushEvent::Start => self.push_next(FlushAction::Done(Ok(()))),
            FlushEvent::Pushed => self.push_next(FlushAction::Submit),
            FlushEvent::Full(sqe) => {
                self.submissions.push_front(sqe);
                FlushAction::Submit
            },
            FlushEvent::Submitted => self.push_next(FlushAction::Done(Ok(()))),
            FlushEvent::SubmitFailed(e) => {
                if e.is_busy() {
                    FlushAction::Drain
                } else {
                    FlushAction::Done(Err(e))
                }
            },
            FlushEvent::Drained(cq) => {
                let flushed = self.flush_completions(&cq);
                if flushed == 0 {
                    FlushAction::Done(Ok(()))
                } else {
                    FlushAction::Submit
                }
            },
        }
    }

    /// One round of teardown. Dispatches the events drained since the last
    /// round, none in the first, and says whether the reactor has to block
    /// once more. As long as a slot is live the kernel may write into the
    /// memory of its operation, so teardown goes on until the registry is
    /// empty; whether the wait before a round failed does not matter to it.
    ///
    /// Each event must be one that the registry can take when its turn comes.
    pub fn teardown(&mut self, cq: &Vec<Completion>) -> (action: Teardown)
        requires
            drainable(old(self).ops@, cq@),
        ensures
            final(self).ops@ == drain(old(self).ops@, cq@),
            final(self).submissions@ == old(self).submissions@,
            action == teardown_action(final(self).ops@),
    {
        let _ = self.flush_completions(cq);
        if self.num_operations() > 0 {
            Teardown::Wait
        } else {
            Teardown::Finished
        }
    }

    /// Takes the oldest pending entry for pushing; with none pending,
    /// answers `otherwise`.
    fn push_next(&mut self, otherwise: FlushAction) -> (action: FlushAction)
        ensures
            action == push_or(old(self).submissions@, otherwise),
            final(self).submissions@ == without_front(old(self).submissions@),
            final(self).ops@ == old(self).ops@,
    {
        match self.submissions.pop_front() {
            Some(sqe) => FlushAction::Push(sqe),
            None => otherwise,
        }
    }
}

/// Every prefix of a batch that the registry can take can be taken too.
pub proof fn lemma_drainable_prefix(slots: Map<usize, Lifecycle>, cq: Seq<Completion>, n: int)
    requires
        drainable(slots, cq),
        0 <= n <= cq.len(),
    ensures
        drainable(slots, cq.take(n)),
    decreases cq.len(),
{
    if n == cq.len() {
        assert(cq.take(n) =~= cq);
    } else {
        lemma_drainable_prefix(slots, cq.drop_last(), n);
        assert(cq.drop_last().take(n) =~= cq.take(n));
    }
}

} // verus!
