//! The registry of in-flight operations.

use vstd::prelude::*;
use slab::Slab;
use std::task::Waker;
use crate::error::OsError;
use crate::lifecycle::Lifecycle;

verus! {

/// `slab::Slab`, a table that hands out stable integer keys.
#[verifier::external_type_specification]
#[verifier::external_body]
#[verifier::reject_recursive_types(T)]
pub struct ExSlab<T>(Slab<T>);

/// The occupied keys of a slab, each with the value stored under it.
pub uninterp spec fn slab_slots(slab: Slab<Lifecycle>) -> Map<usize, Lifecycle>;

/// The registry without a slot.
pub open spec fn no_slots() -> Map<usize, Lifecycle> {
    Map::empty()
}

/// Calls `Slab::with_capacity`. The new slab has room set aside and holds
/// nothing.
#[verifier::external_body]
fn slab_with_capacity(capacity: usize) -> (table: Slab<Lifecycle>)
    ensures
        slab_slots(table) == no_slots(),
{
    Slab::with_capacity(capacity)
}

/// Calls `Slab::len`: the number of occupied keys, which is zero for the
/// slab that holds nothing and for no other.
#[verifier::external_body]
fn slab_len(slab: &Slab<Lifecycle>) -> (n: usize)
    ensures
        n == slab_slots(*slab).len(),
        (n == 0) == (slab_slots(*slab) == no_slots()),
{
    slab.len()
}

/// Calls `Slab::contains`: whether a value is stored under `key`.
#[verifier::external_body]
fn slab_contains(slab: &Slab<Lifecycle>, key: usize) -> (found: bool)
    ensures
        found == slab_slots(*slab).contains_key(key),
{
    slab.contains(key)
}

/// Calls `Slab::get`: the value stored under `key`, if there is one.
#[verifier::external_body]
fn slab_get(slab: &Slab<Lifecycle>, key: usize) -> (slot: Option<&Lifecycle>)
    ensures
        slot.is_some() == slab_slots(*slab).contains_key(key),
        slot.is_some() ==> *slot.unwrap() == slab_slots(*slab)[key],
{
    slab.get(key)
}

/// Calls `Slab::get_mut`: access to the value stored under `key`, if there
/// is one. What is written through the reference is what the slab holds
/// under `key` afterwards; no other key is touched.
#[verifier::external_body]
fn slab_get_mut(slab: &mut Slab<Lifecycle>, key: usize) -> (slot: Option<&mut Lifecycle>)
    ensures
        match slot {
            None => {
                &&& !slab_slots(*old(slab)).contains_key(key)
                &&& slab_slots(*final(slab)) == slab_slots(*old(slab))
            },
            Some(r) => {
                &&& slab_slots(*old(slab)).contains_key(key)
                &&& *r == slab_slots(*old(slab))[key]
                &&& slab_slots(*final(slab)) == slab_slots(*old(slab)).insert(key, *final(r))
            },
        },
{
    slab.get_mut(key)
}

/// Calls `Slab::insert`. The value is stored under a key that was vacant,
/// which is returned; every other key keeps its value.
#[verifier::external_body]
fn slab_insert(slab: &mut Slab<Lifecycle>, val: Lifecycle) -> (key: usize)
    ensures
        !slab_slots(*old(slab)).contains_key(key),
        slab_slots(*final(slab)) == slab_slots(*old(slab)).insert(key, val),
{
    slab.insert(val)
}

/// Calls `Slab::remove`, which panics on a vacant key. The value stored
/// under `key` is taken out and returned, and the key is vacant afterwards;
/// every other key keeps its value.
#[verifier::external_body]
fn slab_remove(slab: &mut Slab<Lifecycle>, key: usize) -> (val: Lifecycle)
    requires
        slab_slots(*old(slab)).contains_key(key),
    ensures
        val == slab_slots(*old(slab))[key],
        slab_slots(*final(slab)) == slab_slots(*old(slab)).remove(key),
{
    slab.remove(key)
}

/// The registry after the kernel completed the operation at `index`: an
/// abandoned slot is gone, any other holds the result.
pub open spec fn complete_in(
    slots: Map<usize, Lifecycle>,
    index: usize,
    result: Result<u32, OsError>,
    flags: u32,
) -> Map<usize, Lifecycle> {
    if slots[index].ends_on_completion() {
        slots.remove(index)
    } else {
        slots.insert(index, slots[index].completed_with(result, flags))
    }
}

/// What an observer that asks for the result of the operation at `index`
/// gets: the buffered result, if the kernel has posted one.
pub open spec fn polled(slots: Map<usize, Lifecycle>, index: usize) -> Option<
    (Result<u32, OsError>, u32),
> {
    match slots[index] {
        Lifecycle::Completed(result, flags) => Some((result, flags)),
        _ => None,
    }
}

/// The registry after an observer asked for the result of the operation at
/// `index`: a slot with a result is handed over and gone, any other waits
/// with the observer's handle.
pub open spec fn poll_in(slots: Map<usize, Lifecycle>, index: usize, waker: Waker) -> Map<
    usize,
    Lifecycle,
> {
    if slots[index] is Completed {
        slots.remove(index)
    } else {
        slots.insert(index, Lifecycle::Waiting(waker))
    }
}

/// The registry after the observer of the operation at `index` went away: a
/// slot with a result is gone, any other is kept, abandoned, for the kernel.
pub open spec fn abandon_in(slots: Map<usize, Lifecycle>, index: usize) -> Map<usize, Lifecycle> {
    if slots[index] is Completed {
        slots.remove(index)
    } else {
        slots.insert(index, Lifecycle::Ignored)
    }
}

/// The number of slots that a new registry sets room aside for.
pub const INITIAL_SLOTS: usize = 64;

/// The lifecycle records of all operations in flight, each under the index
/// that it was given when it was inserted. An index stays with its slot until
/// the slot is removed; only then can it be given out again.
pub struct Ops {
    slots: Slab<Lifecycle>,
}

impl View for Ops {
    type V = Map<usize, Lifecycle>;

    closed spec fn view(&self) -> Map<usize, Lifecycle> {
        slab_slots(self.slots)
    }
}

impl Ops {
    /// An empty registry.
    pub fn new() -> (ops: Ops)
        ensures
            ops@ == no_slots(),
    {
        Ops { slots: slab_with_capacity(INITIAL_SLOTS) }
    }

    /// The number of live slots.
    pub fn len(&self) -> (n: usize)
        ensures
            n == self@.len(),
            (n == 0) == (self@ == no_slots()),
    {
        slab_len(&self.slots)
    }

    /// Whether no operation is in flight.
    pub fn is_empty(&self) -> (empty: bool)
        ensures
            empty == (self@ == no_slots()),
    {
        slab_len(&self.slots) == 0
    }

    /// Whether `index` names a live slot.
    pub fn contains(&self, index: usize) -> (live: bool)
        ensures
            live == self@.contains_key(index),
    {
        slab_contains(&self.slots, index)
    }

    /// The state of the slot at `index`; `None` once the slot is removed.
    pub fn get(&self, index: usize) -> (slot: Option<&Lifecycle>)
        ensures
            slot.is_some() == self@.contains_key(index),
            slot.is_some() ==> *slot.unwrap() == self@[index],
    {
        slab_get(&self.slots, index)
    }

    /// Access to the state of the slot at `index`. `None` means that the
    /// operation is no longer tracked. What the caller writes through the
    /// reference becomes the state of that slot; no other slot changes.
    pub fn get_mut(&mut self, index: usize) -> (slot: Option<&mut Lifecycle>)
        ensures
            match slot {
                None => {
                    &&& !old(self)@.contains_key(index)
                    &&& final(self)@ == old(self)@
                },
                Some(r) => {
                    &&& old(self)@.contains_key(index)
                    &&& *r == old(self)@[index]
                    &&& final(self)@ == old(self)@.insert(index, *final(r))
                },
            },
    {
        slab_get_mut(&mut self.slots, index)
    }

    /// Registers a new operation. Its slot starts as `Submitted`, under an
    /// index that no live slot has.
    pub fn insert(&mut self) -> (index: usize)
        ensures
            !old(self)@.contains_key(index),
            final(self)@ == old(self)@.insert(index, Lifecycle::Submitted),
    {
        slab_insert(&mut self.slots, Lifecycle::Submitted)
    }

    /// Discards the slot at `index`, which must be live.
    pub fn remove(&mut self, index: usize)
        requires
            old(self)@.contains_key(index),
        ensures
            final(self)@ == old(self)@.remove(index),
    {
        let _ = slab_remove(&mut self.slots, index);
    }

    /// Records the kernel's completion of the operation at `index` and
    /// removes the slot if that ends it. Returns whether the slot was
    /// removed.
    ///
    /// The slot must be live and must not hold a result yet.
    pub fn complete(&mut self, index: usize, result: Result<u32, OsError>, flags: u32) -> (removed:
        bool)
        requires
            old(self)@.contains_key(index),
            !(old(self)@[index] is Completed),
        ensures
            removed == old(self)@[index].ends_on_completion(),
            final(self)@ == complete_in(old(self)@, index, result, flags),
    {
        let removed = match slab_get_mut(&mut self.slots, index) {
            Some(slot) => slot.complete(result, flags),
            None => false,
        };
        if removed {
            let _ = slab_remove(&mut self.slots, index);
            assert(self@ =~= complete_in(old(self)@, index, result, flags));
        }
        removed
    }

    /// The observer of the operation at `index` asks for its result. If the
    /// kernel has posted it, the result is handed over and the slot removed.
    /// Otherwise the slot waits with `waker`, in place of any handle it held.
    ///
    /// The slot must be live and not abandoned.
    pub fn poll(&mut self, index: usize, waker: Waker) -> (ready: Option<
        (Result<u32, OsError>, u32),
    >)
        requires
            old(self)@.contains_key(index),
            !(old(self)@[index] is Ignored),
        ensures
            ready == polled(old(self)@, index),
            final(self)@ == poll_in(old(self)@, index, waker),
    {
        let ready = match slab_get_mut(&mut self.slots, index) {
            Some(slot) => match slot {
                Lifecycle::Completed(result, flags) => Some((*result, *flags)),
                _ => {
                    *slot = Lifecycle::Waiting(waker);
                    None
                },
            },
            None => None,
        };
        if ready.is_some() {
            let _ = slab_remove(&mut self.slots, index);
        }
        ready
    }

    /// The observer of the operation at `index` goes away. A slot that holds
    /// a result is removed. Any other is kept as abandoned: the kernel may
    /// still write into the operation's memory, and only its completion
    /// ends the slot.
    ///
    /// The slot must be live and not abandoned already.
    pub fn abandon(&mut self, index: usize)
        requires
            old(self)@.contains_key(index),
            !(old(self)@[index] is Ignored),
        ensures
            final(self)@ == abandon_in(old(self)@, index),
    {
        let done = match slab_get_mut(&mut self.slots, index) {
            Some(slot) => match slot {
                Lifecycle::Completed(_, _) => true,
                _ => {
                    *slot = Lifecycle::Ignored;
                    false
                },
            },
            None => false,
        };
        if done {
            let _ = slab_remove(&mut self.slots, index);
        }
    }
}

} // verus!
