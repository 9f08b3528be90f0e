//! Completion events and the meaning of their result codes.

use vstd::prelude::*;
use crate::error::OsError;

verus! {

/// The identifier reserved for the completion of a cancel request. It never
/// names a slot of the registry.
pub const CANCEL_TOKEN: u64 = 0xffff_ffff_ffff_ffff;

/// One completion event as the kernel posted it.
#[derive(Clone, Copy, Debug, PartialEq, Eq, Structural)]
pub struct Completion {
    /// The identifier that the submission entry carried.
    pub user_data: u64,
    /// The raw result: a value, or a negated `errno`.
    pub result: i32,
    /// The flags of the event.
    pub flags: u32,
}

/// What a raw completion code means: a non-negative code is the value of a
/// success, a negative code `-e` is the failure with `errno` `e`.
pub open spec fn outcome_of(res: i32) -> Result<u32, OsError> {
    if res >= 0 {
        Ok(res as u32)
    } else {
        Err(OsError { code: (-res) as i64 })
    }
}

impl Completion {
    /// Whether the event answers a cancel request.
    pub open spec fn cancels(&self) -> bool {
        self.user_data == CANCEL_TOKEN
    }

    /// Whether the event carries the reserved cancellation identifier.
    pub fn is_cancellation(&self) -> (b: bool)
        ensures
            b == self.cancels(),
    {
        self.user_data == CANCEL_TOKEN
    }
}

/// Reads the raw result code of a completion event: the value of a success,
/// or the error of a failure.
pub fn resultify(cqe: &Completion) -> (r: Result<u32, OsError>)
    ensures
        r == outcome_of(cqe.result),
{
    let res: i32 = cqe.result;
    if res >= 0 {
        Ok(res as u32)
    } else {
        Err(OsError { code: -(res as i64) })
    }
}

} // verus!
