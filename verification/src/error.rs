//! Classified operating-system errors.

use vstd::prelude::*;

verus! {

/// An operating-system error, identified by its `errno` code.
///
/// The code is kept in 64 bits so that the negation of every 32-bit
/// completion code has a place in it.
#[derive(Clone, Copy, Debug, PartialEq, Eq, Structural)]
pub struct OsError {
    pub code: i64,
}

/// The code that the kernel reports while the ring is contended: `EBUSY`.
pub open spec fn busy_code() -> int {
    16
}

/// Reads `libc::EBUSY`. The contract claims its value on the targets that
/// have a completion ring, Linux and Android: 16.
#[verifier::external_body]
fn ebusy() -> (code: i32)
    ensures
        code == busy_code(),
{
    libc::EBUSY
}

impl OsError {
    /// The error that the operating system numbers `code`.
    pub fn from_raw_os_error(code: i32) -> (e: OsError)
        ensures
            e.code == code,
    {
        OsError { code: code as i64 }
    }

    /// The `errno` code of this error.
    pub fn raw_os_error(&self) -> (code: i64)
        ensures
            code == self.code,
    {
        self.code
    }

    /// Whether the error only says that the ring is contended.
    pub open spec fn busy(&self) -> bool {
        self.code == busy_code()
    }

    /// Whether this is the transient "device or resource busy" error.
    pub fn is_busy(&self) -> (b: bool)
        ensures
            b == self.busy(),
    {
        self.code == ebusy() as i64
    }
}

} // verus!
