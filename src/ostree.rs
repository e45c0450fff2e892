//! The retry policy around querying rpm-ostree, whose activation may fail
//! transiently.

use vstd::prelude::*;

verus! {

/// How many times the status query is attempted at most.
pub const MAX_ATTEMPTS: u32 = 10;

/// Whether to query again after `attempts` attempts (the last one included), the
/// last of which succeeded or not: only after a failure, and at most
/// `MAX_ATTEMPTS` attempts in all.
pub fn should_retry(attempts: u32, succeeded: bool) -> (r: bool)
    ensures
        r == (!succeeded && attempts < MAX_ATTEMPTS),
{
    !succeeded && attempts < MAX_ATTEMPTS
}

} // verus!
