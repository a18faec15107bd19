//! Naming and retrying of the POSIX shared memory objects that back
//! capture buffers when no memfd can be had.

use crate::decimal::{decimal, push_decimal};
use vstd::prelude::*;

verus! {

/// The prefix of the shared memory object names.
pub open spec fn shm_prefix() -> Seq<char> {
    "/cosmic-workspaces-shm-"@
}

/// The name of the shared memory object tried at a moment whose sub-second
/// part is `nanos` nanoseconds.
pub fn shm_name(nanos: u32) -> (r: String)
    ensures
        r@ == shm_prefix() + decimal(nanos as nat),
{
    let mut name = "/cosmic-workspaces-shm-".to_owned();
    push_decimal(&mut name, nanos as u64);
    name
}

/// How opening a new shared memory object went.
#[derive(Clone, Copy, Debug, PartialEq, Eq, Structural)]
pub enum ShmOpenOutcome {
    Opened,
    /// An object of that name exists already.
    AlreadyExists,
    /// Any other error.
    Failed,
}

/// What to do next.
#[derive(Clone, Copy, Debug, PartialEq, Eq, Structural)]
pub enum ShmStep {
    /// Unlink the name and hand out the object.
    UnlinkAndReturn,
    /// Try again with a new name.
    Retry,
    /// Give up with the error.
    Fail,
}

/// The step after an attempt to create a shared memory object: a name that
/// is taken is retried with another one, any other error ends the attempts.
pub fn after_shm_open(outcome: ShmOpenOutcome) -> (r: ShmStep)
    ensures
        r == match outcome {
            ShmOpenOutcome::Opened => ShmStep::UnlinkAndReturn,
            ShmOpenOutcome::AlreadyExists => ShmStep::Retry,
            ShmOpenOutcome::Failed => ShmStep::Fail,
        },
{
    match outcome {
        ShmOpenOutcome::Opened => ShmStep::UnlinkAndReturn,
        ShmOpenOutcome::AlreadyExists => ShmStep::Retry,
        ShmOpenOutcome::Failed => ShmStep::Fail,
    }
}

} // verus!
