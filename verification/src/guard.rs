//! The status codes of the engine, and the results that they stand for.

use vstd::prelude::*;

use crate::error::Exception;

verus! {

/// The status of an engine call that succeeded.
pub const SUCCESS: i32 = 0;

/// The status that a closure returns to the engine when it fails.
pub const FAILURE: i32 = 1;

/// What an engine call left behind: its status, the value that it was asked to fill, and the
/// message that it raised, if any.
///
/// The value means something only where the status is `SUCCESS`.
pub struct Reply<T> {
    pub status: i32,
    pub value: T,
    pub error: Option<Exception>,
}

impl<T> Reply<T> {
    /// A call that failed has raised an error.
    pub open spec fn wf(self) -> bool {
        self.status != SUCCESS ==> self.error is Some
    }

    pub open spec fn succeeded(self) -> bool {
        self.status == SUCCESS
    }

    /// The value where the call succeeded, else the error that it raised.
    pub open spec fn outcome(self) -> Result<T, Exception> {
        if self.succeeded() {
            Ok(self.value)
        } else {
            Err(self.error->Some_0)
        }
    }

    /// Whether the reply is well-formed.
    pub fn is_wf(&self) -> (wf: bool)
        ensures
            wf == self.wf(),
    {
        is_success(self.status) || self.error.is_some()
    }
}

/// Whether an engine call with this status succeeded.
pub fn is_success(status: i32) -> (success: bool)
    ensures
        success == (status == SUCCESS),
{
    status == SUCCESS
}

/// Reads the reply of an engine call.
pub fn try_from_op<T>(reply: Reply<T>) -> (result: Result<T, Exception>)
    requires
        reply.wf(),
    ensures
        result == reply.outcome(),
{
    if is_success(reply.status) {
        Ok(reply.value)
    } else {
        Err(reply.error.unwrap())
    }
}

/// The status alone says whether a call succeeded, and zero alone says that it did. A call that
/// succeeded comes to its value, one that failed to its error, which it must have raised.
pub proof fn law_status_zero_alone_is_success<T>(reply: Reply<T>)
    ensures
        reply.succeeded() == (reply.status == 0),
        reply.wf() == (reply.status == 0 || reply.error is Some),
        reply.status == 0 ==> reply.outcome() == Ok::<T, Exception>(reply.value),
        reply.status != 0 && reply.wf() ==> reply.outcome() == Err::<T, Exception>(
            reply.error->Some_0,
        ),
{
}

} // verus!
