//! Exceptions, and the slot in which a closure leaves its own error.

use vstd::prelude::*;

verus! {

/// An error of a transform: the message of the engine, or of a user's closure.
#[derive(Debug)]
pub struct Exception {
    what: String,
}

impl View for Exception {
    type V = Seq<char>;

    /// The message.
    closed spec fn view(&self) -> Seq<char> {
        self.what@
    }
}

impl Exception {
    pub fn new(what: String) -> (exception: Exception)
        ensures
            exception@ == what@,
    {
        Exception { what }
    }

    /// The message of the exception.
    pub fn what(&self) -> (what: &str)
        ensures
            what@ == self@,
    {
        self.what.as_str()
    }
}

/// The error that a closure has left behind for the transform that called it.
///
/// The engine can carry no more than a status code out of a closure, so the error itself waits
/// here until the transform collects it.
#[derive(Debug)]
pub struct ClosureError {
    error: Option<Exception>,
}

impl View for ClosureError {
    type V = Option<Exception>;

    closed spec fn view(&self) -> Option<Exception> {
        self.error
    }
}

impl ClosureError {
    pub fn new() -> (slot: ClosureError)
        ensures
            slot@ is None,
    {
        ClosureError { error: None }
    }

    /// Leaves an error, in place of any earlier one.
    pub fn set_closure_error(&mut self, err: Exception)
        ensures
            final(self)@ == Some(err),
    {
        self.error = Some(err);
    }

    /// Takes the error out, and leaves the slot empty.
    pub fn get_and_clear_closure_error(&mut self) -> (error: Option<Exception>)
        ensures
            error == old(self)@,
            final(self)@ is None,
    {
        self.error.take()
    }
}

/// The error that a failed transform reports: that of the closure where there is one, else that
/// of the engine.
pub open spec fn reported(slot: Option<Exception>, engine_error: Exception) -> Exception {
    match slot {
        Some(closure_error) => closure_error,
        None => engine_error,
    }
}

/// Picks the error to report, and clears the slot.
///
/// The engine's own error says no more than that a closure failed; the closure's says why.
pub fn report(slot: &mut ClosureError, engine_error: Exception) -> (error: Exception)
    ensures
        error == reported(old(slot)@, engine_error),
        final(slot)@ is None,
{
    match slot.get_and_clear_closure_error() {
        Some(closure_error) => closure_error,
        None => engine_error,
    }
}

/// The closure's error is reported wherever there is one, and the engine's only where there is
/// none.
pub proof fn law_the_closures_error_comes_first(closure_error: Exception, engine_error: Exception)
    ensures
        reported(Some(closure_error), engine_error) == closure_error,
        reported(None, engine_error) == engine_error,
{
}

} // verus!
