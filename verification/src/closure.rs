//! Closures that the engine calls back, and how their results return to it.

use vstd::prelude::*;

use crate::error::{ClosureError, Exception};
use crate::guard::{FAILURE, SUCCESS};

verus! {

/// A function on arrays that the engine can call back.
pub trait Callback<A> {
    /// The callback may be called on these inputs.
    spec fn ready(&self, inputs: &[A]) -> bool;

    /// The callback may return this result on these inputs.
    spec fn may_return(&self, inputs: &[A], result: Result<Vec<A>, Exception>) -> bool;

    /// Calls the function, once. The contract says what comes back; the number of calls, and what
    /// they do to the function's own state, it does not say.
    fn call(&mut self, inputs: &[A]) -> (result: Result<Vec<A>, Exception>)
        requires
            old(self).ready(inputs),
        ensures
            old(self).may_return(inputs, result),
    ;
}

/// A closure that cannot fail.
pub struct Closure<F> {
    pub f: F,
}

/// A closure that can return an error.
pub struct FallibleClosure<F> {
    pub f: F,
}

impl<F> Closure<F> {
    pub fn new(f: F) -> (closure: Closure<F>)
        ensures
            closure.f == f,
    {
        Closure { f }
    }
}

impl<F> FallibleClosure<F> {
    pub fn new_fallible(f: F) -> (closure: FallibleClosure<F>)
        ensures
            closure.f == f,
    {
        FallibleClosure { f }
    }
}

impl<A, F: FnMut(&[A]) -> Vec<A>> Callback<A> for Closure<F> {
    open spec fn ready(&self, inputs: &[A]) -> bool {
        call_requires(self.f, (inputs,))
    }

    open spec fn may_return(&self, inputs: &[A], result: Result<Vec<A>, Exception>) -> bool {
        result matches Ok(outputs) && call_ensures(self.f, (inputs,), outputs)
    }

    fn call(&mut self, inputs: &[A]) -> (result: Result<Vec<A>, Exception>) {
        Ok((self.f)(inputs))
    }
}

impl<A, F: FnMut(&[A]) -> Result<Vec<A>, Exception>> Callback<A> for FallibleClosure<F> {
    open spec fn ready(&self, inputs: &[A]) -> bool {
        call_requires(self.f, (inputs,))
    }

    open spec fn may_return(&self, inputs: &[A], result: Result<Vec<A>, Exception>) -> bool {
        call_ensures(self.f, (inputs,), result)
    }

    fn call(&mut self, inputs: &[A]) -> (result: Result<Vec<A>, Exception>) {
        (self.f)(inputs)
    }
}

/// What goes back to the engine from a callback: a status, and the outputs of one that did not
/// fail.
pub struct Returned<A> {
    pub status: i32,
    pub outputs: Option<Vec<A>>,
}

/// What goes back to the engine for a result.
pub open spec fn returned<A>(result: Result<Vec<A>, Exception>) -> Returned<A> {
    match result {
        Ok(outputs) => Returned { status: SUCCESS, outputs: Some(outputs) },
        Err(_) => Returned { status: FAILURE, outputs: None },
    }
}

/// The slot after the results of a number of calls, in their order: it holds the last error.
pub open spec fn left_behind<A>(
    slot: Option<Exception>,
    results: Seq<Result<Vec<A>, Exception>>,
) -> Option<Exception>
    decreases results.len(),
{
    if results.len() == 0 {
        slot
    } else {
        match results.last() {
            Ok(_) => left_behind(slot, results.drop_last()),
            Err(error) => Some(error),
        }
    }
}

/// Settles one call of a callback: the engine gets the status and the outputs, and an error stays
/// behind in the slot.
pub fn settle<A>(result: Result<Vec<A>, Exception>, slot: &mut ClosureError) -> (r: Returned<A>)
    ensures
        r == returned(result),
        final(slot)@ == left_behind(old(slot)@, seq![result]),
{
    proof {
        reveal_with_fuel(left_behind, 2);
    }
    match result {
        Ok(outputs) => Returned { status: SUCCESS, outputs: Some(outputs) },
        Err(error) => {
            slot.set_closure_error(error);
            Returned { status: FAILURE, outputs: None }
        },
    }
}

/// A closure that cannot fail never does: the engine gets its outputs, and no error stays behind.
pub proof fn law_infallible_closures_leave_no_error<A, F: FnMut(&[A]) -> Vec<A>>(
    closure: Closure<F>,
    inputs: &[A],
    result: Result<Vec<A>, Exception>,
    slot: Option<Exception>,
)
    requires
        closure.may_return(inputs, result),
    ensures
        returned(result).status == SUCCESS,
        returned(result).outputs == Some(result->Ok_0),
        left_behind(slot, seq![result]) == slot,
{
    reveal_with_fuel(left_behind, 2);
}

/// The engine is told of a failure just where the callback failed, and just then an error stays
/// behind, which is that of the callback.
pub proof fn law_failed_calls_leave_their_error<A>(
    result: Result<Vec<A>, Exception>,
    slot: Option<Exception>,
)
    ensures
        (returned(result).status == SUCCESS) == (result is Ok),
        returned(result).outputs is Some == (result is Ok),
        result matches Ok(outputs) ==> returned(result).status == 0 && returned(result).outputs
            == Some(outputs),
        result is Err ==> returned(result).status == 1,
        result matches Err(error) ==> left_behind(slot, seq![result]) == Some(error),
        result is Ok ==> left_behind(slot, seq![result]) == slot,
{
    reveal_with_fuel(left_behind, 2);
}

/// A callback may be called just where its function may, and may return just what its function
/// may: of one that cannot fail, the outputs; of one that can, the outputs or the error.
pub proof fn law_callbacks_return_what_their_functions_return<
    A,
    F: FnMut(&[A]) -> Vec<A>,
    G: FnMut(&[A]) -> Result<Vec<A>, Exception>,
>(
    infallible: Closure<F>,
    fallible: FallibleClosure<G>,
    inputs: &[A],
    outputs: Vec<A>,
    error: Exception,
)
    ensures
        infallible.ready(inputs) == call_requires(infallible.f, (inputs,)),
        infallible.may_return(inputs, Ok(outputs)) == call_ensures(
            infallible.f,
            (inputs,),
            outputs,
        ),
        !infallible.may_return(inputs, Err(error)),
        fallible.ready(inputs) == call_requires(fallible.f, (inputs,)),
        fallible.may_return(inputs, Ok(outputs)) == call_ensures(
            fallible.f,
            (inputs,),
            Ok::<Vec<A>, Exception>(outputs),
        ),
        fallible.may_return(inputs, Err(error)) == call_ensures(
            fallible.f,
            (inputs,),
            Err::<Vec<A>, Exception>(error),
        ),
{
}

/// Of a number of calls, the last that failed leaves its error behind, in place of any earlier
/// one; where none failed, the slot is as it was.
pub proof fn law_the_last_error_stays_behind<A>(
    slot: Option<Exception>,
    results: Seq<Result<Vec<A>, Exception>>,
    last: int,
)
    requires
        -1 <= last < results.len(),
        last >= 0 ==> results[last] is Err,
        forall|i: int| last < i < results.len() ==> #[trigger] results[i] is Ok,
    ensures
        left_behind(slot, results) == if last >= 0 {
            Some(results[last]->Err_0)
        } else {
            slot
        },
    decreases results.len(),
{
    if last < results.len() - 1 {
        assert(results[results.len() - 1] is Ok);
        law_the_last_error_stays_behind(slot, results.drop_last(), last);
    }
}

/// Calls settled one after the other leave behind what all of them together do.
pub proof fn law_calls_are_settled_in_turn<A>(
    slot: Option<Exception>,
    results: Seq<Result<Vec<A>, Exception>>,
    result: Result<Vec<A>, Exception>,
)
    ensures
        left_behind(left_behind(slot, results), seq![result]) == left_behind(
            slot,
            results.push(result),
        ),
{
    reveal_with_fuel(left_behind, 2);
    assert(results.push(result).drop_last() =~= results);
    assert(seq![result].drop_last() =~= Seq::empty());
}

} // verus!
