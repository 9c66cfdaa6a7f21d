//! Gradient (activation) checkpointing.

use vstd::pervasive::unreached;
use vstd::prelude::*;

use crate::closure::FallibleClosure;
use crate::engine::{Engine, Event, Request, VectorRequest};
use crate::error::{report, reported, ClosureError, Exception};
use crate::guard::try_from_op;
use crate::step::Step;
use crate::vector::{
    packing_accepts, packing_next, references, try_from_iter, try_into_values, unpacking_accepts,
    unpacking_next, Packing, PackingView, Unpacking, UnpackingView,
};

verus! {

/// A function that has been checkpointed. It can be called any number of times.
pub struct Checkpoint<E: Engine> {
    /// The engine's closure of the function.
    pub inner: E::Closure,
}

enum Stage<'a, E: Engine> {
    Wrapping { inputs: Vec<&'a E::Array> },
    Inputs { closure: E::Closure, packing: Packing<'a, E> },
    Running,
    Outputs { unpacking: Unpacking<E> },
}

/// A session that calls a checkpointed function.
pub struct CheckpointSession<'a, E: Engine> {
    stage: Stage<'a, E>,
}

/// The view of a [`CheckpointSession`]: what has been done, and what is left to do.
pub enum CheckpointView<E: Engine> {
    /// The checkpointed closure is being made.
    Wrapping { inputs: Seq<E::Array> },
    /// The inputs are being packed.
    Inputs { closure: E::Closure, packing: PackingView<E::Array> },
    /// The engine is at work.
    Running,
    /// The outputs are being read.
    Outputs { unpacking: UnpackingView<E::Array> },
}

/// A step of a [`CheckpointSession`].
pub type CheckpointStep<'a, E: Engine> = Step<
    Request<'a, E>,
    CheckpointSession<'a, E>,
    Vec<E::Array>,
>;

/// The view of a [`CheckpointStep`].
pub type CheckpointStepView<'a, E: Engine> = Step<
    Request<'a, E>,
    CheckpointView<E>,
    Seq<E::Array>,
>;

impl<'a, E: Engine> View for CheckpointSession<'a, E> {
    type V = CheckpointView<E>;

    closed spec fn view(&self) -> CheckpointView<E> {
        match self.stage {
            Stage::Wrapping { inputs } => CheckpointView::Wrapping { inputs: inputs@.unref() },
            Stage::Inputs { closure, packing } => CheckpointView::Inputs {
                closure,
                packing: packing@,
            },
            Stage::Running => CheckpointView::Running,
            Stage::Outputs { unpacking } => CheckpointView::Outputs { unpacking: unpacking@ },
        }
    }
}

/// The events that a session takes.
pub open spec fn checkpoint_accepts<E: Engine>(
    session: CheckpointView<E>,
    event: Event<E>,
) -> bool {
    match session {
        CheckpointView::Wrapping { .. } => event is Checkpointed && event.wf(),
        CheckpointView::Inputs { packing, .. } => event matches Event::Vector(vector_event)
            && packing_accepts(packing, vector_event),
        CheckpointView::Running => event is Applied && event.wf(),
        CheckpointView::Outputs { unpacking } => event matches Event::Vector(vector_event)
            && unpacking_accepts(unpacking, vector_event),
    }
}

/// The first step of a call: the closure is wrapped before the inputs are packed.
pub open spec fn checkpoint_start<'a, E: Engine>(
    inner: E::Closure,
    inputs: Seq<E::Array>,
) -> CheckpointStepView<'a, E> {
    Step::Perform(Request::Checkpoint(&inner), CheckpointView::Wrapping { inputs })
}

/// The next step of a session, and what is left in the slot of the closure's error.
///
/// An error of the application itself gives way to the closure's error, and the slot is cleared.
/// Every other error is reported as it is, and the slot stays as it was.
pub open spec fn checkpoint_next<'a, E: Engine>(
    session: CheckpointView<E>,
    event: Event<E>,
    slot: Option<Exception>,
) -> (CheckpointStepView<'a, E>, Option<Exception>) {
    match (session, event) {
        (CheckpointView::Wrapping { inputs }, Event::Checkpointed(reply)) => {
            match reply.outcome() {
                Ok(closure) => (
                    Step::Perform(
                        Request::Vector(VectorRequest::New),
                        CheckpointView::Inputs {
                            closure,
                            packing: PackingView::Creating { pending: inputs },
                        },
                    ),
                    slot,
                ),
                Err(error) => (Step::Done(Err(error)), slot),
            }
        },
        (CheckpointView::Inputs { closure, packing }, Event::Vector(vector_event)) => {
            match packing_next::<E>(packing, vector_event) {
                Step::Perform(request, rest) => (
                    Step::Perform(
                        Request::Vector(request),
                        CheckpointView::Inputs { closure, packing: rest },
                    ),
                    slot,
                ),
                Step::Done(Ok(inputs)) => (
                    Step::Perform(Request::Apply(closure, inputs), CheckpointView::Running),
                    slot,
                ),
                Step::Done(Err(error)) => (Step::Done(Err(error)), slot),
            }
        },
        (CheckpointView::Running, Event::Applied(reply)) => match reply.outcome() {
            Ok(outputs) => (
                Step::Perform(
                    Request::Vector(VectorRequest::Size(outputs)),
                    CheckpointView::Outputs { unpacking: UnpackingView::Counting },
                ),
                slot,
            ),
            Err(error) => (Step::Done(Err(reported(slot, error))), None),
        },
        (CheckpointView::Outputs { unpacking }, Event::Vector(vector_event)) => {
            match unpacking_next::<E>(unpacking, vector_event) {
                Step::Perform(request, rest) => (
                    Step::Perform(
                        Request::Vector(request),
                        CheckpointView::Outputs { unpacking: rest },
                    ),
                    slot,
                ),
                Step::Done(Ok(outputs)) => (Step::Done(Ok(outputs)), slot),
                Step::Done(Err(error)) => (Step::Done(Err(error)), slot),
            }
        },
        _ => arbitrary(),
    }
}

/// Gradient (activation) checkpointing.
///
/// Gives the closure that the engine is to make of `f`. The [`Checkpoint`] of what it made is a
/// function equivalent to `f` in the forward pass, but whose **backward** pass recomputes `f` from
/// its inputs instead of retaining `f`'s intermediate activations on the autograd tape. Apply it
/// per segment inside a function being differentiated to bound the reverse-mode working set to a
/// single segment's activations, at the cost of one recomputation of `f` during the backward pass.
///
/// Gradients flow to the arrays passed as **inputs** to the checkpointed function. Pass every
/// array you need a gradient for as an input; arrays merely *captured* by `f` are baked into its
/// graph as constants and receive no gradient.
pub fn checkpoint<A, F: FnMut(&[A]) -> Result<Vec<A>, Exception>>(f: F) -> (closure:
    FallibleClosure<F>)
    ensures
        closure == (FallibleClosure { f }),
{
    FallibleClosure::new_fallible(f)
}

impl<E: Engine> Checkpoint<E> {
    pub fn new(inner: E::Closure) -> (checkpoint: Checkpoint<E>)
        ensures
            checkpoint.inner == inner,
    {
        Checkpoint { inner }
    }

    /// Calls the checkpointed function on the inputs.
    ///
    /// Each call wraps the closure anew. That is cheap, since the wrapper only refers to it.
    pub fn call<'a>(&'a self, inputs: &'a [E::Array]) -> (step: CheckpointStep<'a, E>)
        ensures
            step@ == checkpoint_start::<E>(self.inner, inputs@),
    {
        let stage = Stage::Wrapping { inputs: references(inputs) };
        Step::Perform(Request::Checkpoint(&self.inner), CheckpointSession { stage })
    }
}

impl<'a, E: Engine> CheckpointSession<'a, E> {
    /// Whether the session takes the event.
    pub fn accepts(&self, event: &Event<E>) -> (accepts: bool)
        ensures
            accepts == checkpoint_accepts(self@, *event),
    {
        match (&self.stage, event) {
            (Stage::Wrapping { .. }, Event::Checkpointed(reply)) => reply.is_wf(),
            (Stage::Inputs { packing, .. }, Event::Vector(vector_event)) => {
                packing.accepts(vector_event)
            },
            (Stage::Running, Event::Applied(reply)) => reply.is_wf(),
            (Stage::Outputs { unpacking }, Event::Vector(vector_event)) => {
                unpacking.accepts(vector_event)
            },
            _ => false,
        }
    }

    /// Takes the answer to the pending request.
    pub fn resume(self, event: Event<E>, slot: &mut ClosureError) -> (step: CheckpointStep<'a, E>)
        requires
            checkpoint_accepts(self@, event),
        ensures
            (step@, final(slot)@) == checkpoint_next::<E>(self@, event, old(slot)@),
    {
        match (self.stage, event) {
            (Stage::Wrapping { inputs }, Event::Checkpointed(reply)) => match try_from_op(reply) {
                Ok(closure) => {
                    let (request, packing) = try_from_iter::<E>(inputs);
                    let stage = Stage::Inputs { closure, packing };
                    Step::Perform(Request::Vector(request), CheckpointSession { stage })
                },
                Err(error) => Step::Done(Err(error)),
            },
            (Stage::Inputs { closure, packing }, Event::Vector(vector_event)) => {
                match packing.resume(vector_event) {
                    Step::Perform(request, packing) => Step::Perform(
                        Request::Vector(request),
                        CheckpointSession { stage: Stage::Inputs { closure, packing } },
                    ),
                    Step::Done(Ok(inputs)) => Step::Perform(
                        Request::Apply(closure, inputs),
                        CheckpointSession { stage: Stage::Running },
                    ),
                    Step::Done(Err(error)) => Step::Done(Err(error)),
                }
            },
            (Stage::Running, Event::Applied(reply)) => match try_from_op(reply) {
                Ok(outputs) => {
                    let (request, unpacking) = try_into_values::<E>(outputs);
                    let stage = Stage::Outputs { unpacking };
                    Step::Perform(Request::Vector(request), CheckpointSession { stage })
                },
                Err(error) => Step::Done(Err(report(slot, error))),
            },
            (Stage::Outputs { unpacking }, Event::Vector(vector_event)) => {
                match unpacking.resume(vector_event) {
                    Step::Perform(request, unpacking) => Step::Perform(
                        Request::Vector(request),
                        CheckpointSession { stage: Stage::Outputs { unpacking } },
                    ),
                    Step::Done(result) => Step::Done(result),
                }
            },
            _ => unreached(),
        }
    }
}

} // verus!
