//! Evaluation of arrays, and of the parameters of a module.

use vstd::pervasive::unreached;
use vstd::prelude::*;

use crate::engine::{Engine, Event, Request, VectorRequest};
use crate::guard::try_from_op;
use crate::params::{flattened, values, values_of, ModuleParamRef};
use crate::step::Step;
use crate::vector::{packing_accepts, packing_next, try_from_iter, Packing, PackingView};

verus! {

enum Stage<'a, E: Engine> {
    Outputs { asynchronous: bool, packing: Packing<'a, E> },
    Running,
}

/// A session that evaluates arrays.
pub struct EvalSession<'a, E: Engine> {
    stage: Stage<'a, E>,
}

/// The view of an [`EvalSession`]: what is left to do.
pub enum EvalView<E: Engine> {
    /// The arrays are being packed.
    Outputs { asynchronous: bool, packing: PackingView<E::Array> },
    /// The engine is at work.
    Running,
}

/// A step of an [`EvalSession`].
pub type EvalStep<'a, E: Engine> = Step<Request<'a, E>, EvalSession<'a, E>, ()>;

/// The view of an [`EvalStep`].
pub type EvalStepView<'a, E: Engine> = Step<Request<'a, E>, EvalView<E>, ()>;

impl<'a, E: Engine> View for EvalSession<'a, E> {
    type V = EvalView<E>;

    closed spec fn view(&self) -> EvalView<E> {
        match self.stage {
            Stage::Outputs { asynchronous, packing } => EvalView::Outputs {
                asynchronous,
                packing: packing@,
            },
            Stage::Running => EvalView::Running,
        }
    }
}

/// The events that a session takes.
pub open spec fn eval_accepts<E: Engine>(session: EvalView<E>, event: Event<E>) -> bool {
    match session {
        EvalView::Outputs { packing, .. } => event matches Event::Vector(vector_event)
            && packing_accepts(packing, vector_event),
        EvalView::Running => event is Evaluated && event.wf(),
    }
}

/// The engine call that evaluates the vector.
pub open spec fn eval_request<'a, E: Engine>(
    asynchronous: bool,
    outputs: E::VectorArray,
) -> Request<'a, E> {
    if asynchronous {
        Request::AsyncEval(outputs)
    } else {
        Request::Eval(outputs)
    }
}

/// The first step of an evaluation.
pub open spec fn eval_start<'a, E: Engine>(
    asynchronous: bool,
    outputs: Seq<E::Array>,
) -> EvalStepView<'a, E> {
    Step::Perform(
        Request::Vector(VectorRequest::New),
        EvalView::Outputs { asynchronous, packing: PackingView::Creating { pending: outputs } },
    )
}

/// The next step of a session.
pub open spec fn eval_next<'a, E: Engine>(session: EvalView<E>, event: Event<E>) -> EvalStepView<
    'a,
    E,
> {
    match (session, event) {
        (EvalView::Outputs { asynchronous, packing }, Event::Vector(vector_event)) => {
            match packing_next::<E>(packing, vector_event) {
                Step::Perform(request, rest) => Step::Perform(
                    Request::Vector(request),
                    EvalView::Outputs { asynchronous, packing: rest },
                ),
                Step::Done(Ok(outputs)) => Step::Perform(
                    eval_request(asynchronous, outputs),
                    EvalView::Running,
                ),
                Step::Done(Err(error)) => Step::Done(Err(error)),
            }
        },
        (EvalView::Running, Event::Evaluated(reply)) => Step::Done(reply.outcome()),
        _ => arbitrary(),
    }
}

/// Evaluates arrays.
pub fn eval<'a, E: Engine>(outputs: Vec<&'a E::Array>) -> (step: EvalStep<'a, E>)
    ensures
        step@ == eval_start::<E>(false, outputs@.unref()),
{
    EvalSession::start(false, outputs)
}

/// Asynchronously evaluates arrays: the session ends once the engine has taken up the work.
pub fn async_eval<'a, E: Engine>(outputs: Vec<&'a E::Array>) -> (step: EvalStep<'a, E>)
    ensures
        step@ == eval_start::<E>(true, outputs@.unref()),
{
    EvalSession::start(true, outputs)
}

/// Evaluates a module's parameters.
///
/// This is a convenience function that flattens the parameters and evaluates them.
pub fn eval_params<'a, E: Engine>(params: ModuleParamRef<'a, E::Array>) -> (step: EvalStep<'a, E>)
    ensures
        step@ == eval_start::<E>(false, values_of(flattened(params@))),
{
    eval(values(&params.flatten()))
}

/// Asynchronously evaluates a module's parameters.
///
/// This is a convenience function that flattens the parameters and evaluates them.
pub fn async_eval_params<'a, E: Engine>(params: ModuleParamRef<'a, E::Array>) -> (step: EvalStep<
    'a,
    E,
>)
    ensures
        step@ == eval_start::<E>(true, values_of(flattened(params@))),
{
    async_eval(values(&params.flatten()))
}

impl<'a, E: Engine> EvalSession<'a, E> {
    fn start(asynchronous: bool, outputs: Vec<&'a E::Array>) -> (step: EvalStep<'a, E>)
        ensures
            step@ == eval_start::<E>(asynchronous, outputs@.unref()),
    {
        let (request, packing) = try_from_iter::<E>(outputs);
        let stage = Stage::Outputs { asynchronous, packing };
        Step::Perform(Request::Vector(request), EvalSession { stage })
    }

    /// Whether the session takes the event.
    pub fn accepts(&self, event: &Event<E>) -> (accepts: bool)
        ensures
            accepts == eval_accepts(self@, *event),
    {
        match (&self.stage, event) {
            (Stage::Outputs { packing, .. }, Event::Vector(vector_event)) => {
                packing.accepts(vector_event)
            },
            (Stage::Running, Event::Evaluated(reply)) => reply.is_wf(),
            _ => false,
        }
    }

    /// Takes the answer to the pending request.
    pub fn resume(self, event: Event<E>) -> (step: EvalStep<'a, E>)
        requires
            eval_accepts(self@, event),
        ensures
            step@ == eval_next::<E>(self@, event),
    {
        match (self.stage, event) {
            (Stage::Outputs { asynchronous, packing }, Event::Vector(vector_event)) => {
                match packing.resume(vector_event) {
                    Step::Perform(request, packing) => Step::Perform(
                        Request::Vector(request),
                        EvalSession { stage: Stage::Outputs { asynchronous, packing } },
                    ),
                    Step::Done(Ok(outputs)) => {
                        let request = if asynchronous {
                            Request::AsyncEval(outputs)
                        } else {
                            Request::Eval(outputs)
                        };
                        Step::Perform(request, EvalSession { stage: Stage::Running })
                    },
                    Step::Done(Err(error)) => Step::Done(Err(error)),
                }
            },
            (Stage::Running, Event::Evaluated(reply)) => Step::Done(try_from_op(reply)),
            _ => unreached(),
        }
    }
}

} // verus!
