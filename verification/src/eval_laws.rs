//! Laws of evaluations.

use vstd::prelude::*;

use crate::engine::{answers, faithful, Engine, Event, Request};
use crate::eval::{eval_accepts, eval_next, eval_start, EvalStepView, EvalView};
use crate::history::{
    answered, lemma_answered_before, lemma_answered_prefix, lemma_packing_step,
    lemma_truthful_before, less_left, packing_holds, truthful, Taken,
};
use crate::params::{
    distinct_keys, flattened, law_flatten_keeps_every_parameter,
    law_well_named_parameters_have_their_own_paths, leaves, values_of, well_named, NestedView,
};
use crate::params_laws::{law_flatten_finds_what_names_lead_to, leads, parameters};
use crate::step::{run, Step};

verus! {

/// How an evaluation proceeds. It does not look at the slot.
pub open spec fn eval_proceed<'a, E: Engine>() -> spec_fn(EvalView<E>, Taken<E>) -> EvalStepView<
    'a,
    E,
> {
    |session: EvalView<E>, taken: Taken<E>| eval_next::<'a, E>(session, taken.0)
}

/// The step that an evaluation has reached after the history.
pub open spec fn eval_run<'a, E: Engine>(
    asynchronous: bool,
    outputs: Seq<E::Array>,
    history: Seq<Taken<E>>,
) -> EvalStepView<'a, E> {
    run(eval_proceed(), eval_start(asynchronous, outputs), history)
}

/// The last event of the history is the success of the engine's call on the outputs.
pub open spec fn evaluated<E: Engine>(
    contents: spec_fn(E::VectorArray) -> Seq<E::Array>,
    asynchronous: bool,
    outputs: Seq<E::Array>,
    history: Seq<Taken<E>>,
) -> bool {
    &&& history.len() > 0
    &&& eval_run::<E>(asynchronous, outputs, history.drop_last()) matches Step::Perform(request, _)
    &&& eval_asked(contents, asynchronous, outputs, request)
    &&& history.last().0 matches Event::Evaluated(reply)
    &&& reply.succeeded()
}

/// The request asks the engine to evaluate just the outputs, in their order.
pub open spec fn eval_asked<E: Engine>(
    contents: spec_fn(E::VectorArray) -> Seq<E::Array>,
    asynchronous: bool,
    outputs: Seq<E::Array>,
    request: Request<'_, E>,
) -> bool {
    match request {
        Request::Eval(packed) => !asynchronous && contents(packed) == outputs,
        Request::AsyncEval(packed) => asynchronous && contents(packed) == outputs,
        _ => false,
    }
}

#[verifier::opaque]
spec fn eval_holds<E: Engine>(
    contents: spec_fn(E::VectorArray) -> Seq<E::Array>,
    asynchronous: bool,
    outputs: Seq<E::Array>,
    step: EvalStepView<'_, E>,
) -> bool {
    match step {
        Step::Perform(request, EvalView::Outputs { asynchronous: a, packing }) => {
            &&& a == asynchronous
            &&& packing_holds(contents, request, packing, outputs)
        },
        Step::Perform(request, EvalView::Running) => eval_asked(
            contents,
            asynchronous,
            outputs,
            request,
        ),
        Step::Done(_) => true,
    }
}

proof fn lemma_eval_step<E: Engine>(
    contents: spec_fn(E::VectorArray) -> Seq<E::Array>,
    asynchronous: bool,
    outputs: Seq<E::Array>,
    request: Request<'_, E>,
    session: EvalView<E>,
    event: Event<E>,
)
    requires
        eval_holds(contents, asynchronous, outputs, Step::Perform(request, session)),
        faithful(contents, request, event),
    ensures
        eval_holds(contents, asynchronous, outputs, eval_next::<E>(session, event)),
        eval_next::<E>(session, event) matches Step::Done(Ok(_)) ==> {
            &&& eval_asked(contents, asynchronous, outputs, request)
            &&& event matches Event::Evaluated(reply) && reply.succeeded()
        },
{
    reveal(eval_holds);
    match (session, request, event) {
        (EvalView::Outputs { packing, .. }, Request::Vector(r), Event::Vector(event)) => {
            lemma_packing_step(contents, r, packing, outputs, event);
        },
        _ => {},
    }
}

proof fn lemma_eval_run<E: Engine>(
    contents: spec_fn(E::VectorArray) -> Seq<E::Array>,
    asynchronous: bool,
    outputs: Seq<E::Array>,
    history: Seq<Taken<E>>,
)
    requires
        truthful(contents, eval_proceed(), eval_start(asynchronous, outputs), history),
    ensures
        eval_holds(contents, asynchronous, outputs, eval_run(asynchronous, outputs, history)),
        eval_run::<E>(asynchronous, outputs, history) matches Step::Done(Ok(_)) ==> evaluated(
            contents,
            asynchronous,
            outputs,
            history,
        ),
    decreases history.len(),
{
    let start = eval_start::<E>(asynchronous, outputs);
    if history.len() > 0 {
        let before = history.drop_last();
        lemma_truthful_before(contents, eval_proceed(), start, history);
        lemma_eval_run(contents, asynchronous, outputs, before);
        match eval_run::<E>(asynchronous, outputs, before) {
            Step::Perform(request, session) => {
                lemma_eval_step(
                    contents,
                    asynchronous,
                    outputs,
                    request,
                    session,
                    history.last().0,
                );
            },
            Step::Done(_) => {},
        }
    } else {
        reveal(eval_holds);
    }
}

/// An evaluation that ends well has had the engine evaluate just the outputs, in their order.
pub proof fn law_eval_evaluates_the_outputs<E: Engine>(
    contents: spec_fn(E::VectorArray) -> Seq<E::Array>,
    asynchronous: bool,
    outputs: Seq<E::Array>,
    history: Seq<Taken<E>>,
)
    requires
        truthful(contents, eval_proceed(), eval_start(asynchronous, outputs), history),
        eval_run::<E>(asynchronous, outputs, history) matches Step::Done(result) && result is Ok,
    ensures
        evaluated(contents, asynchronous, outputs, history),
{
    lemma_eval_run(contents, asynchronous, outputs, history);
}

/// What an evaluation asks of the engine, other than for a vector, is to evaluate just its
/// outputs, in their order.
pub proof fn law_eval_asks_for_the_outputs<E: Engine>(
    contents: spec_fn(E::VectorArray) -> Seq<E::Array>,
    asynchronous: bool,
    outputs: Seq<E::Array>,
    history: Seq<Taken<E>>,
)
    requires
        truthful(contents, eval_proceed(), eval_start(asynchronous, outputs), history),
    ensures
        eval_run::<E>(asynchronous, outputs, history) matches Step::Perform(request, _) ==> request
            is Vector || eval_asked(contents, asynchronous, outputs, request),
{
    lemma_eval_run(contents, asynchronous, outputs, history);
    reveal(eval_holds);
}

/// An evaluation of a module's parameters that ends well has had the engine evaluate all of them,
/// each once, where no two parameters have one path.
pub proof fn law_eval_params_evaluates_every_parameter<E: Engine>(
    contents: spec_fn(E::VectorArray) -> Seq<E::Array>,
    asynchronous: bool,
    params: Seq<(Seq<char>, NestedView<E::Array>)>,
    history: Seq<Taken<E>>,
)
    requires
        distinct_keys(leaves(params, Seq::empty())),
        truthful(
            contents,
            eval_proceed(),
            eval_start(asynchronous, values_of(flattened(params))),
            history,
        ),
        eval_run::<E>(asynchronous, values_of(flattened(params)), history) matches Step::Done(
            result,
        ) && result is Ok,
    ensures
        evaluated(contents, asynchronous, values_of(leaves(params, Seq::empty())), history),
{
    law_flatten_keeps_every_parameter(params);
    law_eval_evaluates_the_outputs(
        contents,
        asynchronous,
        values_of(flattened(params)),
        history,
    );
}

/// The same where no two siblings have one name and no name holds the delimiter.
pub proof fn law_eval_params_evaluates_every_well_named_parameter<E: Engine>(
    contents: spec_fn(E::VectorArray) -> Seq<E::Array>,
    asynchronous: bool,
    params: Seq<(Seq<char>, NestedView<E::Array>)>,
    history: Seq<Taken<E>>,
)
    requires
        well_named(params),
        truthful(
            contents,
            eval_proceed(),
            eval_start(asynchronous, values_of(flattened(params))),
            history,
        ),
        eval_run::<E>(asynchronous, values_of(flattened(params)), history) matches Step::Done(
            result,
        ) && result is Ok,
    ensures
        evaluated(contents, asynchronous, values_of(leaves(params, Seq::empty())), history),
{
    law_well_named_parameters_have_their_own_paths(params);
    law_eval_params_evaluates_every_parameter(contents, asynchronous, params, history);
}

/// An evaluation of a module's parameters that ends well has, with its last call, had the engine
/// evaluate every parameter that names lead to, however deep in its submodules, and as many arrays
/// as the module has parameters, where no two siblings have one name and no name holds the
/// delimiter.
pub proof fn law_eval_params_evaluates_what_names_lead_to<E: Engine>(
    contents: spec_fn(E::VectorArray) -> Seq<E::Array>,
    asynchronous: bool,
    params: Seq<(Seq<char>, NestedView<E::Array>)>,
    history: Seq<Taken<E>>,
    names: Seq<Seq<char>>,
    array: E::Array,
)
    requires
        well_named(params),
        leads(params, names, array),
        truthful(
            contents,
            eval_proceed(),
            eval_start(asynchronous, values_of(flattened(params))),
            history,
        ),
        eval_run::<E>(asynchronous, values_of(flattened(params)), history) matches Step::Done(
            result,
        ) && result is Ok,
    ensures
        history.len() > 0,
        match eval_run::<E>(asynchronous, values_of(flattened(params)), history.drop_last()) {
            Step::Perform(Request::Eval(packed), _) => {
                &&& !asynchronous
                &&& contents(packed).contains(array)
                &&& contents(packed).len() == parameters(params)
            },
            Step::Perform(Request::AsyncEval(packed), _) => {
                &&& asynchronous
                &&& contents(packed).contains(array)
                &&& contents(packed).len() == parameters(params)
            },
            _ => false,
        },
        history.last().0 matches Event::Evaluated(reply) && reply.status == 0,
{
    law_flatten_finds_what_names_lead_to(params, names, array);
    law_eval_evaluates_the_outputs(
        contents,
        asynchronous,
        values_of(flattened(params)),
        history,
    );
}

/// The request asks the engine to evaluate, not for a vector.
pub open spec fn is_eval_work<E: Engine>(request: Request<'_, E>) -> bool {
    request is Eval || request is AsyncEval
}

/// In one run the engine is asked to evaluate at most once, and as its last call: whatever it
/// answers, the run is over.
pub proof fn law_eval_asks_the_engine_once_and_last<E: Engine>(
    asynchronous: bool,
    outputs: Seq<E::Array>,
    history: Seq<Taken<E>>,
    i: int,
)
    requires
        answered(eval_proceed(), eval_start(asynchronous, outputs), history),
        0 <= i < history.len(),
        eval_run::<E>(asynchronous, outputs, history.take(i)) matches Step::Perform(request, _)
            && is_eval_work(request),
    ensures
        i == history.len() - 1,
        eval_run::<E>(asynchronous, outputs, history) is Done,
{
    let start = eval_start::<E>(asynchronous, outputs);
    lemma_answered_prefix(eval_proceed(), start, history, i);
    lemma_answered_prefix(eval_proceed(), start, history, i + 1);
    assert(history.take(i + 1).drop_last() =~= history.take(i));
    lemma_answered_before(eval_proceed(), start, history.take(i + 1));
    lemma_eval_works_while_running(asynchronous, outputs, history.take(i));
    law_eval_takes_just_the_answers(asynchronous, outputs, history.take(i));
    assert(eval_run::<E>(asynchronous, outputs, history.take(i + 1)) is Done);
    assert(history.take(history.len() as int) =~= history);
}

proof fn lemma_eval_works_while_running<E: Engine>(
    asynchronous: bool,
    outputs: Seq<E::Array>,
    history: Seq<Taken<E>>,
)
    requires
        answered(eval_proceed(), eval_start(asynchronous, outputs), history),
    ensures
        eval_run::<E>(asynchronous, outputs, history) matches Step::Perform(request, session)
            ==> is_eval_work(request) == (session is Running),
    decreases history.len(),
{
    if history.len() > 0 {
        lemma_answered_before(eval_proceed(), eval_start(asynchronous, outputs), history);
        law_eval_takes_just_the_answers(asynchronous, outputs, history.drop_last());
        lemma_eval_works_while_running(asynchronous, outputs, history.drop_last());
    }
}

/// An evaluation fails just where an engine call fails, then at once, and with its error.
pub proof fn law_eval_fails_where_a_call_fails<'a, E: Engine>(
    session: EvalView<E>,
    event: Event<E>,
)
    requires
        eval_accepts(session, event),
    ensures
        event.succeeded() ==> !(eval_next::<'a, E>(session, event) matches Step::Done(Err(_))),
        !event.succeeded() ==> eval_next::<'a, E>(session, event) == Step::<
            Request<'a, E>,
            EvalView<E>,
            (),
        >::Done(Err(event.error())),
{
}

/// The session takes the answers to the request, and nothing else.
pub open spec fn eval_takes_just_answers<E: Engine>(
    request: Request<'_, E>,
    session: EvalView<E>,
) -> bool {
    forall|event: Event<E>|
        #![trigger answers(request, event)]
        #![trigger eval_accepts(session, event)]
        eval_accepts(session, event) == (answers(request, event) && event.wf())
}

/// An evaluation is never stuck: as long as each request has been answered, it takes whatever
/// answers the next, and nothing else.
pub proof fn law_eval_takes_just_the_answers<E: Engine>(
    asynchronous: bool,
    outputs: Seq<E::Array>,
    history: Seq<Taken<E>>,
)
    requires
        answered(eval_proceed(), eval_start(asynchronous, outputs), history),
    ensures
        eval_run::<E>(asynchronous, outputs, history) matches Step::Perform(request, session)
            ==> eval_takes_just_answers(request, session),
    decreases history.len(),
{
    if history.len() > 0 {
        lemma_answered_before(eval_proceed(), eval_start(asynchronous, outputs), history);
        law_eval_takes_just_the_answers(asynchronous, outputs, history.drop_last());
    }
}

/// An evaluation fails only by its last engine call, and reports its error.
pub proof fn law_eval_run_fails_only_by_its_last_call<E: Engine>(
    asynchronous: bool,
    outputs: Seq<E::Array>,
    history: Seq<Taken<E>>,
)
    requires
        answered(eval_proceed(), eval_start(asynchronous, outputs), history),
    ensures
        eval_run::<E>(asynchronous, outputs, history) matches Step::Done(Err(error)) ==> {
            &&& history.len() > 0
            &&& !history.last().0.succeeded()
            &&& error == history.last().0.error()
        },
{
    if history.len() > 0 {
        lemma_answered_before(eval_proceed(), eval_start(asynchronous, outputs), history);
        law_eval_takes_just_the_answers(asynchronous, outputs, history.drop_last());
        match eval_run::<E>(asynchronous, outputs, history.drop_last()) {
            Step::Perform(_, session) => {
                law_eval_fails_where_a_call_fails(session, history.last().0);
            },
            Step::Done(_) => {},
        }
    }
}

/// What an evaluation has left to do: stages, and engine calls in this stage.
pub open spec fn eval_left<E: Engine>(session: EvalView<E>) -> (nat, nat) {
    match session {
        EvalView::Outputs { packing, .. } => (2, packing.pending().len()),
        EvalView::Running => (1, 0),
    }
}

/// An evaluation comes to an end: with each event that it takes, less is left to do.
pub proof fn law_eval_comes_to_an_end<'a, E: Engine>(session: EvalView<E>, event: Event<E>)
    requires
        eval_accepts(session, event),
    ensures
        eval_next::<'a, E>(session, event) matches Step::Perform(_, rest) ==> less_left(
            eval_left(rest),
            eval_left(session),
        ),
{
}

} // verus!
