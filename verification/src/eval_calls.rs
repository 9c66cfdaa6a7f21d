//! Laws of evaluations: which engine calls they make, one by one.

use vstd::prelude::*;

use crate::engine::{Engine, Request};
use crate::eval::{eval_start, EvalStepView, EvalView};
use crate::eval_laws::{eval_proceed, eval_run, law_eval_takes_just_the_answers};
use crate::history::{answered, lemma_answered_before, lemma_answered_prefix, Taken};
use crate::step::Step;
use crate::vector_laws::{
    all_succeeded, given_back, lemma_packing_state, packing_call, packing_state, vector_events,
};

verus! {

/// The `k`-th call of an evaluation of the outputs: they are packed, and then evaluated.
pub open spec fn eval_call<'a, E: Engine>(
    asynchronous: bool,
    outputs: Seq<E::Array>,
    history: Seq<Taken<E>>,
    k: int,
) -> Request<'a, E> {
    let events = vector_events(history, 0);
    let packed = given_back(events[outputs.len() as int]);
    if k <= outputs.len() {
        Request::Vector(packing_call(events, outputs, k))
    } else if asynchronous {
        Request::AsyncEval(packed)
    } else {
        Request::Eval(packed)
    }
}

spec fn eval_state<'a, E: Engine>(
    asynchronous: bool,
    outputs: Seq<E::Array>,
    history: Seq<Taken<E>>,
    k: int,
) -> EvalStepView<'a, E> {
    if k <= outputs.len() {
        match packing_state::<E>(vector_events(history, 0), outputs, k) {
            Step::Perform(_, packing) => Step::Perform(
                eval_call(asynchronous, outputs, history, k),
                EvalView::Outputs { asynchronous, packing },
            ),
            Step::Done(_) => arbitrary(),
        }
    } else if k == outputs.len() + 1 {
        Step::Perform(eval_call(asynchronous, outputs, history, k), EvalView::Running)
    } else {
        Step::Done(Ok(()))
    }
}

proof fn lemma_eval_state<E: Engine>(
    asynchronous: bool,
    outputs: Seq<E::Array>,
    history: Seq<Taken<E>>,
    k: int,
)
    requires
        answered(eval_proceed(), eval_start(asynchronous, outputs), history),
        all_succeeded(history),
        0 <= k <= history.len(),
    ensures
        k <= outputs.len() + 2,
        eval_run::<E>(asynchronous, outputs, history.take(k)) == eval_state::<E>(
            asynchronous,
            outputs,
            history,
            k,
        ),
    decreases k,
{
    if k > 0 {
        let i = k - 1;
        let events = vector_events(history, 0);
        lemma_eval_state(asynchronous, outputs, history, i);
        lemma_answered_prefix(eval_proceed(), eval_start(asynchronous, outputs), history, k);
        lemma_answered_before(
            eval_proceed(),
            eval_start(asynchronous, outputs),
            history.take(k),
        );
        assert(history.take(k).drop_last() =~= history.take(i));
        assert(history.take(k).last() == history[i]);
        assert(history[i].0.succeeded());
        if i <= outputs.len() {
            assert(events[i] == history[i].0->Vector_0);
            lemma_packing_state::<E>(events, outputs, i);
        }
    }
}

/// An evaluation in which no call fails makes a vector, appends each output to it once and in
/// order, has the engine evaluate that vector, and ends well. It makes no other call.
pub proof fn law_eval_makes_its_calls_in_turn<E: Engine>(
    asynchronous: bool,
    outputs: Seq<E::Array>,
    history: Seq<Taken<E>>,
)
    requires
        answered(eval_proceed(), eval_start(asynchronous, outputs), history),
        all_succeeded(history),
    ensures
        match eval_run::<E>(asynchronous, outputs, history) {
            Step::Perform(request, _) => {
                &&& history.len() < outputs.len() + 2
                &&& request == eval_call::<E>(
                    asynchronous,
                    outputs,
                    history,
                    history.len() as int,
                )
            },
            Step::Done(result) => history.len() == outputs.len() + 2 && result is Ok,
        },
{
    let n = history.len() as int;
    lemma_eval_state(asynchronous, outputs, history, n);
    assert(history.take(n) =~= history);
}

/// An evaluation ends at once where an engine call fails, with the error of that call.
pub proof fn law_eval_ends_with_the_error_of_a_call<E: Engine>(
    asynchronous: bool,
    outputs: Seq<E::Array>,
    history: Seq<Taken<E>>,
)
    requires
        answered(eval_proceed(), eval_start(asynchronous, outputs), history),
        history.len() > 0,
        !history.last().0.succeeded(),
    ensures
        eval_run::<E>(asynchronous, outputs, history) == Step::<
            Request<'_, E>,
            EvalView<E>,
            (),
        >::Done(Err(history.last().0.error())),
{
    lemma_answered_before(eval_proceed(), eval_start(asynchronous, outputs), history);
    law_eval_takes_just_the_answers(asynchronous, outputs, history.drop_last());
}

} // verus!
