//! Laws of calls of checkpointed functions: which engine calls they make, one by one.

use vstd::prelude::*;

use crate::checkpoint::{checkpoint_start, CheckpointStepView, CheckpointView};
use crate::checkpoint_laws::{
    checkpoint_given, checkpoint_proceed, checkpoint_run, checkpoint_slot,
    law_checkpoint_fails_where_a_call_fails, law_checkpoint_gives_what_the_closure_computed,
    law_checkpoint_takes_just_the_answers,
};
use crate::engine::{Engine, Event, Request};
use crate::error::Exception;
use crate::history::{
    answered, lemma_answered_before, lemma_answered_prefix, lemma_truthful_is_answered, truthful,
    Taken,
};
use crate::step::Step;
use crate::vector_laws::{
    all_succeeded, arrays_read, counted, given_back, lemma_packing_state, lemma_unpacking_state,
    packing_call, packing_state, reading_call, unpacking_state, vector_events,
};

verus! {

/// The `k`-th call that a call of a checkpointed function makes: the closure is wrapped, the
/// inputs are packed, what was wrapped is applied to what was packed, and the vector that came
/// back is read.
pub open spec fn checkpoint_call<'a, E: Engine>(
    inner: E::Closure,
    inputs: Seq<E::Array>,
    history: Seq<Taken<E>>,
    k: int,
) -> Request<'a, E> {
    let n = inputs.len() as int;
    let packing = vector_events(history, 1);
    let reading = vector_events(history, n + 3);
    if k == 0 {
        Request::Checkpoint(&inner)
    } else if k <= n + 1 {
        Request::Vector(packing_call(packing, inputs, k - 1))
    } else if k == n + 2 {
        Request::Apply(history[0].0->Checkpointed_0.value, given_back(packing[n]))
    } else {
        Request::Vector(reading_call(reading, history[n + 2].0->Applied_0.value, k - n - 3))
    }
}

/// The number of arrays that a call of a checkpointed function has counted in the vector that came
/// back.
pub open spec fn checkpoint_size<E: Engine>(
    inputs: Seq<E::Array>,
    history: Seq<Taken<E>>,
) -> nat {
    counted(vector_events(history, inputs.len() as int + 3)[0])
}

spec fn checkpoint_state<'a, E: Engine>(
    inner: E::Closure,
    inputs: Seq<E::Array>,
    history: Seq<Taken<E>>,
    k: int,
) -> CheckpointStepView<'a, E> {
    let n = inputs.len() as int;
    let request = checkpoint_call(inner, inputs, history, k);
    if k == 0 {
        Step::Perform(request, CheckpointView::Wrapping { inputs })
    } else if k <= n + 1 {
        match packing_state::<E>(vector_events(history, 1), inputs, k - 1) {
            Step::Perform(_, packing) => Step::Perform(
                request,
                CheckpointView::Inputs { closure: history[0].0->Checkpointed_0.value, packing },
            ),
            Step::Done(_) => arbitrary(),
        }
    } else if k == n + 2 {
        Step::Perform(request, CheckpointView::Running)
    } else {
        let events = vector_events(history, n + 3);
        match unpacking_state::<E>(events, history[n + 2].0->Applied_0.value, k - n - 3) {
            Step::Perform(_, unpacking) => Step::Perform(
                request,
                CheckpointView::Outputs { unpacking },
            ),
            Step::Done(result) => Step::Done(result),
        }
    }
}

proof fn lemma_checkpoint_state<E: Engine>(
    inner: E::Closure,
    inputs: Seq<E::Array>,
    history: Seq<Taken<E>>,
    k: int,
)
    requires
        answered(checkpoint_proceed(), checkpoint_start(inner, inputs), history),
        all_succeeded(history),
        0 <= k <= history.len(),
    ensures
        k <= inputs.len() + 4 + checkpoint_size(inputs, history),
        k > inputs.len() + 3 ==> (history[inputs.len() as int + 3].0 matches Event::Vector(event)
            && event is Counted),
        k > inputs.len() + 2 ==> history[inputs.len() as int + 2].0 is Applied,
        checkpoint_run::<E>(inner, inputs, history.take(k)) == checkpoint_state::<E>(
            inner,
            inputs,
            history,
            k,
        ),
    decreases k,
{
    if k > 0 {
        let n = inputs.len() as int;
        let i = k - 1;
        let start = checkpoint_start::<E>(inner, inputs);
        lemma_checkpoint_state(inner, inputs, history, i);
        lemma_answered_prefix(checkpoint_proceed(), start, history, k);
        lemma_answered_before(checkpoint_proceed(), start, history.take(k));
        assert(history.take(k).drop_last() =~= history.take(i));
        assert(history.take(k).last() == history[i]);
        assert(history[i].0.succeeded());
        if 0 < i <= n + 1 {
            let events = vector_events(history, 1);
            assert(events[i - 1] == history[i].0->Vector_0);
            lemma_packing_state::<E>(events, inputs, i - 1);
        } else if i > n + 2 {
            let events = vector_events(history, n + 3);
            assert(events[i - n - 3] == history[i].0->Vector_0);
            assert(events[0] == history[n + 3].0->Vector_0);
            lemma_unpacking_state::<E>(events, history[n + 2].0->Applied_0.value, i - n - 3);
        }
    }
}

/// A call of a checkpointed function in which no engine call fails wraps the closure, packs each
/// input once and in order, applies what was wrapped to what was packed, reads the vector that
/// came back at each index once and in order, and ends with what it read. It makes no other call.
pub proof fn law_checkpoint_makes_its_calls_in_turn<E: Engine>(
    inner: E::Closure,
    inputs: Seq<E::Array>,
    history: Seq<Taken<E>>,
)
    requires
        answered(checkpoint_proceed(), checkpoint_start(inner, inputs), history),
        all_succeeded(history),
    ensures
        match checkpoint_run::<E>(inner, inputs, history) {
            Step::Perform(request, _) => {
                &&& history.len() < inputs.len() + 4 + checkpoint_size(inputs, history)
                &&& request == checkpoint_call::<E>(inner, inputs, history, history.len() as int)
            },
            Step::Done(Ok(outputs)) => {
                &&& history.len() == inputs.len() + 4 + checkpoint_size(inputs, history)
                &&& outputs == arrays_read(
                    vector_events(history, inputs.len() as int + 3),
                    checkpoint_size(inputs, history),
                )
            },
            Step::Done(Err(_)) => false,
        },
{
    let n = history.len() as int;
    lemma_checkpoint_state(inner, inputs, history, n);
    assert(history.take(n) =~= history);
}

/// A call of a checkpointed function in which no engine call fails ends well, with the arrays of
/// the vector that the application gave. For that it makes one call that wraps, one that makes a
/// vector and one for each input, one that applies, one that counts and one for each output.
pub proof fn law_checkpoint_ends_well_where_no_call_fails<E: Engine>(
    contents: spec_fn(E::VectorArray) -> Seq<E::Array>,
    inner: E::Closure,
    inputs: Seq<E::Array>,
    history: Seq<Taken<E>>,
)
    requires
        truthful(contents, checkpoint_proceed(), checkpoint_start(inner, inputs), history),
        all_succeeded(history),
        history.len() > inputs.len() + 2,
    ensures
        history[inputs.len() as int + 2].0 matches Event::Applied(reply) && {
            let calls = inputs.len() + 4 + contents(reply.value).len();
            &&& history.len() <= calls
            &&& history.len() < calls ==> checkpoint_run::<E>(inner, inputs, history) is Perform
            &&& history.len() == calls ==> checkpoint_run::<E>(inner, inputs, history) == Step::<
                Request<'_, E>,
                CheckpointView<E>,
                Seq<E::Array>,
            >::Done(Ok(contents(reply.value)))
        },
{
    let n = inputs.len() as int;
    let start = checkpoint_start::<E>(inner, inputs);
    lemma_truthful_is_answered(contents, checkpoint_proceed(), start, history);
    lemma_checkpoint_state(inner, inputs, history, history.len() as int);
    assert(history.take(history.len() as int) =~= history);
    let given = history[n + 2].0->Applied_0.value;
    if history.len() > n + 3 {
        lemma_checkpoint_state(inner, inputs, history, n + 3);
        assert(history.take(n + 3).len() == n + 3);
        assert(vector_events(history, n + 3)[0] == history[n + 3].0->Vector_0);
    }
    if checkpoint_run::<E>(inner, inputs, history) is Done {
        law_checkpoint_gives_what_the_closure_computed(contents, inner, inputs, history);
        let (k, found) = choose|k: int, found: E::VectorArray|
            {
                &&& #[trigger] checkpoint_given(contents, inner, inputs, history, k, found)
                &&& checkpoint_run::<E>(inner, inputs, history) == Step::<
                    Request<'_, E>,
                    CheckpointView<E>,
                    Seq<E::Array>,
                >::Done(Ok(contents(found)))
            };
        lemma_checkpoint_state(inner, inputs, history, k);
    }
}

/// A call of a checkpointed function goes on only after a success: of the events that it took, at
/// most the last tells of a failure.
pub proof fn law_checkpoint_goes_on_only_after_success<E: Engine>(
    inner: E::Closure,
    inputs: Seq<E::Array>,
    history: Seq<Taken<E>>,
)
    requires
        answered(checkpoint_proceed(), checkpoint_start(inner, inputs), history),
        history.len() > 0,
    ensures
        all_succeeded(history.drop_last()),
{
    let start = checkpoint_start::<E>(inner, inputs);
    let before = history.drop_last();
    assert forall|k: int| 0 <= k < before.len() implies (#[trigger] before[k]).0.succeeded() by {
        lemma_answered_prefix(checkpoint_proceed(), start, history, k);
        lemma_answered_prefix(checkpoint_proceed(), start, history, k + 1);
        lemma_answered_before(checkpoint_proceed(), start, history.take(k + 1));
        assert(history.take(k + 1).drop_last() =~= history.take(k));
        assert(history.take(k + 1).last() == before[k]);
        law_checkpoint_takes_just_the_answers(inner, inputs, history.take(k));
        match checkpoint_run::<E>(inner, inputs, history.take(k)) {
            Step::Perform(_, session) => {
                law_checkpoint_fails_where_a_call_fails(session, before[k].0, before[k].1);
            },
            Step::Done(_) => {},
        }
    }
}

/// A call of a checkpointed function ends at once where an engine call fails. Where that is the
/// application, which comes after one call that wraps and one more than there are inputs that
/// pack, it ends with the closure's error, if there is one, and else with the engine's, and the
/// slot is empty. Where it is any other, it ends with the error of that call, and the slot is as
/// it was. Nor does a call that succeeds touch the slot.
pub proof fn law_checkpoint_ends_with_the_error_of_a_call<E: Engine>(
    inner: E::Closure,
    inputs: Seq<E::Array>,
    slot: Option<Exception>,
    history: Seq<Taken<E>>,
)
    requires
        answered(checkpoint_proceed(), checkpoint_start(inner, inputs), history),
        history.len() > 0,
    ensures
        ({
            let (event, found) = history.last();
            let step = checkpoint_run::<E>(inner, inputs, history);
            let left = checkpoint_slot::<E>(inner, inputs, slot, history);
            if event.succeeded() {
                &&& !(step matches Step::Done(Err(_)))
                &&& left == found
            } else if history.len() == inputs.len() + 3 {
                &&& step == Step::<Request<'_, E>, CheckpointView<E>, Seq<E::Array>>::Done(
                    Err(
                        match found {
                            Some(error) => error,
                            None => event.error(),
                        },
                    ),
                )
                &&& left is None
            } else {
                &&& step == Step::<Request<'_, E>, CheckpointView<E>, Seq<E::Array>>::Done(
                    Err(event.error()),
                )
                &&& left == found
            }
        }),
{
    let start = checkpoint_start::<E>(inner, inputs);
    let before = history.drop_last();
    let (event, found) = history.last();
    lemma_answered_before(checkpoint_proceed(), start, history);
    law_checkpoint_goes_on_only_after_success(inner, inputs, history);
    law_checkpoint_takes_just_the_answers(inner, inputs, before);
    lemma_checkpoint_state(inner, inputs, before, before.len() as int);
    assert(before.take(before.len() as int) =~= before);
    match checkpoint_run::<E>(inner, inputs, before) {
        Step::Perform(_, session) => {
            law_checkpoint_fails_where_a_call_fails(session, event, found);
        },
        Step::Done(_) => {},
    }
}

} // verus!
