//! Laws of calls of checkpointed functions.

use vstd::prelude::*;

use crate::checkpoint::{
    checkpoint_accepts, checkpoint_next, checkpoint_start, CheckpointStepView, CheckpointView,
};
use crate::closure::left_behind;
use crate::engine::{answers, faithful, Engine, Event, Request, VectorRequest};
use crate::error::{reported, Exception};
use crate::guard::Reply;
use crate::history::{
    answered, lemma_answered_before, lemma_answered_prefix, lemma_left_behind, lemma_packing_step,
    lemma_truthful_before, lemma_truthful_is_answered, lemma_truthful_prefix, lemma_unpacking_step,
    less_left, packing_holds, truthful, unpacking_holds, unread, Taken,
};
use crate::step::{run, Step};
use crate::vector::UnpackingView;

verus! {

/// How a call of a checkpointed function proceeds.
pub open spec fn checkpoint_proceed<'a, E: Engine>() -> spec_fn(
    CheckpointView<E>,
    Taken<E>,
) -> CheckpointStepView<'a, E> {
    |session: CheckpointView<E>, taken: Taken<E>|
        checkpoint_next::<'a, E>(session, taken.0, taken.1).0
}

/// The step that such a call has reached after the history.
pub open spec fn checkpoint_run<'a, E: Engine>(
    inner: E::Closure,
    inputs: Seq<E::Array>,
    history: Seq<Taken<E>>,
) -> CheckpointStepView<'a, E> {
    run(checkpoint_proceed(), checkpoint_start(inner, inputs), history)
}

/// The first event of the history gave this checkpointed closure.
pub open spec fn wrapped<E: Engine>(history: Seq<Taken<E>>, closure: E::Closure) -> bool {
    &&& history.len() > 0
    &&& history[0].0 matches Event::Checkpointed(reply)
    &&& reply.succeeded()
    &&& reply.value == closure
}

/// At this point of the history, the checkpointed closure was applied to the inputs, and gave
/// this vector.
pub open spec fn checkpoint_given<E: Engine>(
    contents: spec_fn(E::VectorArray) -> Seq<E::Array>,
    inner: E::Closure,
    inputs: Seq<E::Array>,
    history: Seq<Taken<E>>,
    k: int,
    given: E::VectorArray,
) -> bool {
    &&& 0 <= k < history.len()
    &&& checkpoint_run::<E>(inner, inputs, history.take(k)) matches Step::Perform(request, _)
    &&& request matches Request::Apply(closure, packed)
    &&& wrapped(history, closure)
    &&& contents(packed) == inputs
    &&& history[k].0 matches Event::Applied(reply)
    &&& reply.succeeded()
    &&& reply.value == given
}

#[verifier::opaque]
spec fn checkpoint_holds<E: Engine>(
    contents: spec_fn(E::VectorArray) -> Seq<E::Array>,
    inner: E::Closure,
    inputs: Seq<E::Array>,
    history: Seq<Taken<E>>,
    step: CheckpointStepView<'_, E>,
) -> bool {
    match step {
        Step::Perform(request, CheckpointView::Wrapping { inputs: i }) => {
            &&& history.len() == 0
            &&& i == inputs
            &&& request is Checkpoint
        },
        Step::Perform(request, CheckpointView::Inputs { closure, packing }) => {
            &&& wrapped(history, closure)
            &&& packing_holds(contents, request, packing, inputs)
        },
        Step::Perform(request, CheckpointView::Running) => {
            &&& request matches Request::Apply(closure, packed)
            &&& wrapped(history, closure)
            &&& contents(packed) == inputs
        },
        Step::Perform(request, CheckpointView::Outputs { unpacking }) => {
            exists|k: int, given: E::VectorArray|
                {
                    &&& #[trigger] checkpoint_given(contents, inner, inputs, history, k, given)
                    &&& unpacking_holds(contents, request, unpacking, given)
                }
        },
        Step::Done(Ok(values)) => {
            exists|k: int, given: E::VectorArray|
                {
                    &&& #[trigger] checkpoint_given(contents, inner, inputs, history, k, given)
                    &&& values == contents(given)
                }
        },
        Step::Done(Err(_)) => true,
    }
}

proof fn lemma_checkpoint_given_later<E: Engine>(
    contents: spec_fn(E::VectorArray) -> Seq<E::Array>,
    inner: E::Closure,
    inputs: Seq<E::Array>,
    history: Seq<Taken<E>>,
    k: int,
    given: E::VectorArray,
)
    requires
        history.len() > 0,
        checkpoint_given(contents, inner, inputs, history.drop_last(), k, given),
    ensures
        checkpoint_given(contents, inner, inputs, history, k, given),
{
    assert(history.drop_last().take(k) =~= history.take(k));
}

proof fn lemma_checkpoint_step<E: Engine>(
    contents: spec_fn(E::VectorArray) -> Seq<E::Array>,
    inner: E::Closure,
    inputs: Seq<E::Array>,
    history: Seq<Taken<E>>,
    request: Request<'_, E>,
    session: CheckpointView<E>,
)
    requires
        history.len() > 0,
        checkpoint_run::<E>(inner, inputs, history.drop_last()) == Step::<
            Request<'_, E>,
            CheckpointView<E>,
            Seq<E::Array>,
        >::Perform(request, session),
        checkpoint_holds(
            contents,
            inner,
            inputs,
            history.drop_last(),
            Step::Perform(request, session),
        ),
        faithful(contents, request, history.last().0),
    ensures
        checkpoint_holds(
            contents,
            inner,
            inputs,
            history,
            checkpoint_next::<E>(session, history.last().0, history.last().1).0,
        ),
{
    reveal(checkpoint_holds);
    let before = history.drop_last();
    let event = history.last().0;
    match (session, request, event) {
        (CheckpointView::Inputs { packing, .. }, Request::Vector(r), Event::Vector(event)) => {
            lemma_packing_step(contents, r, packing, inputs, event);
        },
        (CheckpointView::Running, _, Event::Applied(reply)) => {
            if reply.succeeded() {
                assert(history.take(before.len() as int) =~= before);
                assert(checkpoint_given(
                    contents,
                    inner,
                    inputs,
                    history,
                    before.len() as int,
                    reply.value,
                ));
            }
        },
        (CheckpointView::Outputs { unpacking }, Request::Vector(r), Event::Vector(event)) => {
            let (k, given) = choose|k: int, given: E::VectorArray|
                {
                    &&& #[trigger] checkpoint_given(contents, inner, inputs, before, k, given)
                    &&& unpacking_holds(contents, request, unpacking, given)
                };
            lemma_unpacking_step(contents, r, unpacking, given, event);
            lemma_checkpoint_given_later(contents, inner, inputs, history, k, given);
        },
        _ => {},
    }
}

proof fn lemma_checkpoint_run<E: Engine>(
    contents: spec_fn(E::VectorArray) -> Seq<E::Array>,
    inner: E::Closure,
    inputs: Seq<E::Array>,
    history: Seq<Taken<E>>,
)
    requires
        truthful(contents, checkpoint_proceed(), checkpoint_start(inner, inputs), history),
    ensures
        checkpoint_holds(
            contents,
            inner,
            inputs,
            history,
            checkpoint_run(inner, inputs, history),
        ),
    decreases history.len(),
{
    let start = checkpoint_start::<E>(inner, inputs);
    if history.len() > 0 {
        let before = history.drop_last();
        lemma_truthful_before(contents, checkpoint_proceed(), start, history);
        lemma_checkpoint_run(contents, inner, inputs, before);
        match checkpoint_run::<E>(inner, inputs, before) {
            Step::Perform(request, session) => {
                lemma_checkpoint_step(contents, inner, inputs, history, request, session);
            },
            Step::Done(_) => {},
        }
    } else {
        reveal(checkpoint_holds);
    }
}

/// A call of a checkpointed function gives just what the checkpointed closure computed: if it
/// ends well, then the engine first made a checkpointed closure of the function's own, the call
/// applied that to the inputs in their order, and what it gives are the arrays of the vector that
/// came back.
pub proof fn law_checkpoint_gives_what_the_closure_computed<E: Engine>(
    contents: spec_fn(E::VectorArray) -> Seq<E::Array>,
    inner: E::Closure,
    inputs: Seq<E::Array>,
    history: Seq<Taken<E>>,
)
    requires
        truthful(contents, checkpoint_proceed(), checkpoint_start(inner, inputs), history),
        checkpoint_run::<E>(inner, inputs, history) matches Step::Done(result) && result is Ok,
    ensures
        checkpoint_run::<E>(inner, inputs, Seq::empty()) matches Step::Perform(request, _)
            && request == Request::<'_, E>::Checkpoint(&inner),
        exists|k: int, given: E::VectorArray|
            {
                &&& #[trigger] checkpoint_given(contents, inner, inputs, history, k, given)
                &&& checkpoint_run::<E>(inner, inputs, history) == Step::<
                    Request<'_, E>,
                    CheckpointView<E>,
                    Seq<E::Array>,
                >::Done(Ok(contents(given)))
            },
{
    lemma_checkpoint_run(contents, inner, inputs, history);
    reveal(checkpoint_holds);
}

/// A call of a checkpointed function fails just where an engine call fails, and then at once.
/// Where the application fails, it reports the closure's error if there is one, and clears the
/// slot. Else it reports the error of the call, and the slot stays as it is.
pub proof fn law_checkpoint_fails_where_a_call_fails<'a, E: Engine>(
    session: CheckpointView<E>,
    event: Event<E>,
    slot: Option<Exception>,
)
    requires
        checkpoint_accepts(session, event),
    ensures
        event.succeeded() ==> {
            &&& !(checkpoint_next::<'a, E>(session, event, slot).0 matches Step::Done(Err(_)))
            &&& checkpoint_next::<'a, E>(session, event, slot).1 == slot
        },
        !event.succeeded() && !(session is Running) ==> checkpoint_next::<'a, E>(
            session,
            event,
            slot,
        ) == (
            Step::<Request<'a, E>, CheckpointView<E>, Seq<E::Array>>::Done(Err(event.error())),
            slot,
        ),
        !event.succeeded() && session is Running ==> checkpoint_next::<'a, E>(
            session,
            event,
            slot,
        ) == (
            Step::<Request<'a, E>, CheckpointView<E>, Seq<E::Array>>::Done(
                Err(reported(slot, event.error())),
            ),
            None::<Exception>,
        ),
{
}

/// The session takes the answers to the request, and nothing else.
pub open spec fn checkpoint_takes_just_answers<E: Engine>(
    request: Request<'_, E>,
    session: CheckpointView<E>,
) -> bool {
    forall|event: Event<E>|
        #![trigger answers(request, event)]
        #![trigger checkpoint_accepts(session, event)]
        checkpoint_accepts(session, event) == (answers(request, event) && event.wf())
}

/// A call of a checkpointed function is never stuck: as long as each request has been answered,
/// it takes whatever
/// answers the next, and nothing else.
pub proof fn law_checkpoint_takes_just_the_answers<E: Engine>(
    inner: E::Closure,
    inputs: Seq<E::Array>,
    history: Seq<Taken<E>>,
)
    requires
        answered(checkpoint_proceed(), checkpoint_start(inner, inputs), history),
    ensures
        checkpoint_run::<E>(inner, inputs, history) matches Step::Perform(request, session)
            ==> checkpoint_takes_just_answers(request, session),
    decreases history.len(),
{
    if history.len() > 0 {
        lemma_answered_before(checkpoint_proceed(), checkpoint_start(inner, inputs), history);
        law_checkpoint_takes_just_the_answers(inner, inputs, history.drop_last());
    }
}

/// A call of a checkpointed function fails only by its last engine call, and reports the error of
/// that call or of a closure.
pub proof fn law_checkpoint_run_fails_only_by_its_last_call<E: Engine>(
    inner: E::Closure,
    inputs: Seq<E::Array>,
    history: Seq<Taken<E>>,
)
    requires
        answered(checkpoint_proceed(), checkpoint_start(inner, inputs), history),
    ensures
        checkpoint_run::<E>(inner, inputs, history) matches Step::Done(Err(error)) ==> {
            &&& history.len() > 0
            &&& !history.last().0.succeeded()
            &&& error == history.last().0.error() || Some(error) == history.last().1
        },
{
    if history.len() > 0 {
        lemma_answered_before(checkpoint_proceed(), checkpoint_start(inner, inputs), history);
        law_checkpoint_takes_just_the_answers(inner, inputs, history.drop_last());
        match checkpoint_run::<E>(inner, inputs, history.drop_last()) {
            Step::Perform(_, session) => {
                law_checkpoint_fails_where_a_call_fails(
                    session,
                    history.last().0,
                    history.last().1,
                );
            },
            Step::Done(_) => {},
        }
    }
}

/// What a call of a checkpointed function has left to do: stages, and engine calls in this stage.
pub open spec fn checkpoint_left<E: Engine>(session: CheckpointView<E>) -> (nat, nat) {
    match session {
        CheckpointView::Wrapping { .. } => (5, 0),
        CheckpointView::Inputs { packing, .. } => (4, packing.pending().len()),
        CheckpointView::Running => (3, 0),
        CheckpointView::Outputs { unpacking: UnpackingView::Counting } => (2, 0),
        CheckpointView::Outputs { unpacking: UnpackingView::Reading { values, size } } => (
            1,
            unread(values, size),
        ),
    }
}

/// A call of a checkpointed function comes to an end: with each event that it takes, less is left
/// to do.
pub proof fn law_checkpoint_comes_to_an_end<'a, E: Engine>(
    session: CheckpointView<E>,
    event: Event<E>,
    slot: Option<Exception>,
)
    requires
        checkpoint_accepts(session, event),
    ensures
        checkpoint_next::<'a, E>(session, event, slot).0 matches Step::Perform(_, rest)
            ==> less_left(checkpoint_left(rest), checkpoint_left(session)),
{
}

/// Where closures that the engine called have failed, the failure of the application is reported
/// as the error of the last of them, not as the engine's own, and no error stays behind.
pub proof fn law_checkpoint_reports_the_closures_error<'a, E: Engine>(
    slot: Option<Exception>,
    results: Seq<Result<Vec<E::Array>, Exception>>,
    last: int,
    reply: Reply<E::VectorArray>,
)
    requires
        0 <= last < results.len(),
        results[last] is Err,
        forall|i: int| last < i < results.len() ==> #[trigger] results[i] is Ok,
        !reply.succeeded(),
    ensures
        checkpoint_next::<'a, E>(
            CheckpointView::Running,
            Event::Applied(reply),
            left_behind(slot, results),
        ) == (
            Step::<Request<'a, E>, CheckpointView<E>, Seq<E::Array>>::Done(
                Err(results[last]->Err_0),
            ),
            None::<Exception>,
        ),
{
    lemma_left_behind(slot, results, last);
}

spec fn applies_while_running<E: Engine>(step: CheckpointStepView<'_, E>) -> bool {
    step matches Step::Perform(request, session) ==> (request is Apply) == (session is Running)
}

spec fn application_is_behind<E: Engine>(step: CheckpointStepView<'_, E>) -> bool {
    match step {
        Step::Perform(request, session) => !(request is Apply) && session is Outputs,
        Step::Done(_) => true,
    }
}

proof fn lemma_applies_while_running<E: Engine>(
    inner: E::Closure,
    inputs: Seq<E::Array>,
    history: Seq<Taken<E>>,
)
    requires
        answered(checkpoint_proceed(), checkpoint_start(inner, inputs), history),
    ensures
        applies_while_running(checkpoint_run::<E>(inner, inputs, history)),
    decreases history.len(),
{
    if history.len() > 0 {
        lemma_answered_before(checkpoint_proceed(), checkpoint_start(inner, inputs), history);
        law_checkpoint_takes_just_the_answers(inner, inputs, history.drop_last());
        lemma_applies_while_running(inner, inputs, history.drop_last());
    }
}

proof fn lemma_application_stays_behind<E: Engine>(
    inner: E::Closure,
    inputs: Seq<E::Array>,
    history: Seq<Taken<E>>,
    i: int,
    j: int,
)
    requires
        answered(checkpoint_proceed(), checkpoint_start(inner, inputs), history),
        0 <= i < j <= history.len(),
        checkpoint_run::<E>(inner, inputs, history.take(i)) matches Step::Perform(request, _)
            && request is Apply,
    ensures
        application_is_behind(checkpoint_run::<E>(inner, inputs, history.take(j))),
    decreases j,
{
    let start = checkpoint_start::<E>(inner, inputs);
    lemma_answered_prefix(checkpoint_proceed(), start, history, j - 1);
    lemma_answered_prefix(checkpoint_proceed(), start, history, j);
    assert(history.take(j).drop_last() =~= history.take(j - 1));
    lemma_answered_before(checkpoint_proceed(), start, history.take(j));
    law_checkpoint_takes_just_the_answers(inner, inputs, history.take(j - 1));
    if j == i + 1 {
        lemma_applies_while_running(inner, inputs, history.take(i));
    } else {
        lemma_application_stays_behind(inner, inputs, history, i, j - 1);
    }
}

/// In one call of a checkpointed function the closure is applied at most once.
pub proof fn law_checkpoint_applies_the_closure_once<E: Engine>(
    inner: E::Closure,
    inputs: Seq<E::Array>,
    history: Seq<Taken<E>>,
    i: int,
    j: int,
)
    requires
        answered(checkpoint_proceed(), checkpoint_start(inner, inputs), history),
        0 <= i < j <= history.len(),
        checkpoint_run::<E>(inner, inputs, history.take(i)) matches Step::Perform(request, _)
            && request is Apply,
    ensures
        checkpoint_run::<E>(inner, inputs, history.take(j)) matches Step::Perform(request, _)
            ==> !(request is Apply),
{
    lemma_application_stays_behind(inner, inputs, history, i, j);
}

/// A call of a checkpointed function reads only what is there: whatever it has been answered, the
/// array that it asks for stands at an index of the vector that it reads.
pub proof fn law_checkpoint_reads_only_what_is_there<E: Engine>(
    contents: spec_fn(E::VectorArray) -> Seq<E::Array>,
    inner: E::Closure,
    inputs: Seq<E::Array>,
    history: Seq<Taken<E>>,
)
    requires
        truthful(contents, checkpoint_proceed(), checkpoint_start(inner, inputs), history),
    ensures
        checkpoint_run::<E>(inner, inputs, history) matches Step::Perform(
            Request::Vector(VectorRequest::Get(vector, index)),
            _,
        ) ==> index < contents(vector).len(),
{
    lemma_checkpoint_run(contents, inner, inputs, history);
    reveal(checkpoint_holds);
}

/// What a call of a checkpointed function asks the engine to apply is the closure that the engine
/// wrapped for it, and what that is applied to are its inputs, in their order.
pub proof fn law_checkpoint_applies_the_wrapped_closure_to_the_inputs<E: Engine>(
    contents: spec_fn(E::VectorArray) -> Seq<E::Array>,
    inner: E::Closure,
    inputs: Seq<E::Array>,
    history: Seq<Taken<E>>,
)
    requires
        truthful(contents, checkpoint_proceed(), checkpoint_start(inner, inputs), history),
    ensures
        checkpoint_run::<E>(inner, inputs, history) matches Step::Perform(
            Request::Apply(closure, packed),
            _,
        ) ==> wrapped(history, closure) && contents(packed) == inputs,
{
    lemma_checkpoint_run(contents, inner, inputs, history);
    lemma_truthful_is_answered(
        contents,
        checkpoint_proceed(),
        checkpoint_start(inner, inputs),
        history,
    );
    lemma_applies_while_running(inner, inputs, history);
    reveal(checkpoint_holds);
}

/// A call whose application failed after closures that it called had failed ends with the error
/// of the last of them, whatever the engine says of its own failure.
pub proof fn law_checkpoint_run_ends_with_the_closures_error<E: Engine>(
    inner: E::Closure,
    inputs: Seq<E::Array>,
    history: Seq<Taken<E>>,
    slot: Option<Exception>,
    results: Seq<Result<Vec<E::Array>, Exception>>,
    last: int,
)
    requires
        answered(checkpoint_proceed(), checkpoint_start(inner, inputs), history),
        history.len() > 0,
        checkpoint_run::<E>(inner, inputs, history.drop_last()) matches Step::Perform(request, _)
            && request is Apply,
        !history.last().0.succeeded(),
        history.last().1 == left_behind(slot, results),
        0 <= last < results.len(),
        results[last] is Err,
        forall|i: int| last < i < results.len() ==> #[trigger] results[i] is Ok,
    ensures
        checkpoint_run::<E>(inner, inputs, history) == Step::<
            Request<'_, E>,
            CheckpointView<E>,
            Seq<E::Array>,
        >::Done(Err(results[last]->Err_0)),
        checkpoint_slot::<E>(inner, inputs, slot, history) is None,
{
    lemma_answered_before(checkpoint_proceed(), checkpoint_start(inner, inputs), history);
    law_checkpoint_takes_just_the_answers(inner, inputs, history.drop_last());
    lemma_applies_while_running(inner, inputs, history.drop_last());
    lemma_left_behind(slot, results, last);
}

/// What is in the slot of the closure's error after the history of a call that began with `slot`.
pub open spec fn checkpoint_slot<E: Engine>(
    inner: E::Closure,
    inputs: Seq<E::Array>,
    slot: Option<Exception>,
    history: Seq<Taken<E>>,
) -> Option<Exception>
    decreases history.len(),
{
    if history.len() == 0 {
        slot
    } else {
        match checkpoint_run::<E>(inner, inputs, history.drop_last()) {
            Step::Perform(_, session) => checkpoint_next::<E>(
                session,
                history.last().0,
                history.last().1,
            ).1,
            Step::Done(_) => checkpoint_slot::<E>(inner, inputs, slot, history.drop_last()),
        }
    }
}

/// A call that failed in its application leaves the slot empty, whatever was in it.
pub proof fn law_failed_application_leaves_the_slot_empty<E: Engine>(
    inner: E::Closure,
    inputs: Seq<E::Array>,
    slot: Option<Exception>,
    history: Seq<Taken<E>>,
)
    requires
        answered(checkpoint_proceed(), checkpoint_start(inner, inputs), history),
        history.len() > 0,
        checkpoint_run::<E>(inner, inputs, history.drop_last()) matches Step::Perform(request, _)
            && request is Apply,
        !history.last().0.succeeded(),
    ensures
        checkpoint_run::<E>(inner, inputs, history) matches Step::Done(result) && result is Err,
        checkpoint_slot::<E>(inner, inputs, slot, history) is None,
{
    lemma_answered_before(checkpoint_proceed(), checkpoint_start(inner, inputs), history);
    law_checkpoint_takes_just_the_answers(inner, inputs, history.drop_last());
    lemma_applies_while_running(inner, inputs, history.drop_last());
}

/// A call of a checkpointed function outside any differentiation: its inputs, its history, and
/// what the function was called with and returned, where it was called.
pub struct CheckpointCall<E: Engine> {
    pub inputs: Seq<E::Array>,
    pub history: Seq<Taken<E>>,
    pub seen: Seq<E::Array>,
    pub returned: Result<Vec<E::Array>, Exception>,
}

impl<E: Engine> CheckpointCall<E> {
    /// The step that the call has reached after its first `k` events.
    pub open spec fn step_at<'a>(self, inner: E::Closure, k: int) -> CheckpointStepView<'a, E> {
        checkpoint_run(inner, self.inputs, self.history.take(k))
    }

    /// The request that the `k`-th event answers is the application of the closure.
    pub open spec fn applies_at(self, inner: E::Closure, k: int) -> bool {
        self.step_at(inner, k) matches Step::Perform(request, _) && request is Apply
    }

    /// The slot holds what the call has left in it, and, when the closure has been applied, what
    /// the function's return has left behind.
    pub open spec fn slots_follow(self, inner: E::Closure, slot: Option<Exception>) -> bool {
        forall|k: int|
            0 <= k < self.history.len() ==> {
                let before = checkpoint_slot::<E>(
                    inner,
                    self.inputs,
                    slot,
                    #[trigger] self.history.take(k),
                );
                self.history[k].1 == if self.applies_at(inner, k) {
                    left_behind(before, seq![self.returned])
                } else {
                    before
                }
            }
    }

    /// The engine applies the closure as it is: it calls the function on the arrays of the inputs,
    /// hands back the outputs of one that did not fail, and fails where the function did.
    pub open spec fn applied_plainly(
        self,
        contents: spec_fn(E::VectorArray) -> Seq<E::Array>,
        inner: E::Closure,
    ) -> bool {
        forall|k: int|
            0 <= k < self.history.len() ==> match checkpoint_run::<E>(
                inner,
                self.inputs,
                #[trigger] self.history.take(k),
            ) {
                Step::Perform(Request::Apply(_, packed), _) => {
                    &&& self.seen == contents(packed)
                    &&& self.history[k].0 matches Event::Applied(reply)
                    &&& reply.succeeded() ==> {
                        &&& self.returned matches Ok(outputs)
                        &&& contents(reply.value) == outputs@
                    }
                },
                _ => true,
            }
    }

    /// This is a whole call of the checkpointed function, which found `slot` in the slot.
    pub open spec fn is_made(
        self,
        contents: spec_fn(E::VectorArray) -> Seq<E::Array>,
        inner: E::Closure,
        slot: Option<Exception>,
    ) -> bool {
        &&& truthful(
            contents,
            checkpoint_proceed(),
            checkpoint_start(inner, self.inputs),
            self.history,
        )
        &&& self.slots_follow(inner, slot)
        &&& self.applied_plainly(contents, inner)
        &&& checkpoint_run::<E>(inner, self.inputs, self.history) is Done
    }

    /// What the call comes to by itself: what its function returned, or the error of an engine
    /// call of its own.
    pub open spec fn own_outcome(self) -> Result<Seq<E::Array>, Exception> {
        if self.history.last().0.succeeded() {
            Ok(self.returned->Ok_0@)
        } else if self.history.last().0 is Applied && self.returned is Err {
            Err(self.returned->Err_0)
        } else {
            Err(self.history.last().0.error())
        }
    }

    /// The call ends with its own outcome. If it came as far as to apply the closure, as it did
    /// where it ended well, the function was called on its inputs, in their order.
    pub open spec fn stands_alone(self, inner: E::Closure) -> bool {
        &&& self.history.len() > 0
        &&& checkpoint_run::<E>(inner, self.inputs, self.history) == Step::<
            Request<'_, E>,
            CheckpointView<E>,
            Seq<E::Array>,
        >::Done(self.own_outcome())
        &&& self.history.last().0.succeeded() ==> self.returned is Ok && self.seen == self.inputs
        &&& forall|k: int|
            0 <= k < self.history.len() && #[trigger] self.applies_at(inner, k) ==> self.seen
                == self.inputs
    }
}

proof fn lemma_slot_stays_empty<E: Engine>(
    contents: spec_fn(E::VectorArray) -> Seq<E::Array>,
    inner: E::Closure,
    call: CheckpointCall<E>,
    n: int,
)
    requires
        call.is_made(contents, inner, None),
        0 <= n <= call.history.len(),
    ensures
        checkpoint_slot::<E>(inner, call.inputs, None, call.history.take(n)) is None,
    decreases n,
{
    if n > 0 {
        let k = n - 1;
        let start = checkpoint_start::<E>(inner, call.inputs);
        let before = call.history.take(k);
        let now = call.history.take(n);
        lemma_slot_stays_empty(contents, inner, call, k);
        lemma_truthful_is_answered(contents, checkpoint_proceed(), start, call.history);
        lemma_answered_prefix(checkpoint_proceed(), start, call.history, k);
        lemma_answered_prefix(checkpoint_proceed(), start, call.history, n);
        lemma_answered_before(checkpoint_proceed(), start, now);
        assert(now.drop_last() =~= before);
        assert(now.last() == call.history[k]);
        law_checkpoint_takes_just_the_answers(inner, call.inputs, before);
        lemma_applies_while_running(inner, call.inputs, before);
        reveal_with_fuel(left_behind, 2);
        match checkpoint_run::<E>(inner, call.inputs, before) {
            Step::Perform(_, session) => {
                law_checkpoint_fails_where_a_call_fails(session, now.last().0, now.last().1);
            },
            Step::Done(_) => {},
        }
    }
}

proof fn lemma_seen_are_the_inputs<E: Engine>(
    contents: spec_fn(E::VectorArray) -> Seq<E::Array>,
    inner: E::Closure,
    call: CheckpointCall<E>,
    slot: Option<Exception>,
    k: int,
)
    requires
        call.is_made(contents, inner, slot),
        0 <= k < call.history.len(),
        call.applies_at(inner, k),
    ensures
        call.seen == call.inputs,
{
    let start = checkpoint_start::<E>(inner, call.inputs);
    lemma_truthful_is_answered(contents, checkpoint_proceed(), start, call.history);
    lemma_answered_prefix(checkpoint_proceed(), start, call.history, k);
    lemma_truthful_prefix(contents, checkpoint_proceed(), start, call.history, k);
    lemma_checkpoint_run(contents, inner, call.inputs, call.history.take(k));
    lemma_applies_while_running(inner, call.inputs, call.history.take(k));
    reveal(checkpoint_holds);
}

/// A call of a checkpointed function that finds the slot empty gives what its function returned,
/// the outputs or the error, unless an engine call of its own failed, whose error it then reports.
/// Its function was called on its inputs, in their order, and the slot is empty again.
pub proof fn law_checkpoint_call_gives_what_the_function_returned<E: Engine>(
    contents: spec_fn(E::VectorArray) -> Seq<E::Array>,
    inner: E::Closure,
    call: CheckpointCall<E>,
)
    requires
        call.is_made(contents, inner, None),
    ensures
        call.stands_alone(inner),
        checkpoint_slot::<E>(inner, call.inputs, None, call.history) is None,
{
    let start = checkpoint_start::<E>(inner, call.inputs);
    let history = call.history;
    let n = history.len() as int;
    assert(history.take(n) =~= history);
    lemma_slot_stays_empty(contents, inner, call, n);
    lemma_truthful_is_answered(contents, checkpoint_proceed(), start, history);
    assert(history.len() > 0);
    let before = history.drop_last();
    assert(history.take(n - 1) =~= before);
    lemma_slot_stays_empty(contents, inner, call, n - 1);
    lemma_answered_before(checkpoint_proceed(), start, history);
    law_checkpoint_takes_just_the_answers(inner, call.inputs, before);
    lemma_applies_while_running(inner, call.inputs, before);
    assert forall|k: int| 0 <= k < history.len() && #[trigger] call.applies_at(
        inner,
        k,
    ) implies call.seen == call.inputs by {
        lemma_seen_are_the_inputs(contents, inner, call, None, k);
    }
    reveal_with_fuel(left_behind, 2);
    match checkpoint_run::<E>(inner, call.inputs, before) {
        Step::Perform(_, session) => {
            law_checkpoint_fails_where_a_call_fails(session, history.last().0, history.last().1);
        },
        Step::Done(_) => {},
    }
    if history.last().0.succeeded() {
        law_checkpoint_gives_what_the_closure_computed(contents, inner, call.inputs, history);
        let (k, given) = choose|k: int, given: E::VectorArray|
            {
                &&& #[trigger] checkpoint_given(contents, inner, call.inputs, history, k, given)
                &&& checkpoint_run::<E>(inner, call.inputs, history) == Step::<
                    Request<'_, E>,
                    CheckpointView<E>,
                    Seq<E::Array>,
                >::Done(Ok(contents(given)))
            };
        assert(call.applies_at(inner, k));
    }
}

/// What is in the slot before the `n`-th of a number of calls, of which the first finds it empty.
pub open spec fn slot_before<E: Engine>(
    inner: E::Closure,
    calls: Seq<CheckpointCall<E>>,
    n: int,
) -> Option<Exception>
    decreases n,
{
    if n <= 0 {
        None
    } else {
        checkpoint_slot::<E>(
            inner,
            calls[n - 1].inputs,
            slot_before(inner, calls, n - 1),
            calls[n - 1].history,
        )
    }
}

/// Calls of one checkpointed function stand each for itself: the `n`-th calls the function on the
/// `n`-th inputs and gives what the function returned for them, and neither an error nor anything
/// else of an earlier call shows in a later one.
pub proof fn law_checkpoint_calls_stand_alone<E: Engine>(
    contents: spec_fn(E::VectorArray) -> Seq<E::Array>,
    inner: E::Closure,
    calls: Seq<CheckpointCall<E>>,
    n: int,
)
    requires
        forall|i: int|
            0 <= i < calls.len() ==> (#[trigger] calls[i]).is_made(
                contents,
                inner,
                slot_before(inner, calls, i),
            ),
        0 <= n < calls.len(),
    ensures
        slot_before(inner, calls, n) is None,
        calls[n].stands_alone(inner),
    decreases n,
{
    if n > 0 {
        law_checkpoint_calls_stand_alone(contents, inner, calls, n - 1);
        law_checkpoint_call_gives_what_the_function_returned(contents, inner, calls[n - 1]);
    }
    law_checkpoint_call_gives_what_the_function_returned(contents, inner, calls[n]);
}

} // verus!
