//! Laws of the sessions that get two vectors of arrays from the engine: which engine calls they
//! make, one by one.

use vstd::prelude::*;

use crate::engine::{answers, Engine, Event, Request};
use crate::error::Exception;
use crate::history::{
    answered, lemma_answered_before, lemma_answered_prefix, lemma_truthful_is_answered, truthful,
    Taken,
};
use crate::product::{pair_next, PairStepView, PairView, Product};
use crate::product_laws::{
    law_pair_fails_where_a_call_fails, law_pair_gives_what_the_engine_computed,
    law_pair_takes_just_the_answers, pair_given, pair_proceed, pair_run, PairTask,
};
use crate::step::Step;
use crate::vector::PackingView;
use crate::vector_laws::{
    all_succeeded, arrays_read, counted, given_back, lemma_packing_state, lemma_unpacking_state,
    packing_call, packing_state, reading_call, unpacking_state, vector_events,
};

verus! {

impl<E: Engine> PairTask<E> {
    /// The number of calls that pack arrays, which come before the engine's own work: for each
    /// vector one that makes it, and one for each of its arrays.
    pub open spec fn packing_calls(self) -> int {
        match self {
            PairTask::Product { primals, directions, .. } => primals.len() as int + 1
                + directions.len() + 1,
            PairTask::ValueAndGrad { inputs, .. } => inputs.len() as int + 1,
        }
    }

    /// The call for the engine's own work, on the vectors that have been packed.
    pub open spec fn work_call<'a>(self, history: Seq<Taken<E>>) -> Request<'a, E> {
        match self {
            PairTask::Product { product, closure, primals, directions } => {
                let packed = given_back(vector_events(history, 0)[primals.len() as int]);
                let others = given_back(
                    vector_events(history, primals.len() as int + 1)[directions.len() as int],
                );
                match product {
                    Product::Jvp => Request::Jvp { closure, primals: packed, tangents: others },
                    Product::Vjp => Request::Vjp { closure, primals: packed, cotangents: others },
                }
            },
            PairTask::ValueAndGrad { value_and_grad, inputs } => Request::ValueAndGrad(
                value_and_grad,
                given_back(vector_events(history, 0)[inputs.len() as int]),
            ),
        }
    }

    /// The two vectors that the engine's own work gave.
    pub open spec fn vectors(self, history: Seq<Taken<E>>) -> (E::VectorArray, E::VectorArray) {
        history[self.packing_calls()].0->Pair_0.value
    }

    /// The point at which the reading of the first vector begins.
    pub open spec fn first_reading(self) -> int {
        self.packing_calls() + 1
    }

    /// The number of arrays that were counted in the first vector.
    pub open spec fn first_size(self, history: Seq<Taken<E>>) -> nat {
        counted(vector_events(history, self.first_reading())[0])
    }

    /// The point at which the reading of the second vector begins.
    pub open spec fn second_reading(self, history: Seq<Taken<E>>) -> int {
        self.first_reading() + 1 + self.first_size(history)
    }

    /// The number of arrays that were counted in the second vector.
    pub open spec fn second_size(self, history: Seq<Taken<E>>) -> nat {
        counted(vector_events(history, self.second_reading(history))[0])
    }

    /// The number of calls of a whole run in which none fails.
    pub open spec fn calls(self, history: Seq<Taken<E>>) -> int {
        self.second_reading(history) + 1 + self.second_size(history)
    }

    /// The `k`-th call of a run in which none fails: the arrays are packed, the primals before the
    /// directions, then the engine does its own work, and then the two vectors that came back are
    /// read, one after the other.
    pub open spec fn call_at<'a>(self, history: Seq<Taken<E>>, k: int) -> Request<'a, E> {
        let work = self.packing_calls();
        let first = self.first_reading();
        let second = self.second_reading(history);
        if k < work {
            Request::Vector(
                match self {
                    PairTask::Product { primals, directions, .. } => if k <= primals.len() {
                        packing_call(vector_events(history, 0), primals, k)
                    } else {
                        packing_call(
                            vector_events(history, primals.len() as int + 1),
                            directions,
                            k - primals.len() - 1,
                        )
                    },
                    PairTask::ValueAndGrad { inputs, .. } => packing_call(
                        vector_events(history, 0),
                        inputs,
                        k,
                    ),
                },
            )
        } else if k == work {
            self.work_call(history)
        } else if k < second {
            Request::Vector(
                reading_call(vector_events(history, first), self.vectors(history).0, k - first),
            )
        } else {
            Request::Vector(
                reading_call(vector_events(history, second), self.vectors(history).1, k - second),
            )
        }
    }
}

spec fn packing_view<E: Engine>(
    history: Seq<Taken<E>>,
    offset: int,
    arrays: Seq<E::Array>,
    i: int,
) -> PackingView<E::Array> {
    packing_state::<E>(vector_events(history, offset), arrays, i)->Perform_1
}

spec fn pair_session<E: Engine>(
    task: PairTask<E>,
    history: Seq<Taken<E>>,
    k: int,
) -> PairView<E> {
    let first = task.first_reading();
    let second = task.second_reading(history);
    let vectors = task.vectors(history);
    if k < task.packing_calls() {
        match task {
            PairTask::Product { product, closure, primals, directions } => if k <= primals.len() {
                PairView::Primals {
                    product,
                    closure,
                    packing: packing_view(history, 0, primals, k),
                    directions,
                }
            } else {
                PairView::Directions {
                    product,
                    closure,
                    primals: given_back(vector_events(history, 0)[primals.len() as int]),
                    packing: packing_view(
                        history,
                        primals.len() as int + 1,
                        directions,
                        k - primals.len() - 1,
                    ),
                }
            },
            PairTask::ValueAndGrad { value_and_grad, inputs } => PairView::Inputs {
                value_and_grad,
                packing: packing_view(history, 0, inputs, k),
            },
        }
    } else if k == task.packing_calls() {
        PairView::Running
    } else if k < second {
        let state = unpacking_state::<E>(vector_events(history, first), vectors.0, k - first);
        PairView::First { second: vectors.1, unpacking: state->Perform_1 }
    } else {
        let state = unpacking_state::<E>(vector_events(history, second), vectors.1, k - second);
        PairView::Second {
            first: arrays_read(vector_events(history, first), task.first_size(history)),
            unpacking: state->Perform_1,
        }
    }
}

#[verifier::opaque]
spec fn pair_state<'a, E: Engine>(
    task: PairTask<E>,
    history: Seq<Taken<E>>,
    k: int,
) -> PairStepView<'a, E> {
    if k < task.calls(history) {
        Step::Perform(task.call_at(history, k), pair_session(task, history, k))
    } else {
        Step::Done(
            Ok(
                (
                    arrays_read(
                        vector_events(history, task.first_reading()),
                        task.first_size(history),
                    ),
                    arrays_read(
                        vector_events(history, task.second_reading(history)),
                        task.second_size(history),
                    ),
                ),
            ),
        )
    }
}

spec fn sizes_are_counted<E: Engine>(
    task: PairTask<E>,
    history: Seq<Taken<E>>,
    k: int,
) -> bool {
    let first = task.first_reading();
    let second = task.second_reading(history);
    &&& k > first ==> (history[first].0 matches Event::Vector(event) && event is Counted)
    &&& k > second ==> (history[second].0 matches Event::Vector(event) && event is Counted)
}

proof fn lemma_pair_state_next<E: Engine>(task: PairTask<E>, history: Seq<Taken<E>>, i: int)
    requires
        0 <= i < history.len(),
        i < task.calls(history),
        sizes_are_counted(task, history, i),
        answers(task.call_at(history, i), history[i].0),
        history[i].0.wf(),
        history[i].0.succeeded(),
    ensures
        sizes_are_counted(task, history, i + 1),
        pair_next::<E>(pair_session(task, history, i), history[i].0, history[i].1).0
            == pair_state::<E>(task, history, i + 1),
{
    reveal(pair_state);
    let work = task.packing_calls();
    let first = task.first_reading();
    let second = task.second_reading(history);
    if i < work {
        match task {
            PairTask::Product { primals, directions, .. } => {
                let m = primals.len() as int;
                if i <= m {
                    assert(vector_events(history, 0)[i] == history[i].0->Vector_0);
                    lemma_packing_state::<E>(vector_events(history, 0), primals, i);
                } else {
                    let events = vector_events(history, m + 1);
                    assert(events[i - m - 1] == history[i].0->Vector_0);
                    lemma_packing_state::<E>(events, directions, i - m - 1);
                }
            },
            PairTask::ValueAndGrad { inputs, .. } => {
                assert(vector_events(history, 0)[i] == history[i].0->Vector_0);
                lemma_packing_state::<E>(vector_events(history, 0), inputs, i);
            },
        }
    } else if i == work {
    } else if i < second {
        let events = vector_events(history, first);
        assert(events[i - first] == history[i].0->Vector_0);
        assert(events[0] == history[first].0->Vector_0);
        lemma_unpacking_state::<E>(events, task.vectors(history).0, i - first);
    } else {
        let events = vector_events(history, second);
        assert(events[i - second] == history[i].0->Vector_0);
        assert(events[0] == history[second].0->Vector_0);
        lemma_unpacking_state::<E>(events, task.vectors(history).1, i - second);
    }
}

proof fn lemma_pair_state<E: Engine>(task: PairTask<E>, history: Seq<Taken<E>>, k: int)
    requires
        answered(pair_proceed(), task.start(), history),
        all_succeeded(history),
        0 <= k <= history.len(),
    ensures
        k <= task.calls(history),
        sizes_are_counted(task, history, k),
        pair_run(task, history.take(k)) == pair_state::<E>(task, history, k),
    decreases k,
{
    reveal(pair_state);
    if k > 0 {
        let i = k - 1;
        lemma_pair_state(task, history, i);
        lemma_answered_prefix(pair_proceed(), task.start(), history, k);
        lemma_answered_before(pair_proceed(), task.start(), history.take(k));
        assert(history.take(k).drop_last() =~= history.take(i));
        assert(history.take(k).last() == history[i]);
        assert(history[i].0.succeeded());
        lemma_pair_state_next(task, history, i);
    }
}

/// A session that gets two vectors from the engine, and in which no call fails, packs each array
/// once and in order, has the engine do its own work on the vectors so packed, reads the two
/// vectors that came back, the first before the second, at each index once and in order, and ends
/// with what it read. It makes no other call.
pub proof fn law_pair_makes_its_calls_in_turn<E: Engine>(
    task: PairTask<E>,
    history: Seq<Taken<E>>,
)
    requires
        answered(pair_proceed(), task.start(), history),
        all_succeeded(history),
    ensures
        match pair_run(task, history) {
            Step::Perform(request, _) => {
                &&& history.len() < task.calls(history)
                &&& request == task.call_at(history, history.len() as int)
            },
            Step::Done(Ok((first, second))) => {
                &&& history.len() == task.calls(history)
                &&& first == arrays_read(
                    vector_events(history, task.first_reading()),
                    task.first_size(history),
                )
                &&& second == arrays_read(
                    vector_events(history, task.second_reading(history)),
                    task.second_size(history),
                )
            },
            Step::Done(Err(_)) => false,
        },
{
    let n = history.len() as int;
    lemma_pair_state(task, history, n);
    assert(history.take(n) =~= history);
    reveal(pair_state);
}

/// A session that gets two vectors from the engine, and in which no call fails, ends well, with
/// the arrays of those two vectors. Behind the calls that pack and the one for the engine's own
/// work, it makes for each of the two one call that counts and one for each array.
pub proof fn law_pair_ends_well_where_no_call_fails<E: Engine>(
    contents: spec_fn(E::VectorArray) -> Seq<E::Array>,
    task: PairTask<E>,
    history: Seq<Taken<E>>,
)
    requires
        truthful(contents, pair_proceed(), task.start(), history),
        all_succeeded(history),
        history.len() > task.packing_calls(),
    ensures
        history[task.packing_calls()].0 matches Event::Pair(reply) && {
            let (first, second) = reply.value;
            let calls = task.packing_calls() + 3 + contents(first).len() + contents(second).len();
            &&& history.len() <= calls
            &&& history.len() < calls ==> pair_run(task, history) is Perform
            &&& history.len() == calls ==> pair_run(task, history) == Step::<
                Request<'_, E>,
                PairView<E>,
                (Seq<E::Array>, Seq<E::Array>),
            >::Done(Ok((contents(first), contents(second))))
        },
{
    let n = history.len() as int;
    let work = task.packing_calls();
    let first = task.first_reading();
    let second = task.second_reading(history);
    lemma_truthful_is_answered(contents, pair_proceed(), task.start(), history);
    lemma_pair_state(task, history, n);
    assert(history.take(n) =~= history);
    reveal(pair_state);
    lemma_pair_state(task, history, work);
    assert(history.take(work).len() == work);
    if n > first {
        lemma_pair_state(task, history, first);
        assert(history.take(first).len() == first);
        assert(vector_events(history, first)[0] == history[first].0->Vector_0);
    }
    if n > second {
        lemma_pair_state(task, history, second);
        assert(history.take(second).len() == second);
        assert(vector_events(history, second)[0] == history[second].0->Vector_0);
    }
    if pair_run(task, history) is Done {
        law_pair_gives_what_the_engine_computed(contents, task, history);
        let (k, given) = choose|k: int, given: (E::VectorArray, E::VectorArray)|
            {
                &&& #[trigger] pair_given(contents, task, history, k, given)
                &&& pair_run(task, history) == Step::<
                    Request<'_, E>,
                    PairView<E>,
                    (Seq<E::Array>, Seq<E::Array>),
                >::Done(Ok((contents(given.0), contents(given.1))))
            };
        lemma_pair_state(task, history, k);
    }
}

/// A session that gets two vectors from the engine goes on only after a success: of the events
/// that it took, at most the last tells of a failure.
pub proof fn law_pair_goes_on_only_after_success<E: Engine>(
    task: PairTask<E>,
    history: Seq<Taken<E>>,
)
    requires
        answered(pair_proceed(), task.start(), history),
        history.len() > 0,
    ensures
        all_succeeded(history.drop_last()),
{
    let before = history.drop_last();
    assert forall|k: int| 0 <= k < before.len() implies (#[trigger] before[k]).0.succeeded() by {
        lemma_answered_prefix(pair_proceed(), task.start(), history, k);
        lemma_answered_prefix(pair_proceed(), task.start(), history, k + 1);
        lemma_answered_before(pair_proceed(), task.start(), history.take(k + 1));
        assert(history.take(k + 1).drop_last() =~= history.take(k));
        assert(history.take(k + 1).last() == before[k]);
        law_pair_takes_just_the_answers(task, history.take(k));
        match pair_run::<E>(task, history.take(k)) {
            Step::Perform(_, session) => {
                law_pair_fails_where_a_call_fails(session, before[k].0, before[k].1);
            },
            Step::Done(_) => {},
        }
    }
}

/// What is in the slot of the closure's error after the history of a run that began with `slot`.
pub open spec fn pair_slot<E: Engine>(
    task: PairTask<E>,
    slot: Option<Exception>,
    history: Seq<Taken<E>>,
) -> Option<Exception>
    decreases history.len(),
{
    if history.len() == 0 {
        slot
    } else {
        match pair_run::<E>(task, history.drop_last()) {
            Step::Perform(_, session) => pair_next::<E>(
                session,
                history.last().0,
                history.last().1,
            ).1,
            Step::Done(_) => pair_slot(task, slot, history.drop_last()),
        }
    }
}

/// A session that gets two vectors from the engine ends at once where an engine call fails. Where
/// that call packs arrays, it ends with the error of that call, and the slot is as it was. Where
/// it is any later one, it ends with the closure's error, if there is one, and else with the
/// engine's, and the slot is empty. Nor does a call that succeeds touch the slot.
pub proof fn law_pair_ends_with_the_error_of_a_call<E: Engine>(
    task: PairTask<E>,
    slot: Option<Exception>,
    history: Seq<Taken<E>>,
)
    requires
        answered(pair_proceed(), task.start(), history),
        history.len() > 0,
    ensures
        ({
            let (event, found) = history.last();
            let step = pair_run::<E>(task, history);
            let left = pair_slot(task, slot, history);
            if event.succeeded() {
                &&& !(step matches Step::Done(Err(_)))
                &&& left == found
            } else if history.len() <= task.packing_calls() {
                &&& step == Step::<
                    Request<'_, E>,
                    PairView<E>,
                    (Seq<E::Array>, Seq<E::Array>),
                >::Done(Err(event.error()))
                &&& left == found
            } else {
                &&& step == Step::<
                    Request<'_, E>,
                    PairView<E>,
                    (Seq<E::Array>, Seq<E::Array>),
                >::Done(
                    Err(
                        match found {
                            Some(error) => error,
                            None => event.error(),
                        },
                    ),
                )
                &&& left is None
            }
        }),
{
    let before = history.drop_last();
    let (event, found) = history.last();
    lemma_answered_before(pair_proceed(), task.start(), history);
    law_pair_goes_on_only_after_success(task, history);
    law_pair_takes_just_the_answers(task, before);
    lemma_pair_state(task, before, before.len() as int);
    reveal(pair_state);
    assert(before.take(before.len() as int) =~= before);
    match pair_run::<E>(task, before) {
        Step::Perform(_, session) => {
            law_pair_fails_where_a_call_fails(session, event, found);
        },
        Step::Done(_) => {},
    }
}

} // verus!
