//! Laws of packing and of reading vectors of arrays: which engine calls are made, one by one.

use vstd::prelude::*;

use crate::engine::{answers_vector, Engine, VectorEvent, VectorRequest};
use crate::history::Taken;
use crate::step::{run, Step};
use crate::vector::{
    packing_accepts, packing_next, unpacking_accepts, unpacking_next, PackingView, UnpackingView,
};

verus! {

/// The vector that an event gives back.
pub open spec fn given_back<E: Engine>(event: VectorEvent<E>) -> E::VectorArray {
    match event {
        VectorEvent::Created(vector) => vector,
        VectorEvent::Appended(reply) => reply.value,
        VectorEvent::Counted(vector, _) => vector,
        VectorEvent::Read(vector, _) => vector,
    }
}

/// The number that a count gave.
pub open spec fn counted<E: Engine>(event: VectorEvent<E>) -> nat {
    event->Counted_1 as nat
}

/// The arrays that the first `n` reads gave, which come after a count.
pub open spec fn arrays_read<E: Engine>(events: Seq<VectorEvent<E>>, n: nat) -> Seq<E::Array> {
    Seq::new(n, |j: int| events[j + 1]->Read_1.value)
}

/// The `i`-th call that packs the arrays: first the vector is made, then the arrays are appended
/// one after the other, each to the vector that came back last.
pub open spec fn packing_call<'a, E: Engine>(
    events: Seq<VectorEvent<E>>,
    arrays: Seq<E::Array>,
    i: int,
) -> VectorRequest<'a, E> {
    if i == 0 {
        VectorRequest::New
    } else {
        VectorRequest::Append(given_back(events[i - 1]), &arrays[i - 1])
    }
}

/// The `i`-th call that reads the vector: first its arrays are counted, then each is read, at its
/// own index of the vector that came back last.
pub open spec fn reading_call<'a, E: Engine>(
    events: Seq<VectorEvent<E>>,
    vector: E::VectorArray,
    i: int,
) -> VectorRequest<'a, E> {
    if i == 0 {
        VectorRequest::Size(vector)
    } else {
        VectorRequest::Get(given_back(events[i - 1]), (i - 1) as usize)
    }
}

/// The events of a history from an offset on, taken as events of vectors.
pub open spec fn vector_events<E: Engine>(history: Seq<Taken<E>>, offset: int) -> Seq<
    VectorEvent<E>,
> {
    let n = if offset <= history.len() {
        (history.len() - offset) as nat
    } else {
        0
    };
    Seq::new(n, |j: int| history[offset + j].0->Vector_0)
}

/// No event of the history tells of a failure.
pub open spec fn all_succeeded<E: Engine>(history: Seq<Taken<E>>) -> bool {
    forall|k: int| 0 <= k < history.len() ==> (#[trigger] history[k]).0.succeeded()
}

/// Each event answers the request that was pending, and none tells of a failure.
pub open spec fn answered_well<'a, E: Engine, S, T>(
    next: spec_fn(S, VectorEvent<E>) -> Step<VectorRequest<'a, E>, S, T>,
    start: Step<VectorRequest<'a, E>, S, T>,
    events: Seq<VectorEvent<E>>,
) -> bool {
    forall|k: int|
        0 <= k < events.len() ==> {
            &&& run(next, start, #[trigger] events.take(k)) matches Step::Perform(request, _)
            &&& answers_vector(request, events[k])
            &&& events[k].wf()
            &&& events[k].succeeded()
        }
}

/// The step of a session that packs the arrays, when its `i`-th call is due.
pub open spec fn packing_state<'a, E: Engine>(
    events: Seq<VectorEvent<E>>,
    arrays: Seq<E::Array>,
    i: int,
) -> Step<VectorRequest<'a, E>, PackingView<E::Array>, E::VectorArray> {
    if i > arrays.len() {
        Step::Done(Ok(given_back(events[arrays.len() as int])))
    } else {
        Step::Perform(
            packing_call(events, arrays, i),
            if i == 0 {
                PackingView::Creating { pending: arrays }
            } else {
                PackingView::Appending { pending: arrays.skip(i) }
            },
        )
    }
}

/// The step of a session that reads the vector, when its `i`-th call is due.
pub open spec fn unpacking_state<'a, E: Engine>(
    events: Seq<VectorEvent<E>>,
    vector: E::VectorArray,
    i: int,
) -> Step<VectorRequest<'a, E>, UnpackingView<E::Array>, Seq<E::Array>> {
    let size = counted(events[0]);
    if i == 0 {
        Step::Perform(VectorRequest::Size(vector), UnpackingView::Counting)
    } else if i > size {
        Step::Done(Ok(arrays_read(events, size)))
    } else {
        Step::Perform(
            reading_call(events, vector, i),
            UnpackingView::Reading { values: arrays_read(events, (i - 1) as nat), size },
        )
    }
}

/// A packing session in the state of its `i`-th call gets to that of the next.
pub proof fn lemma_packing_state<E: Engine>(
    events: Seq<VectorEvent<E>>,
    arrays: Seq<E::Array>,
    i: int,
)
    requires
        0 <= i <= arrays.len(),
        i < events.len(),
        answers_vector(packing_call::<E>(events, arrays, i), events[i]),
        events[i].wf(),
        events[i].succeeded(),
    ensures
        packing_state::<E>(events, arrays, i) matches Step::Perform(_, session)
            && packing_accepts(session, events[i]) && packing_next::<E>(session, events[i])
            == packing_state::<E>(events, arrays, i + 1),
{
    assert(arrays.skip(0) =~= arrays);
    let pending = arrays.skip(i);
    if i < arrays.len() {
        assert(pending.first() == arrays[i]);
        assert(pending.drop_first() =~= arrays.skip(i + 1));
    }
}

/// An unpacking session in the state of its `i`-th call gets to that of the next.
pub proof fn lemma_unpacking_state<E: Engine>(
    events: Seq<VectorEvent<E>>,
    vector: E::VectorArray,
    i: int,
)
    requires
        0 <= i < events.len(),
        i == 0 || i <= counted(events[0]),
        events[0] is Counted,
        answers_vector(reading_call::<E>(events, vector, i), events[i]),
        events[i].wf(),
        events[i].succeeded(),
    ensures
        unpacking_state::<E>(events, vector, i) matches Step::Perform(_, session)
            && unpacking_accepts(session, events[i]) && unpacking_next::<E>(session, events[i])
            == unpacking_state::<E>(events, vector, i + 1),
{
    let size = counted(events[0]);
    if i == 0 {
        assert(arrays_read(events, 0) =~= Seq::empty());
    } else {
        assert(arrays_read(events, (i - 1) as nat).push(events[i]->Read_1.value) =~= arrays_read(
            events,
            i as nat,
        ));
    }
}

/// How a packing session proceeds.
pub open spec fn packing_proceed<'a, E: Engine>() -> spec_fn(
    PackingView<E::Array>,
    VectorEvent<E>,
) -> Step<VectorRequest<'a, E>, PackingView<E::Array>, E::VectorArray> {
    |session: PackingView<E::Array>, event: VectorEvent<E>| packing_next::<'a, E>(session, event)
}

/// The step that a session which packs the arrays has reached after the events.
pub open spec fn packing_run<'a, E: Engine>(
    arrays: Seq<E::Array>,
    events: Seq<VectorEvent<E>>,
) -> Step<VectorRequest<'a, E>, PackingView<E::Array>, E::VectorArray> {
    run(
        packing_proceed(),
        Step::Perform(VectorRequest::New, PackingView::Creating { pending: arrays }),
        events,
    )
}

/// How an unpacking session proceeds.
pub open spec fn unpacking_proceed<'a, E: Engine>() -> spec_fn(
    UnpackingView<E::Array>,
    VectorEvent<E>,
) -> Step<VectorRequest<'a, E>, UnpackingView<E::Array>, Seq<E::Array>> {
    |session: UnpackingView<E::Array>, event: VectorEvent<E>|
        unpacking_next::<'a, E>(session, event)
}

/// The step that a session which reads the vector has reached after the events.
pub open spec fn unpacking_run<'a, E: Engine>(
    vector: E::VectorArray,
    events: Seq<VectorEvent<E>>,
) -> Step<VectorRequest<'a, E>, UnpackingView<E::Array>, Seq<E::Array>> {
    run(
        unpacking_proceed(),
        Step::Perform(VectorRequest::Size(vector), UnpackingView::Counting),
        events,
    )
}

proof fn lemma_packing_run<E: Engine>(
    arrays: Seq<E::Array>,
    events: Seq<VectorEvent<E>>,
    i: int,
)
    requires
        answered_well(
            packing_proceed::<E>(),
            Step::Perform(VectorRequest::New, PackingView::Creating { pending: arrays }),
            events,
        ),
        0 <= i <= events.len(),
    ensures
        i <= arrays.len() + 1,
        packing_run::<E>(arrays, events.take(i)) == packing_state::<E>(events, arrays, i),
    decreases i,
{
    if i > 0 {
        lemma_packing_run::<E>(arrays, events, i - 1);
        lemma_packing_state::<E>(events, arrays, i - 1);
        assert(events.take(i).drop_last() =~= events.take(i - 1));
        assert(events.take(i).last() == events[i - 1]);
    }
}

proof fn lemma_unpacking_run<E: Engine>(
    vector: E::VectorArray,
    events: Seq<VectorEvent<E>>,
    i: int,
)
    requires
        answered_well(
            unpacking_proceed::<E>(),
            Step::Perform(VectorRequest::Size(vector), UnpackingView::Counting),
            events,
        ),
        0 <= i <= events.len(),
    ensures
        i > 0 ==> events[0] is Counted,
        i > 0 ==> i <= counted(events[0]) + 1,
        unpacking_run::<E>(vector, events.take(i)) == unpacking_state::<E>(
            events,
            vector,
            i,
        ),
    decreases i,
{
    if i > 0 {
        lemma_unpacking_run::<E>(vector, events, i - 1);
        assert(events.take(i).drop_last() =~= events.take(i - 1));
        assert(events.take(i).last() == events[i - 1]);
        lemma_unpacking_state::<E>(events, vector, i - 1);
    }
}

/// A session that packs arrays, where no call fails, makes the vector, appends each array once and
/// in its order to the vector that came back last, and then gives that vector.
pub proof fn law_packing_appends_each_array_in_turn<E: Engine>(
    arrays: Seq<E::Array>,
    events: Seq<VectorEvent<E>>,
)
    requires
        answered_well(
            packing_proceed::<E>(),
            Step::Perform(VectorRequest::New, PackingView::Creating { pending: arrays }),
            events,
        ),
    ensures
        events.len() <= arrays.len() + 1,
        match packing_run::<E>(arrays, events) {
            Step::Perform(VectorRequest::New, _) => events.len() == 0,
            Step::Perform(VectorRequest::Append(vector, array), _) => {
                &&& 0 < events.len() <= arrays.len()
                &&& vector == given_back(events.last())
                &&& *array == arrays[events.len() - 1]
            },
            Step::Done(Ok(vector)) => {
                &&& events.len() == arrays.len() + 1
                &&& vector == given_back(events.last())
            },
            _ => false,
        },
{
    let n = events.len() as int;
    lemma_packing_run::<E>(arrays, events, n);
    assert(events.take(n) =~= events);
}

/// A session that packs arrays ends at once where an append fails, with its error.
pub proof fn law_packing_ends_with_the_error_of_an_append<E: Engine>(
    arrays: Seq<E::Array>,
    events: Seq<VectorEvent<E>>,
)
    requires
        events.len() > 1,
        answered_well(
            packing_proceed::<E>(),
            Step::Perform(VectorRequest::New, PackingView::Creating { pending: arrays }),
            events.drop_last(),
        ),
        events.len() <= arrays.len() + 1,
        events.last() matches VectorEvent::Appended(reply) && reply.status != 0 && reply.error
            is Some,
    ensures
        packing_run::<E>(arrays, events) == Step::<
            VectorRequest<'_, E>,
            PackingView<E::Array>,
            E::VectorArray,
        >::Done(Err(events.last()->Appended_0.error->Some_0)),
{
    let before = events.drop_last();
    lemma_packing_run::<E>(arrays, before, before.len() as int);
    assert(before.take(before.len() as int) =~= before);
}

/// A session that reads a vector, where no call fails, counts the arrays, reads at each index once
/// and in order, and then gives the arrays that it read.
pub proof fn law_unpacking_reads_each_index_in_turn<E: Engine>(
    vector: E::VectorArray,
    events: Seq<VectorEvent<E>>,
)
    requires
        answered_well(
            unpacking_proceed::<E>(),
            Step::Perform(VectorRequest::Size(vector), UnpackingView::Counting),
            events,
        ),
    ensures
        events.len() > 0 ==> events[0] is Counted,
        match unpacking_run::<E>(vector, events) {
            Step::Perform(VectorRequest::Size(counted_vector), _) => {
                &&& events.len() == 0
                &&& counted_vector == vector
            },
            Step::Perform(VectorRequest::Get(back, index), _) => {
                &&& 0 < events.len() <= counted(events[0])
                &&& back == given_back(events.last())
                &&& index == events.len() - 1
            },
            Step::Done(Ok(values)) => {
                &&& events.len() == counted(events[0]) + 1
                &&& values.len() == counted(events[0])
                &&& forall|j: int|
                    0 <= j < values.len() ==> #[trigger] values[j] == events[j + 1]->Read_1.value
            },
            _ => false,
        },
{
    let n = events.len() as int;
    lemma_unpacking_run::<E>(vector, events, n);
    assert(events.take(n) =~= events);
}

/// A session that reads a vector ends at once where a read fails, with its error.
pub proof fn law_unpacking_ends_with_the_error_of_a_read<E: Engine>(
    vector: E::VectorArray,
    events: Seq<VectorEvent<E>>,
)
    requires
        events.len() > 1,
        answered_well(
            unpacking_proceed::<E>(),
            Step::Perform(VectorRequest::Size(vector), UnpackingView::Counting),
            events.drop_last(),
        ),
        events.len() <= counted(events[0]) + 1,
        events.last() matches VectorEvent::Read(_, reply) && reply.status != 0 && reply.error
            is Some,
    ensures
        unpacking_run::<E>(vector, events) == Step::<
            VectorRequest<'_, E>,
            UnpackingView<E::Array>,
            Seq<E::Array>,
        >::Done(Err(events.last()->Read_1.error->Some_0)),
{
    let before = events.drop_last();
    lemma_unpacking_run::<E>(vector, before, before.len() as int);
    assert(before.take(before.len() as int) =~= before);
}

} // verus!
