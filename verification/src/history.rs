//! Histories of sessions: what holds of all of them, whatever they compute.
//!
//! A run of a session is given by its history: the events in their order, each with the closure's
//! error that was in the slot when the event was taken.

use vstd::prelude::*;

use crate::closure::left_behind;
use crate::engine::{answers, faithful, Engine, Event, Request, VectorEvent, VectorRequest};
use crate::error::Exception;
use crate::step::{run, Step};
use crate::vector::{packing_next, unpacking_next, PackingView, UnpackingView};

verus! {

/// An event, and the closure's error that was in the slot when it was taken.
pub type Taken<E: Engine> = (Event<E>, Option<Exception>);

/// Each event of the history answers the request that was pending, and is well-formed.
pub open spec fn answered<'a, E: Engine, S, T>(
    next: spec_fn(S, Taken<E>) -> Step<Request<'a, E>, S, T>,
    start: Step<Request<'a, E>, S, T>,
    history: Seq<Taken<E>>,
) -> bool {
    forall|k: int|
        0 <= k < history.len() ==> {
            &&& run(next, start, #[trigger] history.take(k)) matches Step::Perform(request, _)
            &&& answers(request, history[k].0)
            &&& history[k].0.wf()
        }
}

/// Each event of the history answers the request that was pending, and tells the truth about
/// vectors of arrays.
pub open spec fn truthful<'a, E: Engine, S, T>(
    contents: spec_fn(E::VectorArray) -> Seq<E::Array>,
    next: spec_fn(S, Taken<E>) -> Step<Request<'a, E>, S, T>,
    start: Step<Request<'a, E>, S, T>,
    history: Seq<Taken<E>>,
) -> bool {
    forall|k: int|
        0 <= k < history.len() ==> {
            &&& run(next, start, #[trigger] history.take(k)) matches Step::Perform(request, _)
            &&& faithful(contents, request, history[k].0)
        }
}

pub proof fn lemma_truthful_before<'a, E: Engine, S, T>(
    contents: spec_fn(E::VectorArray) -> Seq<E::Array>,
    next: spec_fn(S, Taken<E>) -> Step<Request<'a, E>, S, T>,
    start: Step<Request<'a, E>, S, T>,
    history: Seq<Taken<E>>,
)
    requires
        truthful(contents, next, start, history),
        history.len() > 0,
    ensures
        truthful(contents, next, start, history.drop_last()),
        run(next, start, history.drop_last()) matches Step::Perform(request, _) && faithful(
            contents,
            request,
            history.last().0,
        ),
{
    let before = history.drop_last();
    assert forall|k: int| 0 <= k < before.len() implies {
        &&& run(next, start, #[trigger] before.take(k)) matches Step::Perform(request, _)
        &&& faithful(contents, request, before[k].0)
    } by {
        assert(before.take(k) =~= history.take(k));
    }
    assert(history.take(before.len() as int) =~= before);
}

pub proof fn lemma_answered_before<'a, E: Engine, S, T>(
    next: spec_fn(S, Taken<E>) -> Step<Request<'a, E>, S, T>,
    start: Step<Request<'a, E>, S, T>,
    history: Seq<Taken<E>>,
)
    requires
        answered(next, start, history),
        history.len() > 0,
    ensures
        answered(next, start, history.drop_last()),
        history.last().0.wf(),
        run(next, start, history.drop_last()) matches Step::Perform(request, _) && answers(
            request,
            history.last().0,
        ),
{
    let before = history.drop_last();
    assert forall|k: int| 0 <= k < before.len() implies {
        &&& run(next, start, #[trigger] before.take(k)) matches Step::Perform(request, _)
        &&& answers(request, before[k].0)
        &&& before[k].0.wf()
    } by {
        assert(before.take(k) =~= history.take(k));
    }
    assert(history.take(before.len() as int) =~= before);
}

pub proof fn lemma_answered_prefix<'a, E: Engine, S, T>(
    next: spec_fn(S, Taken<E>) -> Step<Request<'a, E>, S, T>,
    start: Step<Request<'a, E>, S, T>,
    history: Seq<Taken<E>>,
    n: int,
)
    requires
        answered(next, start, history),
        0 <= n <= history.len(),
    ensures
        answered(next, start, history.take(n)),
    decreases history.len() - n,
{
    if n < history.len() {
        lemma_answered_prefix(next, start, history, n + 1);
        lemma_answered_before(next, start, history.take(n + 1));
        assert(history.take(n + 1).drop_last() =~= history.take(n));
    } else {
        assert(history.take(n) =~= history);
    }
}

pub proof fn lemma_truthful_prefix<'a, E: Engine, S, T>(
    contents: spec_fn(E::VectorArray) -> Seq<E::Array>,
    next: spec_fn(S, Taken<E>) -> Step<Request<'a, E>, S, T>,
    start: Step<Request<'a, E>, S, T>,
    history: Seq<Taken<E>>,
    n: int,
)
    requires
        truthful(contents, next, start, history),
        0 <= n <= history.len(),
    ensures
        truthful(contents, next, start, history.take(n)),
    decreases history.len() - n,
{
    if n < history.len() {
        lemma_truthful_prefix(contents, next, start, history, n + 1);
        lemma_truthful_before(contents, next, start, history.take(n + 1));
        assert(history.take(n + 1).drop_last() =~= history.take(n));
    } else {
        assert(history.take(n) =~= history);
    }
}

pub proof fn lemma_truthful_is_answered<'a, E: Engine, S, T>(
    contents: spec_fn(E::VectorArray) -> Seq<E::Array>,
    next: spec_fn(S, Taken<E>) -> Step<Request<'a, E>, S, T>,
    start: Step<Request<'a, E>, S, T>,
    history: Seq<Taken<E>>,
)
    requires
        truthful(contents, next, start, history),
    ensures
        answered(next, start, history),
{
}

pub open spec fn packing_holds<E: Engine>(
    contents: spec_fn(E::VectorArray) -> Seq<E::Array>,
    request: Request<'_, E>,
    packing: PackingView<E::Array>,
    target: Seq<E::Array>,
) -> bool {
    match (request, packing) {
        (Request::Vector(VectorRequest::New), PackingView::Creating { pending }) => pending
            == target,
        (
            Request::Vector(VectorRequest::Append(vector, array)),
            PackingView::Appending { pending },
        ) => contents(vector).push(*array) + pending == target,
        _ => false,
    }
}

pub open spec fn unpacking_holds<E: Engine>(
    contents: spec_fn(E::VectorArray) -> Seq<E::Array>,
    request: Request<'_, E>,
    unpacking: UnpackingView<E::Array>,
    vector: E::VectorArray,
) -> bool {
    match (request, unpacking) {
        (Request::Vector(VectorRequest::Size(v)), UnpackingView::Counting) => v == vector,
        (
            Request::Vector(VectorRequest::Get(v, index)),
            UnpackingView::Reading { values, size },
        ) => {
            &&& v == vector
            &&& index == values.len()
            &&& size == contents(v).len()
            &&& values.len() < size <= usize::MAX
            &&& values == contents(v).take(values.len() as int)
        },
        _ => false,
    }
}

pub proof fn lemma_packing_step<'a, E: Engine>(
    contents: spec_fn(E::VectorArray) -> Seq<E::Array>,
    request: VectorRequest<'a, E>,
    packing: PackingView<E::Array>,
    target: Seq<E::Array>,
    event: VectorEvent<E>,
)
    requires
        packing_holds(contents, Request::Vector(request), packing, target),
        faithful(contents, Request::Vector(request), Event::Vector(event)),
    ensures
        match packing_next::<'a, E>(packing, event) {
            Step::Perform(next, rest) => packing_holds(
                contents,
                Request::Vector(next),
                rest,
                target,
            ),
            Step::Done(Ok(vector)) => contents(vector) == target,
            Step::Done(Err(_)) => true,
        },
{
    let pending = packing.pending();
    let held = match event {
        VectorEvent::Created(vector) => vector,
        VectorEvent::Appended(reply) => reply.value,
        _ => arbitrary(),
    };
    if event.succeeded() {
        assert(contents(held) + pending =~= target);
        if pending.len() == 0 {
            assert(contents(held) + pending =~= contents(held));
        } else {
            assert(contents(held).push(pending.first()) + pending.drop_first() =~= contents(held)
                + pending);
        }
    }
}

pub proof fn lemma_unpacking_step<'a, E: Engine>(
    contents: spec_fn(E::VectorArray) -> Seq<E::Array>,
    request: VectorRequest<'a, E>,
    unpacking: UnpackingView<E::Array>,
    vector: E::VectorArray,
    event: VectorEvent<E>,
)
    requires
        unpacking_holds(contents, Request::Vector(request), unpacking, vector),
        faithful(contents, Request::Vector(request), Event::Vector(event)),
    ensures
        match unpacking_next::<'a, E>(unpacking, event) {
            Step::Perform(next, rest) => unpacking_holds(
                contents,
                Request::Vector(next),
                rest,
                vector,
            ),
            Step::Done(Ok(values)) => values == contents(vector),
            Step::Done(Err(_)) => true,
        },
{
    match (unpacking, event) {
        (UnpackingView::Counting, VectorEvent::Counted(_, _)) => {
            assert(contents(vector).take(0) =~= Seq::empty());
        },
        (UnpackingView::Reading { values, size }, VectorEvent::Read(_, reply)) => {
            if reply.succeeded() {
                let n = values.len() as int;
                assert(values.push(reply.value) =~= contents(vector).take(n + 1));
                assert(contents(vector).take(contents(vector).len() as int) =~= contents(vector));
            }
        },
        _ => {},
    }
}

/// The number of arrays that are still to be read.
pub open spec fn unread<A>(values: Seq<A>, size: nat) -> nat {
    if values.len() < size {
        (size - values.len()) as nat
    } else {
        0
    }
}

/// One amount of work left is less than another.
pub open spec fn less_left(a: (nat, nat), b: (nat, nat)) -> bool {
    a.0 < b.0 || (a.0 == b.0 && a.1 < b.1)
}

pub proof fn lemma_left_behind<A>(
    slot: Option<Exception>,
    results: Seq<Result<Vec<A>, Exception>>,
    last: int,
)
    requires
        0 <= last < results.len(),
        results[last] is Err,
        forall|i: int| last < i < results.len() ==> #[trigger] results[i] is Ok,
    ensures
        left_behind(slot, results) == Some(results[last]->Err_0),
    decreases results.len(),
{
    if last < results.len() - 1 {
        assert(results[results.len() - 1] is Ok);
        lemma_left_behind(slot, results.drop_last(), last);
    }
}

pub proof fn lemma_nothing_left_behind<A>(
    slot: Option<Exception>,
    results: Seq<Result<Vec<A>, Exception>>,
)
    requires
        forall|i: int| 0 <= i < results.len() ==> #[trigger] results[i] is Ok,
    ensures
        left_behind(slot, results) == slot,
    decreases results.len(),
{
    if results.len() > 0 {
        assert(results[results.len() - 1] is Ok);
        lemma_nothing_left_behind(slot, results.drop_last());
    }
}

/// A history grows with each event that answers the pending request, whatever is in the slot: what
/// is answered stays answered, and what is told faithfully stays truthful.
pub proof fn law_histories_grow_by_answers<'a, E: Engine, S, T>(
    contents: spec_fn(E::VectorArray) -> Seq<E::Array>,
    next: spec_fn(S, Taken<E>) -> Step<Request<'a, E>, S, T>,
    start: Step<Request<'a, E>, S, T>,
    history: Seq<Taken<E>>,
    event: Event<E>,
    slot: Option<Exception>,
)
    ensures
        answered(next, start, Seq::empty()),
        truthful(contents, next, start, Seq::empty()),
        run(next, start, history) matches Step::Perform(request, _) ==> {
            &&& answered(next, start, history) && answers(request, event) && event.wf()
                ==> answered(next, start, history.push((event, slot)))
            &&& truthful(contents, next, start, history) && faithful(contents, request, event)
                ==> truthful(contents, next, start, history.push((event, slot)))
        },
{
    let after = history.push((event, slot));
    assert forall|k: int| 0 <= k <= history.len() implies #[trigger] after.take(k) == history.take(
        k,
    ) by {
        assert(after.take(k) =~= history.take(k));
    }
    assert(history.take(history.len() as int) =~= history);
    assert forall|k: int| 0 <= k < history.len() implies after[k] == #[trigger] history[k] by {}
}

} // verus!
