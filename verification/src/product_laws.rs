//! Laws of the sessions that get two vectors of arrays from the engine.

use vstd::prelude::*;

use crate::closure::{left_behind, Callback, Closure, FallibleClosure};
use crate::engine::{answers, faithful, Engine, Event, Request, VectorRequest};
use crate::error::{reported, Exception};
use crate::guard::Reply;
use crate::history::{
    answered, lemma_answered_before, lemma_answered_prefix, lemma_left_behind,
    lemma_nothing_left_behind, lemma_packing_step, lemma_truthful_before, lemma_unpacking_step,
    less_left, packing_holds, truthful, unpacking_holds, unread, Taken,
};
use crate::product::{
    pair_accepts, pair_next, product_start, value_and_gradient_start, PairStepView, PairView,
    Product,
};
use crate::step::{run, Step};
use crate::vector::UnpackingView;

verus! {

/// What a session that gets two vectors from the engine is to compute.
pub enum PairTask<E: Engine> {
    Product {
        product: Product,
        closure: E::Closure,
        primals: Seq<E::Array>,
        directions: Seq<E::Array>,
    },
    ValueAndGrad { value_and_grad: E::ValueAndGrad, inputs: Seq<E::Array> },
}

impl<E: Engine> PairTask<E> {
    /// The first step of the session.
    pub open spec fn start<'a>(self) -> PairStepView<'a, E> {
        match self {
            PairTask::Product { product, closure, primals, directions } => product_start(
                product,
                closure,
                primals,
                directions,
            ),
            PairTask::ValueAndGrad { value_and_grad, inputs } => value_and_gradient_start(
                value_and_grad,
                inputs,
            ),
        }
    }

    /// The request asks the engine for just this.
    pub open spec fn is_asked_by(
        self,
        contents: spec_fn(E::VectorArray) -> Seq<E::Array>,
        request: Request<'_, E>,
    ) -> bool {
        match (self, request) {
            (
                PairTask::Product { product: Product::Jvp, closure, primals, directions },
                Request::Jvp { closure: c, primals: p, tangents: t },
            ) => c == closure && contents(p) == primals && contents(t) == directions,
            (
                PairTask::Product { product: Product::Vjp, closure, primals, directions },
                Request::Vjp { closure: c, primals: p, cotangents: t },
            ) => c == closure && contents(p) == primals && contents(t) == directions,
            (
                PairTask::ValueAndGrad { value_and_grad, inputs },
                Request::ValueAndGrad(g, v),
            ) => g == value_and_grad && contents(v) == inputs,
            _ => false,
        }
    }
}

/// How a session that gets two vectors from the engine proceeds.
pub open spec fn pair_proceed<'a, E: Engine>() -> spec_fn(PairView<E>, Taken<E>) -> PairStepView<
    'a,
    E,
> {
    |session: PairView<E>, taken: Taken<E>| pair_next::<'a, E>(session, taken.0, taken.1).0
}

/// The step that such a session has reached after the history.
pub open spec fn pair_run<'a, E: Engine>(
    task: PairTask<E>,
    history: Seq<Taken<E>>,
) -> PairStepView<'a, E> {
    run(pair_proceed(), task.start(), history)
}

/// At this point of the history, the engine was asked for the task, and gave these two vectors.
pub open spec fn pair_given<E: Engine>(
    contents: spec_fn(E::VectorArray) -> Seq<E::Array>,
    task: PairTask<E>,
    history: Seq<Taken<E>>,
    k: int,
    given: (E::VectorArray, E::VectorArray),
) -> bool {
    &&& 0 <= k < history.len()
    &&& pair_run(task, history.take(k)) matches Step::Perform(request, _)
    &&& task.is_asked_by(contents, request)
    &&& history[k].0 matches Event::Pair(reply)
    &&& reply.succeeded()
    &&& reply.value == given
}

#[verifier::opaque]
spec fn pair_holds<E: Engine>(
    contents: spec_fn(E::VectorArray) -> Seq<E::Array>,
    task: PairTask<E>,
    history: Seq<Taken<E>>,
    step: PairStepView<'_, E>,
) -> bool {
    match step {
        Step::Perform(request, PairView::Primals { product, closure, packing, directions }) => {
            &&& task matches PairTask::Product { product: pr, closure: c, primals, directions: d }
            &&& pr == product && c == closure && d == directions
            &&& packing_holds(contents, request, packing, primals)
        },
        Step::Perform(request, PairView::Directions { product, closure, primals, packing }) => {
            &&& task matches PairTask::Product { product: pr, closure: c, primals: p, directions }
            &&& pr == product && c == closure && p == contents(primals)
            &&& packing_holds(contents, request, packing, directions)
        },
        Step::Perform(request, PairView::Inputs { value_and_grad, packing }) => {
            &&& task matches PairTask::ValueAndGrad { value_and_grad: g, inputs }
            &&& g == value_and_grad
            &&& packing_holds(contents, request, packing, inputs)
        },
        Step::Perform(request, PairView::Running) => task.is_asked_by(contents, request),
        Step::Perform(request, PairView::First { second, unpacking }) => {
            exists|k: int, given: (E::VectorArray, E::VectorArray)|
                {
                    &&& #[trigger] pair_given(contents, task, history, k, given)
                    &&& second == given.1
                    &&& unpacking_holds(contents, request, unpacking, given.0)
                }
        },
        Step::Perform(request, PairView::Second { first, unpacking }) => {
            exists|k: int, given: (E::VectorArray, E::VectorArray)|
                {
                    &&& #[trigger] pair_given(contents, task, history, k, given)
                    &&& first == contents(given.0)
                    &&& unpacking_holds(contents, request, unpacking, given.1)
                }
        },
        Step::Done(Ok(values)) => {
            exists|k: int, given: (E::VectorArray, E::VectorArray)|
                {
                    &&& #[trigger] pair_given(contents, task, history, k, given)
                    &&& values.0 == contents(given.0)
                    &&& values.1 == contents(given.1)
                }
        },
        Step::Done(Err(_)) => true,
    }
}

proof fn lemma_pair_given_later<E: Engine>(
    contents: spec_fn(E::VectorArray) -> Seq<E::Array>,
    task: PairTask<E>,
    history: Seq<Taken<E>>,
    k: int,
    given: (E::VectorArray, E::VectorArray),
)
    requires
        history.len() > 0,
        pair_given(contents, task, history.drop_last(), k, given),
    ensures
        pair_given(contents, task, history, k, given),
{
    assert(history.drop_last().take(k) =~= history.take(k));
}

proof fn lemma_pair_step<E: Engine>(
    contents: spec_fn(E::VectorArray) -> Seq<E::Array>,
    task: PairTask<E>,
    history: Seq<Taken<E>>,
    request: Request<'_, E>,
    session: PairView<E>,
)
    requires
        history.len() > 0,
        pair_run(task, history.drop_last()) == Step::<
            Request<'_, E>,
            PairView<E>,
            (Seq<E::Array>, Seq<E::Array>),
        >::Perform(request, session),
        pair_holds(contents, task, history.drop_last(), Step::Perform(request, session)),
        faithful(contents, request, history.last().0),
    ensures
        pair_holds(
            contents,
            task,
            history,
            pair_next::<E>(session, history.last().0, history.last().1).0,
        ),
{
    reveal(pair_holds);
    let before = history.drop_last();
    let event = history.last().0;
    match (session, request, event) {
        (PairView::Primals { packing, .. }, Request::Vector(request), Event::Vector(event)) => {
            lemma_packing_step(contents, request, packing, task->primals, event);
        },
        (PairView::Directions { packing, .. }, Request::Vector(request), Event::Vector(event)) => {
            lemma_packing_step(contents, request, packing, task->directions, event);
        },
        (PairView::Inputs { packing, .. }, Request::Vector(request), Event::Vector(event)) => {
            lemma_packing_step(contents, request, packing, task->inputs, event);
        },
        (PairView::Running, _, Event::Pair(reply)) => {
            if reply.succeeded() {
                assert(history.take(before.len() as int) =~= before);
                assert(pair_given(contents, task, history, before.len() as int, reply.value));
            }
        },
        (PairView::First { second, unpacking }, Request::Vector(r), Event::Vector(event)) => {
            let (k, given) = choose|k: int, given: (E::VectorArray, E::VectorArray)|
                {
                    &&& #[trigger] pair_given(contents, task, before, k, given)
                    &&& second == given.1
                    &&& unpacking_holds(contents, request, unpacking, given.0)
                };
            lemma_unpacking_step(contents, r, unpacking, given.0, event);
            lemma_pair_given_later(contents, task, history, k, given);
        },
        (PairView::Second { first, unpacking }, Request::Vector(r), Event::Vector(event)) => {
            let (k, given) = choose|k: int, given: (E::VectorArray, E::VectorArray)|
                {
                    &&& #[trigger] pair_given(contents, task, before, k, given)
                    &&& first == contents(given.0)
                    &&& unpacking_holds(contents, request, unpacking, given.1)
                };
            lemma_unpacking_step(contents, r, unpacking, given.1, event);
            lemma_pair_given_later(contents, task, history, k, given);
        },
        _ => {},
    }
}

proof fn lemma_pair_run<E: Engine>(
    contents: spec_fn(E::VectorArray) -> Seq<E::Array>,
    task: PairTask<E>,
    history: Seq<Taken<E>>,
)
    requires
        truthful(contents, pair_proceed(), task.start(), history),
    ensures
        pair_holds(contents, task, history, pair_run(task, history)),
    decreases history.len(),
{
    if history.len() > 0 {
        let before = history.drop_last();
        lemma_truthful_before(contents, pair_proceed(), task.start(), history);
        lemma_pair_run(contents, task, before);
        match pair_run::<E>(task, before) {
            Step::Perform(request, session) => {
                lemma_pair_step(contents, task, history, request, session);
            },
            Step::Done(_) => {},
        }
    } else {
        reveal(pair_holds);
    }
}

/// A session that gets two vectors from the engine gives just what the engine computed: if it
/// ends well, then at one point of its run it asked the engine for the task, with the arrays in
/// their order, and what it gives are the arrays of the two vectors that came back.
pub proof fn law_pair_gives_what_the_engine_computed<E: Engine>(
    contents: spec_fn(E::VectorArray) -> Seq<E::Array>,
    task: PairTask<E>,
    history: Seq<Taken<E>>,
)
    requires
        truthful(contents, pair_proceed(), task.start(), history),
        pair_run(task, history) matches Step::Done(result) && result is Ok,
    ensures
        exists|k: int, given: (E::VectorArray, E::VectorArray)|
            {
                &&& #[trigger] pair_given(contents, task, history, k, given)
                &&& pair_run(task, history) == Step::<
                    Request<'_, E>,
                    PairView<E>,
                    (Seq<E::Array>, Seq<E::Array>),
                >::Done(Ok((contents(given.0), contents(given.1))))
            },
{
    lemma_pair_run(contents, task, history);
    reveal(pair_holds);
}

/// The session packs arrays: the engine's own work has not begun.
pub open spec fn pair_packs<E: Engine>(session: PairView<E>) -> bool {
    session is Primals || session is Directions || session is Inputs
}

/// A session that gets two vectors from the engine fails just where an engine call fails, and
/// then at once. What it reports while it packs arrays is the error of the call; after that it is
/// the closure's error where there is one, and the slot is cleared. Else the slot stays as it is.
pub proof fn law_pair_fails_where_a_call_fails<'a, E: Engine>(
    session: PairView<E>,
    event: Event<E>,
    slot: Option<Exception>,
)
    requires
        pair_accepts(session, event),
    ensures
        event.succeeded() ==> {
            &&& !(pair_next::<'a, E>(session, event, slot).0 matches Step::Done(Err(_)))
            &&& pair_next::<'a, E>(session, event, slot).1 == slot
        },
        !event.succeeded() && pair_packs(session) ==> pair_next::<'a, E>(session, event, slot) == (
            Step::<Request<'a, E>, PairView<E>, (Seq<E::Array>, Seq<E::Array>)>::Done(
                Err(event.error()),
            ),
            slot,
        ),
        !event.succeeded() && !pair_packs(session) ==> pair_next::<'a, E>(session, event, slot) == (
            Step::<Request<'a, E>, PairView<E>, (Seq<E::Array>, Seq<E::Array>)>::Done(
                Err(reported(slot, event.error())),
            ),
            None::<Exception>,
        ),
{
}

/// The session takes the answers to the request, and nothing else.
pub open spec fn pair_takes_just_answers<E: Engine>(
    request: Request<'_, E>,
    session: PairView<E>,
) -> bool {
    forall|event: Event<E>|
        #![trigger answers(request, event)]
        #![trigger pair_accepts(session, event)]
        pair_accepts(session, event) == (answers(request, event) && event.wf())
}

/// A session that gets two vectors from the engine is never stuck: as long as each request has
/// been answered, it takes whatever
/// answers the next, and nothing else.
pub proof fn law_pair_takes_just_the_answers<E: Engine>(task: PairTask<E>, history: Seq<Taken<E>>)
    requires
        answered(pair_proceed(), task.start(), history),
    ensures
        pair_run(task, history) matches Step::Perform(request, session) ==> pair_takes_just_answers(
            request,
            session,
        ),
    decreases history.len(),
{
    if history.len() > 0 {
        lemma_answered_before(pair_proceed(), task.start(), history);
        law_pair_takes_just_the_answers(task, history.drop_last());
    }
}

/// A run of such a session fails only by its last engine call, and reports the error of that call
/// or of a closure.
pub proof fn law_pair_run_fails_only_by_its_last_call<E: Engine>(
    task: PairTask<E>,
    history: Seq<Taken<E>>,
)
    requires
        answered(pair_proceed(), task.start(), history),
    ensures
        pair_run(task, history) matches Step::Done(Err(error)) ==> {
            &&& history.len() > 0
            &&& !history.last().0.succeeded()
            &&& error == history.last().0.error() || Some(error) == history.last().1
        },
{
    if history.len() > 0 {
        lemma_answered_before(pair_proceed(), task.start(), history);
        law_pair_takes_just_the_answers(task, history.drop_last());
        match pair_run::<E>(task, history.drop_last()) {
            Step::Perform(_, session) => {
                law_pair_fails_where_a_call_fails(session, history.last().0, history.last().1);
            },
            Step::Done(_) => {},
        }
    }
}

/// What a session has left to do: stages, and engine calls in this stage.
pub open spec fn pair_left<E: Engine>(session: PairView<E>) -> (nat, nat) {
    match session {
        PairView::Primals { packing, .. } => (7, packing.pending().len()),
        PairView::Directions { packing, .. } => (6, packing.pending().len()),
        PairView::Inputs { packing, .. } => (6, packing.pending().len()),
        PairView::Running => (5, 0),
        PairView::First { unpacking: UnpackingView::Counting, .. } => (4, 0),
        PairView::First { unpacking: UnpackingView::Reading { values, size }, .. } => (
            3,
            unread(values, size),
        ),
        PairView::Second { unpacking: UnpackingView::Counting, .. } => (2, 0),
        PairView::Second { unpacking: UnpackingView::Reading { values, size }, .. } => (
            1,
            unread(values, size),
        ),
    }
}

/// A session that gets two vectors from the engine comes to an end: with each event that it
/// takes, less is left to do.
pub proof fn law_pair_comes_to_an_end<'a, E: Engine>(
    session: PairView<E>,
    event: Event<E>,
    slot: Option<Exception>,
)
    requires
        pair_accepts(session, event),
    ensures
        pair_next::<'a, E>(session, event, slot).0 matches Step::Perform(_, rest) ==> less_left(
            pair_left(rest),
            pair_left(session),
        ),
{
}

/// Where closures that the engine called have failed, the failure of the engine's call is
/// reported as the error of the last of them, not as the engine's own, and no error stays behind.
pub proof fn law_pair_reports_the_closures_error<'a, E: Engine>(
    slot: Option<Exception>,
    results: Seq<Result<Vec<E::Array>, Exception>>,
    last: int,
    reply: Reply<(E::VectorArray, E::VectorArray)>,
)
    requires
        0 <= last < results.len(),
        results[last] is Err,
        forall|i: int| last < i < results.len() ==> #[trigger] results[i] is Ok,
        !reply.succeeded(),
    ensures
        pair_next::<'a, E>(
            PairView::Running,
            Event::Pair(reply),
            left_behind(slot, results),
        ) == (
            Step::<Request<'a, E>, PairView<E>, (Seq<E::Array>, Seq<E::Array>)>::Done(
                Err(results[last]->Err_0),
            ),
            None::<Exception>,
        ),
{
    lemma_left_behind(slot, results, last);
}

/// Where no closure has failed and the slot was empty, the error of the engine's call is reported.
pub proof fn law_pair_reports_the_engines_error<'a, E: Engine>(
    results: Seq<Result<Vec<E::Array>, Exception>>,
    reply: Reply<(E::VectorArray, E::VectorArray)>,
)
    requires
        forall|i: int| 0 <= i < results.len() ==> #[trigger] results[i] is Ok,
        reply.wf(),
        !reply.succeeded(),
    ensures
        pair_next::<'a, E>(PairView::Running, Event::Pair(reply), left_behind(None, results)) == (
            Step::<Request<'a, E>, PairView<E>, (Seq<E::Array>, Seq<E::Array>)>::Done(
                Err(reply.error->Some_0),
            ),
            None::<Exception>,
        ),
{
    lemma_nothing_left_behind(None, results);
}

/// The request asks the engine for its own work, not for a vector.
pub open spec fn is_pair_work<E: Engine>(request: Request<'_, E>) -> bool {
    request is Jvp || request is Vjp || request is ValueAndGrad
}

spec fn work_is_behind<E: Engine>(step: PairStepView<'_, E>) -> bool {
    match step {
        Step::Perform(request, session) => {
            &&& !is_pair_work(request)
            &&& session is First || session is Second
        },
        Step::Done(_) => true,
    }
}

spec fn works_while_running<E: Engine>(step: PairStepView<'_, E>) -> bool {
    step matches Step::Perform(request, session) ==> is_pair_work(request) == (session is Running)
}

proof fn lemma_works_while_running<E: Engine>(task: PairTask<E>, history: Seq<Taken<E>>)
    requires
        answered(pair_proceed(), task.start(), history),
    ensures
        works_while_running(pair_run(task, history)),
    decreases history.len(),
{
    if history.len() > 0 {
        lemma_answered_before(pair_proceed(), task.start(), history);
        law_pair_takes_just_the_answers(task, history.drop_last());
        lemma_works_while_running(task, history.drop_last());
    }
}

/// In one run the engine is asked for its own work at most once.
pub proof fn law_pair_asks_the_engine_once<E: Engine>(
    task: PairTask<E>,
    history: Seq<Taken<E>>,
    i: int,
    j: int,
)
    requires
        answered(pair_proceed(), task.start(), history),
        0 <= i < j <= history.len(),
        pair_run(task, history.take(i)) matches Step::Perform(request, _) && is_pair_work(request),
    ensures
        pair_run(task, history.take(j)) matches Step::Perform(request, _) ==> !is_pair_work(
            request,
        ),
{
    lemma_work_stays_behind(task, history, i, j);
}

proof fn lemma_work_stays_behind<E: Engine>(
    task: PairTask<E>,
    history: Seq<Taken<E>>,
    i: int,
    j: int,
)
    requires
        answered(pair_proceed(), task.start(), history),
        0 <= i < j <= history.len(),
        pair_run(task, history.take(i)) matches Step::Perform(request, _) && is_pair_work(request),
    ensures
        work_is_behind(pair_run(task, history.take(j))),
    decreases j,
{
    lemma_answered_prefix(pair_proceed(), task.start(), history, j - 1);
    lemma_answered_prefix(pair_proceed(), task.start(), history, j);
    assert(history.take(j).drop_last() =~= history.take(j - 1));
    lemma_answered_before(pair_proceed(), task.start(), history.take(j));
    law_pair_takes_just_the_answers(task, history.take(j - 1));
    if j == i + 1 {
        lemma_works_while_running(task, history.take(i));
    } else {
        lemma_work_stays_behind(task, history, i, j - 1);
    }
}

/// A session that gets two vectors from the engine reads only what is there: whatever it has been
/// answered, the array that it asks for stands at an index of the vector that it reads.
pub proof fn law_pair_reads_only_what_is_there<E: Engine>(
    contents: spec_fn(E::VectorArray) -> Seq<E::Array>,
    task: PairTask<E>,
    history: Seq<Taken<E>>,
)
    requires
        truthful(contents, pair_proceed(), task.start(), history),
    ensures
        pair_run(task, history) matches Step::Perform(
            Request::Vector(VectorRequest::Get(vector, index)),
            _,
        ) ==> index < contents(vector).len(),
{
    lemma_pair_run(contents, task, history);
    reveal(pair_holds);
}

/// What such a session asks of the engine, other than for vectors, is just its task: the closure
/// is its own, and the vectors hold its arrays, in their order.
pub proof fn law_pair_asks_for_its_task<E: Engine>(
    contents: spec_fn(E::VectorArray) -> Seq<E::Array>,
    task: PairTask<E>,
    history: Seq<Taken<E>>,
)
    requires
        truthful(contents, pair_proceed(), task.start(), history),
    ensures
        pair_run(task, history) matches Step::Perform(request, _) ==> request is Vector
            || task.is_asked_by(contents, request),
{
    lemma_pair_run(contents, task, history);
    reveal(pair_holds);
}

/// A run whose engine call failed after closures that it called had failed ends with the error of
/// the last of them, whatever the engine says of its own failure.
pub proof fn law_pair_run_ends_with_the_closures_error<E: Engine>(
    task: PairTask<E>,
    history: Seq<Taken<E>>,
    slot: Option<Exception>,
    results: Seq<Result<Vec<E::Array>, Exception>>,
    last: int,
)
    requires
        answered(pair_proceed(), task.start(), history),
        history.len() > 0,
        pair_run(task, history.drop_last()) matches Step::Perform(request, _) && is_pair_work(
            request,
        ),
        !history.last().0.succeeded(),
        history.last().1 == left_behind(slot, results),
        0 <= last < results.len(),
        results[last] is Err,
        forall|i: int| last < i < results.len() ==> #[trigger] results[i] is Ok,
    ensures
        pair_run(task, history) == Step::<
            Request<'_, E>,
            PairView<E>,
            (Seq<E::Array>, Seq<E::Array>),
        >::Done(Err(results[last]->Err_0)),
{
    lemma_answered_before(pair_proceed(), task.start(), history);
    law_pair_takes_just_the_answers(task, history.drop_last());
    lemma_works_while_running(task, history.drop_last());
    lemma_left_behind(slot, results, last);
}

/// The request, with another closure in place of its own.
pub open spec fn request_with_closure<'a, E: Engine>(
    request: Request<'a, E>,
    closure: E::Closure,
) -> Request<'a, E> {
    match request {
        Request::Jvp { closure: _, primals, tangents } => Request::Jvp {
            closure,
            primals,
            tangents,
        },
        Request::Vjp { closure: _, primals, cotangents } => Request::Vjp {
            closure,
            primals,
            cotangents,
        },
        _ => request,
    }
}

/// The step, with another closure in place of its own. An outcome holds none.
pub open spec fn step_with_closure<'a, E: Engine>(
    step: PairStepView<'a, E>,
    closure: E::Closure,
) -> PairStepView<'a, E> {
    match step {
        Step::Perform(request, session) => Step::Perform(
            request_with_closure(request, closure),
            match session {
                PairView::Primals { product, closure: _, packing, directions } => {
                    PairView::Primals { product, closure, packing, directions }
                },
                PairView::Directions { product, closure: _, primals, packing } => {
                    PairView::Directions { product, closure, primals, packing }
                },
                _ => session,
            },
        ),
        Step::Done(result) => Step::Done(result),
    }
}

/// The result is one that a closure which cannot fail has returned.
pub open spec fn of_infallible<A, F: FnMut(&[A]) -> Vec<A>>(
    result: Result<Vec<A>, Exception>,
) -> bool {
    exists|closure: Closure<F>, inputs: &[A]| closure.may_return(inputs, result)
}

/// The result is one that a closure which can fail, but did not, has returned.
pub open spec fn of_fallible<A, F: FnMut(&[A]) -> Result<Vec<A>, Exception>>(
    result: Result<Vec<A>, Exception>,
) -> bool {
    &&& result is Ok
    &&& exists|closure: FallibleClosure<F>, inputs: &[A]| closure.may_return(inputs, result)
}

/// The slot was empty at first, and then holds what the calls of the closures have left behind.
pub open spec fn slots_of_calls<E: Engine>(
    history: Seq<Taken<E>>,
    results: Seq<Seq<Result<Vec<E::Array>, Exception>>>,
) -> bool {
    &&& results.len() == history.len()
    &&& forall|k: int|
        0 <= k < history.len() ==> (#[trigger] history[k]).1 == left_behind(None, results[k])
}

proof fn lemma_same_but_for_the_closure<E: Engine>(
    product: Product,
    closure: E::Closure,
    other: E::Closure,
    primals: Seq<E::Array>,
    directions: Seq<E::Array>,
    history: Seq<Taken<E>>,
)
    requires
        answered(
            pair_proceed(),
            product_start(product, other, primals, directions),
            history,
        ),
    ensures
        pair_run(PairTask::Product { product, closure, primals, directions }, history)
            == step_with_closure(
            pair_run(
                PairTask::Product { product, closure: other, primals, directions },
                history,
            ),
            closure,
        ),
    decreases history.len(),
{
    if history.len() > 0 {
        let task = PairTask::<E>::Product { product, closure: other, primals, directions };
        let before = history.drop_last();
        lemma_answered_before(pair_proceed(), task.start(), history);
        lemma_same_but_for_the_closure(product, closure, other, primals, directions, before);
        law_pair_takes_just_the_answers(task, before);
    }
}

/// A fallible product of a function that does not fail is like the infallible one: where the
/// engine answers the calls of both alike, both make the same requests but for the closure that
/// they hold, step by step, and come to the same outcome.
pub proof fn law_fallible_products_are_like_infallible_ones<
    E: Engine,
    F: FnMut(&[E::Array]) -> Vec<E::Array>,
    G: FnMut(&[E::Array]) -> Result<Vec<E::Array>, Exception>,
>(
    product: Product,
    infallible: E::Closure,
    fallible: E::Closure,
    primals: Seq<E::Array>,
    directions: Seq<E::Array>,
    history: Seq<Taken<E>>,
    results: Seq<Seq<Result<Vec<E::Array>, Exception>>>,
    fallible_history: Seq<Taken<E>>,
    fallible_results: Seq<Seq<Result<Vec<E::Array>, Exception>>>,
)
    requires
        answered(
            pair_proceed(),
            product_start(product, fallible, primals, directions),
            fallible_history,
        ),
        history.len() == fallible_history.len(),
        forall|k: int|
            0 <= k < history.len() ==> (#[trigger] history[k]).0 == fallible_history[k].0,
        slots_of_calls(history, results),
        slots_of_calls(fallible_history, fallible_results),
        forall|k: int, i: int|
            0 <= k < results.len() && 0 <= i < results[k].len() ==> of_infallible::<E::Array, F>(
                #[trigger] results[k][i],
            ),
        forall|k: int, i: int|
            0 <= k < fallible_results.len() && 0 <= i < fallible_results[k].len() ==> of_fallible::<
                E::Array,
                G,
            >(#[trigger] fallible_results[k][i]),
    ensures
        pair_run(
            PairTask::Product { product, closure: infallible, primals, directions },
            history,
        ) == step_with_closure(
            pair_run(
                PairTask::Product { product, closure: fallible, primals, directions },
                fallible_history,
            ),
            infallible,
        ),
        pair_run(
            PairTask::Product { product, closure: fallible, primals, directions },
            fallible_history,
        ) matches Step::Done(result) ==> pair_run(
            PairTask::Product { product, closure: infallible, primals, directions },
            history,
        ) == Step::<Request<'_, E>, PairView<E>, (Seq<E::Array>, Seq<E::Array>)>::Done(result),
{
    assert forall|k: int| 0 <= k < history.len() implies history[k] == fallible_history[k] by {
        lemma_nothing_left_behind(None, results[k]);
        lemma_nothing_left_behind(None, fallible_results[k]);
        assert(history[k].1 is None);
        assert(fallible_history[k].1 is None);
    }
    assert(history =~= fallible_history);
    lemma_same_but_for_the_closure(product, infallible, fallible, primals, directions, history);
}

} // verus!
