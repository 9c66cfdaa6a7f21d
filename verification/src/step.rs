//! The shape that all sessions share: a request to perform, or the outcome.

use vstd::prelude::*;

use crate::error::Exception;

verus! {

/// Where a session stands: it waits for the engine to perform a request, or it is over.
pub enum Step<R, S, T> {
    /// The request to perform, and the session that takes the event which answers it.
    Perform(R, S),
    /// The session is over, with this outcome.
    Done(Result<T, Exception>),
}

/// A result, its value taken by its view.
pub open spec fn result_view<T: View>(result: Result<T, Exception>) -> Result<T::V, Exception> {
    match result {
        Ok(value) => Ok(value@),
        Err(error) => Err(error),
    }
}

impl<R, S: View, T> Step<R, S, T> {
    /// The step, its session taken by its view, for an outcome that is its own view.
    pub open spec fn session_view(self) -> Step<R, S::V, T> {
        match self {
            Step::Perform(request, session) => Step::Perform(request, session@),
            Step::Done(result) => Step::Done(result),
        }
    }
}

impl<R, S: View, T: View> View for Step<R, S, T> {
    type V = Step<R, S::V, T::V>;

    open spec fn view(&self) -> Step<R, S::V, T::V> {
        match *self {
            Step::Perform(request, session) => Step::Perform(request, session@),
            Step::Done(result) => Step::Done(result_view(result)),
        }
    }
}

/// The step that a session has reached after a number of events: `next` takes a session and an
/// event to the next step. A session that is over stays so.
pub open spec fn run<R, S, T, Ev>(
    next: spec_fn(S, Ev) -> Step<R, S, T>,
    start: Step<R, S, T>,
    events: Seq<Ev>,
) -> Step<R, S, T>
    decreases events.len(),
{
    if events.len() == 0 {
        start
    } else {
        match run(next, start, events.drop_last()) {
            Step::Perform(_, session) => next(session, events.last()),
            Step::Done(result) => Step::Done(result),
        }
    }
}

/// The view of a step keeps the request and the error, and takes the session and the value by
/// their views.
pub proof fn law_views_keep_requests_and_errors<R, S: View, T: View>(step: Step<R, S, T>)
    ensures
        match step {
            Step::Perform(request, session) => {
                &&& step@ == Step::<R, S::V, T::V>::Perform(request, session@)
                &&& step.session_view() == Step::<R, S::V, T>::Perform(request, session@)
            },
            Step::Done(Ok(value)) => {
                &&& step@ == Step::<R, S::V, T::V>::Done(Ok(value@))
                &&& step.session_view() == Step::<R, S::V, T>::Done(Ok(value))
            },
            Step::Done(Err(error)) => {
                &&& step@ == Step::<R, S::V, T::V>::Done(Err(error))
                &&& step.session_view() == Step::<R, S::V, T>::Done(Err(error))
            },
        },
{
}

/// A run takes its events one by one: with none it is at its start, and a further event takes the
/// session that waits for it one step on, and a session that is over nowhere.
pub proof fn law_runs_take_one_event_at_a_time<R, S, T, Ev>(
    next: spec_fn(S, Ev) -> Step<R, S, T>,
    start: Step<R, S, T>,
    events: Seq<Ev>,
    event: Ev,
)
    ensures
        run(next, start, Seq::empty()) == start,
        run(next, start, events.push(event)) == match run(next, start, events) {
            Step::Perform(_, session) => next(session, event),
            Step::Done(result) => Step::Done(result),
        },
{
    assert(events.push(event).drop_last() =~= events);
}

} // verus!
