//! What a session asks of the engine, and how the engine answers.

use vstd::prelude::*;

use crate::error::Exception;
use crate::guard::Reply;

verus! {

/// The objects of an engine that sessions hold and hand back, without looking inside.
pub trait Engine: Sized {
    /// An array.
    type Array;

    /// A vector of arrays, as the engine's calls take and return it. A value stands for the
    /// vector with what it holds: an append takes one value and gives another.
    type VectorArray;

    /// A closure that the engine can call.
    type Closure;

    /// A closure that computes a value and its gradients.
    type ValueAndGrad: Copy;
}

/// A request on a vector of arrays. Each is one engine call.
pub enum VectorRequest<'a, E: Engine> {
    /// Make an empty vector.
    New,
    /// Append an array to the vector.
    Append(E::VectorArray, &'a E::Array),
    /// Count the arrays of the vector.
    Size(E::VectorArray),
    /// Read the array at an index of the vector.
    Get(E::VectorArray, usize),
}

/// The answer to a [`VectorRequest`]. It gives back the vector that the request held.
pub enum VectorEvent<E: Engine> {
    Created(E::VectorArray),
    Appended(Reply<E::VectorArray>),
    Counted(E::VectorArray, usize),
    Read(E::VectorArray, Reply<E::Array>),
}

/// A request to the engine. Each is one engine call.
pub enum Request<'a, E: Engine> {
    /// A request on a vector of arrays.
    Vector(VectorRequest<'a, E>),
    /// Evaluate the arrays of the vector.
    Eval(E::VectorArray),
    /// Start to evaluate the arrays of the vector.
    AsyncEval(E::VectorArray),
    /// Make a closure that computes the same as this one, and recomputes it when differentiated.
    Checkpoint(&'a E::Closure),
    /// Apply the closure to the inputs.
    Apply(E::Closure, E::VectorArray),
    /// Compute the outputs of the closure at the primals, and the Jacobian-vector products with
    /// the tangents.
    Jvp { closure: E::Closure, primals: E::VectorArray, tangents: E::VectorArray },
    /// Compute the outputs of the closure at the primals, and the vector-Jacobian products with
    /// the cotangents.
    Vjp { closure: E::Closure, primals: E::VectorArray, cotangents: E::VectorArray },
    /// Compute values and gradients at the inputs.
    ValueAndGrad(E::ValueAndGrad, E::VectorArray),
}

/// The answer to a [`Request`].
pub enum Event<E: Engine> {
    Vector(VectorEvent<E>),
    Evaluated(Reply<()>),
    Checkpointed(Reply<E::Closure>),
    Applied(Reply<E::VectorArray>),
    /// Two vectors: outputs and products, or values and gradients.
    Pair(Reply<(E::VectorArray, E::VectorArray)>),
}

impl<E: Engine> VectorEvent<E> {
    /// The reply that the event carries, if any, is well-formed.
    pub open spec fn wf(self) -> bool {
        match self {
            VectorEvent::Created(_) => true,
            VectorEvent::Appended(reply) => reply.wf(),
            VectorEvent::Counted(_, _) => true,
            VectorEvent::Read(_, reply) => reply.wf(),
        }
    }

    /// The engine call that the event answers did not fail.
    pub open spec fn succeeded(self) -> bool {
        match self {
            VectorEvent::Created(_) => true,
            VectorEvent::Appended(reply) => reply.succeeded(),
            VectorEvent::Counted(_, _) => true,
            VectorEvent::Read(_, reply) => reply.succeeded(),
        }
    }

    /// The error of an engine call that failed.
    pub open spec fn error(self) -> Exception {
        match self {
            VectorEvent::Appended(reply) => reply.error->Some_0,
            VectorEvent::Read(_, reply) => reply.error->Some_0,
            _ => arbitrary(),
        }
    }
}

impl<E: Engine> Event<E> {
    /// The reply that the event carries, if any, is well-formed.
    pub open spec fn wf(self) -> bool {
        match self {
            Event::Vector(event) => event.wf(),
            Event::Evaluated(reply) => reply.wf(),
            Event::Checkpointed(reply) => reply.wf(),
            Event::Applied(reply) => reply.wf(),
            Event::Pair(reply) => reply.wf(),
        }
    }

    /// The engine call that the event answers did not fail.
    pub open spec fn succeeded(self) -> bool {
        match self {
            Event::Vector(event) => event.succeeded(),
            Event::Evaluated(reply) => reply.succeeded(),
            Event::Checkpointed(reply) => reply.succeeded(),
            Event::Applied(reply) => reply.succeeded(),
            Event::Pair(reply) => reply.succeeded(),
        }
    }

    /// The error of an engine call that failed.
    pub open spec fn error(self) -> Exception {
        match self {
            Event::Vector(event) => event.error(),
            Event::Evaluated(reply) => reply.error->Some_0,
            Event::Checkpointed(reply) => reply.error->Some_0,
            Event::Applied(reply) => reply.error->Some_0,
            Event::Pair(reply) => reply.error->Some_0,
        }
    }
}

/// The event is of the kind that answers the request.
pub open spec fn answers_vector<E: Engine>(
    request: VectorRequest<'_, E>,
    event: VectorEvent<E>,
) -> bool {
    match request {
        VectorRequest::New => event is Created,
        VectorRequest::Append(_, _) => event is Appended,
        VectorRequest::Size(_) => event is Counted,
        VectorRequest::Get(_, _) => event is Read,
    }
}

/// The event is of the kind that answers the request.
pub open spec fn answers<E: Engine>(request: Request<'_, E>, event: Event<E>) -> bool {
    match request {
        Request::Vector(vector_request) => event matches Event::Vector(vector_event)
            && answers_vector(vector_request, vector_event),
        Request::Eval(_) => event is Evaluated,
        Request::AsyncEval(_) => event is Evaluated,
        Request::Checkpoint(_) => event is Checkpointed,
        Request::Apply(_, _) => event is Applied,
        Request::Jvp { .. } => event is Pair,
        Request::Vjp { .. } => event is Pair,
        Request::ValueAndGrad(_, _) => event is Pair,
    }
}

/// The event tells the truth about vectors whose contents are `contents`: a new vector is empty,
/// an append adds its array at the end, and a count or a read gives what the vector holds.
pub open spec fn faithful_vector<E: Engine>(
    contents: spec_fn(E::VectorArray) -> Seq<E::Array>,
    request: VectorRequest<'_, E>,
    event: VectorEvent<E>,
) -> bool {
    match (request, event) {
        (VectorRequest::New, VectorEvent::Created(vector)) => contents(vector) == Seq::<
            E::Array,
        >::empty(),
        (VectorRequest::Append(vector, array), VectorEvent::Appended(reply)) => reply.succeeded()
            ==> contents(reply.value) == contents(vector).push(*array),
        (VectorRequest::Size(vector), VectorEvent::Counted(back, size)) => back == vector && size
            == contents(vector).len(),
        (VectorRequest::Get(vector, index), VectorEvent::Read(back, reply)) => {
            &&& back == vector
            &&& reply.succeeded() ==> {
                &&& index < contents(vector).len()
                &&& reply.value == contents(vector)[index as int]
            }
        },
        _ => false,
    }
}

/// The event answers the request, and tells the truth about vectors of arrays.
pub open spec fn faithful<E: Engine>(
    contents: spec_fn(E::VectorArray) -> Seq<E::Array>,
    request: Request<'_, E>,
    event: Event<E>,
) -> bool {
    &&& answers(request, event)
    &&& event.wf()
    &&& (request matches Request::Vector(vector_request) ==> event matches Event::Vector(
        vector_event,
    ) && faithful_vector(contents, vector_request, vector_event))
}

/// An event that carries a reply succeeded where the status of the reply is zero, and else has the
/// error of the reply, without which it is not well-formed.
pub open spec fn tells<E: Engine, T>(event: Event<E>, reply: Reply<T>) -> bool {
    &&& event.succeeded() == (reply.status == 0)
    &&& event.wf() == (reply.status == 0 || reply.error is Some)
    &&& reply.status != 0 ==> event.error() == reply.error->Some_0
}

/// Events tell what their replies tell, and those that carry none succeeded.
pub proof fn law_events_tell_what_their_replies_tell<E: Engine>(event: Event<E>)
    ensures
        match event {
            Event::Vector(VectorEvent::Created(_)) => event.wf() && event.succeeded(),
            Event::Vector(VectorEvent::Appended(reply)) => tells(event, reply),
            Event::Vector(VectorEvent::Counted(_, _)) => event.wf() && event.succeeded(),
            Event::Vector(VectorEvent::Read(_, reply)) => tells(event, reply),
            Event::Evaluated(reply) => tells(event, reply),
            Event::Checkpointed(reply) => tells(event, reply),
            Event::Applied(reply) => tells(event, reply),
            Event::Pair(reply) => tells(event, reply),
        },
{
}

/// Whether an event answers a request depends on their kinds alone, and each request has answers
/// of one kind.
pub proof fn law_requests_are_answered_by_kind<E: Engine>(request: Request<'_, E>, event: Event<E>)
    ensures
        answers(request, event) == match event {
            Event::Vector(VectorEvent::Created(_)) => request matches Request::Vector(asked)
                && asked is New,
            Event::Vector(VectorEvent::Appended(_)) => request matches Request::Vector(asked)
                && asked is Append,
            Event::Vector(VectorEvent::Counted(_, _)) => request matches Request::Vector(asked)
                && asked is Size,
            Event::Vector(VectorEvent::Read(_, _)) => request matches Request::Vector(asked)
                && asked is Get,
            Event::Evaluated(_) => request is Eval || request is AsyncEval,
            Event::Checkpointed(_) => request is Checkpoint,
            Event::Applied(_) => request is Apply,
            Event::Pair(_) => request is Jvp || request is Vjp || request is ValueAndGrad,
        },
{
}

/// An engine that works is faithful: a new vector that is empty, an append that adds its array at
/// the end, a count of the arrays, a read of the array at an index, and the failure of any call
/// that can fail are all told faithfully, and so is whatever answers a call for other than a
/// vector.
pub proof fn law_true_answers_are_faithful<E: Engine>(
    contents: spec_fn(E::VectorArray) -> Seq<E::Array>,
    request: Request<'_, E>,
    event: Event<E>,
)
    requires
        answers(request, event),
        event.wf(),
        match (request, event) {
            (
                Request::Vector(VectorRequest::New),
                Event::Vector(VectorEvent::Created(vector)),
            ) => contents(vector).len() == 0,
            (
                Request::Vector(VectorRequest::Append(vector, array)),
                Event::Vector(VectorEvent::Appended(reply)),
            ) => reply.status == 0 ==> contents(reply.value) == contents(vector).push(*array),
            (
                Request::Vector(VectorRequest::Size(vector)),
                Event::Vector(VectorEvent::Counted(back, size)),
            ) => back == vector && size == contents(vector).len(),
            (
                Request::Vector(VectorRequest::Get(vector, index)),
                Event::Vector(VectorEvent::Read(back, reply)),
            ) => {
                &&& back == vector
                &&& reply.status == 0 ==> index < contents(vector).len() && reply.value == contents(
                    vector,
                )[index as int]
            },
            _ => true,
        },
    ensures
        faithful(contents, request, event),
{
    if let Event::Vector(VectorEvent::Created(vector)) = event {
        assert(contents(vector) =~= Seq::empty());
    }
}

} // verus!
