//! Jacobian-vector and vector-Jacobian products, and values with their gradients.
//!
//! All three hand the engine a closure and vectors of arrays, and get two vectors back.

use vstd::pervasive::unreached;
use vstd::prelude::*;

use crate::closure::{Closure, FallibleClosure};
use crate::engine::{Engine, Event, Request, VectorEvent, VectorRequest};
use crate::error::{report, reported, ClosureError, Exception};
use crate::guard::try_from_op;
use crate::step::Step;
use crate::vector::{
    packing_accepts, packing_next, references, try_from_iter, try_into_values, unpacking_accepts,
    unpacking_next, Packing, PackingView, Unpacking, UnpackingView,
};

verus! {

/// Which product of a Jacobian is computed.
#[derive(Clone, Copy, Debug, PartialEq, Eq, Structural)]
pub enum Product {
    /// The Jacobian times the tangents.
    Jvp,
    /// The cotangents times the Jacobian.
    Vjp,
}

/// A product of a Jacobian that waits for its closure.
pub struct ProductCall<'a, E: Engine> {
    pub product: Product,
    /// The arrays at which the Jacobian is evaluated.
    pub primals: &'a [E::Array],
    /// The tangents or the cotangents.
    pub directions: &'a [E::Array],
}

enum Stage<'a, E: Engine> {
    Primals {
        product: Product,
        closure: E::Closure,
        packing: Packing<'a, E>,
        directions: Vec<&'a E::Array>,
    },
    Directions {
        product: Product,
        closure: E::Closure,
        primals: E::VectorArray,
        packing: Packing<'a, E>,
    },
    Inputs { value_and_grad: E::ValueAndGrad, packing: Packing<'a, E> },
    Running,
    First { second: E::VectorArray, unpacking: Unpacking<E> },
    Second { first: Vec<E::Array>, unpacking: Unpacking<E> },
}

/// A session that runs the engine on a closure and gets two vectors of arrays from it.
pub struct PairSession<'a, E: Engine> {
    stage: Stage<'a, E>,
}

/// The view of a [`PairSession`]: what has been done, and what is left to do.
pub enum PairView<E: Engine> {
    /// The primals are being packed.
    Primals {
        product: Product,
        closure: E::Closure,
        packing: PackingView<E::Array>,
        directions: Seq<E::Array>,
    },
    /// The tangents or the cotangents are being packed.
    Directions {
        product: Product,
        closure: E::Closure,
        primals: E::VectorArray,
        packing: PackingView<E::Array>,
    },
    /// The inputs of a value with gradients are being packed.
    Inputs { value_and_grad: E::ValueAndGrad, packing: PackingView<E::Array> },
    /// The engine is at work.
    Running,
    /// The first vector of the engine is being read.
    First { second: E::VectorArray, unpacking: UnpackingView<E::Array> },
    /// The second vector of the engine is being read.
    Second { first: Seq<E::Array>, unpacking: UnpackingView<E::Array> },
}

/// A step of a [`PairSession`].
pub type PairStep<'a, E: Engine> = Step<
    Request<'a, E>,
    PairSession<'a, E>,
    (Vec<E::Array>, Vec<E::Array>),
>;

/// The view of a [`PairStep`].
pub type PairStepView<'a, E: Engine> = Step<
    Request<'a, E>,
    PairView<E>,
    (Seq<E::Array>, Seq<E::Array>),
>;

impl<'a, E: Engine> View for PairSession<'a, E> {
    type V = PairView<E>;

    closed spec fn view(&self) -> PairView<E> {
        match self.stage {
            Stage::Primals { product, closure, packing, directions } => PairView::Primals {
                product,
                closure,
                packing: packing@,
                directions: directions@.unref(),
            },
            Stage::Directions { product, closure, primals, packing } => PairView::Directions {
                product,
                closure,
                primals,
                packing: packing@,
            },
            Stage::Inputs { value_and_grad, packing } => PairView::Inputs {
                value_and_grad,
                packing: packing@,
            },
            Stage::Running => PairView::Running,
            Stage::First { second, unpacking } => PairView::First { second, unpacking: unpacking@ },
            Stage::Second { first, unpacking } => PairView::Second {
                first: first@,
                unpacking: unpacking@,
            },
        }
    }
}

/// The events that a session takes.
pub open spec fn pair_accepts<E: Engine>(session: PairView<E>, event: Event<E>) -> bool {
    match session {
        PairView::Primals { packing, .. }
        | PairView::Directions { packing, .. }
        | PairView::Inputs { packing, .. } => {
            event matches Event::Vector(vector_event) && packing_accepts(packing, vector_event)
        },
        PairView::Running => event is Pair && event.wf(),
        PairView::First { unpacking, .. } | PairView::Second { unpacking, .. } => {
            event matches Event::Vector(vector_event) && unpacking_accepts(unpacking, vector_event)
        },
    }
}

/// The engine call that computes the product.
pub open spec fn product_request<'a, E: Engine>(
    product: Product,
    closure: E::Closure,
    primals: E::VectorArray,
    directions: E::VectorArray,
) -> Request<'a, E> {
    match product {
        Product::Jvp => Request::Jvp { closure, primals, tangents: directions },
        Product::Vjp => Request::Vjp { closure, primals, cotangents: directions },
    }
}

/// The first step of a product: the primals are packed before the directions.
pub open spec fn product_start<'a, E: Engine>(
    product: Product,
    closure: E::Closure,
    primals: Seq<E::Array>,
    directions: Seq<E::Array>,
) -> PairStepView<'a, E> {
    Step::Perform(
        Request::Vector(VectorRequest::New),
        PairView::Primals {
            product,
            closure,
            packing: PackingView::Creating { pending: primals },
            directions,
        },
    )
}

/// The first step of a value with gradients.
pub open spec fn value_and_gradient_start<'a, E: Engine>(
    value_and_grad: E::ValueAndGrad,
    inputs: Seq<E::Array>,
) -> PairStepView<'a, E> {
    Step::Perform(
        Request::Vector(VectorRequest::New),
        PairView::Inputs { value_and_grad, packing: PackingView::Creating { pending: inputs } },
    )
}

/// The next step of a session, and what is left in the slot of the closure's error.
///
/// An error while arrays are packed is reported as it is, and the slot stays as it was. An error
/// of the engine's own work, or while its vectors are read, gives way to the closure's error, and
/// the slot is cleared.
pub open spec fn pair_next<'a, E: Engine>(
    session: PairView<E>,
    event: Event<E>,
    slot: Option<Exception>,
) -> (PairStepView<'a, E>, Option<Exception>) {
    match (session, event) {
        (
            PairView::Primals { product, closure, packing, directions },
            Event::Vector(vector_event),
        ) => match packing_next::<E>(packing, vector_event) {
            Step::Perform(request, rest) => (
                Step::Perform(
                    Request::Vector(request),
                    PairView::Primals { product, closure, packing: rest, directions },
                ),
                slot,
            ),
            Step::Done(Ok(primals)) => (
                Step::Perform(
                    Request::Vector(VectorRequest::New),
                    PairView::Directions {
                        product,
                        closure,
                        primals,
                        packing: PackingView::Creating { pending: directions },
                    },
                ),
                slot,
            ),
            Step::Done(Err(error)) => (Step::Done(Err(error)), slot),
        },
        (
            PairView::Directions { product, closure, primals, packing },
            Event::Vector(vector_event),
        ) => match packing_next::<E>(packing, vector_event) {
            Step::Perform(request, rest) => (
                Step::Perform(
                    Request::Vector(request),
                    PairView::Directions { product, closure, primals, packing: rest },
                ),
                slot,
            ),
            Step::Done(Ok(directions)) => (
                Step::Perform(
                    product_request(product, closure, primals, directions),
                    PairView::Running,
                ),
                slot,
            ),
            Step::Done(Err(error)) => (Step::Done(Err(error)), slot),
        },
        (PairView::Inputs { value_and_grad, packing }, Event::Vector(vector_event)) => {
            match packing_next::<E>(packing, vector_event) {
                Step::Perform(request, rest) => (
                    Step::Perform(
                        Request::Vector(request),
                        PairView::Inputs { value_and_grad, packing: rest },
                    ),
                    slot,
                ),
                Step::Done(Ok(inputs)) => (
                    Step::Perform(Request::ValueAndGrad(value_and_grad, inputs), PairView::Running),
                    slot,
                ),
                Step::Done(Err(error)) => (Step::Done(Err(error)), slot),
            }
        },
        (PairView::Running, Event::Pair(reply)) => match reply.outcome() {
            Ok((first, second)) => (
                Step::Perform(
                    Request::Vector(VectorRequest::Size(first)),
                    PairView::First { second, unpacking: UnpackingView::Counting },
                ),
                slot,
            ),
            Err(error) => (Step::Done(Err(reported(slot, error))), None),
        },
        (PairView::First { second, unpacking }, Event::Vector(vector_event)) => {
            match unpacking_next::<E>(unpacking, vector_event) {
                Step::Perform(request, rest) => (
                    Step::Perform(
                        Request::Vector(request),
                        PairView::First { second, unpacking: rest },
                    ),
                    slot,
                ),
                Step::Done(Ok(first)) => (
                    Step::Perform(
                        Request::Vector(VectorRequest::Size(second)),
                        PairView::Second { first, unpacking: UnpackingView::Counting },
                    ),
                    slot,
                ),
                Step::Done(Err(error)) => (Step::Done(Err(reported(slot, error))), None),
            }
        },
        (PairView::Second { first, unpacking }, Event::Vector(vector_event)) => {
            match unpacking_next::<E>(unpacking, vector_event) {
                Step::Perform(request, rest) => (
                    Step::Perform(
                        Request::Vector(request),
                        PairView::Second { first, unpacking: rest },
                    ),
                    slot,
                ),
                Step::Done(Ok(second)) => (Step::Done(Ok((first, second))), slot),
                Step::Done(Err(error)) => (Step::Done(Err(reported(slot, error))), None),
            }
        },
        _ => arbitrary(),
    }
}

/// Computes the Jacobian-vector product.
///
/// This computes the product of the Jacobian of a function `f` evaluated at `primals` with the
/// `tangents`. The engine makes a closure of `f`; with it the call can start. The session ends
/// with the outputs of `f` and the Jacobian-vector products.
///
/// - `f`: function which takes arrays and returns arrays
/// - `primals`: arrays at which to evaluate the Jacobian
/// - `tangents`: arrays which are the "vector" in the Jacobian-vector product. The `tangents`
///   should be the same in number, shape and type as the inputs of `f`, e.g. the `primals`
pub fn jvp<'a, E: Engine, F: FnMut(&[E::Array]) -> Vec<E::Array>>(
    f: F,
    primals: &'a [E::Array],
    tangents: &'a [E::Array],
) -> (r: (Closure<F>, ProductCall<'a, E>))
    ensures
        r.0 == (Closure { f }),
        r.1 == (ProductCall::<E> { product: Product::Jvp, primals, directions: tangents }),
{
    let closure = Closure::new(f);
    (closure, ProductCall { product: Product::Jvp, primals, directions: tangents })
}

/// Similar to [`jvp`] but handles closures that can return an error.
pub fn fallible_jvp<'a, E: Engine, F: FnMut(&[E::Array]) -> Result<Vec<E::Array>, Exception>>(
    f: F,
    primals: &'a [E::Array],
    tangents: &'a [E::Array],
) -> (r: (FallibleClosure<F>, ProductCall<'a, E>))
    ensures
        r.0 == (FallibleClosure { f }),
        r.1 == (ProductCall::<E> { product: Product::Jvp, primals, directions: tangents }),
{
    let closure = FallibleClosure::new_fallible(f);
    (closure, ProductCall { product: Product::Jvp, primals, directions: tangents })
}

/// Computes the vector-Jacobian product.
///
/// This computes the product of the `cotangents` with the Jacobian of a function `f` evaluated at
/// `primals`. The engine makes a closure of `f`; with it the call can start. The session ends
/// with the outputs of `f` and the vector-Jacobian products.
///
/// - `f`: function which takes arrays and returns arrays
/// - `primals`: arrays at which to evaluate the Jacobian
/// - `cotangents`: arrays which are the "vector" in the vector-Jacobian product. The `cotangents`
///   should be the same in number, shape and type as the outputs of `f`
pub fn vjp<'a, E: Engine, F: FnMut(&[E::Array]) -> Vec<E::Array>>(
    f: F,
    primals: &'a [E::Array],
    cotangents: &'a [E::Array],
) -> (r: (Closure<F>, ProductCall<'a, E>))
    ensures
        r.0 == (Closure { f }),
        r.1 == (ProductCall::<E> { product: Product::Vjp, primals, directions: cotangents }),
{
    let closure = Closure::new(f);
    (closure, ProductCall { product: Product::Vjp, primals, directions: cotangents })
}

/// Similar to [`vjp`] but handles closures that can return an error.
pub fn fallible_vjp<'a, E: Engine, F: FnMut(&[E::Array]) -> Result<Vec<E::Array>, Exception>>(
    f: F,
    primals: &'a [E::Array],
    cotangents: &'a [E::Array],
) -> (r: (FallibleClosure<F>, ProductCall<'a, E>))
    ensures
        r.0 == (FallibleClosure { f }),
        r.1 == (ProductCall::<E> { product: Product::Vjp, primals, directions: cotangents }),
{
    let closure = FallibleClosure::new_fallible(f);
    (closure, ProductCall { product: Product::Vjp, primals, directions: cotangents })
}

impl<'a, E: Engine> ProductCall<'a, E> {
    /// Starts the product with the closure that the engine has made.
    pub fn start(self, closure: E::Closure) -> (step: PairStep<'a, E>)
        ensures
            step@ == product_start::<E>(self.product, closure, self.primals@, self.directions@),
    {
        match self.product {
            Product::Jvp => jvp_inner(closure, self.primals, self.directions),
            Product::Vjp => vjp_inner(closure, self.primals, self.directions),
        }
    }
}

/// The owner of a closure that computes a value and its gradients.
pub struct ClosureValueAndGrad<G> {
    pub c_closure_value_and_grad: G,
}

impl<G: Copy> ClosureValueAndGrad<G> {
    /// The engine's handle of the closure.
    pub fn as_ptr(&self) -> (handle: G)
        ensures
            handle == self.c_closure_value_and_grad,
    {
        self.c_closure_value_and_grad
    }
}

/// Starts the Jacobian-vector product of a closure that the engine has made.
pub fn jvp_inner<'a, E: Engine>(
    closure: E::Closure,
    primals: &'a [E::Array],
    tangents: &'a [E::Array],
) -> (step: PairStep<'a, E>)
    ensures
        step@ == product_start::<E>(Product::Jvp, closure, primals@, tangents@),
{
    PairSession::start_product(Product::Jvp, closure, primals, tangents)
}

/// Starts the vector-Jacobian product of a closure that the engine has made.
pub fn vjp_inner<'a, E: Engine>(
    closure: E::Closure,
    primals: &'a [E::Array],
    cotangents: &'a [E::Array],
) -> (step: PairStep<'a, E>)
    ensures
        step@ == product_start::<E>(Product::Vjp, closure, primals@, cotangents@),
{
    PairSession::start_product(Product::Vjp, closure, primals, cotangents)
}

/// Starts to compute values and gradients at the arrays.
pub fn value_and_gradient<'a, E: Engine>(
    value_and_grad: E::ValueAndGrad,
    arrays: Vec<&'a E::Array>,
) -> (step: PairStep<'a, E>)
    ensures
        step@ == value_and_gradient_start::<E>(value_and_grad, arrays@.unref()),
{
    let (request, packing) = try_from_iter::<E>(arrays);
    let stage = Stage::Inputs { value_and_grad, packing };
    Step::Perform(Request::Vector(request), PairSession { stage })
}

impl<'a, E: Engine> PairSession<'a, E> {
    fn start_product(
        product: Product,
        closure: E::Closure,
        primals: &'a [E::Array],
        directions: &'a [E::Array],
    ) -> (step: PairStep<'a, E>)
        ensures
            step@ == product_start::<E>(product, closure, primals@, directions@),
    {
        let (request, packing) = try_from_iter::<E>(references(primals));
        let directions = references(directions);
        let stage = Stage::Primals { product, closure, packing, directions };
        Step::Perform(Request::Vector(request), PairSession { stage })
    }

    /// Whether the session takes the event.
    pub fn accepts(&self, event: &Event<E>) -> (accepts: bool)
        ensures
            accepts == pair_accepts(self@, *event),
    {
        match (&self.stage, event) {
            (Stage::Primals { packing, .. }, Event::Vector(vector_event)) => {
                packing.accepts(vector_event)
            },
            (Stage::Directions { packing, .. }, Event::Vector(vector_event)) => {
                packing.accepts(vector_event)
            },
            (Stage::Inputs { packing, .. }, Event::Vector(vector_event)) => {
                packing.accepts(vector_event)
            },
            (Stage::Running, Event::Pair(reply)) => reply.is_wf(),
            (Stage::First { unpacking, .. }, Event::Vector(vector_event)) => {
                unpacking.accepts(vector_event)
            },
            (Stage::Second { unpacking, .. }, Event::Vector(vector_event)) => {
                unpacking.accepts(vector_event)
            },
            _ => false,
        }
    }

    /// Takes the answer to the pending request.
    pub fn resume(self, event: Event<E>, slot: &mut ClosureError) -> (step: PairStep<'a, E>)
        requires
            pair_accepts(self@, event),
        ensures
            (step@, final(slot)@) == pair_next::<E>(self@, event, old(slot)@),
    {
        match (self.stage, event) {
            (Stage::Primals { product, closure, packing, directions }, Event::Vector(event)) => {
                Self::resume_primals(product, closure, packing, directions, event)
            },
            (Stage::Directions { product, closure, primals, packing }, Event::Vector(event)) => {
                Self::resume_directions(product, closure, primals, packing, event)
            },
            (Stage::Inputs { value_and_grad, packing }, Event::Vector(event)) => {
                match packing.resume(event) {
                    Step::Perform(request, packing) => Step::Perform(
                        Request::Vector(request),
                        PairSession { stage: Stage::Inputs { value_and_grad, packing } },
                    ),
                    Step::Done(Ok(inputs)) => Step::Perform(
                        Request::ValueAndGrad(value_and_grad, inputs),
                        PairSession { stage: Stage::Running },
                    ),
                    Step::Done(Err(error)) => Step::Done(Err(error)),
                }
            },
            (Stage::Running, Event::Pair(reply)) => match try_from_op(reply) {
                Ok((first, second)) => {
                    let (request, unpacking) = try_into_values::<E>(first);
                    let stage = Stage::First { second, unpacking };
                    Step::Perform(Request::Vector(request), PairSession { stage })
                },
                Err(error) => Step::Done(Err(report(slot, error))),
            },
            (Stage::First { second, unpacking }, Event::Vector(event)) => {
                Self::resume_first(second, unpacking, event, slot)
            },
            (Stage::Second { first, unpacking }, Event::Vector(event)) => {
                Self::resume_second(first, unpacking, event, slot)
            },
            _ => unreached(),
        }
    }

    fn resume_primals(
        product: Product,
        closure: E::Closure,
        packing: Packing<'a, E>,
        directions: Vec<&'a E::Array>,
        event: VectorEvent<E>,
    ) -> (step: PairStep<'a, E>)
        requires
            packing_accepts(packing@, event),
        ensures
            forall|slot: Option<Exception>|
                (step@, slot) == #[trigger] pair_next::<E>(
                    PairView::Primals {
                        product,
                        closure,
                        packing: packing@,
                        directions: directions@.unref(),
                    },
                    Event::Vector(event),
                    slot,
                ),
    {
        match packing.resume(event) {
            Step::Perform(request, packing) => Step::Perform(
                Request::Vector(request),
                PairSession { stage: Stage::Primals { product, closure, packing, directions } },
            ),
            Step::Done(Ok(primals)) => {
                let (request, packing) = try_from_iter::<E>(directions);
                let stage = Stage::Directions { product, closure, primals, packing };
                Step::Perform(Request::Vector(request), PairSession { stage })
            },
            Step::Done(Err(error)) => Step::Done(Err(error)),
        }
    }

    fn resume_directions(
        product: Product,
        closure: E::Closure,
        primals: E::VectorArray,
        packing: Packing<'a, E>,
        event: VectorEvent<E>,
    ) -> (step: PairStep<'a, E>)
        requires
            packing_accepts(packing@, event),
        ensures
            forall|slot: Option<Exception>|
                (step@, slot) == #[trigger] pair_next::<E>(
                    PairView::Directions { product, closure, primals, packing: packing@ },
                    Event::Vector(event),
                    slot,
                ),
    {
        match packing.resume(event) {
            Step::Perform(request, packing) => Step::Perform(
                Request::Vector(request),
                PairSession { stage: Stage::Directions { product, closure, primals, packing } },
            ),
            Step::Done(Ok(directions)) => {
                let request = match product {
                    Product::Jvp => Request::Jvp { closure, primals, tangents: directions },
                    Product::Vjp => Request::Vjp { closure, primals, cotangents: directions },
                };
                Step::Perform(request, PairSession { stage: Stage::Running })
            },
            Step::Done(Err(error)) => Step::Done(Err(error)),
        }
    }

    fn resume_first(
        second: E::VectorArray,
        unpacking: Unpacking<E>,
        event: VectorEvent<E>,
        slot: &mut ClosureError,
    ) -> (step: PairStep<'a, E>)
        requires
            unpacking_accepts(unpacking@, event),
        ensures
            (step@, final(slot)@) == pair_next::<E>(
                PairView::First { second, unpacking: unpacking@ },
                Event::Vector(event),
                old(slot)@,
            ),
    {
        match unpacking.resume(event) {
            Step::Perform(request, unpacking) => Step::Perform(
                Request::Vector(request),
                PairSession { stage: Stage::First { second, unpacking } },
            ),
            Step::Done(Ok(first)) => {
                let (request, unpacking) = try_into_values::<E>(second);
                let stage = Stage::Second { first, unpacking };
                Step::Perform(Request::Vector(request), PairSession { stage })
            },
            Step::Done(Err(error)) => Step::Done(Err(report(slot, error))),
        }
    }

    fn resume_second(
        first: Vec<E::Array>,
        unpacking: Unpacking<E>,
        event: VectorEvent<E>,
        slot: &mut ClosureError,
    ) -> (step: PairStep<'a, E>)
        requires
            unpacking_accepts(unpacking@, event),
        ensures
            (step@, final(slot)@) == pair_next::<E>(
                PairView::Second { first: first@, unpacking: unpacking@ },
                Event::Vector(event),
                old(slot)@,
            ),
    {
        match unpacking.resume(event) {
            Step::Perform(request, unpacking) => Step::Perform(
                Request::Vector(request),
                PairSession { stage: Stage::Second { first, unpacking } },
            ),
            Step::Done(Ok(second)) => Step::Done(Ok((first, second))),
            Step::Done(Err(error)) => Step::Done(Err(report(slot, error))),
        }
    }
}

} // verus!
