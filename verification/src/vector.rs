//! Vectors of arrays: packing arrays into one, and reading the arrays of one back.

use vstd::pervasive::unreached;
use vstd::prelude::*;

use crate::engine::{Engine, VectorEvent, VectorRequest};
use crate::guard::try_from_op;
use crate::step::Step;

verus! {

/// References to the arrays of a slice, in their order.
pub fn references<'a, A>(arrays: &'a [A]) -> (references: Vec<&'a A>)
    ensures
        references@.unref() == arrays@,
{
    let mut references: Vec<&'a A> = Vec::new();
    let mut i: usize = 0;
    while i < arrays.len()
        invariant
            i <= arrays.len(),
            references@.len() == i,
            forall|j: int| 0 <= j < i ==> *#[trigger] references@[j] == arrays@[j],
        decreases arrays.len() - i,
    {
        references.push(&arrays[i]);
        i = i + 1;
    }
    assert(references@.unref() =~= arrays@);
    references
}

/// A session that packs arrays into a vector, one append at a time.
pub struct Packing<'a, E: Engine> {
    arrays: Vec<&'a E::Array>,
    next: usize,
    created: bool,
}

/// The view of a [`Packing`]: the pending call, and the arrays that are still to be appended once
/// it is answered.
pub enum PackingView<A> {
    /// The vector is being made.
    Creating { pending: Seq<A> },
    /// An array is being appended.
    Appending { pending: Seq<A> },
}

impl<A> PackingView<A> {
    /// The arrays that are still to be appended.
    pub open spec fn pending(self) -> Seq<A> {
        match self {
            PackingView::Creating { pending } => pending,
            PackingView::Appending { pending } => pending,
        }
    }
}

impl<'a, E: Engine> View for Packing<'a, E> {
    type V = PackingView<E::Array>;

    closed spec fn view(&self) -> PackingView<E::Array> {
        let pending = self.arrays@.unref().skip(self.next as int);
        if self.created {
            PackingView::Appending { pending }
        } else {
            PackingView::Creating { pending }
        }
    }
}

/// The step of a packing session that holds the vector and has these arrays left.
pub open spec fn packing_from<'a, E: Engine>(
    vector: E::VectorArray,
    pending: Seq<E::Array>,
) -> Step<VectorRequest<'a, E>, PackingView<E::Array>, E::VectorArray> {
    if pending.len() == 0 {
        Step::Done(Ok(vector))
    } else {
        Step::Perform(
            VectorRequest::Append(vector, &pending.first()),
            PackingView::Appending { pending: pending.drop_first() },
        )
    }
}

/// The step of a packing session after an event.
pub open spec fn packing_next<'a, E: Engine>(
    session: PackingView<E::Array>,
    event: VectorEvent<E>,
) -> Step<VectorRequest<'a, E>, PackingView<E::Array>, E::VectorArray> {
    match (session, event) {
        (PackingView::Creating { pending }, VectorEvent::Created(vector)) => packing_from(
            vector,
            pending,
        ),
        (PackingView::Appending { pending }, VectorEvent::Appended(reply)) => {
            match reply.outcome() {
                Ok(vector) => packing_from(vector, pending),
                Err(error) => Step::Done(Err(error)),
            }
        },
        _ => arbitrary(),
    }
}

/// The events that a packing session takes.
pub open spec fn packing_accepts<E: Engine>(
    session: PackingView<E::Array>,
    event: VectorEvent<E>,
) -> bool {
    &&& event.wf()
    &&& match session {
        PackingView::Creating { .. } => event is Created,
        PackingView::Appending { .. } => event is Appended,
    }
}

/// Starts to pack arrays into a vector, in their order: the first request, and the session.
pub fn try_from_iter<'a, E: Engine>(arrays: Vec<&'a E::Array>) -> (r: (
    VectorRequest<'a, E>,
    Packing<'a, E>,
))
    ensures
        r.0 == VectorRequest::<E>::New,
        r.1@ == (PackingView::Creating { pending: arrays@.unref() }),
{
    let packing = Packing { arrays, next: 0, created: false };
    assert(packing@.pending() =~= arrays@.unref());
    (VectorRequest::New, packing)
}

impl<'a, E: Engine> Packing<'a, E> {
    #[verifier::type_invariant]
    spec fn inv(self) -> bool {
        self.next <= self.arrays@.len()
    }

    fn proceed(self, vector: E::VectorArray) -> (step: Step<
        VectorRequest<'a, E>,
        Packing<'a, E>,
        E::VectorArray,
    >)
        ensures
            step.session_view() == packing_from::<E>(vector, self@.pending()),
    {
        proof {
            use_type_invariant(&self);
        }
        if self.next == self.arrays.len() {
            Step::Done(Ok(vector))
        } else {
            let array = self.arrays[self.next];
            let rest = Packing { next: self.next + 1, arrays: self.arrays, created: true };
            assert(rest@.pending() =~= self@.pending().drop_first());
            Step::Perform(VectorRequest::Append(vector, array), rest)
        }
    }

    /// Whether the session takes the event.
    pub fn accepts(&self, event: &VectorEvent<E>) -> (accepts: bool)
        ensures
            accepts == packing_accepts(self@, *event),
    {
        match event {
            VectorEvent::Created(_) => !self.created,
            VectorEvent::Appended(reply) => self.created && reply.is_wf(),
            _ => false,
        }
    }

    /// Takes the answer to the pending request. The first append that fails ends the session.
    pub fn resume(self, event: VectorEvent<E>) -> (step: Step<
        VectorRequest<'a, E>,
        Packing<'a, E>,
        E::VectorArray,
    >)
        requires
            packing_accepts(self@, event),
        ensures
            step.session_view() == packing_next::<E>(self@, event),
    {
        match event {
            VectorEvent::Created(vector) => self.proceed(vector),
            VectorEvent::Appended(reply) => match try_from_op(reply) {
                Ok(vector) => self.proceed(vector),
                Err(error) => Step::Done(Err(error)),
            },
            _ => unreached(),
        }
    }
}

/// A session that reads the arrays of a vector, one at a time.
pub enum Unpacking<E: Engine> {
    /// The number of arrays is being counted.
    Counting,
    /// The array behind those in `values` is being read, out of `size`.
    Reading { values: Vec<E::Array>, size: usize },
}

/// The view of an [`Unpacking`].
pub enum UnpackingView<A> {
    Counting,
    Reading { values: Seq<A>, size: nat },
}

impl<E: Engine> View for Unpacking<E> {
    type V = UnpackingView<E::Array>;

    open spec fn view(&self) -> UnpackingView<E::Array> {
        match *self {
            Unpacking::Counting => UnpackingView::Counting,
            Unpacking::Reading { values, size } => UnpackingView::Reading {
                values: values@,
                size: size as nat,
            },
        }
    }
}

/// The step of an unpacking session that holds the vector and has read these arrays.
pub open spec fn unpacking_from<'a, E: Engine>(
    vector: E::VectorArray,
    values: Seq<E::Array>,
    size: nat,
) -> Step<VectorRequest<'a, E>, UnpackingView<E::Array>, Seq<E::Array>> {
    if values.len() >= size {
        Step::Done(Ok(values))
    } else {
        Step::Perform(
            VectorRequest::Get(vector, values.len() as usize),
            UnpackingView::Reading { values, size },
        )
    }
}

/// The step of an unpacking session after an event.
pub open spec fn unpacking_next<'a, E: Engine>(
    session: UnpackingView<E::Array>,
    event: VectorEvent<E>,
) -> Step<VectorRequest<'a, E>, UnpackingView<E::Array>, Seq<E::Array>> {
    match (session, event) {
        (UnpackingView::Counting, VectorEvent::Counted(vector, size)) => unpacking_from(
            vector,
            Seq::empty(),
            size as nat,
        ),
        (UnpackingView::Reading { values, size }, VectorEvent::Read(vector, reply)) => {
            match reply.outcome() {
                Ok(value) => unpacking_from(vector, values.push(value), size),
                Err(error) => Step::Done(Err(error)),
            }
        },
        _ => arbitrary(),
    }
}

/// The events that an unpacking session takes.
pub open spec fn unpacking_accepts<E: Engine>(
    session: UnpackingView<E::Array>,
    event: VectorEvent<E>,
) -> bool {
    &&& event.wf()
    &&& match session {
        UnpackingView::Counting => event is Counted,
        UnpackingView::Reading { .. } => event is Read,
    }
}

/// Starts to read the arrays of a vector, in their order: the first request, and the session.
pub fn try_into_values<'a, E: Engine>(vector: E::VectorArray) -> (r: (
    VectorRequest<'a, E>,
    Unpacking<E>,
))
    ensures
        r.0 == VectorRequest::<E>::Size(vector),
        r.1@ == UnpackingView::<E::Array>::Counting,
{
    (VectorRequest::Size(vector), Unpacking::Counting)
}

impl<E: Engine> Unpacking<E> {
    fn proceed<'a>(vector: E::VectorArray, values: Vec<E::Array>, size: usize) -> (step: Step<
        VectorRequest<'a, E>,
        Unpacking<E>,
        Vec<E::Array>,
    >)
        ensures
            step@ == unpacking_from::<E>(vector, values@, size as nat),
    {
        let index: usize = values.len();
        if index >= size {
            Step::Done(Ok(values))
        } else {
            Step::Perform(VectorRequest::Get(vector, index), Unpacking::Reading { values, size })
        }
    }

    /// Whether the session takes the event.
    pub fn accepts(&self, event: &VectorEvent<E>) -> (accepts: bool)
        ensures
            accepts == unpacking_accepts(self@, *event),
    {
        match (self, event) {
            (Unpacking::Counting, VectorEvent::Counted(_, _)) => true,
            (Unpacking::Reading { .. }, VectorEvent::Read(_, reply)) => reply.is_wf(),
            _ => false,
        }
    }

    /// Takes the answer to the pending request. The first read that fails ends the session.
    pub fn resume<'a>(self, event: VectorEvent<E>) -> (step: Step<
        VectorRequest<'a, E>,
        Unpacking<E>,
        Vec<E::Array>,
    >)
        requires
            unpacking_accepts(self@, event),
        ensures
            step@ == unpacking_next::<E>(self@, event),
    {
        match (self, event) {
            (Unpacking::Counting, VectorEvent::Counted(vector, size)) => Self::proceed(
                vector,
                Vec::new(),
                size,
            ),
            (Unpacking::Reading { mut values, size }, VectorEvent::Read(vector, reply)) => {
                match try_from_op(reply) {
                    Ok(value) => {
                        values.push(value);
                        Self::proceed(vector, values, size)
                    },
                    Err(error) => Step::Done(Err(error)),
                }
            },
            _ => unreached(),
        }
    }
}

} // verus!
