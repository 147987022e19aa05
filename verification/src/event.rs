//! The events that sticks send to the application.

use crate::behavior::StickValue;
use crate::stick::StickIdType;
use vstd::prelude::*;

verus! {

/// What a stick has just experienced.
#[derive(Clone, Copy, Debug, PartialEq, Eq, Structural)]
pub enum TouchStickEventType {
    /// The stick was activated.
    Press,
    /// The stick was moved.
    Drag,
    /// The stick was deactivated.
    Release,
}

/// Sent whenever a stick is pressed, dragged or released.
pub struct TouchStickEvent<S: StickIdType> {
    id: S,
    event: TouchStickEventType,
    value: StickValue,
}

impl<S: StickIdType> TouchStickEvent<S> {
    /// The identifier carried by the event.
    pub closed spec fn spec_id(&self) -> S {
        self.id
    }

    /// The value carried by the event.
    pub closed spec fn spec_value(&self) -> StickValue {
        self.value
    }

    /// The kind of the event.
    pub closed spec fn spec_get_type(&self) -> TouchStickEventType {
        self.event
    }

    /// The event is of kind `kind`, carries `value`, and its identifier is a
    /// clone of `id`.
    pub open spec fn reports(&self, id: S, kind: TouchStickEventType, value: StickValue) -> bool {
        &&& cloned(id, self.spec_id())
        &&& self.spec_get_type() == kind
        &&& self.spec_value() == value
    }

    /// An event of kind `event` from the stick named `id`.
    pub fn new(id: S, event: TouchStickEventType, value: StickValue) -> (e: Self)
        ensures
            e.spec_id() == id,
            e.spec_get_type() == event,
            e.spec_value() == value,
    {
        TouchStickEvent { id, event, value }
    }

    /// The identifier of the stick that sent the event.
    pub fn id(&self) -> (id: S)
        ensures
            cloned(self.spec_id(), id),
    {
        self.id.clone()
    }

    /// The value of the stick; its length is at most one.
    #[verifier::when_used_as_spec(spec_value)]
    pub fn value(&self) -> (value: StickValue)
        ensures
            value == self.spec_value(),
    {
        self.value
    }

    /// The kind of the event.
    #[verifier::when_used_as_spec(spec_get_type)]
    pub fn get_type(&self) -> (kind: TouchStickEventType)
        ensures
            kind == self.spec_get_type(),
    {
        self.event
    }
}

} // verus!
