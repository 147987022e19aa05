//! The state of one stick and the three transitions that a drag drives it
//! through: press, drag and release.

use crate::arith::norm_sq;
use crate::behavior::{
    clamp_offset, clamp_to_radius, compute_value, lemma_clamp_to_radius,
    lemma_clamp_to_radius_idempotent, lemma_stick_value_bounds, stick_value, StickValue,
    TouchStickType, VALUE_ONE,
};
use crate::geometry::{Point, Zone};
use vstd::prelude::*;
use vstd::std_specs::convert::FromSpecImpl;

verus! {

/// What an application-defined stick identifier has to offer.
pub trait StickIdType: core::hash::Hash + Sync + Send + Clone + Default + 'static {

}

impl<S: core::hash::Hash + Sync + Send + Clone + Default + 'static> StickIdType for S {

}

/// The radius, in input units, of a stick that was never given one.
pub const DEFAULT_MAX_RADIUS: u32 = 100;

/// Why a stick configuration was turned down.
#[derive(Clone, Copy, Debug, PartialEq, Eq, Structural)]
pub enum TouchStickConfigError {
    /// The dead zone is one or more.
    DeadZoneOutOfRange,
    /// The maximum radius is zero.
    NonPositiveMaxRadius,
}

/// The state of one virtual stick.
#[derive(Clone, Debug)]
pub struct TouchStick<S: StickIdType> {
    /// Identifies this stick to the application.
    pub id: S,
    /// The drag sequence that currently drives this stick, if any.
    pub drag_id: Option<u64>,
    /// Values shorter than this, in millionths, are reported as zero.
    pub dead_zone: u32,
    /// The drag distance, in input units, at which the value reaches length one.
    pub max_radius: u32,
    /// The base that drags are measured from. A fixed stick keeps the base it
    /// was given; a dynamic stick moves it; it is the origin while a dynamic
    /// stick is released.
    pub base_position: Point,
    /// Where the current drag started.
    pub drag_start: Point,
    /// Where the current drag stands.
    pub drag_position: Point,
    /// The output, of length at most one.
    pub value: StickValue,
    /// Presses outside this zone do not reach the stick.
    pub interactable_zone: Zone,
    /// The positioning behavior.
    pub stick_type: TouchStickType,
}

/// Whether a dead zone and a radius make a usable configuration: the dead zone
/// is less than one and the radius is positive.
pub open spec fn valid_config(dead_zone: u32, max_radius: u32) -> bool {
    &&& dead_zone < VALUE_ONE
    &&& max_radius > 0
}

/// The reason for which a configuration is turned down, if it is.
pub open spec fn config_error(dead_zone: u32, max_radius: u32) -> Option<TouchStickConfigError> {
    if dead_zone >= VALUE_ONE {
        Some(TouchStickConfigError::DeadZoneOutOfRange)
    } else if max_radius == 0 {
        Some(TouchStickConfigError::NonPositiveMaxRadius)
    } else {
        None
    }
}

/// Checks a dead zone and a radius.
pub fn check_config(dead_zone: u32, max_radius: u32) -> (r: Result<(), TouchStickConfigError>)
    ensures
        r is Ok <==> valid_config(dead_zone, max_radius),
        r matches Err(e) ==> config_error(dead_zone, max_radius) == Some(e),
{
    if dead_zone >= VALUE_ONE as u32 {
        Err(TouchStickConfigError::DeadZoneOutOfRange)
    } else if max_radius == 0 {
        Err(TouchStickConfigError::NonPositiveMaxRadius)
    } else {
        Ok(())
    }
}

impl TouchStickConfigError {
    /// A sentence that names the fault.
    pub fn message(&self) -> (text: &'static str)
        ensures
            *self == TouchStickConfigError::DeadZoneOutOfRange ==> text
                == "dead zone must be at least zero and less than one",
            *self == TouchStickConfigError::NonPositiveMaxRadius ==> text
                == "maximum radius must be greater than zero",
    {
        match self {
            TouchStickConfigError::DeadZoneOutOfRange => {
                "dead zone must be at least zero and less than one"
            },
            TouchStickConfigError::NonPositiveMaxRadius => {
                "maximum radius must be greater than zero"
            },
        }
    }
}

/// The value, as a stick reports it, of a drag that stands at `position` and
/// is measured from `origin`.
pub open spec fn value_between(origin: Point, position: Point, max_radius: u32, dead_zone: u32)
    -> StickValue {
    let v = stick_value(
        position.x - origin.x,
        position.y - origin.y,
        max_radius as nat,
        dead_zone as nat,
    );
    StickValue { x: v.0 as i32, y: v.1 as i32 }
}

/// The base of a dynamic stick after a drag to `position`: a base within the
/// radius stays; one further away closes up until the offset is the clamped one.
pub open spec fn chased_base(base: Point, position: Point, max_radius: u32) -> Point {
    let c = clamp_to_radius(position.x - base.x, position.y - base.y, max_radius as nat);
    Point { x: (position.x - c.0) as i32, y: (position.y - c.1) as i32 }
}

impl<S: StickIdType> TouchStick<S> {
    /// A released stick named `id` with the default configuration: no dead
    /// zone, the default radius, floating, reachable from everywhere.
    pub open spec fn spec_new(id: S) -> Self {
        TouchStick {
            id,
            drag_id: None,
            dead_zone: 0,
            max_radius: DEFAULT_MAX_RADIUS,
            base_position: Point::origin(),
            drag_start: Point::origin(),
            drag_position: Point::origin(),
            value: StickValue::spec_zero(),
            interactable_zone: Zone::spec_everywhere(),
            stick_type: TouchStickType::Floating,
        }
    }

    /// Creates a new stick with the given id.
    pub fn new(id: S) -> (stick: Self)
        ensures
            stick == Self::spec_new(id),
            stick.wf(),
    {
        TouchStick {
            id,
            drag_id: None,
            dead_zone: 0,
            max_radius: DEFAULT_MAX_RADIUS,
            base_position: Point::zero(),
            drag_start: Point::zero(),
            drag_position: Point::zero(),
            value: StickValue::zero(),
            interactable_zone: Zone::everywhere(),
            stick_type: TouchStickType::Floating,
        }
    }

    /// Creates a released stick with the given behavior, dead zone (in
    /// millionths) and radius, or says why the configuration is not usable.
    pub fn with_config(id: S, stick_type: TouchStickType, dead_zone: u32, max_radius: u32) -> (r:
        Result<Self, TouchStickConfigError>)
        ensures
            r is Ok <==> valid_config(dead_zone, max_radius),
            r matches Ok(stick) ==> stick == (TouchStick {
                stick_type,
                dead_zone,
                max_radius,
                ..Self::spec_new(id)
            }) && stick.wf(),
            r matches Err(e) ==> config_error(dead_zone, max_radius) == Some(e),
    {
        match check_config(dead_zone, max_radius) {
            Err(e) => Err(e),
            Ok(()) => {
                let mut stick = Self::new(id);
                stick.stick_type = stick_type;
                stick.dead_zone = dead_zone;
                stick.max_radius = max_radius;
                Ok(stick)
            },
        }
    }

    /// The configuration is usable: the dead zone is less than one and the
    /// radius is positive.
    pub open spec fn wf(&self) -> bool {
        valid_config(self.dead_zone, self.max_radius)
    }

    /// Checks the configuration of this stick.
    pub fn validate(&self) -> (r: Result<(), TouchStickConfigError>)
        ensures
            r is Ok <==> self.wf(),
            r matches Err(e) ==> config_error(self.dead_zone, self.max_radius) == Some(e),
    {
        check_config(self.dead_zone, self.max_radius)
    }

    /// This is the stick `other` in another state: the identifier and the
    /// configuration, zone included, are the same.
    pub open spec fn same_setup_as(self, other: Self) -> bool {
        &&& self.id == other.id
        &&& self.dead_zone == other.dead_zone
        &&& self.max_radius == other.max_radius
        &&& self.stick_type == other.stick_type
        &&& self.interactable_zone == other.interactable_zone
    }

    /// No drag drives the stick.
    pub open spec fn spec_is_idle(&self) -> bool {
        self.drag_id is None
    }

    /// No drag drives the stick.
    #[verifier::when_used_as_spec(spec_is_idle)]
    pub fn is_idle(&self) -> (idle: bool)
        ensures
            idle == self.spec_is_idle(),
    {
        self.drag_id.is_none()
    }

    /// The drag sequence `sequence_id` drives the stick.
    pub open spec fn spec_is_bound_to(&self, sequence_id: u64) -> bool {
        self.drag_id == Some(sequence_id)
    }

    /// The drag sequence `sequence_id` drives the stick.
    #[verifier::when_used_as_spec(spec_is_bound_to)]
    pub fn is_bound_to(&self, sequence_id: u64) -> (bound: bool)
        ensures
            bound == self.spec_is_bound_to(sequence_id),
    {
        match self.drag_id {
            Some(d) => d == sequence_id,
            None => false,
        }
    }

    /// A press at `position` may bind the stick: it is idle and the press
    /// lies in its zone.
    pub open spec fn spec_accepts(&self, position: Point) -> bool {
        self.drag_id is None && self.interactable_zone.spec_contains(position)
    }

    /// A press at `position` may bind the stick.
    #[verifier::when_used_as_spec(spec_accepts)]
    pub fn accepts(&self, position: Point) -> (ok: bool)
        ensures
            ok == self.spec_accepts(position),
    {
        self.drag_id.is_none() && self.interactable_zone.contains(position)
    }

    /// The point that drags are measured from: the press point of a floating
    /// stick, the base of a fixed or dynamic one.
    pub open spec fn spec_origin(&self) -> Point {
        match self.stick_type {
            TouchStickType::Fixed => self.base_position,
            TouchStickType::Floating => self.drag_start,
            TouchStickType::Dynamic => self.base_position,
        }
    }

    /// The point that drags are measured from.
    #[verifier::when_used_as_spec(spec_origin)]
    pub fn origin(&self) -> (p: Point)
        ensures
            p == self.spec_origin(),
    {
        match self.stick_type {
            TouchStickType::Fixed => self.base_position,
            TouchStickType::Floating => self.drag_start,
            TouchStickType::Dynamic => self.base_position,
        }
    }

    /// The value is at most one long, and zero if shorter than the dead zone.
    pub open spec fn value_in_bounds(&self) -> bool {
        &&& self.value.within_unit()
        &&& self.value.respects_dead_zone(self.dead_zone)
    }

    /// The stick after the drag sequence `sequence_id` has bound it with a
    /// press at `position`. The drag starts and stands at the press; a dynamic
    /// stick moves its base there; the value is that of the press measured
    /// from the origin.
    pub open spec fn pressed(self, sequence_id: u64, position: Point) -> Self {
        let base = if self.stick_type == TouchStickType::Dynamic {
            position
        } else {
            self.base_position
        };
        let origin = if self.stick_type == TouchStickType::Fixed {
            self.base_position
        } else {
            position
        };
        TouchStick {
            drag_id: Some(sequence_id),
            drag_start: position,
            drag_position: position,
            base_position: base,
            value: value_between(origin, position, self.max_radius, self.dead_zone),
            ..self
        }
    }

    /// The stick after its drag has moved to `position`. The value is that of
    /// the new position measured from the origin; the base of a dynamic stick
    /// closes up to within the radius of the drag.
    pub open spec fn dragged(self, position: Point) -> Self {
        let base = if self.stick_type == TouchStickType::Dynamic {
            chased_base(self.base_position, position, self.max_radius)
        } else {
            self.base_position
        };
        TouchStick {
            drag_position: position,
            base_position: base,
            value: value_between(self.spec_origin(), position, self.max_radius, self.dead_zone),
            ..self
        }
    }

    /// The stick after its drag has ended: unbound, at rest, its drag points
    /// back at the origin, and so is the base of a dynamic stick.
    pub open spec fn released(self) -> Self {
        let base = if self.stick_type == TouchStickType::Dynamic {
            Point::origin()
        } else {
            self.base_position
        };
        TouchStick {
            drag_id: None,
            drag_start: Point::origin(),
            drag_position: Point::origin(),
            base_position: base,
            value: StickValue::spec_zero(),
            ..self
        }
    }

    /// Binds the stick to the drag sequence `sequence_id`, pressed at
    /// `position`, and returns the value to report.
    pub fn press(&mut self, sequence_id: u64, position: Point) -> (value: StickValue)
        requires
            old(self).wf(),
        ensures
            *final(self) == old(self).pressed(sequence_id, position),
            value == final(self).value,
            final(self).value_in_bounds(),
    {
        self.drag_id = Some(sequence_id);
        self.drag_start = position;
        self.drag_position = position;
        if self.stick_type == TouchStickType::Dynamic {
            self.base_position = position;
        }
        let origin = self.origin();
        let v = compute_value(position.offset_from(origin), self.max_radius, self.dead_zone);
        self.value = v;
        v
    }

    /// Moves the drag of the stick to `position` and returns the value to
    /// report.
    pub fn drag_to(&mut self, position: Point) -> (value: StickValue)
        requires
            old(self).wf(),
        ensures
            *final(self) == old(self).dragged(position),
            value == final(self).value,
            final(self).value_in_bounds(),
    {
        let origin = self.origin();
        let off = position.offset_from(origin);
        let v = compute_value(off, self.max_radius, self.dead_zone);
        if self.stick_type == TouchStickType::Dynamic {
            let c = clamp_offset(off, self.max_radius);
            proof {
                lemma_clamp_to_radius(off.x as int, off.y as int, self.max_radius as nat);
            }
            self.base_position = Point {
                x: (position.x as i64 - c.x) as i32,
                y: (position.y as i64 - c.y) as i32,
            };
        }
        self.drag_position = position;
        self.value = v;
        v
    }

    /// Ends the drag of the stick.
    pub fn release(&mut self)
        ensures
            *final(self) == old(self).released(),
    {
        self.drag_id = None;
        self.drag_start = Point::zero();
        self.drag_position = Point::zero();
        if self.stick_type == TouchStickType::Dynamic {
            self.base_position = Point::zero();
        }
        self.value = StickValue::zero();
    }
}

/// The value of a drag is at most one long, and zero whenever it is shorter
/// than the dead zone.
pub proof fn lemma_value_between_bounds(
    origin: Point,
    position: Point,
    max_radius: u32,
    dead_zone: u32,
)
    requires
        max_radius > 0,
    ensures
        value_between(origin, position, max_radius, dead_zone).within_unit(),
        value_between(origin, position, max_radius, dead_zone).respects_dead_zone(dead_zone),
        value_between(origin, origin, max_radius, dead_zone) == StickValue::spec_zero(),
{
    lemma_stick_value_bounds(
        position.x - origin.x,
        position.y - origin.y,
        max_radius as nat,
        dead_zone as nat,
    );
    lemma_stick_value_bounds(0, 0, max_radius as nat, dead_zone as nat);
    assert(stick_value(0, 0, max_radius as nat, dead_zone as nat) == (0int, 0int)) by {
        assert(norm_sq(0, 0) == 0);
        assert(0 * (VALUE_ONE as nat) == 0);
        assert(0int / (max_radius as int) == 0);
    }
}

/// The base of a dynamic stick, once it has closed up, lies between the old
/// base and the drag, within the radius of the drag, and the offset of the
/// drag from it is the clamped offset.
pub proof fn lemma_chased_base(base: Point, position: Point, max_radius: u32)
    requires
        max_radius > 0,
    ensures
        ({
            let c = clamp_to_radius(position.x - base.x, position.y - base.y, max_radius as nat);
            let chased = chased_base(base, position, max_radius);
            &&& position.x - chased.x == c.0
            &&& position.y - chased.y == c.1
            &&& norm_sq(position.x - chased.x, position.y - chased.y) <= max_radius * max_radius
            &&& chased_base(chased, position, max_radius) == chased
        }),
{
    lemma_clamp_to_radius(position.x - base.x, position.y - base.y, max_radius as nat);
    lemma_clamp_to_radius_idempotent(position.x - base.x, position.y - base.y, max_radius as nat);
}

/// Pressing and dragging leave the value of a usable stick at most one long,
/// and zero whenever it is shorter than the dead zone.
pub proof fn lemma_transitions_keep_value_in_bounds<S: StickIdType>(
    stick: TouchStick<S>,
    sequence_id: u64,
    position: Point,
)
    requires
        stick.wf(),
    ensures
        stick.pressed(sequence_id, position).value_in_bounds(),
        stick.dragged(position).value_in_bounds(),
        stick.released().value_in_bounds(),
        stick.stick_type != TouchStickType::Fixed ==> stick.pressed(sequence_id, position).value
            == StickValue::spec_zero(),
{
    lemma_value_between_bounds(stick.base_position, position, stick.max_radius, stick.dead_zone);
    lemma_value_between_bounds(position, position, stick.max_radius, stick.dead_zone);
    lemma_value_between_bounds(stick.spec_origin(), position, stick.max_radius, stick.dead_zone);
    assert(norm_sq(0, 0) == 0);
}

/// Dragging a stick twice to the same position is dragging it once.
pub proof fn lemma_dragged_idempotent<S: StickIdType>(stick: TouchStick<S>, position: Point)
    requires
        stick.wf(),
    ensures
        stick.dragged(position).dragged(position) == stick.dragged(position),
{
    let once = stick.dragged(position);
    if stick.stick_type == TouchStickType::Dynamic {
        let base = stick.base_position;
        lemma_chased_base(base, position, stick.max_radius);
        lemma_clamp_to_radius_idempotent(
            position.x - base.x,
            position.y - base.y,
            stick.max_radius as nat,
        );
    }
}

impl<S: StickIdType> Default for TouchStick<S> {
    /// A released stick with the default identifier and configuration.
    fn default() -> (stick: Self)
        ensures
            call_ensures(S::default, (), stick.id),
            stick == Self::spec_new(stick.id),
    {
        Self::new(S::default())
    }
}

impl<S: StickIdType> From<S> for TouchStick<S> {
    fn from(id: S) -> (stick: Self) {
        Self::new(id)
    }
}

impl<S: StickIdType> FromSpecImpl<S> for TouchStick<S> {
    open spec fn obeys_from_spec() -> bool {
        true
    }

    open spec fn from_spec(id: S) -> Self {
        Self::spec_new(id)
    }
}

} // verus!
