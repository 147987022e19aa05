//! Virtual analog sticks driven by touch and mouse drags.
//!
//! Raw pointer contacts become drag sequences ([`DragEventSource`]), each drag
//! sequence is bound to at most one stick, and every bound stick reports a
//! direction whose length never exceeds one ([`update_sticks_from_drag_events`],
//! [`StickUpdateEngine`]). The zone in which presses reach a stick follows the
//! placement of the interaction regions ([`map_input_zones_from_ui_nodes`]).
//!
//! All quantities are integers. Positions are whole input units, as fine as the
//! host cares to count them; stick values and dead zones are counted in
//! millionths, so that [`VALUE_ONE`] stands for a length of one. Quotients are
//! rounded toward zero, and the length of an offset beyond the radius is
//! rounded up, which keeps every value within the unit circle.
//!
//! The module [`laws`] states what holds of the engine whatever the sticks and
//! the drag events are.

pub mod arith;
pub mod behavior;
pub mod engine;
pub mod event;
pub mod geometry;
pub mod input;
pub mod laws;
pub mod stick;
pub mod update_engine;
pub mod zone;

pub use crate::behavior::{StickValue, TouchStickType, VALUE_ONE};
pub use crate::engine::{apply_drag_event, update_sticks_from_drag_events};
pub use crate::event::{TouchStickEvent, TouchStickEventType};
pub use crate::geometry::{Offset, Point, Zone};
pub use crate::input::{
    DragEvent, DragEventSource, DragPhase, MouseInput, TouchInput, TouchPhase,
};
pub use crate::stick::{StickIdType, TouchStick, TouchStickConfigError, DEFAULT_MAX_RADIUS};
pub use crate::update_engine::StickUpdateEngine;
pub use crate::zone::{map_input_zones_from_ui_nodes, InteractionArea};
