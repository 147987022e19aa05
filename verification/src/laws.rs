//! What holds of the stick update engine whatever the sticks and the drag
//! events are.

use crate::behavior::{lemma_axis_offset_saturates, StickValue, TouchStickType, VALUE_ONE};
use crate::geometry::Point;
use crate::engine::{
    all_wf, holder, is_holder, is_taker, lemma_found_is_first, lemma_first_holder_exists,
    lemma_first_taker_exists, lemma_holder_is, lemma_no_holder, lemma_run_frame, lemma_run_push,
    lemma_step_frame,
    run_emissions, run_sticks, step_emission, step_sticks, step_target, taker, Emission,
};
use crate::event::TouchStickEventType;
use crate::input::{DragEvent, DragPhase};
use crate::stick::{
    lemma_dragged_idempotent, lemma_transitions_keep_value_in_bounds, StickIdType, TouchStick,
};
use vstd::prelude::*;

verus! {

/// No drag sequence drives two sticks.
pub open spec fn exclusive<S: StickIdType>(sticks: Seq<TouchStick<S>>) -> bool {
    forall|i: int, j: int|
        0 <= i < sticks.len() && 0 <= j < sticks.len() && i != j && (#[trigger] sticks[i]).drag_id
            is Some ==> sticks[i].drag_id != (#[trigger] sticks[j]).drag_id
}

/// The value of every stick is at most one long, and zero whenever it is
/// shorter than the dead zone of the stick.
pub open spec fn all_values_in_bounds<S: StickIdType>(sticks: Seq<TouchStick<S>>) -> bool {
    forall|i: int| 0 <= i < sticks.len() ==> (#[trigger] sticks[i]).value_in_bounds()
}

/// A press whose sequence drives no stick yet, and which lies in the zone of
/// an idle stick, binds a stick: the first idle stick, in registration order,
/// whose zone holds the press. That stick is then driven by the sequence of
/// the press, and the one event reported is its press, with a value at most
/// one long. If no earlier stick accepts the press, the stick bound is the
/// given one.
pub proof fn law_press_binds_first_accepting_stick<S: StickIdType>(
    sticks: Seq<TouchStick<S>>,
    event: DragEvent,
    i: int,
)
    requires
        all_wf(sticks),
        event.phase == DragPhase::Press,
        holder(sticks, event.sequence_id) is None,
        0 <= i < sticks.len(),
        sticks[i].spec_accepts(event.position),
    ensures
        ({
            let after = step_sticks(sticks, event);
            &&& taker(sticks, event.position) matches Some(t)
            &&& 0 <= t <= i
            &&& is_taker(sticks, event.position, t)
            &&& (forall|j: int| 0 <= j < i ==> !(#[trigger] sticks[j]).spec_accepts(event.position))
                ==> t == i
            &&& after[t].drag_id == Some(event.sequence_id)
            &&& after[t].drag_start == event.position
            &&& after[t].drag_position == event.position
            &&& after[t].value.within_unit()
            &&& step_emission(sticks, event) == Some(
                Emission { stick: t, kind: TouchStickEventType::Press, value: after[t].value },
            )
        }),
{
    lemma_first_taker_exists(sticks, event.position, i);
    let t = taker(sticks, event.position)->0;
    lemma_transitions_keep_value_in_bounds(sticks[t], event.sequence_id, event.position);
}

/// After a move, the value of the stick that the drag drives is at most one
/// long, and it is exactly zero whenever it is shorter than the dead zone.
/// That value is what the one event reported, a drag, carries.
pub proof fn law_move_keeps_value_in_bounds<S: StickIdType>(
    sticks: Seq<TouchStick<S>>,
    event: DragEvent,
    i: int,
)
    requires
        all_wf(sticks),
        event.phase == DragPhase::Move,
        holder(sticks, event.sequence_id) == Some(i),
    ensures
        ({
            let after = step_sticks(sticks, event);
            &&& after[i].drag_id == Some(event.sequence_id)
            &&& after[i].drag_position == event.position
            &&& after[i].value.within_unit()
            &&& after[i].value.respects_dead_zone(after[i].dead_zone)
            &&& step_emission(sticks, event) == Some(
                Emission { stick: i, kind: TouchStickEventType::Drag, value: after[i].value },
            )
        }),
{
    lemma_found_is_first(sticks, event.sequence_id, event.position);
    lemma_transitions_keep_value_in_bounds(sticks[i], event.sequence_id, event.position);
}

/// If the value of every stick is within bounds, it still is after any drag
/// event.
pub proof fn law_step_keeps_values_in_bounds<S: StickIdType>(
    sticks: Seq<TouchStick<S>>,
    event: DragEvent,
)
    requires
        all_wf(sticks),
        all_values_in_bounds(sticks),
    ensures
        all_values_in_bounds(step_sticks(sticks, event)),
{
    lemma_step_frame(sticks, event);
    let after = step_sticks(sticks, event);
    assert forall|j: int| 0 <= j < after.len() implies (#[trigger] after[j]).value_in_bounds() by {
        let before = sticks[j];
        if step_target(sticks, event) == Some(j) {
            lemma_transitions_keep_value_in_bounds(before, event.sequence_id, event.position);
        }
    }
}

/// If the value of every stick is within bounds, it still is after any batch
/// of drag events.
pub proof fn law_run_keeps_values_in_bounds<S: StickIdType>(
    sticks: Seq<TouchStick<S>>,
    events: Seq<DragEvent>,
)
    requires
        all_wf(sticks),
        all_values_in_bounds(sticks),
    ensures
        all_values_in_bounds(run_sticks(sticks, events)),
    decreases events.len(),
{
    if events.len() > 0 {
        law_run_keeps_values_in_bounds(sticks, events.drop_last());
        lemma_run_frame(sticks, events.drop_last());
        law_step_keeps_values_in_bounds(run_sticks(sticks, events.drop_last()), events.last());
    }
}

/// A release unbinds the stick that its sequence drives and sets its value to
/// zero; the one event reported is the release of that stick, with value
/// zero. No other stick changes.
pub proof fn law_release_unbinds<S: StickIdType>(
    sticks: Seq<TouchStick<S>>,
    event: DragEvent,
    i: int,
)
    requires
        event.phase == DragPhase::Release,
        holder(sticks, event.sequence_id) == Some(i),
    ensures
        ({
            let after = step_sticks(sticks, event);
            &&& after[i].drag_id is None
            &&& after[i].value == StickValue::spec_zero()
            &&& step_emission(sticks, event) == Some(
                Emission {
                    stick: i,
                    kind: TouchStickEventType::Release,
                    value: StickValue::spec_zero(),
                },
            )
            &&& forall|j: int| 0 <= j < sticks.len() && j != i ==> after[j] == #[trigger] sticks[j]
        }),
{
    lemma_found_is_first(sticks, event.sequence_id, event.position);
}

/// Moves of the drag sequence that drives a stick leave it driven by that
/// sequence, and each of them reports one drag of that stick.
pub proof fn law_moves_keep_binding<S: StickIdType>(
    sticks: Seq<TouchStick<S>>,
    moves: Seq<DragEvent>,
    sequence_id: u64,
    i: int,
)
    requires
        holder(sticks, sequence_id) == Some(i),
        forall|k: int|
            0 <= k < moves.len() ==> (#[trigger] moves[k]).phase == DragPhase::Move
                && moves[k].sequence_id == sequence_id,
    ensures
        holder(run_sticks(sticks, moves), sequence_id) == Some(i),
        run_emissions(sticks, moves).len() == moves.len(),
        forall|k: int|
            0 <= k < moves.len() ==> (#[trigger] run_emissions(sticks, moves)[k]).stick == i
                && run_emissions(sticks, moves)[k].kind == TouchStickEventType::Drag,
    decreases moves.len(),
{
    if moves.len() > 0 {
        let earlier = moves.drop_last();
        let last = moves.last();
        assert forall|k: int| 0 <= k < earlier.len() implies (#[trigger] earlier[k]).phase
            == DragPhase::Move && earlier[k].sequence_id == sequence_id by {
            assert(earlier[k] == moves[k]);
        }
        law_moves_keep_binding(sticks, earlier, sequence_id, i);
        let mid = run_sticks(sticks, earlier);
        lemma_found_is_first(mid, sequence_id, last.position);
        let after = step_sticks(mid, last);
        assert(is_holder(after, sequence_id, i)) by {
            assert forall|j: int| 0 <= j < i implies (#[trigger] after[j]).drag_id != Some(
                sequence_id,
            ) by {
                assert(after[j] == mid[j]);
            }
        }
        lemma_holder_is(after, sequence_id, i);
    }
}

/// However many moves of a drag sequence come before its release, the
/// release leaves the stick unbound with value zero, and of all the events
/// reported exactly one, the last, is a release: it carries value zero.
pub proof fn law_release_after_moves<S: StickIdType>(
    sticks: Seq<TouchStick<S>>,
    moves: Seq<DragEvent>,
    release: DragEvent,
    i: int,
)
    requires
        holder(sticks, release.sequence_id) == Some(i),
        release.phase == DragPhase::Release,
        forall|k: int|
            0 <= k < moves.len() ==> (#[trigger] moves[k]).phase == DragPhase::Move
                && moves[k].sequence_id == release.sequence_id,
    ensures
        ({
            let events = moves.push(release);
            let after = run_sticks(sticks, events);
            let reports = run_emissions(sticks, events);
            &&& after[i].drag_id is None
            &&& after[i].value == StickValue::spec_zero()
            &&& reports.len() == moves.len() + 1
            &&& reports.last() == Emission {
                stick: i,
                kind: TouchStickEventType::Release,
                value: StickValue::spec_zero(),
            }
            &&& forall|k: int|
                0 <= k < moves.len() ==> (#[trigger] reports[k]).kind == TouchStickEventType::Drag
        }),
{
    lemma_run_push(sticks, moves, release);
    law_moves_keep_binding(sticks, moves, release.sequence_id, i);
    law_release_unbinds(run_sticks(sticks, moves), release, i);
}

/// If no drag sequence drives two sticks, none does after any drag event.
pub proof fn law_step_keeps_bindings_exclusive<S: StickIdType>(
    sticks: Seq<TouchStick<S>>,
    event: DragEvent,
)
    requires
        exclusive(sticks),
    ensures
        exclusive(step_sticks(sticks, event)),
{
    lemma_found_is_first(sticks, event.sequence_id, event.position);
    lemma_step_frame(sticks, event);
    let after = step_sticks(sticks, event);
    assert forall|a: int, b: int|
        0 <= a < after.len() && 0 <= b < after.len() && a != b && (#[trigger] after[a]).drag_id
            is Some implies after[a].drag_id != (#[trigger] after[b]).drag_id by {
        assert(after[a].same_setup_as(sticks[a]));
        assert(after[b].same_setup_as(sticks[b]));
    }
}

/// If no drag sequence drives two sticks, none does after any batch of drag
/// events.
pub proof fn law_run_keeps_bindings_exclusive<S: StickIdType>(
    sticks: Seq<TouchStick<S>>,
    events: Seq<DragEvent>,
)
    requires
        exclusive(sticks),
    ensures
        exclusive(run_sticks(sticks, events)),
    decreases events.len(),
{
    if events.len() > 0 {
        law_run_keeps_bindings_exclusive(sticks, events.drop_last());
        law_step_keeps_bindings_exclusive(run_sticks(sticks, events.drop_last()), events.last());
    }
}

/// While a drag sequence drives a stick, a press of that sequence is ignored:
/// no other stick accepts it, no stick changes and nothing is reported.
pub proof fn law_bound_sequence_is_not_bound_again<S: StickIdType>(
    sticks: Seq<TouchStick<S>>,
    event: DragEvent,
    a: int,
)
    requires
        event.phase == DragPhase::Press,
        0 <= a < sticks.len(),
        sticks[a].drag_id == Some(event.sequence_id),
    ensures
        step_sticks(sticks, event) == sticks,
        step_emission(sticks, event) is None,
{
    lemma_first_holder_exists(sticks, event.sequence_id, a);
}

/// Every drag sequence that drives a stick has a number below `next_id`.
pub open spec fn numbered_below<S: StickIdType>(sticks: Seq<TouchStick<S>>, next_id: int) -> bool {
    forall|i: int|
        0 <= i < sticks.len() ==> ((#[trigger] sticks[i]).drag_id matches Some(d) ==> d < next_id)
}

/// A press that carries a number which was never handed out is no duplicate:
/// its sequence drives no stick. So, fed by a source whose counter only grows,
/// the engine never sees a press of a sequence that is bound, and the sticks
/// stay numbered below the counter of the source.
pub proof fn law_fresh_press_is_no_duplicate<S: StickIdType>(
    sticks: Seq<TouchStick<S>>,
    next_id: int,
    event: DragEvent,
)
    requires
        numbered_below(sticks, next_id),
    ensures
        event.sequence_id >= next_id ==> holder(sticks, event.sequence_id) is None,
        event.sequence_id >= next_id ==> numbered_below(
            step_sticks(sticks, event),
            event.sequence_id + 1,
        ),
        event.sequence_id < next_id ==> numbered_below(step_sticks(sticks, event), next_id),
{
    lemma_step_frame(sticks, event);
    lemma_found_is_first(sticks, event.sequence_id, event.position);
    let after = step_sticks(sticks, event);
    if event.sequence_id >= next_id {
        assert forall|j: int| 0 <= j < sticks.len() implies (#[trigger] sticks[j]).drag_id != Some(
            event.sequence_id,
        ) by {}
        lemma_no_holder(sticks, event.sequence_id);
    }
    assert forall|i: int| 0 <= i < after.len() implies ((#[trigger] after[i]).drag_id matches Some(
        d,
    ) ==> d < next_id || d == event.sequence_id) by {
        assert(after[i].same_setup_as(sticks[i]));
    }
}

/// A move or a release whose sequence drives no stick is ignored: no stick
/// changes and nothing is reported.
pub proof fn law_unknown_sequence_is_ignored<S: StickIdType>(
    sticks: Seq<TouchStick<S>>,
    event: DragEvent,
)
    requires
        event.phase != DragPhase::Press,
        forall|j: int|
            0 <= j < sticks.len() ==> (#[trigger] sticks[j]).drag_id != Some(event.sequence_id),
    ensures
        step_sticks(sticks, event) == sticks,
        step_emission(sticks, event) is None,
{
    lemma_no_holder(sticks, event.sequence_id);
}

/// A drag event changes at most one stick: the one that it acts on. Every
/// other stick keeps its binding, its positions and its value.
pub proof fn law_step_touches_one_stick<S: StickIdType>(
    sticks: Seq<TouchStick<S>>,
    event: DragEvent,
    j: int,
)
    requires
        0 <= j < sticks.len(),
        step_target(sticks, event) != Some(j),
    ensures
        step_sticks(sticks, event)[j] == sticks[j],
        step_emission(sticks, event) matches Some(e) ==> e.stick != j,
{
    lemma_step_frame(sticks, event);
}

/// A drag that stands further than the radius from the origin of a stick,
/// straight along one axis, gives the value of length one along that axis,
/// however far it stands; and the base of a dynamic stick follows it to
/// exactly the radius behind the drag.
pub proof fn law_axis_drag_saturates<S: StickIdType>(stick: TouchStick<S>, position: Point)
    requires
        stick.wf(),
    ensures
        ({
            let origin = stick.spec_origin();
            let after = stick.dragged(position);
            let dx = position.x - origin.x;
            let dy = position.y - origin.y;
            let dynamic = stick.stick_type == TouchStickType::Dynamic;
            &&& dy == 0 && dx > stick.max_radius ==> {
                &&& after.value == StickValue { x: VALUE_ONE, y: 0 }
                &&& dynamic ==> after.base_position == Point {
                    x: (position.x - stick.max_radius) as i32,
                    y: position.y,
                }
            }
            &&& dy == 0 && -dx > stick.max_radius ==> {
                &&& after.value == StickValue { x: -VALUE_ONE as i32, y: 0 }
                &&& dynamic ==> after.base_position == Point {
                    x: (position.x + stick.max_radius) as i32,
                    y: position.y,
                }
            }
            &&& dx == 0 && dy > stick.max_radius ==> {
                &&& after.value == StickValue { x: 0, y: VALUE_ONE }
                &&& dynamic ==> after.base_position == Point {
                    x: position.x,
                    y: (position.y - stick.max_radius) as i32,
                }
            }
            &&& dx == 0 && -dy > stick.max_radius ==> {
                &&& after.value == StickValue { x: 0, y: -VALUE_ONE as i32 }
                &&& dynamic ==> after.base_position == Point {
                    x: position.x,
                    y: (position.y + stick.max_radius) as i32,
                }
            }
        }),
{
    let origin = stick.spec_origin();
    let dx = position.x - origin.x;
    let dy = position.y - origin.y;
    let radius = stick.max_radius as nat;
    let dead_zone = stick.dead_zone as nat;
    if dy == 0 && (dx > stick.max_radius || -dx > stick.max_radius) {
        lemma_axis_offset_saturates(dx, radius, dead_zone);
    }
    if dx == 0 && (dy > stick.max_radius || -dy > stick.max_radius) {
        lemma_axis_offset_saturates(dy, radius, dead_zone);
    }
}

/// Replaying a move changes nothing: the sticks after the second move are
/// those after the first, and the second reports what the first reported.
pub proof fn law_repeated_move_changes_nothing<S: StickIdType>(
    sticks: Seq<TouchStick<S>>,
    event: DragEvent,
)
    requires
        all_wf(sticks),
        event.phase == DragPhase::Move,
    ensures
        step_sticks(step_sticks(sticks, event), event) == step_sticks(sticks, event),
        step_emission(step_sticks(sticks, event), event) == step_emission(sticks, event),
{
    lemma_found_is_first(sticks, event.sequence_id, event.position);
    let once = step_sticks(sticks, event);
    match holder(sticks, event.sequence_id) {
        None => {},
        Some(i) => {
            assert(is_holder(once, event.sequence_id, i)) by {
                assert forall|j: int| 0 <= j < i implies (#[trigger] once[j]).drag_id != Some(
                    event.sequence_id,
                ) by {
                    assert(once[j] == sticks[j]);
                }
            }
            lemma_holder_is(once, event.sequence_id, i);
            lemma_dragged_idempotent(sticks[i], event.position);
            assert(step_sticks(once, event) =~= once);
        },
    }
}

} // verus!
