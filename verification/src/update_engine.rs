//! The stick update engine as an object: it owns the sticks and the events of
//! the current tick, and keeps the sticks well formed from tick to tick.

use crate::engine::{
    all_wf, lemma_run_frame, reported, run_emissions, run_sticks, update_sticks_from_drag_events,
};
use crate::event::TouchStickEvent;
use crate::input::DragEvent;
use crate::laws::{
    all_values_in_bounds, exclusive, law_run_keeps_bindings_exclusive,
    law_run_keeps_values_in_bounds,
};
use crate::stick::{config_error, StickIdType, TouchStick, TouchStickConfigError};
use crate::zone::{map_input_zones_from_ui_nodes, mapped_sticks, InteractionArea};
use vstd::prelude::*;

verus! {

/// What a stick update engine holds.
pub struct EngineState<S: StickIdType> {
    /// The sticks, in registration order.
    pub sticks: Seq<TouchStick<S>>,
    /// The stick events of the latest tick, in the order in which they were
    /// caused.
    pub events: Seq<TouchStickEvent<S>>,
}

/// Owns the sticks of an application and the events of the current tick.
pub struct StickUpdateEngine<S: StickIdType> {
    sticks: Vec<TouchStick<S>>,
    events: Vec<TouchStickEvent<S>>,
}

/// What the engine keeps true of its sticks: every configuration is usable,
/// no drag sequence drives two sticks, and every value is at most one long
/// and zero whenever it is shorter than the dead zone.
pub open spec fn sticks_wf<S: StickIdType>(sticks: Seq<TouchStick<S>>) -> bool {
    &&& all_wf(sticks)
    &&& exclusive(sticks)
    &&& all_values_in_bounds(sticks)
}

/// Mapping zones keeps what the engine keeps true of its sticks.
pub proof fn lemma_mapping_keeps_sticks_wf<S: StickIdType>(
    areas: Seq<InteractionArea>,
    sticks: Seq<TouchStick<S>>,
)
    requires
        sticks_wf(sticks),
    ensures
        sticks_wf(mapped_sticks(areas, sticks)),
{
    let mapped = mapped_sticks(areas, sticks);
    assert forall|i: int| 0 <= i < mapped.len() implies (#[trigger] mapped[i]).wf() by {
        assert(sticks[i].wf());
    }
    assert forall|i: int| 0 <= i < mapped.len() implies (#[trigger] mapped[i]).value_in_bounds() by {
        assert(sticks[i].value_in_bounds());
    }
    assert forall|i: int, j: int|
        0 <= i < mapped.len() && 0 <= j < mapped.len() && i != j && (#[trigger] mapped[i]).drag_id
            is Some implies mapped[i].drag_id != (#[trigger] mapped[j]).drag_id by {
        assert(sticks[i].drag_id is Some ==> sticks[i].drag_id != sticks[j].drag_id);
    }
}

impl<S: StickIdType> View for StickUpdateEngine<S> {
    type V = EngineState<S>;

    closed spec fn view(&self) -> EngineState<S> {
        EngineState { sticks: self.sticks@, events: self.events@ }
    }
}

impl<S: StickIdType> StickUpdateEngine<S> {
    /// The invariant of the engine.
    pub open spec fn wf(&self) -> bool {
        sticks_wf(self@.sticks)
    }

    /// An engine without sticks.
    pub fn new() -> (engine: Self)
        ensures
            engine@.sticks == Seq::<TouchStick<S>>::empty(),
            engine@.events == Seq::<TouchStickEvent<S>>::empty(),
            engine.wf(),
    {
        StickUpdateEngine { sticks: Vec::new(), events: Vec::new() }
    }

    /// Registers a stick behind those registered before and returns its
    /// place among them, or turns it down for its configuration. The stick
    /// starts released, whatever drag it was handed over with.
    pub fn register(&mut self, stick: TouchStick<S>) -> (r: Result<usize, TouchStickConfigError>)
        requires
            old(self).wf(),
        ensures
            final(self).wf(),
            final(self)@.events == old(self)@.events,
            r is Ok <==> stick.wf(),
            r matches Ok(i) ==> i == old(self)@.sticks.len() && final(self)@.sticks == old(
                self,
            )@.sticks.push(stick.released()),
            r matches Err(e) ==> final(self)@.sticks == old(self)@.sticks && config_error(
                stick.dead_zone,
                stick.max_radius,
            ) == Some(e),
    {
        match stick.validate() {
            Err(e) => Err(e),
            Ok(()) => {
                let mut stick = stick;
                stick.release();
                let place = self.sticks.len();
                self.sticks.push(stick);
                proof {
                    let before = old(self)@.sticks;
                    let after = self@.sticks;
                    assert forall|i: int| 0 <= i < after.len() implies (#[trigger] after[i]).wf()
                        && after[i].value_in_bounds() by {
                        if i < before.len() {
                            assert(after[i] == before[i]);
                        }
                    }
                    assert forall|i: int, j: int|
                        0 <= i < after.len() && 0 <= j < after.len() && i != j && (
                        #[trigger] after[i]).drag_id is Some implies after[i].drag_id != (
                        #[trigger] after[j]).drag_id by {
                        if j < before.len() {
                            assert(after[i] == before[i]);
                            assert(after[j] == before[j]);
                        }
                    }
                }
                Ok(place)
            },
        }
    }

    /// The sticks, in registration order.
    pub fn sticks(&self) -> (sticks: &Vec<TouchStick<S>>)
        ensures
            sticks@ == self@.sticks,
    {
        &self.sticks
    }

    /// The stick events of the latest tick, in the order in which they were
    /// caused.
    pub fn events(&self) -> (events: &Vec<TouchStickEvent<S>>)
        ensures
            events@ == self@.events,
    {
        &self.events
    }

    /// Runs one tick: the zones are mapped first, so that the presses of this
    /// tick meet the zones of this tick; then the drag events are applied in
    /// arrival order. The events of the tick before are dropped, and those
    /// that this tick causes take their place.
    pub fn tick(&mut self, interaction_areas: &Vec<InteractionArea>, drag_events: &Vec<DragEvent>)
        requires
            old(self).wf(),
        ensures
            final(self).wf(),
            final(self)@.sticks == run_sticks(
                mapped_sticks(interaction_areas@, old(self)@.sticks),
                drag_events@,
            ),
            reported(
                final(self)@.events,
                old(self)@.sticks,
                run_emissions(mapped_sticks(interaction_areas@, old(self)@.sticks), drag_events@),
            ),
    {
        proof {
            let mapped = mapped_sticks(interaction_areas@, self@.sticks);
            lemma_mapping_keeps_sticks_wf(interaction_areas@, self@.sticks);
            law_run_keeps_bindings_exclusive(mapped, drag_events@);
            law_run_keeps_values_in_bounds(mapped, drag_events@);
        }
        map_input_zones_from_ui_nodes(interaction_areas, &mut self.sticks);
        let events = update_sticks_from_drag_events(&mut self.sticks, drag_events);
        proof {
            let mapped = mapped_sticks(interaction_areas@, old(self)@.sticks);
            let emissions = run_emissions(mapped, drag_events@);
            lemma_run_frame(mapped, drag_events@);
            assert forall|k: int| 0 <= k < events@.len() implies (#[trigger] events@[k]).reports(
                old(self)@.sticks[emissions[k].stick].id,
                emissions[k].kind,
                emissions[k].value,
            ) by {
                assert(mapped[emissions[k].stick].id == old(self)@.sticks[emissions[k].stick].id);
            }
        }
        self.events = events;
    }

    /// Hands over the stick events of the latest tick and leaves none behind.
    pub fn drain_events(&mut self) -> (events: Vec<TouchStickEvent<S>>)
        ensures
            events@ == old(self)@.events,
            final(self)@.events == Seq::<TouchStickEvent<S>>::empty(),
            final(self)@.sticks == old(self)@.sticks,
    {
        let mut events: Vec<TouchStickEvent<S>> = Vec::new();
        core::mem::swap(&mut events, &mut self.events);
        events
    }
}

} // verus!
