//! The stick update engine: binds drags to sticks, moves bound sticks and
//! unbinds them, one drag event at a time and in arrival order.

use crate::behavior::StickValue;
use crate::event::{TouchStickEvent, TouchStickEventType};
use crate::geometry::Point;
use crate::input::{DragEvent, DragPhase};
use crate::stick::{StickIdType, TouchStick};
use vstd::prelude::*;

verus! {

/// What the engine reports for one drag event: which stick, in registration
/// order, sends an event of which kind with which value.
pub struct Emission {
    pub stick: int,
    pub kind: TouchStickEventType,
    pub value: StickValue,
}

/// Every stick has a usable configuration.
pub open spec fn all_wf<S: StickIdType>(sticks: Seq<TouchStick<S>>) -> bool {
    forall|i: int| 0 <= i < sticks.len() ==> (#[trigger] sticks[i]).wf()
}

/// Stick `i` is the first stick that the drag sequence `sequence_id` drives.
pub open spec fn is_holder<S: StickIdType>(sticks: Seq<TouchStick<S>>, sequence_id: u64, i: int)
    -> bool {
    &&& 0 <= i < sticks.len()
    &&& sticks[i].drag_id == Some(sequence_id)
    &&& forall|j: int| 0 <= j < i ==> (#[trigger] sticks[j]).drag_id != Some(sequence_id)
}

/// The first stick that the drag sequence `sequence_id` drives, if any.
pub open spec fn holder<S: StickIdType>(sticks: Seq<TouchStick<S>>, sequence_id: u64) -> Option<
    int,
> {
    if exists|i: int| is_holder(sticks, sequence_id, i) {
        Some(choose|i: int| is_holder(sticks, sequence_id, i))
    } else {
        None
    }
}

/// Stick `i` is the first idle stick whose zone holds `position`.
pub open spec fn is_taker<S: StickIdType>(sticks: Seq<TouchStick<S>>, position: Point, i: int)
    -> bool {
    &&& 0 <= i < sticks.len()
    &&& sticks[i].spec_accepts(position)
    &&& forall|j: int| 0 <= j < i ==> !(#[trigger] sticks[j]).spec_accepts(position)
}

/// The first idle stick whose zone holds `position`, if any.
pub open spec fn taker<S: StickIdType>(sticks: Seq<TouchStick<S>>, position: Point) -> Option<
    int,
> {
    if exists|i: int| is_taker(sticks, position, i) {
        Some(choose|i: int| is_taker(sticks, position, i))
    } else {
        None
    }
}

/// The stick that a drag event acts on. A press acts on the first idle stick
/// whose zone holds it, unless its sequence drives a stick already; a move or
/// a release acts on the stick that its sequence drives. An event that finds
/// no stick is ignored.
pub open spec fn step_target<S: StickIdType>(sticks: Seq<TouchStick<S>>, event: DragEvent)
    -> Option<int> {
    match event.phase {
        DragPhase::Press => if holder(sticks, event.sequence_id) is Some {
            None
        } else {
            taker(sticks, event.position)
        },
        DragPhase::Move => holder(sticks, event.sequence_id),
        DragPhase::Release => holder(sticks, event.sequence_id),
    }
}

/// A stick after the drag event that acts on it.
pub open spec fn stick_after<S: StickIdType>(stick: TouchStick<S>, event: DragEvent) -> TouchStick<
    S,
> {
    match event.phase {
        DragPhase::Press => stick.pressed(event.sequence_id, event.position),
        DragPhase::Move => stick.dragged(event.position),
        DragPhase::Release => stick.released(),
    }
}

/// The kind of stick event that answers a drag event.
pub open spec fn kind_for(phase: DragPhase) -> TouchStickEventType {
    match phase {
        DragPhase::Press => TouchStickEventType::Press,
        DragPhase::Move => TouchStickEventType::Drag,
        DragPhase::Release => TouchStickEventType::Release,
    }
}

/// The sticks after one drag event.
pub open spec fn step_sticks<S: StickIdType>(sticks: Seq<TouchStick<S>>, event: DragEvent) -> Seq<
    TouchStick<S>,
> {
    match step_target(sticks, event) {
        Some(i) => sticks.update(i, stick_after(sticks[i], event)),
        None => sticks,
    }
}

/// What is reported for one drag event: nothing if it is ignored, else the
/// new value of the stick it acts on.
pub open spec fn step_emission<S: StickIdType>(sticks: Seq<TouchStick<S>>, event: DragEvent)
    -> Option<Emission> {
    match step_target(sticks, event) {
        Some(i) => Some(
            Emission {
                stick: i,
                kind: kind_for(event.phase),
                value: stick_after(sticks[i], event).value,
            },
        ),
        None => None,
    }
}

/// The sticks after a batch of drag events, taken in arrival order.
pub open spec fn run_sticks<S: StickIdType>(sticks: Seq<TouchStick<S>>, events: Seq<DragEvent>)
    -> Seq<TouchStick<S>>
    decreases events.len(),
{
    if events.len() == 0 {
        sticks
    } else {
        step_sticks(run_sticks(sticks, events.drop_last()), events.last())
    }
}

/// What is reported for a batch of drag events, in the order of the events
/// that caused it.
pub open spec fn run_emissions<S: StickIdType>(sticks: Seq<TouchStick<S>>, events: Seq<DragEvent>)
    -> Seq<Emission>
    decreases events.len(),
{
    if events.len() == 0 {
        Seq::empty()
    } else {
        let earlier = run_emissions(sticks, events.drop_last());
        match step_emission(run_sticks(sticks, events.drop_last()), events.last()) {
            Some(e) => earlier.push(e),
            None => earlier,
        }
    }
}

/// The stick events `sent` are the emissions `emissions`, one for one and in
/// order, each carrying a clone of the identifier of its stick.
pub open spec fn reported<S: StickIdType>(
    sent: Seq<TouchStickEvent<S>>,
    sticks: Seq<TouchStick<S>>,
    emissions: Seq<Emission>,
) -> bool {
    &&& sent.len() == emissions.len()
    &&& forall|k: int|
        0 <= k < sent.len() ==> (#[trigger] sent[k]).reports(
            sticks[emissions[k].stick].id,
            emissions[k].kind,
            emissions[k].value,
        )
}

/// A batch with one more drag event at its end is the batch, and then the
/// event.
pub proof fn lemma_run_push<S: StickIdType>(
    sticks: Seq<TouchStick<S>>,
    events: Seq<DragEvent>,
    event: DragEvent,
)
    ensures
        run_sticks(sticks, events.push(event)) == step_sticks(run_sticks(sticks, events), event),
        run_emissions(sticks, events.push(event)) == match step_emission(
            run_sticks(sticks, events),
            event,
        ) {
            Some(e) => run_emissions(sticks, events).push(e),
            None => run_emissions(sticks, events),
        },
{
    assert(events.push(event).drop_last() =~= events);
    assert(events.push(event).last() == event);
}

/// The first holder is the only index that `is_holder` admits.
pub proof fn lemma_holder_is<S: StickIdType>(sticks: Seq<TouchStick<S>>, sequence_id: u64, i: int)
    requires
        is_holder(sticks, sequence_id, i),
    ensures
        holder(sticks, sequence_id) == Some(i),
{
    let c = choose|c: int| is_holder(sticks, sequence_id, c);
    if c < i {
        assert(sticks[c].drag_id != Some(sequence_id));
    } else if i < c {
        assert(sticks[i].drag_id != Some(sequence_id));
    }
}

/// A sequence that drives no stick has no holder.
pub proof fn lemma_no_holder<S: StickIdType>(sticks: Seq<TouchStick<S>>, sequence_id: u64)
    requires
        forall|j: int| 0 <= j < sticks.len() ==> (#[trigger] sticks[j]).drag_id != Some(sequence_id),
    ensures
        holder(sticks, sequence_id) is None,
{
    if exists|i: int| is_holder(sticks, sequence_id, i) {
        let c = choose|c: int| is_holder(sticks, sequence_id, c);
        assert(sticks[c].drag_id != Some(sequence_id));
    }
}

/// The first taker is the only index that `is_taker` admits.
pub proof fn lemma_taker_is<S: StickIdType>(sticks: Seq<TouchStick<S>>, position: Point, i: int)
    requires
        is_taker(sticks, position, i),
    ensures
        taker(sticks, position) == Some(i),
{
    let c = choose|c: int| is_taker(sticks, position, c);
    if c < i {
        assert(!sticks[c].spec_accepts(position));
    } else if i < c {
        assert(!sticks[i].spec_accepts(position));
    }
}

/// A press that no stick accepts has no taker.
pub proof fn lemma_no_taker<S: StickIdType>(sticks: Seq<TouchStick<S>>, position: Point)
    requires
        forall|j: int| 0 <= j < sticks.len() ==> !(#[trigger] sticks[j]).spec_accepts(position),
    ensures
        taker(sticks, position) is None,
{
    if exists|i: int| is_taker(sticks, position, i) {
        let c = choose|c: int| is_taker(sticks, position, c);
        assert(!sticks[c].spec_accepts(position));
    }
}

/// Whatever `holder` names is a first holder, and whatever `taker` names is a
/// first taker.
pub proof fn lemma_found_is_first<S: StickIdType>(
    sticks: Seq<TouchStick<S>>,
    sequence_id: u64,
    position: Point,
)
    ensures
        holder(sticks, sequence_id) matches Some(i) ==> is_holder(sticks, sequence_id, i),
        taker(sticks, position) matches Some(i) ==> is_taker(sticks, position, i),
        holder(sticks, sequence_id) is None ==> forall|j: int|
            0 <= j < sticks.len() ==> (#[trigger] sticks[j]).drag_id != Some(sequence_id),
        taker(sticks, position) is None ==> forall|j: int|
            0 <= j < sticks.len() ==> !(#[trigger] sticks[j]).spec_accepts(position),
{
    if holder(sticks, sequence_id) is None {
        assert forall|j: int| 0 <= j < sticks.len() implies (#[trigger] sticks[j]).drag_id != Some(
            sequence_id,
        ) by {
            if sticks[j].drag_id == Some(sequence_id) {
                lemma_first_holder_exists(sticks, sequence_id, j);
            }
        }
    }
    if taker(sticks, position) is None {
        assert forall|j: int| 0 <= j < sticks.len() implies !(#[trigger] sticks[j]).spec_accepts(
            position,
        ) by {
            if sticks[j].spec_accepts(position) {
                lemma_first_taker_exists(sticks, position, j);
            }
        }
    }
}

/// If the sequence drives stick `j`, it has a first holder at or before `j`.
pub proof fn lemma_first_holder_exists<S: StickIdType>(
    sticks: Seq<TouchStick<S>>,
    sequence_id: u64,
    j: int,
)
    requires
        0 <= j < sticks.len(),
        sticks[j].drag_id == Some(sequence_id),
    ensures
        holder(sticks, sequence_id) matches Some(i) && i <= j && is_holder(sticks, sequence_id, i),
    decreases j,
{
    if forall|k: int| 0 <= k < j ==> (#[trigger] sticks[k]).drag_id != Some(sequence_id) {
        assert(is_holder(sticks, sequence_id, j));
        lemma_holder_is(sticks, sequence_id, j);
    } else {
        let k = choose|k: int| 0 <= k < j && (#[trigger] sticks[k]).drag_id == Some(sequence_id);
        lemma_first_holder_exists(sticks, sequence_id, k);
    }
}

/// If stick `j` accepts the press, the press has a first taker at or before `j`.
pub proof fn lemma_first_taker_exists<S: StickIdType>(
    sticks: Seq<TouchStick<S>>,
    position: Point,
    j: int,
)
    requires
        0 <= j < sticks.len(),
        sticks[j].spec_accepts(position),
    ensures
        taker(sticks, position) matches Some(i) && i <= j && is_taker(sticks, position, i),
    decreases j,
{
    if forall|k: int| 0 <= k < j ==> !(#[trigger] sticks[k]).spec_accepts(position) {
        assert(is_taker(sticks, position, j));
        lemma_taker_is(sticks, position, j);
    } else {
        let k = choose|k: int| 0 <= k < j && (#[trigger] sticks[k]).spec_accepts(position);
        lemma_first_taker_exists(sticks, position, k);
    }
}

/// A drag event leaves the number of sticks, their identifiers and their
/// configurations as they were, and touches no stick but its target.
pub proof fn lemma_step_frame<S: StickIdType>(sticks: Seq<TouchStick<S>>, event: DragEvent)
    ensures
        step_sticks(sticks, event).len() == sticks.len(),
        step_target(sticks, event) matches Some(i) ==> 0 <= i < sticks.len(),
        forall|j: int|
            0 <= j < sticks.len() ==> {
                let before = #[trigger] sticks[j];
                let after = step_sticks(sticks, event)[j];
                &&& after.same_setup_as(before)
                &&& step_target(sticks, event) != Some(j) ==> after == before
            },
        all_wf(sticks) ==> all_wf(step_sticks(sticks, event)),
{
    lemma_found_is_first(sticks, event.sequence_id, event.position);
}

/// A batch of drag events leaves the number of sticks, their identifiers and
/// their configurations as they were.
pub proof fn lemma_run_frame<S: StickIdType>(sticks: Seq<TouchStick<S>>, events: Seq<DragEvent>)
    ensures
        run_sticks(sticks, events).len() == sticks.len(),
        forall|j: int|
            0 <= j < sticks.len() ==> run_sticks(sticks, events)[j].same_setup_as(
                #[trigger] sticks[j],
            ),
        all_wf(sticks) ==> all_wf(run_sticks(sticks, events)),
        forall|k: int|
            0 <= k < run_emissions(sticks, events).len() ==> 0 <= (#[trigger] run_emissions(
                sticks,
                events,
            )[k]).stick < sticks.len(),
    decreases events.len(),
{
    if events.len() > 0 {
        lemma_run_frame(sticks, events.drop_last());
        let mid = run_sticks(sticks, events.drop_last());
        lemma_step_frame(mid, events.last());
        assert forall|j: int| 0 <= j < sticks.len() implies run_sticks(
            sticks,
            events,
        )[j].same_setup_as(#[trigger] sticks[j]) by {
            assert(mid[j].same_setup_as(sticks[j]));
            assert(step_sticks(mid, events.last())[j].same_setup_as(mid[j]));
        }
    }
}

/// Finds the first stick that the drag sequence `sequence_id` drives.
pub fn find_holder<S: StickIdType>(sticks: &Vec<TouchStick<S>>, sequence_id: u64) -> (found: Option<
    usize,
>)
    ensures
        match found {
            Some(i) => holder(sticks@, sequence_id) == Some(i as int),
            None => holder(sticks@, sequence_id) is None,
        },
{
    let mut i: usize = 0;
    while i < sticks.len()
        invariant
            i <= sticks.len(),
            forall|j: int| 0 <= j < i ==> (#[trigger] sticks@[j]).drag_id != Some(sequence_id),
        decreases sticks.len() - i,
    {
        if sticks[i].is_bound_to(sequence_id) {
            proof {
                lemma_holder_is(sticks@, sequence_id, i as int);
            }
            return Some(i);
        }
        i += 1;
    }
    proof {
        lemma_no_holder(sticks@, sequence_id);
    }
    None
}

/// Finds the first idle stick whose zone holds `position`.
pub fn find_taker<S: StickIdType>(sticks: &Vec<TouchStick<S>>, position: Point) -> (found: Option<
    usize,
>)
    ensures
        match found {
            Some(i) => taker(sticks@, position) == Some(i as int),
            None => taker(sticks@, position) is None,
        },
{
    let mut i: usize = 0;
    while i < sticks.len()
        invariant
            i <= sticks.len(),
            forall|j: int| 0 <= j < i ==> !(#[trigger] sticks@[j]).spec_accepts(position),
        decreases sticks.len() - i,
    {
        if sticks[i].accepts(position) {
            proof {
                lemma_taker_is(sticks@, position, i as int);
            }
            return Some(i);
        }
        i += 1;
    }
    proof {
        lemma_no_taker(sticks@, position);
    }
    None
}

/// Finds the stick that a drag event acts on.
pub fn find_target<S: StickIdType>(sticks: &Vec<TouchStick<S>>, event: &DragEvent) -> (found:
    Option<usize>)
    ensures
        match found {
            Some(i) => step_target(sticks@, *event) == Some(i as int) && i < sticks.len(),
            None => step_target(sticks@, *event) is None,
        },
{
    let held = find_holder(sticks, event.sequence_id);
    proof {
        lemma_found_is_first(sticks@, event.sequence_id, event.position);
    }
    match event.phase {
        DragPhase::Press => {
            if held.is_some() {
                None
            } else {
                find_taker(sticks, event.position)
            }
        },
        DragPhase::Move => held,
        DragPhase::Release => held,
    }
}

/// Applies one drag event to the sticks and returns the stick event that it
/// causes, if any.
pub fn apply_drag_event<S: StickIdType>(sticks: &mut Vec<TouchStick<S>>, event: &DragEvent) -> (out:
    Option<TouchStickEvent<S>>)
    requires
        all_wf(old(sticks)@),
    ensures
        final(sticks)@ == step_sticks(old(sticks)@, *event),
        all_wf(final(sticks)@),
        match step_emission(old(sticks)@, *event) {
            Some(em) => out matches Some(e) && e.reports(
                old(sticks)@[em.stick].id,
                em.kind,
                em.value,
            ),
            None => out is None,
        },
{
    proof {
        lemma_step_frame(sticks@, *event);
    }
    match find_target(sticks, event) {
        None => None,
        Some(i) => {
            let id = sticks[i].id.clone();
            let (kind, value) = match event.phase {
                DragPhase::Press => {
                    let v = sticks[i].press(event.sequence_id, event.position);
                    (TouchStickEventType::Press, v)
                },
                DragPhase::Move => {
                    let v = sticks[i].drag_to(event.position);
                    (TouchStickEventType::Drag, v)
                },
                DragPhase::Release => {
                    sticks[i].release();
                    (TouchStickEventType::Release, StickValue::zero())
                },
            };
            assert(sticks@ =~= step_sticks(old(sticks)@, *event));
            Some(TouchStickEvent::new(id, kind, value))
        },
    }
}

/// Applies a batch of drag events in arrival order and returns the stick
/// events that they cause, in the order in which they were caused.
pub fn update_sticks_from_drag_events<S: StickIdType>(
    sticks: &mut Vec<TouchStick<S>>,
    drag_events: &Vec<DragEvent>,
) -> (stick_events: Vec<TouchStickEvent<S>>)
    requires
        all_wf(old(sticks)@),
    ensures
        final(sticks)@ == run_sticks(old(sticks)@, drag_events@),
        all_wf(final(sticks)@),
        reported(stick_events@, old(sticks)@, run_emissions(old(sticks)@, drag_events@)),
{
    let mut stick_events: Vec<TouchStickEvent<S>> = Vec::new();
    let mut k: usize = 0;
    while k < drag_events.len()
        invariant
            k <= drag_events.len(),
            all_wf(sticks@),
            sticks@ == run_sticks(old(sticks)@, drag_events@.take(k as int)),
            reported(
                stick_events@,
                old(sticks)@,
                run_emissions(old(sticks)@, drag_events@.take(k as int)),
            ),
        decreases drag_events.len() - k,
    {
        proof {
            let done = drag_events@.take(k as int);
            assert(drag_events@.take(k as int + 1) =~= done.push(drag_events@[k as int]));
            lemma_run_push(old(sticks)@, done, drag_events@[k as int]);
            lemma_run_frame(old(sticks)@, done);
            lemma_step_frame(sticks@, drag_events@[k as int]);
        }
        match apply_drag_event(sticks, &drag_events[k]) {
            None => {},
            Some(e) => {
                stick_events.push(e);
            },
        }
        k += 1;
    }
    proof {
        assert(drag_events@.take(k as int) =~= drag_events@);
    }
    stick_events
}

} // verus!
