//! The zone mapper: gives every stick the zone in which presses reach it.

use crate::geometry::{clamp_coordinate, clamp_to_coordinate, Point, Zone};
use crate::stick::{StickIdType, TouchStick};
use vstd::prelude::*;

verus! {

/// The placement of one interaction region: its center, in input space, and
/// its size.
#[derive(Clone, Copy, Debug, PartialEq, Eq, Structural)]
pub struct InteractionArea {
    pub center: Point,
    pub width: u32,
    pub height: u32,
}

impl InteractionArea {
    /// The zone that the region covers.
    pub open spec fn spec_zone(&self) -> Zone {
        Zone::spec_from_center_size(self.center, self.width, self.height)
    }

    /// The zone that the region covers.
    #[verifier::when_used_as_spec(spec_zone)]
    pub fn zone(&self) -> (z: Zone)
        ensures
            z == self.spec_zone(),
    {
        Zone::from_center_size(self.center, self.width, self.height)
    }
}

/// A point of a display whose vertical axis runs against that of input space,
/// seen from input space: its height above the other edge of a display that
/// is `display_height` high.
pub open spec fn spec_flip_vertical(p: Point, display_height: u32) -> Point {
    Point { x: p.x, y: clamp_coordinate(display_height - p.y) as i32 }
}

/// Carries a point across a flip of the vertical axis.
#[verifier::when_used_as_spec(spec_flip_vertical)]
pub fn flip_vertical(p: Point, display_height: u32) -> (q: Point)
    ensures
        q == spec_flip_vertical(p, display_height),
{
    Point { x: p.x, y: clamp_to_coordinate(display_height as i64 - p.y as i64) }
}

/// The zone of a stick after mapping: every region is handed to every stick
/// in turn, so the last region stays; without a region the zone is kept.
pub open spec fn mapped_zone(areas: Seq<InteractionArea>, current: Zone) -> Zone {
    if areas.len() == 0 {
        current
    } else {
        areas.last().spec_zone()
    }
}

/// The sticks after mapping: only their zones change.
pub open spec fn mapped_sticks<S: StickIdType>(
    areas: Seq<InteractionArea>,
    sticks: Seq<TouchStick<S>>,
) -> Seq<TouchStick<S>> {
    Seq::new(
        sticks.len(),
        |i: int|
            TouchStick {
                interactable_zone: mapped_zone(areas, sticks[i].interactable_zone),
                ..sticks[i]
            },
    )
}

/// Recomputes the zone of every stick from the placement of the interaction
/// regions. Regions are not matched to sticks: each stick ends with the zone
/// of the last region.
pub fn map_input_zones_from_ui_nodes<S: StickIdType>(
    interaction_areas: &Vec<InteractionArea>,
    sticks: &mut Vec<TouchStick<S>>,
)
    ensures
        final(sticks)@ == mapped_sticks(interaction_areas@, old(sticks)@),
{
    if interaction_areas.len() == 0 {
        assert(sticks@ =~= mapped_sticks(interaction_areas@, sticks@));
        return ;
    }
    let zone = interaction_areas[interaction_areas.len() - 1].zone();
    let mut i: usize = 0;
    while i < sticks.len()
        invariant
            i <= sticks.len(),
            sticks.len() == old(sticks).len(),
            interaction_areas.len() > 0,
            zone == mapped_zone(interaction_areas@, Zone::spec_everywhere()),
            forall|j: int|
                0 <= j < i ==> sticks@[j] == mapped_sticks(interaction_areas@, old(sticks)@)[j],
            forall|j: int| i <= j < sticks.len() ==> sticks@[j] == old(sticks)@[j],
        decreases sticks.len() - i,
    {
        sticks[i].interactable_zone = zone;
        i += 1;
    }
    assert(sticks@ =~= mapped_sticks(interaction_areas@, old(sticks)@));
}

} // verus!
