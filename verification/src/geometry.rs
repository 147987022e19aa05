//! Points, offsets and axis-aligned zones of the input plane.

use vstd::prelude::*;

verus! {

/// A position in input space, in whole input units.
#[derive(Clone, Copy, Debug, PartialEq, Eq, Structural)]
pub struct Point {
    pub x: i32,
    pub y: i32,
}

/// The difference of two positions. Each component of a difference of two
/// points lies within `-(2^32 - 1) ..= 2^32 - 1`.
#[derive(Clone, Copy, Debug, PartialEq, Eq, Structural)]
pub struct Offset {
    pub x: i64,
    pub y: i64,
}

/// An axis-aligned rectangle of input space; both corners belong to it.
#[derive(Clone, Copy, Debug, PartialEq, Eq, Structural)]
pub struct Zone {
    pub min: Point,
    pub max: Point,
}

/// The nearest value to `v` that a coordinate can hold.
pub open spec fn clamp_coordinate(v: int) -> int {
    if v < i32::MIN {
        i32::MIN as int
    } else if v > i32::MAX {
        i32::MAX as int
    } else {
        v
    }
}

impl Point {
    /// The origin of input space.
    pub open spec fn origin() -> Point {
        Point { x: 0, y: 0 }
    }

    pub fn new(x: i32, y: i32) -> (p: Point)
        ensures
            p == (Point { x, y }),
    {
        Point { x, y }
    }

    /// The origin of input space.
    pub fn zero() -> (p: Point)
        ensures
            p == Point::origin(),
    {
        Point { x: 0, y: 0 }
    }

    /// The offset that leads from `from` to this point.
    pub open spec fn spec_offset_from(self, from: Point) -> Offset {
        Offset { x: (self.x - from.x) as i64, y: (self.y - from.y) as i64 }
    }

    /// The offset that leads from `from` to this point.
    pub fn offset_from(&self, from: Point) -> (off: Offset)
        ensures
            off == self.spec_offset_from(from),
            off.x == self.x - from.x,
            off.y == self.y - from.y,
            off.in_range(),
    {
        Offset { x: self.x as i64 - from.x as i64, y: self.y as i64 - from.y as i64 }
    }
}

impl Default for Point {
    fn default() -> (p: Point)
        ensures
            p == Point::origin(),
    {
        Point { x: 0, y: 0 }
    }
}

impl Offset {
    /// Both components are differences of two coordinates.
    pub open spec fn in_range(self) -> bool {
        &&& -0xffff_ffff <= self.x <= 0xffff_ffff
        &&& -0xffff_ffff <= self.y <= 0xffff_ffff
    }
}

impl Zone {
    /// Whether `p` lies inside the zone or on its border.
    pub open spec fn spec_contains(&self, p: Point) -> bool {
        &&& self.min.x <= p.x <= self.max.x
        &&& self.min.y <= p.y <= self.max.y
    }

    /// Whether `p` lies inside the zone or on its border.
    #[verifier::when_used_as_spec(spec_contains)]
    pub fn contains(&self, p: Point) -> (inside: bool)
        ensures
            inside == self.spec_contains(p),
    {
        self.min.x <= p.x && p.x <= self.max.x && self.min.y <= p.y && p.y <= self.max.y
    }

    /// The zone that holds every point.
    pub open spec fn spec_everywhere() -> Zone {
        Zone { min: Point { x: i32::MIN, y: i32::MIN }, max: Point { x: i32::MAX, y: i32::MAX } }
    }

    /// The zone that holds every point.
    #[verifier::when_used_as_spec(spec_everywhere)]
    pub fn everywhere() -> (z: Zone)
        ensures
            z == Zone::spec_everywhere(),
    {
        Zone { min: Point { x: i32::MIN, y: i32::MIN }, max: Point { x: i32::MAX, y: i32::MAX } }
    }

    /// The zone of the given size around `center`: it reaches half the size,
    /// rounded down, to either side, and stops at the edge of input space.
    pub open spec fn spec_from_center_size(center: Point, width: u32, height: u32) -> Zone {
        Zone {
            min: Point {
                x: clamp_coordinate(center.x - width / 2) as i32,
                y: clamp_coordinate(center.y - height / 2) as i32,
            },
            max: Point {
                x: clamp_coordinate(center.x + width / 2) as i32,
                y: clamp_coordinate(center.y + height / 2) as i32,
            },
        }
    }

    /// The zone of the given size around `center`.
    #[verifier::when_used_as_spec(spec_from_center_size)]
    pub fn from_center_size(center: Point, width: u32, height: u32) -> (z: Zone)
        ensures
            z == Zone::spec_from_center_size(center, width, height),
    {
        let half_w: i64 = (width / 2) as i64;
        let half_h: i64 = (height / 2) as i64;
        Zone {
            min: Point {
                x: clamp_to_coordinate(center.x as i64 - half_w),
                y: clamp_to_coordinate(center.y as i64 - half_h),
            },
            max: Point {
                x: clamp_to_coordinate(center.x as i64 + half_w),
                y: clamp_to_coordinate(center.y as i64 + half_h),
            },
        }
    }
}

/// The nearest coordinate to `v`.
pub fn clamp_to_coordinate(v: i64) -> (c: i32)
    ensures
        c == clamp_coordinate(v as int),
{
    if v < i32::MIN as i64 {
        i32::MIN
    } else if v > i32::MAX as i64 {
        i32::MAX
    } else {
        v as i32
    }
}

} // verus!
