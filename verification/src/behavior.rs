//! Positioning behaviors and the rule that turns a drag offset into a stick
//! value.

use crate::arith::{
    ceil_sqrt, ceil_sqrt_u128, lemma_ceil_sqrt_is_root, lemma_ceil_sqrt_of_square,
    lemma_scale_keeps_direction, lemma_scale_toward_zero_bounds,
    lemma_scaled_pair_bound, lemma_square_monotonic, magnitude, magnitude_of, norm_sq,
    scale_toward_zero, scale_toward_zero_i64,
};
use crate::geometry::Offset;
use vstd::prelude::*;

verus! {

/// How a stick places itself while it is dragged.
#[derive(Clone, Copy, Debug, PartialEq, Eq, Structural)]
pub enum TouchStickType {
    /// The stick measures drags from a base that never moves.
    Fixed,
    /// The stick measures each drag from the point where it was pressed.
    Floating,
    /// The base starts at the press point and follows the drag whenever the
    /// drag gets further away than the stick's radius.
    Dynamic,
}

impl Default for TouchStickType {
    fn default() -> (t: TouchStickType)
        ensures
            t == TouchStickType::Floating,
    {
        TouchStickType::Floating
    }
}

/// The stick value whose length is exactly one, in millionths.
pub const VALUE_ONE: i32 = 1_000_000;

/// The output of a stick: a direction of length at most one, each component
/// counted in millionths.
#[derive(Clone, Copy, Debug, PartialEq, Eq, Structural)]
pub struct StickValue {
    pub x: i32,
    pub y: i32,
}

impl StickValue {
    /// The value of a stick at rest.
    pub open spec fn spec_zero() -> StickValue {
        StickValue { x: 0, y: 0 }
    }

    /// The value of a stick at rest.
    #[verifier::when_used_as_spec(spec_zero)]
    pub fn zero() -> (v: StickValue)
        ensures
            v == StickValue::spec_zero(),
    {
        StickValue { x: 0, y: 0 }
    }

    /// The squared length of the value, in millionths squared.
    pub open spec fn length_sq(self) -> nat {
        norm_sq(self.x as int, self.y as int)
    }

    /// The length of the value does not exceed one.
    pub open spec fn within_unit(self) -> bool {
        self.length_sq() <= VALUE_ONE * VALUE_ONE
    }

    /// A value shorter than `dead_zone` is exactly zero.
    pub open spec fn respects_dead_zone(self, dead_zone: u32) -> bool {
        self.length_sq() < dead_zone * dead_zone ==> self == StickValue::spec_zero()
    }
}

impl Default for StickValue {
    fn default() -> (v: StickValue)
        ensures
            v == StickValue::spec_zero(),
    {
        StickValue { x: 0, y: 0 }
    }
}

/// The offset `(dx, dy)` cut back to the radius: an offset within the radius
/// is kept; a longer one keeps its direction and is shortened by the ratio of
/// the radius to its length, the length rounded up and each component rounded
/// toward zero.
pub open spec fn clamp_to_radius(dx: int, dy: int, radius: nat) -> (int, int) {
    if norm_sq(dx, dy) <= radius * radius {
        (dx, dy)
    } else {
        let len = ceil_sqrt(norm_sq(dx, dy));
        (scale_toward_zero(dx, radius, len), scale_toward_zero(dy, radius, len))
    }
}

/// An offset within the radius as a fraction of the radius, in millionths,
/// each component rounded toward zero.
pub open spec fn normalize(cx: int, cy: int, radius: nat) -> (int, int) {
    (
        scale_toward_zero(cx, VALUE_ONE as nat, radius),
        scale_toward_zero(cy, VALUE_ONE as nat, radius),
    )
}

/// A value shorter than the dead zone becomes zero; any other is kept.
pub open spec fn apply_dead_zone(vx: int, vy: int, dead_zone: nat) -> (int, int) {
    if norm_sq(vx, vy) < dead_zone * dead_zone {
        (0, 0)
    } else {
        (vx, vy)
    }
}

/// The value of a stick whose drag stands at `(dx, dy)` from its base.
pub open spec fn stick_value(dx: int, dy: int, radius: nat, dead_zone: nat) -> (int, int) {
    let c = clamp_to_radius(dx, dy, radius);
    let v = normalize(c.0, c.1, radius);
    apply_dead_zone(v.0, v.1, dead_zone)
}

/// The square of a number is the square of its magnitude.
pub proof fn lemma_square_of_magnitude(x: int)
    ensures
        x * x == magnitude(x) * magnitude(x),
        x * x >= 0,
{
    assert(x * x == magnitude(x) * magnitude(x) && x * x >= 0) by (nonlinear_arith)
        requires
            magnitude(x) == x || magnitude(x) == -x,
    ;
}

/// A number whose square is at most `b * b` is at most `b` in magnitude.
pub proof fn lemma_magnitude_from_square(x: int, b: nat)
    requires
        x * x <= b * b,
    ensures
        magnitude(x) <= b,
{
    lemma_square_of_magnitude(x);
    if magnitude(x) > b {
        assert(magnitude(x) * magnitude(x) > b * b) by (nonlinear_arith)
            requires
                magnitude(x) > b,
                b >= 0,
        ;
    }
}

/// A clamped offset lies within the radius, points the way the offset does,
/// and is no longer than the offset in either component.
pub proof fn lemma_clamp_to_radius(dx: int, dy: int, radius: nat)
    requires
        radius > 0,
    ensures
        ({
            let c = clamp_to_radius(dx, dy, radius);
            &&& norm_sq(c.0, c.1) <= radius * radius
            &&& magnitude(c.0) <= radius
            &&& magnitude(c.1) <= radius
            &&& magnitude(c.0) <= magnitude(dx)
            &&& magnitude(c.1) <= magnitude(dy)
            &&& dx >= 0 ==> c.0 >= 0
            &&& dx <= 0 ==> c.0 <= 0
            &&& dy >= 0 ==> c.1 >= 0
            &&& dy <= 0 ==> c.1 <= 0
        }),
{
    let c = clamp_to_radius(dx, dy, radius);
    let n = norm_sq(dx, dy);
    lemma_square_of_magnitude(dx);
    lemma_square_of_magnitude(dy);
    if n <= radius * radius {
        lemma_magnitude_from_square(dx, radius);
        lemma_magnitude_from_square(dy, radius);
    } else {
        let len = ceil_sqrt(n);
        lemma_ceil_sqrt_is_root(n);
        if len <= radius {
            lemma_square_monotonic(len, radius);
        }
        assert(len > radius);
        lemma_scale_toward_zero_bounds(dx, radius, len);
        lemma_scale_toward_zero_bounds(dy, radius, len);
        lemma_scaled_pair_bound(magnitude(dx), magnitude(dy), radius, len);
        lemma_square_of_magnitude(c.0);
        lemma_square_of_magnitude(c.1);
        lemma_magnitude_from_square(c.0, radius);
        lemma_magnitude_from_square(c.1, radius);
    }
}

/// Clamping an offset that lies within the radius changes nothing, so
/// clamping twice is clamping once.
pub proof fn lemma_clamp_to_radius_idempotent(dx: int, dy: int, radius: nat)
    requires
        radius > 0,
    ensures
        ({
            let c = clamp_to_radius(dx, dy, radius);
            clamp_to_radius(c.0, c.1, radius) == c
        }),
{
    lemma_clamp_to_radius(dx, dy, radius);
}

/// The value of a stick is never longer than one, and is zero whenever it is
/// shorter than the dead zone.
pub proof fn lemma_stick_value_bounds(dx: int, dy: int, radius: nat, dead_zone: nat)
    requires
        radius > 0,
    ensures
        ({
            let v = stick_value(dx, dy, radius, dead_zone);
            &&& norm_sq(v.0, v.1) <= VALUE_ONE * VALUE_ONE
            &&& magnitude(v.0) <= VALUE_ONE
            &&& magnitude(v.1) <= VALUE_ONE
            &&& norm_sq(v.0, v.1) < dead_zone * dead_zone ==> v == (0int, 0int)
        }),
{
    let c = clamp_to_radius(dx, dy, radius);
    lemma_clamp_to_radius(dx, dy, radius);
    let v = normalize(c.0, c.1, radius);
    lemma_square_of_magnitude(c.0);
    lemma_square_of_magnitude(c.1);
    lemma_scale_toward_zero_bounds(c.0, VALUE_ONE as nat, radius);
    lemma_scale_toward_zero_bounds(c.1, VALUE_ONE as nat, radius);
    lemma_scaled_pair_bound(magnitude(c.0), magnitude(c.1), VALUE_ONE as nat, radius);
    lemma_square_of_magnitude(v.0);
    lemma_square_of_magnitude(v.1);
    lemma_magnitude_from_square(v.0, VALUE_ONE as nat);
    lemma_magnitude_from_square(v.1, VALUE_ONE as nat);
}

/// Clamping and normalizing keep the direction up to rounding: the cross
/// product of an offset with its clamped image is at most the larger
/// component of the offset, and that of a clamped offset with its value is
/// at most the larger component of the clamped offset.
pub proof fn lemma_direction_is_kept(dx: int, dy: int, radius: nat, dead_zone: nat)
    requires
        radius > 0,
    ensures
        ({
            let c = clamp_to_radius(dx, dy, radius);
            let v = stick_value(dx, dy, radius, dead_zone);
            &&& magnitude(c.0 * dy - c.1 * dx) <= magnitude(dx) || magnitude(c.0 * dy - c.1 * dx)
                <= magnitude(dy)
            &&& magnitude(v.0 * c.1 - v.1 * c.0) <= magnitude(c.0) || magnitude(
                v.0 * c.1 - v.1 * c.0,
            ) <= magnitude(c.1)
        }),
{
    let c = clamp_to_radius(dx, dy, radius);
    if norm_sq(dx, dy) <= radius * radius {
        assert(c.0 * dy - c.1 * dx == 0) by (nonlinear_arith)
            requires
                c.0 == dx,
                c.1 == dy,
        ;
    } else {
        let len = ceil_sqrt(norm_sq(dx, dy));
        lemma_ceil_sqrt_is_root(norm_sq(dx, dy));
        lemma_scale_keeps_direction(dx, dy, radius, len);
    }
    lemma_scale_keeps_direction(c.0, c.1, VALUE_ONE as nat, radius);
    let v = stick_value(dx, dy, radius, dead_zone);
    if v == (0int, 0int) {
        assert(v.0 * c.1 - v.1 * c.0 == 0) by (nonlinear_arith)
            requires
                v.0 == 0,
                v.1 == 0,
        ;
    }
}

/// An offset along one axis that is longer than the radius is cut back to
/// exactly the radius, and its value is exactly one long, unless the dead zone
/// is more than one.
pub proof fn lemma_axis_offset_saturates(d: int, radius: nat, dead_zone: nat)
    requires
        radius > 0,
        magnitude(d) > radius,
        dead_zone <= VALUE_ONE,
    ensures
        d > 0 ==> clamp_to_radius(d, 0, radius) == (radius as int, 0int) && clamp_to_radius(
            0,
            d,
            radius,
        ) == (0int, radius as int),
        d < 0 ==> clamp_to_radius(d, 0, radius) == (-(radius as int), 0int) && clamp_to_radius(
            0,
            d,
            radius,
        ) == (0int, -(radius as int)),
        d > 0 ==> stick_value(d, 0, radius, dead_zone) == (VALUE_ONE as int, 0int) && stick_value(
            0,
            d,
            radius,
            dead_zone,
        ) == (0int, VALUE_ONE as int),
        d < 0 ==> stick_value(d, 0, radius, dead_zone) == (-(VALUE_ONE as int), 0int)
            && stick_value(0, d, radius, dead_zone) == (0int, -(VALUE_ONE as int)),
{
    let m = magnitude(d);
    lemma_square_of_magnitude(d);
    lemma_ceil_sqrt_of_square(m);
    assert(norm_sq(d, 0) == m * m);
    assert(norm_sq(0, d) == m * m);
    lemma_square_monotonic(radius + 1, m);
    assert((radius + 1) * (radius + 1) > radius * radius) by (nonlinear_arith);
    lemma_ratio_of_multiple(m, radius);
    lemma_ratio_of_multiple(radius, VALUE_ONE as nat);
    lemma_scale_toward_zero_bounds(d, radius, m);
    lemma_scale_toward_zero_bounds(0, radius, m);
    let r = radius as int;
    lemma_scale_toward_zero_bounds(r, VALUE_ONE as nat, radius);
    lemma_scale_toward_zero_bounds(-r, VALUE_ONE as nat, radius);
    lemma_scale_toward_zero_bounds(0, VALUE_ONE as nat, radius);
    assert(norm_sq(r, 0) == radius * radius) by (nonlinear_arith)
        requires
            r == radius,
    ;
    assert(norm_sq(-r, 0) == radius * radius) by (nonlinear_arith)
        requires
            r == radius,
    ;
    assert(norm_sq(0, r) == radius * radius) by (nonlinear_arith)
        requires
            r == radius,
    ;
    assert(norm_sq(0, -r) == radius * radius) by (nonlinear_arith)
        requires
            r == radius,
    ;
    let one = VALUE_ONE as int;
    assert(norm_sq(one, 0) == one * one && norm_sq(-one, 0) == one * one && norm_sq(0, one) == one
        * one && norm_sq(0, -one) == one * one) by (nonlinear_arith);
    assert(dead_zone * dead_zone <= one * one) by (nonlinear_arith)
        requires
            0 <= dead_zone <= one,
    ;
}

/// A multiple of a positive number, divided by that number, is the factor.
pub proof fn lemma_ratio_of_multiple(den: nat, factor: nat)
    requires
        den > 0,
    ensures
        (den * factor) / den == factor,
        (factor * den) / den == factor,
{
    assert((den * factor) / den == factor && (factor * den) / den == factor) by (nonlinear_arith)
        requires
            den > 0,
            factor >= 0,
    ;
}

/// Cuts an offset back to the radius.
pub fn clamp_offset(off: Offset, radius: u32) -> (c: Offset)
    requires
        off.in_range(),
        radius > 0,
    ensures
        (c.x as int, c.y as int) == clamp_to_radius(off.x as int, off.y as int, radius as nat),
        c.in_range(),
{
    let ax: u64 = magnitude_of(off.x);
    let ay: u64 = magnitude_of(off.y);
    proof {
        lemma_square_of_magnitude(off.x as int);
        lemma_square_of_magnitude(off.y as int);
        lemma_clamp_to_radius(off.x as int, off.y as int, radius as nat);
        assert(ax * ax <= 0xffff_ffff * 0xffff_ffff) by (nonlinear_arith)
            requires
                0 <= ax <= 0xffff_ffff,
        ;
        assert(ay * ay <= 0xffff_ffff * 0xffff_ffff) by (nonlinear_arith)
            requires
                0 <= ay <= 0xffff_ffff,
        ;
        assert(radius * radius <= 0xffff_ffff * 0xffff_ffff) by (nonlinear_arith)
            requires
                0 <= radius <= 0xffff_ffff,
        ;
    }
    let n: u128 = (ax as u128) * (ax as u128) + (ay as u128) * (ay as u128);
    let limit: u128 = (radius as u128) * (radius as u128);
    if n <= limit {
        off
    } else {
        let len: u64 = ceil_sqrt_u128(n);
        proof {
            lemma_ceil_sqrt_is_root(n as nat);
            if len <= radius {
                lemma_square_monotonic(len as nat, radius as nat);
            }
        }
        Offset {
            x: scale_toward_zero_i64(off.x, radius, len),
            y: scale_toward_zero_i64(off.y, radius, len),
        }
    }
}

/// Computes the value of a stick whose drag stands at `off` from its base.
pub fn compute_value(off: Offset, radius: u32, dead_zone: u32) -> (v: StickValue)
    requires
        off.in_range(),
        radius > 0,
    ensures
        (v.x as int, v.y as int) == stick_value(
            off.x as int,
            off.y as int,
            radius as nat,
            dead_zone as nat,
        ),
        v.within_unit(),
        v.respects_dead_zone(dead_zone),
{
    let c = clamp_offset(off, radius);
    proof {
        lemma_clamp_to_radius(off.x as int, off.y as int, radius as nat);
        lemma_stick_value_bounds(off.x as int, off.y as int, radius as nat, dead_zone as nat);
        lemma_scale_toward_zero_bounds(c.x as int, VALUE_ONE as nat, radius as nat);
        lemma_scale_toward_zero_bounds(c.y as int, VALUE_ONE as nat, radius as nat);
    }
    let vx: i64 = scale_toward_zero_i64(c.x, VALUE_ONE as u32, radius as u64);
    let vy: i64 = scale_toward_zero_i64(c.y, VALUE_ONE as u32, radius as u64);
    let mx: u64 = magnitude_of(vx);
    let my: u64 = magnitude_of(vy);
    proof {
        lemma_square_of_magnitude(vx as int);
        lemma_square_of_magnitude(vy as int);
        assert(mx * mx <= 1_000_000 * 1_000_000) by (nonlinear_arith)
            requires
                0 <= mx <= 1_000_000,
        ;
        assert(my * my <= 1_000_000 * 1_000_000) by (nonlinear_arith)
            requires
                0 <= my <= 1_000_000,
        ;
        assert(dead_zone * dead_zone <= 0xffff_ffff * 0xffff_ffff) by (nonlinear_arith)
            requires
                0 <= dead_zone <= 0xffff_ffff,
        ;
    }
    let len_sq: u64 = mx * mx + my * my;
    let dz_sq: u64 = (dead_zone as u64) * (dead_zone as u64);
    if len_sq < dz_sq {
        StickValue { x: 0, y: 0 }
    } else {
        StickValue { x: vx as i32, y: vy as i32 }
    }
}

} // verus!
