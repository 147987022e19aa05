use touch_stick::arith::{ceil_sqrt_u128, magnitude_of, scale_toward_zero_i64};
use touch_stick::behavior::{clamp_offset, compute_value};
use touch_stick::geometry::clamp_to_coordinate;
use touch_stick::zone::flip_vertical;
use touch_stick::{
    map_input_zones_from_ui_nodes, InteractionArea, Offset, Point, StickValue, TouchStick, Zone,
};

#[test]
fn ceil_sqrt_rounds_up() {
    assert_eq!(ceil_sqrt_u128(0), 0);
    assert_eq!(ceil_sqrt_u128(1), 1);
    assert_eq!(ceil_sqrt_u128(2), 2);
    assert_eq!(ceil_sqrt_u128(3), 2);
    assert_eq!(ceil_sqrt_u128(4), 2);
    assert_eq!(ceil_sqrt_u128(5), 3);
    assert_eq!(ceil_sqrt_u128(6400), 80);
    assert_eq!(ceil_sqrt_u128(6401), 81);
    assert_eq!(ceil_sqrt_u128(20_000), 142);
    assert_eq!(ceil_sqrt_u128(1 << 64), 1 << 32);
    assert_eq!(ceil_sqrt_u128((1 << 64) + 1), (1 << 32) + 1);
    let top = u64::MAX as u128 * u64::MAX as u128;
    assert_eq!(ceil_sqrt_u128(top), u64::MAX);
    assert_eq!(ceil_sqrt_u128(top - 1), u64::MAX);
    let mut n: u128 = 0;
    while n < 2000 {
        let r = ceil_sqrt_u128(n) as u128;
        assert!(r * r >= n);
        assert!(r == 0 || (r - 1) * (r - 1) < n);
        n += 1;
    }
}

#[test]
fn magnitude_is_distance_from_zero() {
    assert_eq!(magnitude_of(0), 0);
    assert_eq!(magnitude_of(17), 17);
    assert_eq!(magnitude_of(-17), 17);
    assert_eq!(magnitude_of(i64::MAX), i64::MAX as u64);
    assert_eq!(magnitude_of(i64::MIN + 1), i64::MAX as u64);
}

#[test]
fn scaling_rounds_toward_zero() {
    assert_eq!(scale_toward_zero_i64(7, 1, 2), 3);
    assert_eq!(scale_toward_zero_i64(-7, 1, 2), -3);
    assert_eq!(scale_toward_zero_i64(100, 50, 142), 35);
    assert_eq!(scale_toward_zero_i64(-100, 50, 142), -35);
    assert_eq!(scale_toward_zero_i64(0, 50, 142), 0);
    assert_eq!(scale_toward_zero_i64(25, 1_000_000, 50), 500_000);
    assert_eq!(scale_toward_zero_i64(-1, 1_000_000, 3), -333_333);
    assert_eq!(scale_toward_zero_i64(4_294_967_295, 4_294_967_295, 4_294_967_295), 4_294_967_295);
}

#[test]
fn clamp_keeps_offsets_within_radius() {
    assert_eq!(clamp_offset(Offset { x: 3, y: 4 }, 5), Offset { x: 3, y: 4 });
    assert_eq!(clamp_offset(Offset { x: 0, y: 0 }, 1), Offset { x: 0, y: 0 });
    assert_eq!(clamp_offset(Offset { x: -50, y: 0 }, 50), Offset { x: -50, y: 0 });
}

#[test]
fn clamp_shortens_longer_offsets() {
    assert_eq!(clamp_offset(Offset { x: 80, y: 0 }, 50), Offset { x: 50, y: 0 });
    assert_eq!(clamp_offset(Offset { x: 0, y: -80 }, 50), Offset { x: 0, y: -50 });
    assert_eq!(clamp_offset(Offset { x: -30, y: 40 }, 10), Offset { x: -6, y: 8 });
    assert_eq!(clamp_offset(Offset { x: 100, y: 100 }, 50), Offset { x: 35, y: 35 });
    assert_eq!(clamp_offset(Offset { x: 3, y: 5 }, 5), Offset { x: 2, y: 4 });
    assert_eq!(clamp_offset(Offset { x: 1, y: 1 }, 1), Offset { x: 0, y: 0 });
    let far = 4_294_967_295i64;
    let c = clamp_offset(Offset { x: far, y: -far }, 1000);
    assert_eq!(c, Offset { x: 707, y: -707 });
    let c = clamp_offset(Offset { x: far, y: 0 }, u32::MAX);
    assert_eq!(c, Offset { x: far, y: 0 });
}

#[test]
fn compute_value_exact() {
    assert_eq!(compute_value(Offset { x: 25, y: 0 }, 50, 100_000), StickValue { x: 500_000, y: 0 });
    assert_eq!(compute_value(Offset { x: 5, y: 0 }, 50, 100_000), StickValue { x: 100_000, y: 0 });
    assert_eq!(compute_value(Offset { x: 4, y: 0 }, 50, 100_000), StickValue { x: 0, y: 0 });
    assert_eq!(compute_value(Offset { x: 80, y: 0 }, 50, 0), StickValue { x: 1_000_000, y: 0 });
    assert_eq!(
        compute_value(Offset { x: 1, y: -2 }, 3, 0),
        StickValue { x: 333_333, y: -666_666 }
    );
    assert_eq!(
        compute_value(Offset { x: 100, y: 100 }, 50, 0),
        StickValue { x: 700_000, y: 700_000 }
    );
    assert_eq!(compute_value(Offset { x: 0, y: 0 }, 50, 999_999), StickValue { x: 0, y: 0 });
    assert_eq!(
        compute_value(Offset { x: 0, y: 50 }, 50, 999_999),
        StickValue { x: 0, y: 1_000_000 }
    );
    assert_eq!(compute_value(Offset { x: 0, y: 49 }, 50, 999_999), StickValue { x: 0, y: 0 });
    // A dead zone beyond one silences the stick altogether.
    assert_eq!(compute_value(Offset { x: 0, y: 50 }, 50, 1_000_001), StickValue { x: 0, y: 0 });
}

#[test]
fn offset_between_points() {
    let a = Point::new(3, -4);
    assert_eq!(a, Point { x: 3, y: -4 });
    assert_eq!(a.offset_from(Point { x: 1, y: 1 }), Offset { x: 2, y: -5 });
    assert_eq!(Point::zero(), Point { x: 0, y: 0 });
    let lo = Point { x: i32::MIN, y: i32::MIN };
    let hi = Point { x: i32::MAX, y: i32::MAX };
    assert_eq!(hi.offset_from(lo), Offset { x: 4_294_967_295, y: 4_294_967_295 });
    assert_eq!(lo.offset_from(hi), Offset { x: -4_294_967_295, y: -4_294_967_295 });
}

#[test]
fn zone_contains_its_border() {
    let z = Zone { min: Point { x: -10, y: 0 }, max: Point { x: 10, y: 20 } };
    assert!(z.contains(Point { x: -10, y: 0 }));
    assert!(z.contains(Point { x: 10, y: 20 }));
    assert!(z.contains(Point { x: 0, y: 10 }));
    assert!(!z.contains(Point { x: -11, y: 10 }));
    assert!(!z.contains(Point { x: 11, y: 10 }));
    assert!(!z.contains(Point { x: 0, y: -1 }));
    assert!(!z.contains(Point { x: 0, y: 21 }));
    let inverted = Zone { min: Point { x: 1, y: 1 }, max: Point { x: 0, y: 0 } };
    assert!(!inverted.contains(Point { x: 0, y: 0 }));
    assert!(!inverted.contains(Point { x: 1, y: 1 }));
}

#[test]
fn zone_everywhere_contains_every_corner() {
    let z = Zone::everywhere();
    assert!(z.contains(Point { x: i32::MIN, y: i32::MAX }));
    assert!(z.contains(Point { x: i32::MAX, y: i32::MIN }));
    assert!(z.contains(Point { x: 0, y: 0 }));
}

#[test]
fn zone_from_center_and_size() {
    let z = Zone::from_center_size(Point { x: 100, y: 50 }, 150, 40);
    assert_eq!(z, Zone { min: Point { x: 25, y: 30 }, max: Point { x: 175, y: 70 } });
    let odd = Zone::from_center_size(Point { x: 0, y: 0 }, 5, 1);
    assert_eq!(odd, Zone { min: Point { x: -2, y: 0 }, max: Point { x: 2, y: 0 } });
    let empty = Zone::from_center_size(Point { x: 7, y: -7 }, 0, 0);
    assert_eq!(empty, Zone { min: Point { x: 7, y: -7 }, max: Point { x: 7, y: -7 } });
    assert!(empty.contains(Point { x: 7, y: -7 }));
}

#[test]
fn zone_stops_at_the_edge_of_input_space() {
    let z = Zone::from_center_size(Point { x: i32::MAX - 1, y: i32::MIN + 1 }, 10, u32::MAX);
    assert_eq!(
        z,
        Zone {
            min: Point { x: i32::MAX - 6, y: i32::MIN },
            max: Point { x: i32::MAX, y: 0 }
        }
    );
    assert_eq!(clamp_to_coordinate(i64::MAX), i32::MAX);
    assert_eq!(clamp_to_coordinate(i64::MIN), i32::MIN);
    assert_eq!(clamp_to_coordinate(-5), -5);
    assert_eq!(clamp_to_coordinate(i32::MAX as i64 + 1), i32::MAX);
}

#[test]
fn vertical_flip() {
    assert_eq!(flip_vertical(Point { x: 3, y: 100 }, 720), Point { x: 3, y: 620 });
    assert_eq!(flip_vertical(Point { x: 3, y: 0 }, 720), Point { x: 3, y: 720 });
    assert_eq!(flip_vertical(Point { x: 3, y: 720 }, 720), Point { x: 3, y: 0 });
    assert_eq!(flip_vertical(Point { x: 3, y: 800 }, 720), Point { x: 3, y: -80 });
    assert_eq!(flip_vertical(Point { x: 3, y: i32::MIN }, u32::MAX), Point { x: 3, y: i32::MAX });
    assert_eq!(flip_vertical(Point { x: 3, y: i32::MAX }, 0), Point { x: 3, y: -i32::MAX });
}

#[test]
fn zones_are_mapped_to_every_stick() {
    let mut sticks = vec![TouchStick::new(1u32), TouchStick::new(2u32), TouchStick::new(3u32)];
    sticks[1].drag_id = Some(4);
    sticks[1].drag_position = Point { x: 9, y: 9 };
    let areas = vec![
        InteractionArea { center: Point { x: 0, y: 0 }, width: 10, height: 10 },
        InteractionArea { center: Point { x: 500, y: 300 }, width: 200, height: 100 },
    ];
    map_input_zones_from_ui_nodes(&areas, &mut sticks);
    let last = Zone { min: Point { x: 400, y: 250 }, max: Point { x: 600, y: 350 } };
    assert_eq!(areas[1].zone(), last);
    for s in &sticks {
        assert_eq!(s.interactable_zone, last);
    }
    assert_eq!(sticks[0].id, 1);
    assert_eq!(sticks[1].id, 2);
    assert_eq!(sticks[1].drag_id, Some(4));
    assert_eq!(sticks[1].drag_position, Point { x: 9, y: 9 });
    assert_eq!(sticks[2].id, 3);
}

#[test]
fn without_regions_zones_are_kept() {
    let mut sticks = vec![TouchStick::new(1u32), TouchStick::new(2u32)];
    let own = Zone { min: Point { x: 1, y: 2 }, max: Point { x: 3, y: 4 } };
    sticks[1].interactable_zone = own;
    map_input_zones_from_ui_nodes(&Vec::new(), &mut sticks);
    assert_eq!(sticks[0].interactable_zone, Zone::everywhere());
    assert_eq!(sticks[1].interactable_zone, own);
    let mut none: Vec<TouchStick<u32>> = Vec::new();
    map_input_zones_from_ui_nodes(
        &vec![InteractionArea { center: Point { x: 0, y: 0 }, width: 1, height: 1 }],
        &mut none,
    );
    assert!(none.is_empty());
}
