use touch_stick::{
    apply_drag_event, update_sticks_from_drag_events, DragEvent, DragPhase, Point, StickValue,
    TouchStick, TouchStickEvent, TouchStickEventType, TouchStickType, Zone, VALUE_ONE,
};

fn stick(id: u32, stick_type: TouchStickType, dead_zone: u32, max_radius: u32) -> TouchStick<u32> {
    TouchStick::with_config(id, stick_type, dead_zone, max_radius).unwrap()
}

fn press(sequence_id: u64, x: i32, y: i32) -> DragEvent {
    DragEvent { sequence_id, phase: DragPhase::Press, position: Point { x, y } }
}

fn drag(sequence_id: u64, x: i32, y: i32) -> DragEvent {
    DragEvent { sequence_id, phase: DragPhase::Move, position: Point { x, y } }
}

fn release(sequence_id: u64, x: i32, y: i32) -> DragEvent {
    DragEvent { sequence_id, phase: DragPhase::Release, position: Point { x, y } }
}

fn summary(e: &TouchStickEvent<u32>) -> (u32, TouchStickEventType, i32, i32) {
    (e.id(), e.get_type(), e.value().x, e.value().y)
}

fn length_sq(v: StickValue) -> i64 {
    (v.x as i64) * (v.x as i64) + (v.y as i64) * (v.y as i64)
}

const UNIT_SQ: i64 = (VALUE_ONE as i64) * (VALUE_ONE as i64);

#[test]
fn fixed_stick_scenario() {
    let mut sticks = vec![stick(1, TouchStickType::Fixed, 100_000, 50)];
    assert_eq!(sticks[0].base_position, Point { x: 0, y: 0 });

    let e = apply_drag_event(&mut sticks, &press(0, 0, 0)).unwrap();
    assert_eq!(summary(&e), (1, TouchStickEventType::Press, 0, 0));
    assert_eq!(sticks[0].drag_id, Some(0));

    let e = apply_drag_event(&mut sticks, &drag(0, 25, 0)).unwrap();
    assert_eq!(summary(&e), (1, TouchStickEventType::Drag, 500_000, 0));
    assert_eq!(sticks[0].value, StickValue { x: 500_000, y: 0 });

    // One unit short of the dead zone: the value is zero.
    let e = apply_drag_event(&mut sticks, &drag(0, 4, 0)).unwrap();
    assert_eq!(summary(&e), (1, TouchStickEventType::Drag, 0, 0));

    // Exactly as long as the dead zone: not shorter, so the value is kept.
    let e = apply_drag_event(&mut sticks, &drag(0, 5, 0)).unwrap();
    assert_eq!(summary(&e), (1, TouchStickEventType::Drag, 100_000, 0));

    let e = apply_drag_event(&mut sticks, &release(0, 5, 0)).unwrap();
    assert_eq!(summary(&e), (1, TouchStickEventType::Release, 0, 0));
    assert_eq!(sticks[0].drag_id, None);
    assert_eq!(sticks[0].value, StickValue { x: 0, y: 0 });
    assert_eq!(sticks[0].base_position, Point { x: 0, y: 0 });
}

#[test]
fn dead_zone_boundary_is_exclusive() {
    // A value of length 0.1 against a dead zone of 0.1: kept.
    let mut at = vec![stick(1, TouchStickType::Fixed, 100_000, 50)];
    apply_drag_event(&mut at, &press(0, 0, 0)).unwrap();
    apply_drag_event(&mut at, &drag(0, 5, 0)).unwrap();
    assert_eq!(at[0].value, StickValue { x: 100_000, y: 0 });

    // The same value against a dead zone one millionth larger: zero.
    let mut above = vec![stick(1, TouchStickType::Fixed, 100_001, 50)];
    apply_drag_event(&mut above, &press(0, 0, 0)).unwrap();
    apply_drag_event(&mut above, &drag(0, 5, 0)).unwrap();
    assert_eq!(above[0].value, StickValue { x: 0, y: 0 });

    // And against a dead zone one millionth smaller: kept.
    let mut below = vec![stick(1, TouchStickType::Fixed, 99_999, 50)];
    apply_drag_event(&mut below, &press(0, 0, 0)).unwrap();
    apply_drag_event(&mut below, &drag(0, 5, 0)).unwrap();
    assert_eq!(below[0].value, StickValue { x: 100_000, y: 0 });

    // The length counts, not a single component: (3, 4) over 50 is 0.1 long.
    let mut diagonal = vec![stick(1, TouchStickType::Fixed, 100_001, 50)];
    apply_drag_event(&mut diagonal, &press(0, 0, 0)).unwrap();
    apply_drag_event(&mut diagonal, &drag(0, 3, 4)).unwrap();
    assert_eq!(diagonal[0].value, StickValue { x: 0, y: 0 });
    apply_drag_event(&mut diagonal, &drag(0, -3, -5)).unwrap();
    assert_eq!(diagonal[0].value, StickValue { x: -60_000, y: -100_000 });
}

#[test]
fn dynamic_stick_scenario() {
    let mut sticks = vec![stick(9, TouchStickType::Dynamic, 0, 50)];

    let e = apply_drag_event(&mut sticks, &press(4, 10, 10)).unwrap();
    assert_eq!(summary(&e), (9, TouchStickEventType::Press, 0, 0));
    assert_eq!(sticks[0].base_position, Point { x: 10, y: 10 });
    assert_eq!(sticks[0].drag_start, Point { x: 10, y: 10 });

    let e = apply_drag_event(&mut sticks, &drag(4, 90, 10)).unwrap();
    assert_eq!(summary(&e), (9, TouchStickEventType::Drag, 1_000_000, 0));
    assert_eq!(sticks[0].base_position, Point { x: 40, y: 10 });
    assert_eq!(sticks[0].drag_position, Point { x: 90, y: 10 });
    assert_eq!(sticks[0].drag_start, Point { x: 10, y: 10 });

    // Back inside the radius of the moved base: the base stays.
    let e = apply_drag_event(&mut sticks, &drag(4, 65, 10)).unwrap();
    assert_eq!(summary(&e), (9, TouchStickEventType::Drag, 500_000, 0));
    assert_eq!(sticks[0].base_position, Point { x: 40, y: 10 });

    // Far the other way: the base follows again.
    let e = apply_drag_event(&mut sticks, &drag(4, 40, -90)).unwrap();
    assert_eq!(summary(&e), (9, TouchStickEventType::Drag, 0, -1_000_000));
    assert_eq!(sticks[0].base_position, Point { x: 40, y: -40 });
}

#[test]
fn two_sticks_two_touches_scenario() {
    let mut left = stick(1, TouchStickType::Floating, 0, 50);
    left.interactable_zone = Zone { min: Point { x: 0, y: 0 }, max: Point { x: 100, y: 100 } };
    let mut right = stick(2, TouchStickType::Floating, 0, 50);
    right.interactable_zone = Zone { min: Point { x: 200, y: 0 }, max: Point { x: 300, y: 100 } };
    let mut sticks = vec![left, right];

    let events = update_sticks_from_drag_events(
        &mut sticks,
        &vec![press(10, 250, 50), press(11, 50, 50)],
    );
    assert_eq!(events.len(), 2);
    assert_eq!(summary(&events[0]), (2, TouchStickEventType::Press, 0, 0));
    assert_eq!(summary(&events[1]), (1, TouchStickEventType::Press, 0, 0));
    assert_eq!(sticks[0].drag_id, Some(11));
    assert_eq!(sticks[1].drag_id, Some(10));

    let events = update_sticks_from_drag_events(&mut sticks, &vec![drag(11, 50, 75)]);
    assert_eq!(events.len(), 1);
    assert_eq!(summary(&events[0]), (1, TouchStickEventType::Drag, 0, 500_000));
    assert_eq!(sticks[1].value, StickValue { x: 0, y: 0 });
    assert_eq!(sticks[1].drag_position, Point { x: 250, y: 50 });

    // A drag may leave the zone it was pressed in, even into the other zone.
    let events = update_sticks_from_drag_events(&mut sticks, &vec![drag(10, 50, 50)]);
    assert_eq!(summary(&events[0]), (2, TouchStickEventType::Drag, -1_000_000, 0));
    assert_eq!(sticks[0].value, StickValue { x: 0, y: 500_000 });
    assert_eq!(sticks[0].drag_id, Some(11));

    let events = update_sticks_from_drag_events(&mut sticks, &vec![release(11, 50, 75)]);
    assert_eq!(summary(&events[0]), (1, TouchStickEventType::Release, 0, 0));
    assert_eq!(sticks[0].drag_id, None);
    assert_eq!(sticks[1].drag_id, Some(10));
    assert_eq!(sticks[1].value, StickValue { x: -1_000_000, y: 0 });
}

#[test]
fn press_inside_zone_binds_idle_stick() {
    let mut s = stick(3, TouchStickType::Fixed, 0, 10);
    s.base_position = Point { x: 100, y: 100 };
    s.interactable_zone = Zone { min: Point { x: 90, y: 90 }, max: Point { x: 110, y: 110 } };
    let mut sticks = vec![s];
    let e = apply_drag_event(&mut sticks, &press(77, 110, 90)).unwrap();
    assert_eq!(e.get_type(), TouchStickEventType::Press);
    assert_eq!(e.id(), 3);
    assert_eq!(sticks[0].drag_id, Some(77));
    assert_eq!(sticks[0].drag_start, Point { x: 110, y: 90 });
    assert_eq!(sticks[0].drag_position, Point { x: 110, y: 90 });
    // The offset (10, -10) is 15 long, rounded up; cut back to 10 it is (6, -6).
    assert_eq!(e.value(), StickValue { x: 600_000, y: -600_000 });
    assert!(length_sq(e.value()) <= UNIT_SQ);
    assert_eq!(sticks[0].value, e.value());
}

#[test]
fn press_outside_zone_is_ignored() {
    let mut s = stick(3, TouchStickType::Floating, 0, 10);
    s.interactable_zone = Zone { min: Point { x: 90, y: 90 }, max: Point { x: 110, y: 110 } };
    let mut sticks = vec![s];
    assert!(apply_drag_event(&mut sticks, &press(1, 111, 100)).is_none());
    assert!(apply_drag_event(&mut sticks, &press(2, 100, 89)).is_none());
    assert_eq!(sticks[0].drag_id, None);
    assert_eq!(sticks[0].drag_start, Point { x: 0, y: 0 });
    // The moves of a press that bound nothing are ignored as well.
    assert!(apply_drag_event(&mut sticks, &drag(1, 100, 100)).is_none());
    assert_eq!(sticks[0].drag_id, None);
}

#[test]
fn overlapping_zones_first_registered_wins() {
    let mut sticks =
        vec![stick(1, TouchStickType::Floating, 0, 50), stick(2, TouchStickType::Floating, 0, 50)];
    let e = apply_drag_event(&mut sticks, &press(5, 7, 7)).unwrap();
    assert_eq!(e.id(), 1);
    assert_eq!(sticks[0].drag_id, Some(5));
    assert_eq!(sticks[1].drag_id, None);
    // The first stick is taken: the next press goes to the second.
    let e = apply_drag_event(&mut sticks, &press(6, 7, 7)).unwrap();
    assert_eq!(e.id(), 2);
    assert_eq!(sticks[1].drag_id, Some(6));
    // Both are taken: a third press finds no stick.
    assert!(apply_drag_event(&mut sticks, &press(7, 7, 7)).is_none());
}

#[test]
fn values_stay_within_unit_circle() {
    for &stick_type in &[TouchStickType::Fixed, TouchStickType::Floating, TouchStickType::Dynamic] {
        for &radius in &[1u32, 2, 7, 50, 1000] {
            let mut sticks = vec![stick(1, stick_type, 250_000, radius)];
            let e = apply_drag_event(&mut sticks, &press(0, 3, -2)).unwrap();
            assert!(length_sq(e.value()) <= UNIT_SQ);
            let mut x = -130;
            while x <= 130 {
                let mut y = -130;
                while y <= 130 {
                    let e = apply_drag_event(&mut sticks, &drag(0, x, y)).unwrap();
                    let v = e.value();
                    assert!(length_sq(v) <= UNIT_SQ, "{:?} at ({}, {})", v, x, y);
                    assert!(
                        length_sq(v) >= 250_000i64 * 250_000 || v == StickValue { x: 0, y: 0 },
                        "{:?} at ({}, {})",
                        v,
                        x,
                        y
                    );
                    assert_eq!(sticks[0].value, v);
                    y += 13;
                }
                x += 13;
            }
        }
    }
}

#[test]
fn value_below_dead_zone_is_zero() {
    let mut sticks = vec![stick(1, TouchStickType::Floating, 500_000, 100)];
    apply_drag_event(&mut sticks, &press(0, 1000, 1000)).unwrap();
    apply_drag_event(&mut sticks, &drag(0, 1030, 1039)).unwrap();
    // 30 * 30 + 39 * 39 = 2421 < 2500
    assert_eq!(sticks[0].value, StickValue { x: 0, y: 0 });
    apply_drag_event(&mut sticks, &drag(0, 1030, 1040)).unwrap();
    // 30 * 30 + 40 * 40 = 2500
    assert_eq!(sticks[0].value, StickValue { x: 300_000, y: 400_000 });
    apply_drag_event(&mut sticks, &drag(0, 970, 960)).unwrap();
    assert_eq!(sticks[0].value, StickValue { x: -300_000, y: -400_000 });
}

#[test]
fn release_after_many_moves_reports_one_release() {
    for moves in [0usize, 1, 2, 17] {
        let mut sticks = vec![stick(8, TouchStickType::Dynamic, 0, 20)];
        let mut batch = vec![press(3, 5, 5)];
        for k in 0..moves {
            batch.push(drag(3, 5 + 10 * k as i32, 5 - 3 * k as i32));
        }
        batch.push(release(3, 0, 0));
        let events = update_sticks_from_drag_events(&mut sticks, &batch);
        assert_eq!(events.len(), moves + 2);
        assert_eq!(events[0].get_type(), TouchStickEventType::Press);
        for k in 0..moves {
            assert_eq!(events[1 + k].get_type(), TouchStickEventType::Drag);
        }
        let last = &events[moves + 1];
        assert_eq!(summary(last), (8, TouchStickEventType::Release, 0, 0));
        let releases =
            events.iter().filter(|e| e.get_type() == TouchStickEventType::Release).count();
        assert_eq!(releases, 1);
        assert_eq!(sticks[0].drag_id, None);
        assert_eq!(sticks[0].value, StickValue { x: 0, y: 0 });
        assert_eq!(sticks[0].drag_start, Point { x: 0, y: 0 });
        assert_eq!(sticks[0].drag_position, Point { x: 0, y: 0 });
        assert_eq!(sticks[0].base_position, Point { x: 0, y: 0 });
        // A second release of the same sequence finds nothing to release.
        assert!(apply_drag_event(&mut sticks, &release(3, 0, 0)).is_none());
    }
}

#[test]
fn bound_sequence_is_not_accepted_by_second_stick() {
    let mut sticks =
        vec![stick(1, TouchStickType::Floating, 0, 50), stick(2, TouchStickType::Floating, 0, 50)];
    apply_drag_event(&mut sticks, &press(5, 10, 10)).unwrap();
    apply_drag_event(&mut sticks, &drag(5, 20, 10)).unwrap();
    let before = sticks[0].clone();
    // The second stick is idle and its zone holds the press, but sequence 5 is taken.
    assert!(apply_drag_event(&mut sticks, &press(5, 30, 30)).is_none());
    assert_eq!(sticks[1].drag_id, None);
    assert_eq!(sticks[0].drag_id, Some(5));
    assert_eq!(sticks[0].drag_start, before.drag_start);
    assert_eq!(sticks[0].drag_position, before.drag_position);
    assert_eq!(sticks[0].value, before.value);
    // A move of sequence 5 still reaches the first stick only.
    let e = apply_drag_event(&mut sticks, &drag(5, 10, 35)).unwrap();
    assert_eq!(summary(&e), (1, TouchStickEventType::Drag, 0, 500_000));
    assert_eq!(sticks[1].value, StickValue { x: 0, y: 0 });
    // No two sticks ever hold the same sequence.
    let bound: Vec<u64> = sticks.iter().filter_map(|s| s.drag_id).collect();
    assert_eq!(bound, vec![5]);
}

#[test]
fn bound_stick_ignores_other_press() {
    let mut sticks = vec![stick(1, TouchStickType::Floating, 0, 50)];
    apply_drag_event(&mut sticks, &press(5, 10, 10)).unwrap();
    assert!(apply_drag_event(&mut sticks, &press(6, 12, 12)).is_none());
    assert_eq!(sticks[0].drag_id, Some(5));
    assert_eq!(sticks[0].drag_start, Point { x: 10, y: 10 });
}

#[test]
fn replayed_move_changes_nothing() {
    for &stick_type in &[TouchStickType::Fixed, TouchStickType::Floating, TouchStickType::Dynamic] {
        for &(x, y) in &[(0, 0), (12, -7), (300, 400), (-1000, 1), (49, 49), (-35, -36)] {
            let mut sticks = vec![stick(1, stick_type, 100_000, 50)];
            apply_drag_event(&mut sticks, &press(2, 1, 1)).unwrap();
            let first = apply_drag_event(&mut sticks, &drag(2, x, y)).unwrap();
            let after_first = sticks[0].clone();
            let second = apply_drag_event(&mut sticks, &drag(2, x, y)).unwrap();
            assert_eq!(summary(&first), summary(&second));
            assert_eq!(sticks[0].value, after_first.value);
            assert_eq!(sticks[0].base_position, after_first.base_position);
            assert_eq!(sticks[0].drag_position, after_first.drag_position);
            assert_eq!(sticks[0].drag_start, after_first.drag_start);
            assert_eq!(sticks[0].drag_id, after_first.drag_id);
        }
    }
}

#[test]
fn move_and_release_of_unknown_sequence_are_ignored() {
    let mut sticks = vec![stick(1, TouchStickType::Floating, 0, 50)];
    assert!(apply_drag_event(&mut sticks, &drag(9, 10, 10)).is_none());
    assert!(apply_drag_event(&mut sticks, &release(9, 10, 10)).is_none());
    apply_drag_event(&mut sticks, &press(5, 10, 10)).unwrap();
    apply_drag_event(&mut sticks, &drag(5, 20, 10)).unwrap();
    assert!(apply_drag_event(&mut sticks, &drag(9, 40, 40)).is_none());
    assert!(apply_drag_event(&mut sticks, &release(9, 40, 40)).is_none());
    assert_eq!(sticks[0].drag_id, Some(5));
    assert_eq!(sticks[0].drag_position, Point { x: 20, y: 10 });
    assert_eq!(sticks[0].value, StickValue { x: 200_000, y: 0 });
}

#[test]
fn batch_reports_events_in_order() {
    let mut sticks = vec![stick(1, TouchStickType::Floating, 0, 10)];
    let events = update_sticks_from_drag_events(
        &mut sticks,
        &vec![
            drag(1, 0, 0),
            press(1, 0, 0),
            drag(1, 0, 5),
            drag(2, 9, 9),
            drag(1, 5, 0),
            release(1, 5, 0),
            press(2, 1, 1),
        ],
    );
    let got: Vec<(u32, TouchStickEventType, i32, i32)> = events.iter().map(summary).collect();
    assert_eq!(
        got,
        vec![
            (1, TouchStickEventType::Press, 0, 0),
            (1, TouchStickEventType::Drag, 0, 500_000),
            (1, TouchStickEventType::Drag, 500_000, 0),
            (1, TouchStickEventType::Release, 0, 0),
            (1, TouchStickEventType::Press, 0, 0),
        ]
    );
    assert_eq!(sticks[0].drag_id, Some(2));
}

#[test]
fn empty_batch_changes_nothing() {
    let mut sticks = vec![stick(1, TouchStickType::Floating, 0, 10)];
    apply_drag_event(&mut sticks, &press(1, 3, 3)).unwrap();
    apply_drag_event(&mut sticks, &drag(1, 3, 8)).unwrap();
    let events = update_sticks_from_drag_events(&mut sticks, &Vec::new());
    assert!(events.is_empty());
    assert_eq!(sticks[0].drag_id, Some(1));
    assert_eq!(sticks[0].value, StickValue { x: 0, y: 500_000 });
}

#[test]
fn no_sticks_no_events() {
    let mut sticks: Vec<TouchStick<u32>> = Vec::new();
    let events =
        update_sticks_from_drag_events(&mut sticks, &vec![press(1, 0, 0), release(1, 0, 0)]);
    assert!(events.is_empty());
}

#[test]
fn floating_stick_measures_from_press_point() {
    let mut s = stick(1, TouchStickType::Floating, 0, 40);
    s.base_position = Point { x: 1000, y: 1000 };
    let mut sticks = vec![s];
    let e = apply_drag_event(&mut sticks, &press(1, -20, 30)).unwrap();
    assert_eq!(e.value(), StickValue { x: 0, y: 0 });
    let e = apply_drag_event(&mut sticks, &drag(1, -30, 50)).unwrap();
    assert_eq!(e.value(), StickValue { x: -250_000, y: 500_000 });
    // How far the drag goes does not move the point it is measured from.
    apply_drag_event(&mut sticks, &drag(1, 500, 500)).unwrap();
    let e = apply_drag_event(&mut sticks, &drag(1, -30, 50)).unwrap();
    assert_eq!(e.value(), StickValue { x: -250_000, y: 500_000 });
    assert_eq!(sticks[0].drag_start, Point { x: -20, y: 30 });
    assert_eq!(sticks[0].base_position, Point { x: 1000, y: 1000 });
    apply_drag_event(&mut sticks, &release(1, 0, 0)).unwrap();
    assert_eq!(sticks[0].base_position, Point { x: 1000, y: 1000 });
    assert_eq!(sticks[0].drag_start, Point { x: 0, y: 0 });
}

#[test]
fn fixed_stick_keeps_its_base() {
    let mut s = stick(1, TouchStickType::Fixed, 0, 40);
    s.base_position = Point { x: 100, y: 200 };
    let mut sticks = vec![s];
    let e = apply_drag_event(&mut sticks, &press(1, 110, 200)).unwrap();
    assert_eq!(summary(&e), (1, TouchStickEventType::Press, 250_000, 0));
    apply_drag_event(&mut sticks, &drag(1, 100, 1000)).unwrap();
    assert_eq!(sticks[0].value, StickValue { x: 0, y: 1_000_000 });
    assert_eq!(sticks[0].base_position, Point { x: 100, y: 200 });
    apply_drag_event(&mut sticks, &release(1, 0, 0)).unwrap();
    assert_eq!(sticks[0].base_position, Point { x: 100, y: 200 });
}

#[test]
fn dynamic_base_closes_up_diagonally() {
    let mut sticks = vec![stick(1, TouchStickType::Dynamic, 0, 50)];
    apply_drag_event(&mut sticks, &press(1, 0, 0)).unwrap();
    // (100, 100) is 142 long, rounded up; cut back to 50 it is (35, 35).
    let e = apply_drag_event(&mut sticks, &drag(1, 100, 100)).unwrap();
    assert_eq!(sticks[0].base_position, Point { x: 65, y: 65 });
    assert_eq!(e.value(), StickValue { x: 700_000, y: 700_000 });
    // (-30, 40) from the origin is 50 long exactly.
    let mut sticks = vec![stick(1, TouchStickType::Dynamic, 0, 10)];
    apply_drag_event(&mut sticks, &press(1, 0, 0)).unwrap();
    let e = apply_drag_event(&mut sticks, &drag(1, -30, 40)).unwrap();
    assert_eq!(sticks[0].base_position, Point { x: -24, y: 32 });
    assert_eq!(e.value(), StickValue { x: -600_000, y: 800_000 });
    assert_eq!(length_sq(e.value()), UNIT_SQ);
}

#[test]
fn extreme_coordinates_do_not_overflow() {
    for &stick_type in &[TouchStickType::Fixed, TouchStickType::Floating, TouchStickType::Dynamic] {
        for &radius in &[1u32, 50, u32::MAX] {
            let mut s = stick(1, stick_type, 999_999, radius);
            s.base_position = Point { x: i32::MIN, y: i32::MIN };
            let mut sticks = vec![s];
            let e = apply_drag_event(&mut sticks, &press(u64::MAX, i32::MIN, i32::MAX)).unwrap();
            assert!(length_sq(e.value()) <= UNIT_SQ);
            for &(x, y) in &[
                (i32::MAX, i32::MAX),
                (i32::MIN, i32::MIN),
                (i32::MAX, i32::MIN),
                (i32::MIN, i32::MAX),
                (0, 0),
                (i32::MAX, 0),
            ] {
                let e = apply_drag_event(&mut sticks, &drag(u64::MAX, x, y)).unwrap();
                assert!(length_sq(e.value()) <= UNIT_SQ);
                assert_eq!(sticks[0].drag_position, Point { x, y });
            }
        }
    }
    // The longest offset there is, against the largest radius there is.
    let mut s = stick(1, TouchStickType::Fixed, 0, u32::MAX);
    s.base_position = Point { x: i32::MIN, y: 0 };
    let mut sticks = vec![s];
    apply_drag_event(&mut sticks, &press(0, i32::MAX, 0)).unwrap();
    assert_eq!(sticks[0].value, StickValue { x: 1_000_000, y: 0 });
}

#[test]
fn event_getters() {
    let mut sticks = vec![TouchStick::<String>::with_config(
        String::from("left"),
        TouchStickType::Fixed,
        0,
        4,
    )
    .unwrap()];
    let e = apply_drag_event(&mut sticks, &press(1, 1, -2)).unwrap();
    assert_eq!(e.id(), String::from("left"));
    assert_eq!(e.get_type(), TouchStickEventType::Press);
    assert_eq!(e.value(), StickValue { x: 250_000, y: -500_000 });
    let made = TouchStickEvent::new(5u8, TouchStickEventType::Release, StickValue { x: 1, y: 2 });
    assert_eq!(made.id(), 5);
    assert_eq!(made.get_type(), TouchStickEventType::Release);
    assert_eq!(made.value(), StickValue { x: 1, y: 2 });
}
