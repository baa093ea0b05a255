use gantt_engine::geometry::{clamp_to_i64, div_floor, max_i64, min_i64, sat_add, sat_sub, Pos, Rect};

#[test]
fn sums_and_differences_stop_at_the_ends() {
    assert_eq!(sat_add(2, 3), 5);
    assert_eq!(sat_add(i64::MAX, 1), i64::MAX);
    assert_eq!(sat_add(i64::MIN, -1), i64::MIN);
    assert_eq!(sat_sub(2, 3), -1);
    assert_eq!(sat_sub(i64::MIN, 1), i64::MIN);
    assert_eq!(sat_sub(i64::MAX, -1), i64::MAX);
    assert_eq!(clamp_to_i64(i64::MAX as i128 + 10), i64::MAX);
    assert_eq!(clamp_to_i64(-7), -7);
    assert_eq!(max_i64(3, -3), 3);
    assert_eq!(min_i64(3, -3), -3);
}

#[test]
fn quotients_are_rounded_down() {
    assert_eq!(div_floor(7, 2), 3);
    assert_eq!(div_floor(-7, 2), -4);
    assert_eq!(div_floor(-8, 2), -4);
    assert_eq!(div_floor(-1, 5), -1);
    assert_eq!(div_floor(0, 5), 0);
    assert_eq!(div_floor(i128::MIN, 1), i128::MIN);
}

#[test]
fn rectangles_hold_their_edges() {
    let rect = Rect { min_x: 0, min_y: 10, max_x: 5, max_y: 20 };
    assert!(rect.contains(Pos { x: 0, y: 10 }));
    assert!(rect.contains(Pos { x: 5, y: 20 }));
    assert!(!rect.contains(Pos { x: 6, y: 15 }));
    assert!(!rect.contains(Pos { x: 3, y: 9 }));
    assert!(!rect.is_negative());
    let other = Rect { min_x: 3, min_y: 0, max_x: 9, max_y: 12 };
    assert_eq!(rect.intersect(other), Rect { min_x: 3, min_y: 10, max_x: 5, max_y: 12 });
    let apart = Rect { min_x: 7, min_y: 0, max_x: 9, max_y: 12 };
    assert!(rect.intersect(apart).is_negative());
}
