use lozenge_tilings::box_map::{BoxMap, FLOOR_HEIGHT};
use lozenge_tilings::vector2::Vector2;

#[test]
fn get_returns_minus_1_for_new_position() {
    let map = BoxMap::new();
    assert_eq!(map.get(&Vector2(0, 0)), &-1);
}

#[test]
fn can_increment_height_of_new_position() {
    let mut map = BoxMap::new();
    let position = Vector2(0, 0);
    assert_eq!(map.get(&position), &-1);
    map.increment(&position);
    assert_eq!(map.get(&position), &0);
}

#[test]
fn can_increment_height_of_existing_position() {
    let mut map = BoxMap::new();
    let position = Vector2(0, 0);
    map.increment(&position);
    assert_eq!(map.get(&position), &0);
    map.increment(&position);
    assert_eq!(map.get(&position), &1);
}

#[test]
fn height_0_is_counted_as_a_box() {
    let mut map = BoxMap::new();
    let position = Vector2(0, 0);
    map.increment(&position);
    assert_eq!(*map.get(&position), 0);
    assert_eq!(map.box_count(), 1);
}

#[test]
fn decremented_boxes_to_height_mins_1_are_counted_as_a_box() {
    let mut map = BoxMap::new();
    map.increment(&Vector2(0, 0));
    map.increment(&Vector2(0, 1));
    assert_eq!(map.box_count(), 2);

    map.decrement(&Vector2(0, 1));
    assert_eq!(map.box_count(), 1);
}

#[test]
fn floor_height_is_minus_one() {
    assert_eq!(FLOOR_HEIGHT, -1);
}

#[test]
fn decrement_to_floor_drops_the_column() {
    let mut map = BoxMap::new();
    map.increment(&Vector2(0, 0));
    map.increment(&Vector2(0, 1));
    assert_eq!(map.box_count(), 2);
    map.decrement(&Vector2(0, 1));
    assert_eq!(map.box_count(), 1);
    assert_eq!(map.get(&Vector2(0, 1)), &-1);
    assert_eq!(map.get(&Vector2(0, 0)), &0);
}

#[test]
fn decrement_of_a_tall_column_keeps_it() {
    let mut map = BoxMap::new();
    let position = Vector2(3, -4);
    map.increment(&position);
    map.increment(&position);
    map.increment(&position);
    assert_eq!(map.get(&position), &2);
    map.decrement(&position);
    assert_eq!(map.get(&position), &1);
    assert_eq!(map.box_count(), 2);
}

#[test]
fn height_is_increments_less_decrements_less_one() {
    let mut map = BoxMap::new();
    let c = Vector2(-2, 7);
    let d = Vector2(7, -2);
    for _ in 0..5 {
        map.increment(&c);
    }
    for _ in 0..3 {
        map.increment(&d);
    }
    for _ in 0..2 {
        map.decrement(&c);
    }
    assert_eq!(*map.get(&c), 5 - 2 - 1);
    assert_eq!(*map.get(&d), 3 - 1);
    assert_eq!(map.box_count(), (5 - 2) + 3);
}

#[test]
fn box_count_sums_over_all_columns() {
    let mut map = BoxMap::new();
    assert_eq!(map.box_count(), 0);
    let mut expected = 0;
    for x in -3..4 {
        for y in -3..4 {
            let times = (x + y + 7) % 4;
            for _ in 0..times {
                map.increment(&Vector2(x, y));
                expected += 1;
            }
        }
    }
    assert_eq!(map.box_count(), expected);
}

#[test]
fn columns_at_the_ends_of_the_range_are_told_apart() {
    let mut map = BoxMap::new();
    map.increment(&Vector2(i32::MIN, i32::MAX));
    map.increment(&Vector2(i32::MAX, i32::MIN));
    map.increment(&Vector2(i32::MAX, i32::MIN));
    assert_eq!(map.get(&Vector2(i32::MIN, i32::MAX)), &0);
    assert_eq!(map.get(&Vector2(i32::MAX, i32::MIN)), &1);
    assert_eq!(map.get(&Vector2(i32::MIN, i32::MIN)), &-1);
    assert_eq!(map.box_count(), 3);
}

#[test]
fn clear_drops_every_column() {
    let mut map = BoxMap::new();
    map.increment(&Vector2(0, 0));
    map.increment(&Vector2(1, 0));
    map.increment(&Vector2(1, 0));
    map.clear();
    assert_eq!(map.box_count(), 0);
    assert_eq!(map.get(&Vector2(0, 0)), &-1);
    assert_eq!(map.get(&Vector2(1, 0)), &-1);
}

#[test]
fn checked_box_count_is_the_count() {
    let mut map = BoxMap::new();
    assert_eq!(map.checked_box_count(), Some(0));
    map.increment(&Vector2(0, 0));
    map.increment(&Vector2(0, 0));
    map.increment(&Vector2(4, 4));
    assert_eq!(map.checked_box_count(), Some(3));
}
