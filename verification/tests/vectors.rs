use lozenge_tilings::vector2::Vector2;
use lozenge_tilings::vector3::Vector3;
use std::collections::{HashMap, HashSet};

#[test]
fn vector2_vectors3_with_same_cooridnates_are_equal() {
    assert_eq!(Vector2(1, 2), Vector2(1, 2));
}

#[test]
fn vector2_vectors3_with_different_cooridnates_are_not_equal() {
    assert_ne!(Vector2(1, 2), Vector2(1, 3));
}

#[test]
fn vector2_can_be_used_as_hashmap_keys() {
    let mut map = HashMap::new();
    map.insert(Vector2(1, 2), 1);
    map.insert(Vector2(1, 3), 2);

    assert_eq!(map.get(&Vector2(1, 2)), Some(&1));

    assert_eq!(map.get(&Vector2(1, 3)), Some(&2));
}

#[test]
fn vector3_vectors3_with_same_cooridnates_are_equal() {
    assert_eq!(Vector3(1, 2, 3), Vector3(1, 2, 3));
}

#[test]
fn vector3_vectors3_with_different_cooridnates_are_not_equal() {
    assert_ne!(Vector3(1, 2, 3), Vector3(1, 2, 4));
}

#[test]
fn vector3_can_be_used_as_hashmap_keys() {
    let mut map = HashMap::new();
    map.insert(Vector3(1, 2, 3), 1);
    map.insert(Vector3(1, 2, 4), 2);

    assert_eq!(map.get(&Vector3(1, 2, 3)), Some(&1));

    assert_eq!(map.get(&Vector3(1, 2, 4)), Some(&2));

    assert_eq!(map.get(&Vector3(1, 2, 5)), None);
}

#[test]
fn can_be_used_in_hashset() {
    let mut set = HashSet::new();
    set.insert(Vector3(1, 2, 3));
    set.insert(Vector3(1, 2, 4));
    set.insert(Vector3(1, 2, 3));

    assert_eq!(set.len(), 2);

    assert!(set.contains(&Vector3(1, 2, 3)));
    assert!(set.contains(&Vector3(1, 2, 4)));
    assert!(!set.contains(&Vector3(1, 2, 5)));
}

#[test]
fn vector2_key_of_origin_and_extremes() {
    assert_eq!(Vector2(0, 0).key(), 0x8000_0000_8000_0000);
    assert_eq!(Vector2(i32::MIN, i32::MIN).key(), 0);
    assert_eq!(Vector2(i32::MAX, i32::MAX).key(), u64::MAX);
    assert_eq!(Vector2(-1, 1).key(), 0x7fff_ffff_8000_0001);
}

#[test]
fn vector2_key_round_trip() {
    for v in [
        Vector2(0, 0),
        Vector2(-1, 1),
        Vector2(5, -7),
        Vector2(i32::MIN, i32::MAX),
        Vector2(i32::MAX, i32::MIN),
    ] {
        assert_eq!(Vector2::from_key(v.key()), v);
    }
}

#[test]
fn vector2_keys_of_different_columns_differ() {
    assert_ne!(Vector2(0, 1).key(), Vector2(1, 0).key());
    assert_ne!(Vector2(-1, 0).key(), Vector2(0, -1).key());
}

#[test]
fn vector3_key_of_origin_and_extremes() {
    assert_eq!(Vector3(0, 0, 0).key(), 0x8000_0000_8000_0000_8000_0000);
    assert_eq!(Vector3(i32::MIN, i32::MIN, i32::MIN).key(), 0);
    assert_eq!(
        Vector3(i32::MAX, i32::MAX, i32::MAX).key(),
        0xffff_ffff_ffff_ffff_ffff_ffff
    );
    assert_eq!(Vector3(1, -1, 2).key(), 0x8000_0001_7fff_ffff_8000_0002);
}

#[test]
fn vector3_key_round_trip() {
    for v in [
        Vector3(0, 0, 0),
        Vector3(-1, 1, 2),
        Vector3(5, -7, 9),
        Vector3(i32::MIN, i32::MAX, 0),
        Vector3(i32::MAX, i32::MIN, -1),
    ] {
        assert_eq!(Vector3::from_key(v.key()), v);
    }
}

#[test]
fn vector3_keys_of_different_sites_differ() {
    assert_ne!(Vector3(0, 0, 1).key(), Vector3(0, 1, 0).key());
    assert_ne!(Vector3(0, 1, 0).key(), Vector3(1, 0, 0).key());
}
