use lozenge_tilings::tiling::PeriodicLozengeTiling;
use lozenge_tilings::vector3::Vector3;
use lozenge_tilings::voxels::VoxelKind;

fn in_order(voxels: &[Vector3]) -> bool {
    voxels
        .windows(2)
        .all(|w| (w[0].0, w[0].1, w[0].2) < (w[1].0, w[1].1, w[1].2))
}

#[test]
fn window_starts_behind_the_corner_without_a_period() {
    let tiling = PeriodicLozengeTiling::new(0, 0, 0, 4, 5, 6);
    let b = tiling.get_voxel_boundaries();
    assert_eq!((b.x_min, b.x_max), (-1, 4));
    assert_eq!((b.y_min, b.y_max), (-1, 5));
    assert_eq!((b.z_min, b.z_max), (-1, 6));
}

#[test]
fn window_is_symmetric_along_a_period() {
    let tiling = PeriodicLozengeTiling::new(1, 0, 3, 4, 5, 6);
    let b = tiling.get_voxel_boundaries();
    assert_eq!((b.x_min, b.x_max), (-4, 4));
    assert_eq!((b.y_min, b.y_max), (-1, 5));
    assert_eq!((b.z_min, b.z_max), (-6, 6));
    let other = PeriodicLozengeTiling::new(0, 2, 0, 4, 5, 6);
    let b = other.get_voxel_boundaries();
    assert_eq!((b.x_min, b.x_max), (-1, 4));
    assert_eq!((b.y_min, b.y_max), (-5, 5));
    assert_eq!((b.z_min, b.z_max), (-1, 6));
}

#[test]
fn wall_voxels_of_the_smallest_window() {
    let tiling = PeriodicLozengeTiling::new(0, 0, 0, 1, 1, 1);
    assert_eq!(
        tiling.get_wall_voxels(),
        vec![Vector3(-1, 0, 0), Vector3(0, -1, 0), Vector3(0, 0, -1)]
    );
}

#[test]
fn wall_voxels_face_the_empty_octant() {
    let tiling = PeriodicLozengeTiling::new(0, 0, 0, 2, 2, 2);
    let walls = tiling.get_wall_voxels();
    assert!(in_order(&walls));
    // four on each of the three walls that meet in the corner
    assert_eq!(walls.len(), 12);
    for v in &walls {
        assert!(tiling.is_wall(v));
        let negative = [v.0, v.1, v.2].iter().filter(|c| **c < 0).count();
        assert_eq!(negative, 1);
    }
    assert!(walls.contains(&Vector3(0, 0, -1)));
    assert!(walls.contains(&Vector3(1, 1, -1)));
    assert!(walls.contains(&Vector3(-1, 1, 1)));
    assert!(!walls.contains(&Vector3(-1, -1, 0)));
}

#[test]
fn wall_voxels_are_never_empty_with_a_height() {
    for (xs, ys, zh) in [(0, 0, 0), (0, 0, 5), (1, 2, 3), (2, 1, 3), (4, 4, 1), (0, 3, 1), (3, 0, 1)] {
        for d in [1, 2, 5] {
            let tiling = PeriodicLozengeTiling::new(xs, ys, zh, d, d, d);
            let walls = tiling.get_wall_voxels();
            assert!(!walls.is_empty());
            assert!(walls.contains(&Vector3(0, 0, -1)));
            assert!(in_order(&walls));
            for v in &walls {
                assert!(tiling.is_wall(v));
            }
        }
    }
}

#[test]
fn wall_voxels_do_not_depend_on_the_boxes() {
    let mut tiling = PeriodicLozengeTiling::new(0, 0, 0, 1, 1, 1);
    tiling.add_box(Vector3(0, 0, 0));
    assert_eq!(
        tiling.get_wall_voxels(),
        vec![Vector3(-1, 0, 0), Vector3(0, -1, 0), Vector3(0, 0, -1)]
    );
    let mut periodic = PeriodicLozengeTiling::new(1, 2, 3, 4, 4, 4);
    let before = periodic.get_wall_voxels();
    periodic.generate_by_adding_only(10);
    assert_eq!(periodic.get_wall_voxels(), before);
}

#[test]
fn one_box_is_one_box_voxel() {
    let mut tiling = PeriodicLozengeTiling::new(0, 0, 0, 10, 10, 10);
    tiling.add_box(Vector3(0, 0, 0));
    assert_eq!(tiling.get_box_voxels(), vec![Vector3(0, 0, 0)]);
}

#[test]
fn a_column_is_listed_from_the_floor_up() {
    let mut tiling = PeriodicLozengeTiling::new(0, 0, 0, 10, 10, 10);
    tiling.add_box(Vector3(0, 0, 0));
    tiling.add_box(Vector3(0, 0, 1));
    tiling.add_box(Vector3(0, 0, 2));
    assert_eq!(
        tiling.get_box_voxels(),
        vec![Vector3(0, 0, 0), Vector3(0, 0, 1), Vector3(0, 0, 2)]
    );
}

#[test]
fn a_covered_box_is_not_listed() {
    let mut tiling = PeriodicLozengeTiling::new(0, 0, 0, 10, 10, 10);
    tiling.add_box(Vector3(0, 0, 0));
    tiling.add_box(Vector3(1, 0, 0));
    tiling.add_box(Vector3(0, 1, 0));
    tiling.add_box(Vector3(0, 0, 1));
    assert_eq!(
        tiling.get_box_voxels(),
        vec![Vector3(0, 0, 1), Vector3(0, 1, 0), Vector3(1, 0, 0)]
    );
}

#[test]
fn a_covered_box_on_the_face_of_the_window_is_listed() {
    let mut tiling = PeriodicLozengeTiling::new(0, 0, 0, 1, 1, 1);
    tiling.add_box(Vector3(0, 0, 0));
    tiling.add_box(Vector3(1, 0, 0));
    tiling.add_box(Vector3(0, 1, 0));
    tiling.add_box(Vector3(0, 0, 1));
    assert_eq!(tiling.get_box_voxels(), vec![Vector3(0, 0, 0)]);
    assert_eq!(tiling.get_voxels(VoxelKind::Box, true), vec![Vector3(0, 0, 0)]);
    assert_eq!(tiling.get_voxels(VoxelKind::Box, false), vec![]);
}

#[test]
fn walls_on_the_faces_of_the_window_are_listed_where_they_count() {
    let tiling = PeriodicLozengeTiling::new(0, 0, 0, 3, 3, 3);
    let walls = tiling.get_voxels(VoxelKind::Wall, true);
    assert!(in_order(&walls));
    // the column behind the corner is walked to its end
    assert!(walls.contains(&Vector3(-1, -1, -1)));
    assert!(walls.contains(&Vector3(-1, -1, 2)));
    // the column over the corner is left under the corner
    assert!(walls.contains(&Vector3(0, 0, -1)));
    assert!(!walls.contains(&Vector3(0, 0, 0)));
    // every wall of the window lies on its faces here: 4^3 points less the
    // 3^3 of the octant
    assert_eq!(walls.len(), 64 - 27);
    let plain = tiling.get_wall_voxels();
    assert_eq!(plain.len(), 27);
    assert!(!plain.contains(&Vector3(-1, -1, -1)));
}

#[test]
fn get_voxels_agrees_with_the_two_shortcuts() {
    let mut tiling = PeriodicLozengeTiling::new(1, 2, 3, 4, 4, 4);
    tiling.generate_by_adding_only(12);
    assert_eq!(tiling.get_voxels(VoxelKind::Wall, false), tiling.get_wall_voxels());
    assert_eq!(tiling.get_voxels(VoxelKind::Box, true), tiling.get_box_voxels());
}

#[test]
fn voxels_are_in_order_and_of_their_kind() {
    for (xs, ys, zh) in [(0, 0, 0), (1, 2, 3), (2, 1, 2)] {
        let mut tiling = PeriodicLozengeTiling::new(xs, ys, zh, 5, 5, 5);
        tiling.generate_by_adding_only(30);
        let boxes = tiling.get_box_voxels();
        let walls = tiling.get_wall_voxels();
        assert!(!boxes.is_empty());
        assert!(in_order(&boxes));
        assert!(in_order(&walls));
        let b = tiling.get_voxel_boundaries();
        for v in &boxes {
            assert!(tiling.is_box(v));
            assert!(b.x_min <= v.0 as i64 && (v.0 as i64) < b.x_max);
            assert!(b.y_min <= v.1 as i64 && (v.1 as i64) < b.y_max);
            assert!(b.z_min <= v.2 as i64 && (v.2 as i64) < b.z_max);
        }
        for v in &walls {
            assert!(tiling.is_wall(v));
            let open = !tiling.is_wall(&Vector3(v.0 + 1, v.1, v.2))
                || !tiling.is_wall(&Vector3(v.0, v.1 + 1, v.2))
                || !tiling.is_wall(&Vector3(v.0, v.1, v.2 + 1));
            assert!(open);
        }
    }
}

#[test]
fn empty_window_has_no_voxels() {
    let tiling = PeriodicLozengeTiling::new(1, 2, 3, 0, 5, 5);
    assert_eq!(tiling.get_wall_voxels(), vec![]);
    let other = PeriodicLozengeTiling::new(1, 2, 3, 5, -2, 5);
    assert_eq!(other.get_wall_voxels(), vec![]);
    assert_eq!(other.get_box_voxels(), vec![]);
}
