use lozenge_tilings::tiling::PeriodicLozengeTiling;
use lozenge_tilings::vector2::Vector2;
use lozenge_tilings::vector3::Vector3;
use rand::Rng;

fn generate_with_markov_chain(tiling: &mut PeriodicLozengeTiling, iterations: i32, q: f32) {
    let mut rng = rand::thread_rng();

    for _ in 0..iterations {
        let rn1 = rng.gen::<f32>();
        let rn2 = rng.gen::<f32>();

        let num1 = (-1.0 * (1.0 - rn1).ln()) / tiling.addable_boxes_count() as f32 / q;
        let num2 = (-1.0 * (1.0 - rn2).ln()) / tiling.removable_boxes_count() as f32;

        tiling.markov_step(num1 < num2);
    }
}

/// A fixed sequence of choices that looks random enough.
fn choices(seed: u64, n: usize) -> Vec<bool> {
    let mut state = seed;
    let mut out = Vec::new();
    for _ in 0..n {
        state = state
            .wrapping_mul(6364136223846793005)
            .wrapping_add(1442695040888963407);
        out.push((state >> 33) % 3 != 0);
    }
    out
}

/// Checks, on every point of the cube of the given reach, that the two sets
/// of candidates hold the representatives at which a box can be put or
/// taken, and that they hold nothing else.
fn assert_candidates_match(tiling: &PeriodicLozengeTiling, reach: i32) {
    let mut addable = 0;
    let mut removable = 0;
    for x in -reach..=reach {
        for y in -reach..=reach {
            for z in -reach..=reach {
                let p = Vector3(x, y, z);
                let n = tiling.normalize3(&p);
                assert_eq!(tiling.is_addable(&n), tiling.can_add_box(&p), "{:?}", p);
                assert_eq!(tiling.is_removable(&n), tiling.can_remove_box(&p), "{:?}", p);
                assert!(!(tiling.can_add_box(&p) && tiling.can_remove_box(&p)));
                if n == p {
                    if tiling.is_addable(&p) {
                        addable += 1;
                    }
                    if tiling.is_removable(&p) {
                        removable += 1;
                    }
                } else {
                    assert!(!tiling.is_addable(&p), "{:?}", p);
                    assert!(!tiling.is_removable(&p), "{:?}", p);
                }
            }
        }
    }
    assert_eq!(addable, tiling.addable_boxes_count());
    assert_eq!(removable, tiling.removable_boxes_count());
}

#[test]
fn can_determine_initial_boxes_and_walls() {
    let lozenge_tiling = PeriodicLozengeTiling::new(3, 3, 3, 1, 1, 1);
    // no box initilally
    assert!(!lozenge_tiling.is_box(&Vector3(0, 0, 0)));
    // no box on negative sides
    assert!(!lozenge_tiling.is_box(&Vector3(-1, 0, 0)));
    assert!(!lozenge_tiling.is_box(&Vector3(0, -1, 0)));
    assert!(!lozenge_tiling.is_box(&Vector3(0, 0, -1)));
    // all walls on negative sides`
    assert!(lozenge_tiling.is_wall(&Vector3(-1, 0, 0)));
    assert!(lozenge_tiling.is_wall(&Vector3(0, -1, 0)));
    assert!(lozenge_tiling.is_wall(&Vector3(0, 0, -1)));
}

#[test]
fn can_get_wall_voxels() {
    let lozenge_tiling = PeriodicLozengeTiling::new(1, 2, 3, 10, 10, 10);
    lozenge_tiling.get_wall_voxels();
}

#[test]
fn can_generate_with_0_periods() {
    let mut lozenge_tiling = PeriodicLozengeTiling::new(0, 0, 0, 10, 10, 10);
    lozenge_tiling.get_wall_voxels();
    generate_with_markov_chain(&mut lozenge_tiling, 5, 0.9);
    assert!(!lozenge_tiling.get_box_voxels().is_empty());
}

#[test]
fn empty_octant_has_walls_behind_the_corner() {
    let tiling = PeriodicLozengeTiling::new(0, 0, 0, 10, 10, 10);
    assert!(tiling.is_wall(&Vector3(-1, 0, 0)));
    assert!(tiling.is_wall(&Vector3(0, -1, 0)));
    assert!(tiling.is_wall(&Vector3(0, 0, -1)));
    assert!(!tiling.is_wall(&Vector3(0, 0, 0)));
    assert!(!tiling.is_box(&Vector3(0, 0, 0)));
    assert!(tiling.can_add_box(&Vector3(0, 0, 0)));
    assert!(!tiling.can_add_box(&Vector3(1, 0, 0)));
    assert!(!tiling.can_remove_box(&Vector3(0, 0, 0)));
    assert!(tiling.is_wall_or_box(&Vector3(-1, 0, 0)));
    assert!(!tiling.is_wall_or_box(&Vector3(0, 0, 0)));
}

#[test]
fn new_engine_holds_the_corner_as_its_one_candidate() {
    for (xs, ys, zh) in [(0, 0, 0), (0, 0, 4), (1, 2, 3), (2, 1, 3), (3, 3, 3), (0, 2, 1)] {
        let tiling = PeriodicLozengeTiling::new(xs, ys, zh, 10, 10, 10);
        assert_eq!(tiling.addable_boxes_count(), 1);
        assert_eq!(tiling.removable_boxes_count(), 0);
        assert!(tiling.is_addable(&Vector3(0, 0, 0)));
        assert_eq!(tiling.get_period_box_count(), 0);
        assert_candidates_match(&tiling, 8);
    }
}

#[test]
fn first_box_makes_three_candidates() {
    let mut tiling = PeriodicLozengeTiling::new(0, 0, 0, 10, 10, 10);
    tiling.add_box(Vector3(0, 0, 0));
    assert_eq!(tiling.addable_boxes_count(), 3);
    assert!(tiling.is_addable(&Vector3(1, 0, 0)));
    assert!(tiling.is_addable(&Vector3(0, 1, 0)));
    assert!(tiling.is_addable(&Vector3(0, 0, 1)));
    assert!(!tiling.is_addable(&Vector3(0, 0, 0)));
    assert_eq!(tiling.removable_boxes_count(), 1);
    assert!(tiling.is_removable(&Vector3(0, 0, 0)));
}

#[test]
fn empty_engine_has_no_box_voxels() {
    let tiling = PeriodicLozengeTiling::new(0, 0, 0, 10, 10, 10);
    assert_eq!(tiling.get_box_voxels(), vec![]);
    assert_eq!(tiling.get_period_box_count(), 0);
}

#[test]
fn one_random_box_lands_on_the_corner() {
    let mut tiling = PeriodicLozengeTiling::new(0, 0, 0, 10, 10, 10);
    tiling.add_random_box();
    assert_eq!(tiling.get_period_box_count(), 1);
    assert!(tiling.is_box(&Vector3(0, 0, 0)));
}

#[test]
fn three_random_boxes_are_three_boxes() {
    let mut tiling = PeriodicLozengeTiling::new(0, 0, 0, 10, 10, 10);
    tiling.add_random_box();
    tiling.add_random_box();
    tiling.add_random_box();
    assert_eq!(tiling.get_period_box_count(), 3);
}

#[test]
fn generate_by_adding_only_adds_that_many_boxes() {
    for (xs, ys, zh) in [(0, 0, 0), (1, 2, 3), (2, 1, 1), (0, 3, 2)] {
        let mut tiling = PeriodicLozengeTiling::new(xs, ys, zh, 10, 10, 10);
        tiling.generate_by_adding_only(25);
        assert_eq!(tiling.get_period_box_count(), 25);
        tiling.generate_by_adding_only(0);
        tiling.generate_by_adding_only(-3);
        assert_eq!(tiling.get_period_box_count(), 25);
    }
}

#[test]
fn remove_random_box_on_empty_engine_changes_nothing() {
    let mut tiling = PeriodicLozengeTiling::new(0, 0, 0, 10, 10, 10);
    tiling.remove_random_box();
    assert_eq!(tiling.get_period_box_count(), 0);
    assert_eq!(tiling.addable_boxes_count(), 1);
    assert_eq!(tiling.removable_boxes_count(), 0);
    assert!(tiling.is_addable(&Vector3(0, 0, 0)));
}

#[test]
fn remove_random_box_takes_one_box() {
    let mut tiling = PeriodicLozengeTiling::new(0, 0, 0, 10, 10, 10);
    tiling.generate_by_adding_only(6);
    tiling.remove_random_box();
    assert_eq!(tiling.get_period_box_count(), 5);
    assert_candidates_match(&tiling, 8);
}

#[test]
fn add_box_where_none_fits_changes_nothing() {
    let mut tiling = PeriodicLozengeTiling::new(0, 0, 0, 10, 10, 10);
    tiling.add_box(Vector3(1, 0, 0));
    tiling.add_box(Vector3(-1, 0, 0));
    assert_eq!(tiling.get_period_box_count(), 0);
    assert_eq!(tiling.addable_boxes_count(), 1);
    tiling.add_box(Vector3(0, 0, 0));
    tiling.add_box(Vector3(0, 0, 0));
    assert_eq!(tiling.get_period_box_count(), 1);
}

#[test]
fn remove_box_where_none_can_go_changes_nothing() {
    let mut tiling = PeriodicLozengeTiling::new(0, 0, 0, 10, 10, 10);
    tiling.add_box(Vector3(0, 0, 0));
    tiling.add_box(Vector3(1, 0, 0));
    tiling.remove_box(Vector3(0, 0, 0));
    tiling.remove_box(Vector3(5, 5, 5));
    assert_eq!(tiling.get_period_box_count(), 2);
    assert!(tiling.is_removable(&Vector3(1, 0, 0)));
    assert!(!tiling.is_removable(&Vector3(0, 0, 0)));
    assert_eq!(tiling.removable_boxes_count(), 1);
}

#[test]
fn height_is_capped_without_shifts() {
    let mut tiling = PeriodicLozengeTiling::new(0, 0, 2, 10, 10, 10);
    tiling.add_box(Vector3(0, 0, 0));
    tiling.add_box(Vector3(0, 0, 1));
    assert_eq!(tiling.get_period_box_count(), 2);
    assert!(!tiling.can_add_box(&Vector3(0, 0, 2)));
    assert!(!tiling.is_addable(&Vector3(0, 0, 2)));
    assert_eq!(tiling.addable_boxes_count(), 2);
    tiling.add_box(Vector3(0, 0, 2));
    assert_eq!(tiling.get_period_box_count(), 2);
    assert_candidates_match(&tiling, 6);
}

#[test]
fn height_is_not_capped_with_all_periods_zero() {
    let mut tiling = PeriodicLozengeTiling::new(0, 0, 0, 10, 10, 10);
    for z in 0..7 {
        assert!(tiling.can_add_box(&Vector3(0, 0, z)));
        tiling.add_box(Vector3(0, 0, z));
    }
    assert_eq!(tiling.get_period_box_count(), 7);
    assert!(tiling.is_box(&Vector3(0, 0, 6)));
}

#[test]
fn normalize_moves_whole_periods() {
    let tiling = PeriodicLozengeTiling::new(1, 2, 3, 10, 10, 10);
    assert_eq!(tiling.normalize3(&Vector3(0, 0, 0)), Vector3(0, 0, 0));
    assert_eq!(tiling.normalize3(&Vector3(0, 1, 0)), Vector3(0, 1, 0));
    assert_eq!(tiling.normalize3(&Vector3(0, 2, 0)), Vector3(-1, 0, 3));
    assert_eq!(tiling.normalize3(&Vector3(5, -1, 0)), Vector3(6, 1, -3));
    assert_eq!(tiling.normalize3(&Vector3(5, -2, 0)), Vector3(6, 0, -3));
    assert_eq!(tiling.normalize3(&Vector3(5, -3, 7)), Vector3(7, 1, 1));
    assert_eq!(tiling.normalize3(&Vector3(0, 7, -1)), Vector3(-3, 1, 8));
    assert_eq!(tiling.normalize2(&Vector2(0, 7)), Vector2(-3, 1));
}

#[test]
fn normalize_goes_by_the_larger_shift() {
    let tiling = PeriodicLozengeTiling::new(3, 2, 1, 10, 10, 10);
    assert_eq!(tiling.normalize3(&Vector3(2, 9, 0)), Vector3(2, 9, 0));
    assert_eq!(tiling.normalize3(&Vector3(3, 9, 0)), Vector3(0, 7, 1));
    assert_eq!(tiling.normalize3(&Vector3(-1, 0, 0)), Vector3(2, 2, -1));
    assert_eq!(tiling.normalize3(&Vector3(-7, 0, 5)), Vector3(2, 6, 2));
    let even = PeriodicLozengeTiling::new(2, 2, 5, 10, 10, 10);
    assert_eq!(even.normalize3(&Vector3(7, 3, 0)), Vector3(5, 1, 5));
}

#[test]
fn normalize_without_shifts_is_the_identity() {
    let tiling = PeriodicLozengeTiling::new(0, 0, 3, 10, 10, 10);
    assert_eq!(tiling.normalize3(&Vector3(-4, 9, 17)), Vector3(-4, 9, 17));
    assert_eq!(
        tiling.normalize3(&Vector3(i32::MIN, i32::MAX, 0)),
        Vector3(i32::MIN, i32::MAX, 0)
    );
}

#[test]
fn normalize_is_idempotent_and_constant_on_classes() {
    let tiling = PeriodicLozengeTiling::new(2, 3, 1, 10, 10, 10);
    for x in -6..7 {
        for y in -6..7 {
            for z in -3..4 {
                let n = tiling.normalize3(&Vector3(x, y, z));
                assert_eq!(tiling.normalize3(&n), n);
                assert!(0 <= n.1 && n.1 < 3);
                let moved = Vector3(x + 2, y + 3, z - 1);
                assert_eq!(tiling.normalize3(&moved), n);
            }
        }
    }
}

#[test]
fn periodic_walls_follow_the_staircase() {
    let tiling = PeriodicLozengeTiling::new(1, 2, 3, 10, 10, 10);
    // below the floor
    assert!(tiling.is_wall(&Vector3(0, 0, -1)));
    assert!(tiling.is_wall(&Vector3(7, 1, -1)));
    // at heights 0..3 the wall starts behind x = 0
    assert!(tiling.is_wall(&Vector3(-1, 0, 0)));
    assert!(tiling.is_wall(&Vector3(-1, 1, 2)));
    assert!(!tiling.is_wall(&Vector3(0, 0, 2)));
    // at heights 3..6 it starts behind x = -1
    assert!(!tiling.is_wall(&Vector3(-1, 0, 3)));
    assert!(tiling.is_wall(&Vector3(-2, 0, 3)));
    assert!(!tiling.is_wall(&Vector3(-2, 1, 6)));
    assert!(tiling.is_wall(&Vector3(-3, 1, 8)));
    // a point is a wall with its whole class
    assert!(tiling.is_wall(&Vector3(0, 2, -3)));
    assert!(!tiling.is_wall(&Vector3(0, 2, 0)));
    assert!(tiling.is_wall(&Vector3(-1, 2, 0)));
}

#[test]
fn periodic_walls_along_x() {
    let tiling = PeriodicLozengeTiling::new(2, 1, 2, 10, 10, 10);
    assert!(tiling.is_wall(&Vector3(0, -1, 0)));
    assert!(!tiling.is_wall(&Vector3(0, -1, 2)));
    assert!(tiling.is_wall(&Vector3(1, -2, 3)));
    assert!(!tiling.is_wall(&Vector3(1, -2, 4)));
    // (-1, 0, 0) stands for (1, 1, -2)
    assert!(tiling.is_wall(&Vector3(-1, 0, 0)));
    // (-1, 0, 2) stands for (1, 1, 0)
    assert!(!tiling.is_wall(&Vector3(-1, 0, 2)));
}

#[test]
fn every_point_is_a_wall_without_height() {
    let mut tiling = PeriodicLozengeTiling::new(2, 1, 0, 5, 5, 5);
    for p in [Vector3(0, 0, 0), Vector3(3, 4, 5), Vector3(-1, 7, 2)] {
        assert!(tiling.is_wall(&p));
        assert!(!tiling.is_box(&p));
        assert!(!tiling.can_add_box(&p));
        assert!(!tiling.can_remove_box(&p));
    }
    tiling.add_random_box();
    tiling.remove_random_box();
    tiling.generate_by_adding_only(4);
    assert_eq!(tiling.get_period_box_count(), 0);
    assert_eq!(tiling.addable_boxes_count(), 1);
    assert!(tiling.is_addable(&Vector3(0, 0, 0)));
    assert_eq!(tiling.get_wall_voxels(), vec![]);
    assert_eq!(tiling.get_box_voxels(), vec![]);
}

#[test]
fn a_box_is_a_box_in_every_copy() {
    let mut tiling = PeriodicLozengeTiling::new(1, 2, 3, 10, 10, 10);
    tiling.add_box(Vector3(0, 0, 0));
    assert!(tiling.is_box(&Vector3(0, 0, 0)));
    assert!(tiling.is_box(&Vector3(1, 2, -3)));
    assert!(tiling.is_box(&Vector3(-1, -2, 3)));
    assert!(tiling.is_box(&Vector3(-4, -8, 12)));
    assert!(!tiling.is_box(&Vector3(-1, -2, 4)));
    assert!(!tiling.is_box(&Vector3(0, 1, 0)));
    assert_eq!(tiling.get_period_box_count(), 1);
    assert_eq!(tiling.addable_boxes_count(), 3);
    assert!(tiling.is_addable(&Vector3(1, 0, 0)));
    assert!(tiling.is_addable(&Vector3(0, 1, 0)));
    assert!(tiling.is_addable(&Vector3(0, 0, 1)));
}

#[test]
fn a_step_over_the_period_wraps_to_the_next_floor() {
    let mut tiling = PeriodicLozengeTiling::new(1, 2, 3, 10, 10, 10);
    tiling.add_box(Vector3(0, 0, 0));
    tiling.add_box(Vector3(0, 1, 0));
    // (0, 2, 0) stands for (-1, 0, 3)
    assert!(tiling.can_add_box(&Vector3(0, 2, 0)));
    assert!(tiling.is_addable(&Vector3(-1, 0, 3)));
    assert!(!tiling.is_addable(&Vector3(0, 2, 0)));
    assert_eq!(tiling.addable_boxes_count(), 3);
    assert!(tiling.is_addable(&Vector3(1, 0, 0)));
    assert!(tiling.is_addable(&Vector3(0, 0, 1)));
    assert_eq!(tiling.removable_boxes_count(), 1);
    assert!(tiling.is_removable(&Vector3(0, 1, 0)));

    tiling.add_box(Vector3(0, 2, 0));
    assert_eq!(tiling.get_period_box_count(), 3);
    assert!(tiling.is_box(&Vector3(-1, 0, 3)));
    assert!(tiling.is_box(&Vector3(0, 2, 0)));
    assert!(!tiling.is_box(&Vector3(-1, 0, 4)));
    assert!(tiling.is_removable(&Vector3(-1, 0, 3)));
    assert!(!tiling.is_removable(&Vector3(0, 1, 0)));
    assert_candidates_match(&tiling, 9);

    tiling.remove_box(Vector3(0, 2, 0));
    assert_eq!(tiling.get_period_box_count(), 2);
    assert!(!tiling.is_box(&Vector3(-1, 0, 3)));
    assert!(tiling.is_addable(&Vector3(-1, 0, 3)));
    assert!(tiling.is_removable(&Vector3(0, 1, 0)));
    assert_candidates_match(&tiling, 9);
}

#[test]
fn candidates_match_after_any_moves() {
    for (xs, ys, zh) in [(0, 0, 0), (0, 0, 2), (1, 2, 3), (2, 1, 1), (2, 2, 1), (0, 2, 1), (3, 0, 2)] {
        let mut tiling = PeriodicLozengeTiling::new(xs, ys, zh, 10, 10, 10);
        let mut moves = 0;
        for add in choices(7 + xs as u64 * 31 + ys as u64 * 5 + zh as u64, 12) {
            tiling.markov_step(add);
            moves += 1;
            if moves % 4 == 0 {
                assert_candidates_match(&tiling, 14);
            }
        }
        assert_candidates_match(&tiling, 14);
        assert!(tiling.addable_boxes_count() >= 1);
    }
}

#[test]
fn add_then_remove_restores_the_state() {
    for (xs, ys, zh) in [(0, 0, 0), (1, 2, 3), (2, 1, 2)] {
        let mut tiling = PeriodicLozengeTiling::new(xs, ys, zh, 4, 4, 4);
        tiling.generate_by_adding_only(9);
        let boxes = tiling.get_box_voxels();
        let walls = tiling.get_wall_voxels();
        let addable = tiling.addable_boxes_count();
        let removable = tiling.removable_boxes_count();
        let mut tried = 0;
        for x in -12..13 {
            for y in -12..13 {
                for z in -12..13 {
                    let p = Vector3(x, y, z);
                    if tiling.can_add_box(&p) {
                        let n = tiling.normalize3(&p);
                        tiling.add_box(p);
                        assert_eq!(tiling.get_period_box_count(), 10);
                        assert!(tiling.is_removable(&n));
                        tiling.remove_box(n);
                        assert_eq!(tiling.get_period_box_count(), 9);
                        assert_eq!(tiling.addable_boxes_count(), addable);
                        assert_eq!(tiling.removable_boxes_count(), removable);
                        assert!(tiling.is_addable(&n));
                        tried += 1;
                    }
                }
            }
        }
        assert!(tried >= 1);
        assert_eq!(tiling.get_box_voxels(), boxes);
        assert_eq!(tiling.get_wall_voxels(), walls);
        assert_candidates_match(&tiling, 12);
    }
}

#[test]
fn reset_gives_the_state_of_a_new_engine() {
    let mut tiling = PeriodicLozengeTiling::new(1, 2, 3, 5, 6, 7);
    tiling.generate_by_adding_only(20);
    tiling.remove_random_box();
    tiling.reset();
    let fresh = PeriodicLozengeTiling::new(1, 2, 3, 5, 6, 7);
    assert_eq!(tiling.get_period_box_count(), 0);
    assert_eq!(tiling.addable_boxes_count(), 1);
    assert_eq!(tiling.removable_boxes_count(), 0);
    assert!(tiling.is_addable(&Vector3(0, 0, 0)));
    assert_eq!(tiling.get_box_voxels(), fresh.get_box_voxels());
    assert_eq!(tiling.get_wall_voxels(), fresh.get_wall_voxels());
    assert_eq!(tiling.periods().x_shift, 1);
    assert_eq!(tiling.periods().y_shift, 2);
    assert_eq!(tiling.periods().z_height, 3);
    assert_eq!(tiling.draw_distance().x, 5);
    assert_eq!(tiling.draw_distance().y, 6);
    assert_eq!(tiling.draw_distance().z, 7);
    assert_candidates_match(&tiling, 8);
}

#[test]
fn set_periods_resets_and_takes_the_new_periods() {
    let mut tiling = PeriodicLozengeTiling::new(0, 0, 0, 10, 10, 10);
    tiling.generate_by_adding_only(5);
    tiling.set_periods(1, 2, 3);
    assert_eq!(tiling.get_period_box_count(), 0);
    assert_eq!(tiling.addable_boxes_count(), 1);
    assert_eq!(tiling.removable_boxes_count(), 0);
    assert_eq!(tiling.normalize3(&Vector3(0, 2, 0)), Vector3(-1, 0, 3));
    assert_eq!(tiling.draw_distance().x, 10);
    let fresh = PeriodicLozengeTiling::new(1, 2, 3, 10, 10, 10);
    assert_eq!(tiling.get_wall_voxels(), fresh.get_wall_voxels());
}

#[test]
fn set_draw_distance_keeps_the_boxes() {
    let mut tiling = PeriodicLozengeTiling::new(0, 0, 0, 10, 10, 10);
    tiling.generate_by_adding_only(5);
    let addable = tiling.addable_boxes_count();
    tiling.set_draw_distance(2, 3, 4);
    assert_eq!(tiling.get_period_box_count(), 5);
    assert_eq!(tiling.addable_boxes_count(), addable);
    assert_eq!(tiling.draw_distance().x, 2);
    assert_eq!(tiling.draw_distance().y, 3);
    assert_eq!(tiling.draw_distance().z, 4);
    assert_eq!(tiling.periods().x_shift, 0);
}

#[test]
fn markov_chain_keeps_the_candidates_right() {
    let mut tiling = PeriodicLozengeTiling::new(1, 2, 3, 10, 10, 10);
    generate_with_markov_chain(&mut tiling, 14, 0.9);
    assert_candidates_match(&tiling, 16);
    let mut octant = PeriodicLozengeTiling::new(0, 0, 0, 10, 10, 10);
    generate_with_markov_chain(&mut octant, 14, 2.5);
    assert_candidates_match(&octant, 16);
    assert!(octant.addable_boxes_count() >= 1);
}

#[test]
fn markov_step_adds_or_removes_one_box() {
    let mut tiling = PeriodicLozengeTiling::new(0, 0, 0, 10, 10, 10);
    tiling.markov_step(false);
    assert_eq!(tiling.get_period_box_count(), 0);
    tiling.markov_step(true);
    assert_eq!(tiling.get_period_box_count(), 1);
    tiling.markov_step(true);
    assert_eq!(tiling.get_period_box_count(), 2);
    tiling.markov_step(false);
    assert_eq!(tiling.get_period_box_count(), 1);
    assert!(tiling.is_box(&Vector3(0, 0, 0)));
}

#[test]
fn stride_is_the_largest_period_and_at_least_one() {
    assert_eq!(PeriodicLozengeTiling::new(0, 0, 0, 1, 1, 1).stride(), 1);
    assert_eq!(PeriodicLozengeTiling::new(1, 2, 3, 1, 1, 1).stride(), 3);
    assert_eq!(PeriodicLozengeTiling::new(5, 2, 3, 1, 1, 1).stride(), 5);
    assert_eq!(PeriodicLozengeTiling::new(1, 7, 3, 1, 1, 1).stride(), 7);
    assert_eq!(PeriodicLozengeTiling::new(0, 0, 1, 1, 1, 1).stride(), 1);
}

#[test]
fn fits_within_bounds_every_candidate() {
    let mut tiling = PeriodicLozengeTiling::new(0, 0, 0, 10, 10, 10);
    assert!(tiling.fits_within(0));
    tiling.add_box(Vector3(0, 0, 0));
    assert!(!tiling.fits_within(0));
    assert!(tiling.fits_within(1));
    tiling.add_box(Vector3(1, 0, 0));
    tiling.add_box(Vector3(2, 0, 0));
    // (3, 0, 0) can be added, (2, 0, 0) can be taken
    assert!(!tiling.fits_within(2));
    assert!(tiling.fits_within(3));
    assert!(tiling.fits_within(i32::MAX));
}

#[test]
fn fits_within_sees_negative_coordinates() {
    let mut tiling = PeriodicLozengeTiling::new(1, 2, 3, 10, 10, 10);
    tiling.add_box(Vector3(0, 0, 0));
    tiling.add_box(Vector3(0, 1, 0));
    // (-1, 0, 3) can be added
    assert!(!tiling.fits_within(2));
    assert!(tiling.fits_within(3));
}

#[test]
fn candidates_stay_within_a_stride_for_each_move() {
    for (xs, ys, zh) in [(0, 0, 0), (1, 2, 3), (3, 1, 2)] {
        let mut tiling = PeriodicLozengeTiling::new(xs, ys, zh, 10, 10, 10);
        let stride = tiling.stride();
        let mut moves = 0;
        for add in choices(99, 40) {
            tiling.markov_step(add);
            moves += 1;
            assert!(tiling.fits_within(moves * stride));
        }
    }
}

#[test]
fn checked_period_box_count_is_the_count() {
    let mut tiling = PeriodicLozengeTiling::new(2, 1, 2, 10, 10, 10);
    assert_eq!(tiling.checked_period_box_count(), Some(0));
    tiling.generate_by_adding_only(17);
    assert_eq!(tiling.checked_period_box_count(), Some(17));
    assert_eq!(tiling.get_period_box_count(), 17);
}
