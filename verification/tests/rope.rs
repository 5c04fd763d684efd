use chaos_theory::fixed::{UNIT, WORLD_LIMIT};
use chaos_theory::rope::{accel_for, Constraint, Point, Rope};
use chaos_theory::vector::V2;

fn rope_positions(rope: &Rope) -> Vec<V2> {
    rope.points().iter().map(|p| p.pos()).collect()
}

#[test]
fn new_point_is_free_and_at_rest() {
    let p = Point::new(V2::new(3, 4));
    assert_eq!(p.pos(), V2::new(3, 4));
    assert_eq!(p.prev_pos, V2::new(3, 4));
    assert!(!p.locked);
}

#[test]
fn locked_point_is_locked() {
    let p = Point::locked(V2::new(3, 4));
    assert_eq!(p.pos(), V2::new(3, 4));
    assert_eq!(p.prev_pos, V2::new(3, 4));
    assert!(p.locked);
}

#[test]
fn step_keeps_velocity_and_adds_acceleration() {
    let mut p = Point { pos: V2::new(10, 20), prev_pos: V2::new(7, 18), locked: false };
    p.step(V2::new(1, 2));
    assert_eq!(p.pos, V2::new(14, 24));
    assert_eq!(p.prev_pos, V2::new(10, 20));
    p.step(V2::new(1, 2));
    assert_eq!(p.pos, V2::new(19, 30));
    assert_eq!(p.prev_pos, V2::new(14, 24));
}

#[test]
fn step_of_a_point_at_rest_is_the_acceleration() {
    let mut p = Point::new(V2::new(-5, 5));
    p.step(V2::new(0, 18_205));
    assert_eq!(p.pos, V2::new(-5, 18_210));
    assert_eq!(p.prev_pos, V2::new(-5, 5));
}

#[test]
fn step_leaves_a_locked_point() {
    let mut p = Point { pos: V2::new(10, 20), prev_pos: V2::new(7, 18), locked: true };
    p.step(V2::new(1, 2));
    assert_eq!(p, Point { pos: V2::new(10, 20), prev_pos: V2::new(7, 18), locked: true });
}

#[test]
fn step_stops_at_the_edge_of_the_world() {
    let mut p =
        Point { pos: V2::new(WORLD_LIMIT - 5, 0), prev_pos: V2::new(WORLD_LIMIT - 15, 0), locked: false };
    p.step(V2::new(0, -3));
    assert_eq!(p.pos, V2::new(WORLD_LIMIT, -3));
    assert_eq!(p.prev_pos, V2::new(WORLD_LIMIT - 5, 0));
    let mut q = Point::new(V2::new(0, -WORLD_LIMIT));
    q.step(V2::new(i64::MIN, i64::MIN));
    assert_eq!(q.pos, V2::new(-WORLD_LIMIT, -WORLD_LIMIT));
}

#[test]
fn relax_moves_both_ends_by_half_the_excess() {
    let mut points = vec![Point::new(V2::from_units(0, 0)), Point::new(V2::from_units(10, 0))];
    let link = Constraint { point_a: 0, point_b: 1, length: 6 * UNIT };
    link.relax(&mut points);
    assert_eq!(points[0].pos, V2::from_units(2, 0));
    assert_eq!(points[1].pos, V2::from_units(8, 0));
    assert_eq!(points[0].prev_pos, V2::from_units(0, 0));
    assert_eq!(points[1].prev_pos, V2::from_units(10, 0));
    assert_eq!(points[0].pos.distance(&points[1].pos), 6 * UNIT);
}

#[test]
fn relax_pushes_apart_ends_that_are_too_near() {
    let mut points = vec![Point::new(V2::from_units(0, 0)), Point::new(V2::from_units(3, 4))];
    let link = Constraint { point_a: 0, point_b: 1, length: 10 * UNIT };
    link.relax(&mut points);
    assert_eq!(points[0].pos, V2::new(-98_304, -131_072));
    assert_eq!(points[1].pos, V2::new(294_912, 393_216));
    assert_eq!(points[0].pos.distance(&points[1].pos), 10 * UNIT);
}

#[test]
fn relax_moves_only_the_free_end() {
    let mut points = vec![Point::locked(V2::from_units(0, 0)), Point::new(V2::from_units(10, 0))];
    let link = Constraint { point_a: 0, point_b: 1, length: 6 * UNIT };
    link.relax(&mut points);
    assert_eq!(points[0].pos, V2::from_units(0, 0));
    assert_eq!(points[1].pos, V2::from_units(8, 0));
    let mut other = vec![Point::new(V2::from_units(0, 0)), Point::locked(V2::from_units(10, 0))];
    link.relax(&mut other);
    assert_eq!(other[0].pos, V2::from_units(2, 0));
    assert_eq!(other[1].pos, V2::from_units(10, 0));
}

#[test]
fn relax_leaves_two_locked_ends() {
    let mut points =
        vec![Point::locked(V2::from_units(0, 0)), Point::locked(V2::from_units(10, 0))];
    let link = Constraint { point_a: 0, point_b: 1, length: 6 * UNIT };
    link.relax(&mut points);
    assert_eq!(points[0], Point::locked(V2::from_units(0, 0)));
    assert_eq!(points[1], Point::locked(V2::from_units(10, 0)));
}

#[test]
fn relax_rounds_toward_zero_on_both_sides() {
    let link = Constraint { point_a: 0, point_b: 1, length: 4 };
    let mut right = vec![Point::new(V2::new(0, 0)), Point::new(V2::new(7, 0))];
    link.relax(&mut right);
    assert_eq!(right[0].pos, V2::new(1, 0));
    assert_eq!(right[1].pos, V2::new(6, 0));
    let mut left = vec![Point::new(V2::new(0, 0)), Point::new(V2::new(-7, 0))];
    link.relax(&mut left);
    assert_eq!(left[0].pos, V2::new(-1, 0));
    assert_eq!(left[1].pos, V2::new(-6, 0));
}

#[test]
fn relax_leaves_coincident_points() {
    let mut points = vec![Point::new(V2::new(5, 5)), Point::new(V2::new(5, 5))];
    let link = Constraint { point_a: 0, point_b: 1, length: 100 };
    link.relax(&mut points);
    assert_eq!(points[0].pos, V2::new(5, 5));
    assert_eq!(points[1].pos, V2::new(5, 5));
}

#[test]
fn relax_leaves_a_link_at_its_length() {
    let mut points = vec![Point::new(V2::from_units(0, 0)), Point::new(V2::from_units(3, 4))];
    let link = Constraint { point_a: 0, point_b: 1, length: 5 * UNIT };
    link.relax(&mut points);
    assert_eq!(points[0].pos, V2::from_units(0, 0));
    assert_eq!(points[1].pos, V2::from_units(3, 4));
}

#[test]
fn relax_stops_at_the_edge_of_the_world() {
    let mut points =
        vec![Point::new(V2::new(WORLD_LIMIT, 0)), Point::new(V2::new(WORLD_LIMIT - 10, 0))];
    let link = Constraint { point_a: 0, point_b: 1, length: 100 };
    link.relax(&mut points);
    assert_eq!(points[0].pos, V2::new(WORLD_LIMIT, 0));
    assert_eq!(points[1].pos, V2::new(WORLD_LIMIT - 55, 0));
}

#[test]
fn relax_reads_both_ends_before_it_moves_either() {
    let mut points = vec![
        Point::new(V2::new(100, 0)),
        Point::new(V2::new(0, 0)),
        Point::new(V2::new(1, 1)),
    ];
    let link = Constraint { point_a: 2, point_b: 1, length: 100 };
    link.relax(&mut points);
    assert_eq!(points[0].pos, V2::new(100, 0));
    assert_eq!(points[1].pos, V2::new(-49, -49));
    assert_eq!(points[2].pos, V2::new(50, 50));
}

#[test]
fn new_rope_is_its_root() {
    let rope = Rope::new(V2::from_units(1, 2));
    assert_eq!(rope.root(), V2::from_units(1, 2));
    assert_eq!(rope.len(), 0);
    assert_eq!(rope.tail(), V2::from_units(1, 2));
    assert_eq!(rope.points().len(), 1);
    assert_eq!(rope.points()[0], Point::locked(V2::from_units(1, 2)));
    assert!(rope.constraints().is_empty());
}

#[test]
fn add_links_the_tail_to_a_new_point() {
    let mut rope = Rope::new(V2::from_units(0, 0));
    rope.add(V2::from_units(0, -300));
    assert_eq!(rope.len(), 1);
    assert_eq!(rope.tail(), V2::from_units(0, -300));
    assert_eq!(rope.constraints()[0], Constraint { point_a: 0, point_b: 1, length: 300 * UNIT });
    assert_eq!(rope.points()[1], Point::new(V2::from_units(0, -300)));
    rope.add(V2::from_units(10, 300));
    assert_eq!(rope.len(), 2);
    assert_eq!(rope.tail(), V2::from_units(10, 300));
    assert_eq!(rope.constraints()[1], Constraint { point_a: 1, point_b: 2, length: 39_327_060 });
    assert_eq!(rope.points()[0], Point::locked(V2::from_units(0, 0)));
}

#[test]
fn add_at_the_tail_makes_a_link_without_length() {
    let mut rope = Rope::new(V2::from_units(4, 4));
    rope.add(V2::from_units(4, 4));
    assert_eq!(rope.constraints()[0].length, 0);
    assert_eq!(rope.tail(), V2::from_units(4, 4));
}

#[test]
fn clone_is_an_independent_copy() {
    let mut rope = Rope::new(V2::from_units(0, 0));
    rope.add(V2::from_units(0, -300));
    rope.add(V2::from_units(10, 300));
    let mut copy = rope.clone();
    assert_eq!(rope_positions(&copy), rope_positions(&rope));
    assert_eq!(copy.constraints(), rope.constraints());
    assert_eq!(copy.root(), rope.root());
    let before = rope_positions(&rope);
    copy.jiggle(&vec![(0, 0), (65_535, 65_535)]);
    copy.add(V2::from_units(7, 7));
    copy.simulate(V2::new(0, 65_536_000), 16_667, 15);
    assert_eq!(rope_positions(&rope), before);
    assert_eq!(rope.len(), 2);
    assert_ne!(rope_positions(&copy)[1], before[1]);
}

#[test]
fn clone_of_a_moving_rope_is_at_rest_with_links_as_long_as_they_are() {
    let mut rope = Rope::new(V2::from_units(0, 0));
    rope.add(V2::from_units(0, -300));
    rope.jiggle(&vec![(65_535, 32_768)]);
    assert_eq!(rope.points()[1].pos, V2::new(32_767, -19_660_800));
    assert_eq!(rope.points()[1].prev_pos, V2::from_units(0, -300));
    let copy = rope.clone();
    assert_eq!(copy.points()[1].pos, V2::new(32_767, -19_660_800));
    assert_eq!(copy.points()[1].prev_pos, V2::new(32_767, -19_660_800));
    assert_eq!(copy.constraints()[0].length, 19_660_827);
    assert_eq!(rope.constraints()[0].length, 19_660_800);
}

#[test]
fn jiggle_moves_every_point_but_the_root_by_its_sample() {
    let mut rope = Rope::new(V2::from_units(0, 0));
    rope.add(V2::from_units(0, -300));
    rope.add(V2::from_units(10, 300));
    rope.jiggle(&vec![(0, 65_535), (40_000, 12_345)]);
    assert_eq!(rope.points()[0], Point::locked(V2::from_units(0, 0)));
    assert_eq!(rope.points()[1].pos, V2::new(-32_768, -19_628_033));
    assert_eq!(rope.points()[1].prev_pos, V2::from_units(0, -300));
    assert_eq!(rope.points()[2].pos, V2::new(662_592, 19_640_377));
    assert_eq!(rope.points()[2].prev_pos, V2::from_units(10, 300));
    assert_eq!(rope.constraints()[0].length, 300 * UNIT);
}

#[test]
fn jiggle_with_the_middle_sample_moves_nothing() {
    let mut rope = Rope::new(V2::from_units(0, 0));
    rope.add(V2::from_units(5, 5));
    rope.jiggle(&vec![(32_768, 32_768)]);
    assert_eq!(rope.points()[1], Point::new(V2::from_units(5, 5)));
}

#[test]
fn jiggle_stays_within_half_a_unit() {
    let mut rope = Rope::new(V2::from_units(0, 0));
    let mut samples = Vec::new();
    for i in 0..64u16 {
        rope.add(V2::from_units(i as i32, -(i as i32)));
        samples.push((i.wrapping_mul(1021), i.wrapping_mul(4099).wrapping_add(77)));
    }
    let before = rope_positions(&rope);
    rope.jiggle(&samples);
    let after = rope_positions(&rope);
    assert_eq!(after[0], before[0]);
    for i in 1..after.len() {
        assert!((after[i].x - before[i].x).abs() <= UNIT / 2);
        assert!((after[i].y - before[i].y).abs() <= UNIT / 2);
    }
}

#[test]
fn jiggle_stops_at_the_edge_of_the_world() {
    let mut rope = Rope::new(V2::new(0, 0));
    rope.add(V2::new(WORLD_LIMIT, -WORLD_LIMIT));
    rope.jiggle(&vec![(65_535, 0)]);
    assert_eq!(rope.tail(), V2::new(WORLD_LIMIT, -WORLD_LIMIT));
}

#[test]
fn acceleration_for_a_tick() {
    assert_eq!(accel_for(V2::new(0, 65_536_000), 10_000), V2::new(0, 6_553));
    assert_eq!(accel_for(V2::new(0, 65_536_000), 16_667), V2::new(0, 18_205));
    assert_eq!(accel_for(V2::new(46_340_950, 46_340_950), 16_667), V2::new(12_873, 12_873));
    assert_eq!(accel_for(V2::new(0, -65_536_000), 50_000), V2::new(0, -163_840));
    assert_eq!(accel_for(V2::new(0, 65_536_000), 0), V2::new(0, 0));
    assert_eq!(accel_for(V2::new(0, 0), 12_345), V2::new(0, 0));
}

#[test]
fn acceleration_stays_in_the_world() {
    assert_eq!(accel_for(V2::new(5, 0), u32::MAX), V2::new(92_233_720, 0));
    assert_eq!(
        accel_for(V2::new(WORLD_LIMIT, -WORLD_LIMIT), u32::MAX),
        V2::new(WORLD_LIMIT, -WORLD_LIMIT)
    );
    assert_eq!(
        accel_for(V2::new(i64::MAX, i64::MIN), u32::MAX),
        V2::new(WORLD_LIMIT, -WORLD_LIMIT)
    );
}

#[test]
fn simulate_one_hanging_link() {
    let mut rope = Rope::new(V2::from_units(0, 0));
    rope.add(V2::from_units(0, -300));
    rope.simulate(V2::new(0, 65_536_000), 10_000, 15);
    assert_eq!(rope.points()[0], Point::locked(V2::from_units(0, 0)));
    assert_eq!(rope.points()[1].pos, V2::new(0, -19_660_799));
    assert_eq!(rope.points()[1].prev_pos, V2::new(0, -19_660_800));
    rope.simulate(V2::new(0, 65_536_000), 10_000, 15);
    assert_eq!(rope.points()[1].pos, V2::new(0, -19_660_799));
    assert_eq!(rope.points()[1].prev_pos, V2::new(0, -19_660_799));
}

#[test]
fn simulate_without_passes_only_integrates() {
    let mut rope = Rope::new(V2::from_units(0, 0));
    rope.add(V2::from_units(0, -300));
    rope.simulate(V2::new(0, 65_536_000), 10_000, 0);
    assert_eq!(rope.points()[1].pos, V2::new(0, -19_660_800 + 6_553));
    assert_eq!(rope.points()[1].prev_pos, V2::from_units(0, -300));
}

#[test]
fn simulate_advances_a_point_between_two_links_twice() {
    let mut rope = Rope::new(V2::from_units(0, 0));
    rope.add(V2::from_units(0, -300));
    rope.add(V2::from_units(10, 300));
    rope.simulate(V2::new(0, 65_536_000), 16_667, 0);
    assert_eq!(rope.points()[0], Point::locked(V2::from_units(0, 0)));
    assert_eq!(rope.points()[1].pos, V2::new(0, -19_660_800 + 3 * 18_205));
    assert_eq!(rope.points()[1].prev_pos, V2::new(0, -19_660_800 + 18_205));
    assert_eq!(rope.points()[2].pos, V2::new(655_360, 19_660_800 + 18_205));
    assert_eq!(rope.points()[2].prev_pos, V2::from_units(10, 300));
}

#[test]
fn simulate_two_links() {
    let mut rope = Rope::new(V2::from_units(0, 0));
    rope.add(V2::from_units(0, -300));
    rope.add(V2::from_units(10, 300));
    rope.simulate(V2::new(0, 65_536_000), 16_667, 15);
    assert_eq!(rope.points()[0], Point::locked(V2::from_units(0, 0)));
    assert_eq!(rope.points()[1].pos, V2::new(291, -19_660_395));
    assert_eq!(rope.points()[1].prev_pos, V2::new(0, -19_642_595));
    assert_eq!(rope.points()[2].pos, V2::new(655_069, 19_661_216));
    assert_eq!(rope.points()[2].prev_pos, V2::new(655_360, 19_660_800));
}

#[test]
fn simulate_a_hundred_ticks() {
    let mut rope = Rope::new(V2::from_units(0, 0));
    rope.add(V2::from_units(0, -300));
    rope.add(V2::from_units(10, 300));
    rope.jiggle(&vec![(0, 65_535), (40_000, 12_345)]);
    for _ in 0..100 {
        rope.simulate(V2::new(0, 65_536_000), 16_667, 15);
    }
    assert_eq!(rope.points()[0], Point::locked(V2::from_units(0, 0)));
    assert_eq!(rope.points()[1].pos, V2::new(16_451_162, 10_765_994));
    assert_eq!(rope.points()[1].prev_pos, V2::new(16_236_554, 11_154_144));
    assert_eq!(rope.points()[2].pos, V2::new(6_816_946, 48_894_719));
    assert_eq!(rope.points()[2].prev_pos, V2::new(6_763_983, 49_740_631));
    assert_eq!(rope.points()[0].pos.distance(&rope.points()[1].pos), 19_660_807);
    assert_eq!(rope.points()[1].pos.distance(&rope.points()[2].pos), 39_327_061);
}

#[test]
fn rope_in_equilibrium_stays_as_it_is_without_gravity() {
    let mut rope = Rope::new(V2::from_units(0, 0));
    rope.add(V2::from_units(0, -300));
    rope.add(V2::from_units(10, 300));
    rope.add(V2::new(123_457, -98_765));
    let before = rope.points().clone();
    for dt in [0u32, 1, 16_667, 50_000, u32::MAX] {
        rope.simulate(V2::new(0, 0), dt, 15);
        assert_eq!(rope.points(), &before);
    }
    rope.simulate(V2::new(0, 65_536_000), 0, 15);
    assert_eq!(rope.points(), &before);
    for link in rope.constraints().iter() {
        let a = rope.points()[link.point_a].pos;
        let b = rope.points()[link.point_b].pos;
        assert_eq!(a.distance(&b), link.length);
    }
}

#[test]
fn two_point_rope_in_equilibrium_keeps_its_length() {
    let mut rope = Rope::new(V2::from_units(0, 0));
    rope.add(V2::from_units(120, -50));
    rope.simulate(V2::new(0, 0), 16_667, 15);
    assert_eq!(rope.points()[0].pos.distance(&rope.points()[1].pos), rope.constraints()[0].length);
    assert_eq!(rope.constraints()[0].length, 130 * UNIT);
    assert_eq!(rope.tail(), V2::from_units(120, -50));
}

#[test]
fn root_stays_where_it_was_built() {
    let root = V2::new(123_456_789, -987_654_321);
    let mut rope = Rope::new(root);
    rope.add(V2::from_units(1_900, -15_000));
    rope.add(V2::from_units(1_800, -15_100));
    rope.add(V2::from_units(2_000, -15_050));
    rope.jiggle(&vec![(1, 2), (3, 4), (65_535, 0)]);
    for tick in 0..500u32 {
        rope.simulate(V2::new(46_340_950, 46_340_950), 1_000 + 97 * tick, 15);
        assert_eq!(rope.root(), root);
        assert_eq!(rope.points()[0], Point::locked(root));
    }
    assert_eq!(rope.len(), 3);
}

#[test]
fn relax_halves_the_excess_of_a_link_with_a_locked_end() {
    let link = Constraint { point_a: 0, point_b: 1, length: 19_660_800 };
    let mut points =
        vec![Point::locked(V2::new(0, 0)), Point::new(V2::new(123_456, -19_660_800 - 5_000_000))];
    let excess = |points: &Vec<Point>| points[0].pos.distance(&points[1].pos) - 19_660_800;
    assert_eq!(excess(&points), 5_000_309);
    let expected = [
        2_500_154, 1_250_078, 625_039, 312_520, 156_260, 78_130, 39_065, 19_533, 9_767, 4_884,
        2_443, 1_222, 612, 307, 154, 78, 40, 21, 11, 6,
    ];
    let mut before = excess(&points);
    for (pass, want) in expected.iter().enumerate() {
        link.relax(&mut points);
        let now = excess(&points);
        assert_eq!(now, *want);
        assert!(before / 2 <= now && now <= before / 2 + 2);
        assert!(now <= (5_000_309 >> (pass + 1)) + 4);
        before = now;
    }
}

#[test]
fn relax_restores_the_length_of_a_link_with_free_ends() {
    let mut seed: u64 = 0x2545_F491_4F6C_DD1D;
    let mut next = move |bound: i64| {
        seed ^= seed << 13;
        seed ^= seed >> 7;
        seed ^= seed << 17;
        (seed % (2 * bound as u64 + 1)) as i64 - bound
    };
    for _ in 0..2_000 {
        let a = V2::new(next(1_000_000_000), next(1_000_000));
        let b = V2::new(next(1_000), next(1_000_000_000_000));
        let apart = a.distance(&b);
        let length = (next(apart / 2 + 1) + apart / 2).clamp(0, apart);
        let link = Constraint { point_a: 0, point_b: 1, length };
        let mut free = vec![Point::new(a), Point::new(b)];
        link.relax(&mut free);
        let now = free[0].pos.distance(&free[1].pos) - length;
        assert!(0 <= now && now <= 3);
        let mut held = vec![Point::locked(a), Point::new(b)];
        link.relax(&mut held);
        let now = held[0].pos.distance(&held[1].pos) - length;
        let excess = apart - length;
        assert!(excess / 2 <= now && now <= excess / 2 + 2);
        assert_eq!(held[0].pos, a);
    }
}

#[test]
fn tick_brings_a_hanging_link_back_to_its_length() {
    let mut rope = Rope::new(V2::from_units(0, 0));
    rope.add(V2::from_units(0, 300));
    for _ in 0..200 {
        rope.simulate(V2::new(0, 65_536_000), 16_667, 15);
        let apart = rope.points()[0].pos.distance(&rope.points()[1].pos);
        let excess = apart - rope.constraints()[0].length;
        assert!(0 <= excess && excess <= 4 + (2 * 18_205) / 32_768);
    }
}
