use chaos_theory::fixed::{UNIT, WORLD_LIMIT};
use chaos_theory::vector::V2;
use chaos_theory::zone::{Circle, Target};

#[test]
fn circle_from_units() {
    let c = Circle::from_units(550, -500, 300);
    assert_eq!(c.pos, V2::from_units(550, -500));
    assert_eq!(c.radius, 300 * UNIT);
    assert!(c.is_wf());
}

#[test]
fn circle_needs_a_positive_radius() {
    assert!(!Circle { pos: V2::new(0, 0), radius: 0 }.is_wf());
    assert!(!Circle { pos: V2::new(0, 0), radius: -1 }.is_wf());
    assert!(Circle { pos: V2::new(0, 0), radius: 1 }.is_wf());
}

#[test]
fn circle_must_lie_in_the_world() {
    assert!(Circle { pos: V2::new(WORLD_LIMIT - 10, 0), radius: 10 }.is_wf());
    assert!(!Circle { pos: V2::new(WORLD_LIMIT - 10, 0), radius: 11 }.is_wf());
    assert!(!Circle { pos: V2::new(0, -WORLD_LIMIT), radius: 1 }.is_wf());
    assert!(!Circle { pos: V2::new(i64::MAX, i64::MAX), radius: i64::MAX }.is_wf());
}

#[test]
fn extend_adds_to_the_radius() {
    let c = Circle::from_units(10, 20, 50);
    let wide = c.extend(250 * UNIT);
    assert_eq!(wide.pos, c.pos);
    assert_eq!(wide.radius, 300 * UNIT);
    assert_eq!(c.extend(0), c);
}

#[test]
fn contains_points_within_the_radius() {
    let c = Circle::from_units(0, 0, 50);
    assert!(c.contains(V2::from_units(0, 0)));
    assert!(c.contains(V2::from_units(30, 40)));
    assert!(c.contains(V2::from_units(-50, 0)));
    assert!(!c.contains(V2::from_units(36, 36)));
    assert!(!c.contains(V2::from_units(0, 51)));
}

#[test]
fn contains_the_boundary_and_nothing_beyond() {
    let c = Circle::from_units(0, 0, 50);
    assert!(c.contains(V2::new(50 * UNIT, 0)));
    assert!(!c.contains(V2::new(50 * UNIT + 1, 0)));
    assert!(!c.contains(V2::new(50 * UNIT, 1)));
    assert!(c.contains(V2::new(50 * UNIT - 1, 1)));
}

#[test]
fn contains_far_points_of_the_world() {
    let c = Circle::from_units(0, 0, 50);
    assert!(!c.contains(V2::new(WORLD_LIMIT, WORLD_LIMIT)));
    assert!(!c.contains(V2::new(-WORLD_LIMIT, WORLD_LIMIT)));
    let whole = Circle { pos: V2::new(0, 0), radius: WORLD_LIMIT };
    assert!(whole.contains(V2::new(WORLD_LIMIT, 0)));
    assert!(!whole.contains(V2::new(WORLD_LIMIT, WORLD_LIMIT)));
}

#[test]
fn project_along_an_axis_is_exact() {
    let c = Circle::from_units(0, 0, 50);
    assert_eq!(c.project(V2::from_units(100, 0)), V2::from_units(50, 0));
    assert_eq!(c.project(V2::from_units(0, -100)), V2::from_units(0, -50));
    assert_eq!(c.project(V2::from_units(-7, 0)), V2::from_units(-50, 0));
}

#[test]
fn project_along_a_pythagorean_direction_is_exact() {
    let c = Circle::from_units(0, 0, 50);
    assert_eq!(c.project(V2::from_units(3, -4)), V2::from_units(30, -40));
    assert_eq!(c.project(V2::from_units(-30, 40)), V2::from_units(-30, 40));
}

#[test]
fn project_rounds_toward_the_center() {
    let c = Circle::from_units(0, 0, 50);
    assert_eq!(c.project(V2::from_units(100, 100)), V2::new(2_317_047, 2_317_047));
    assert_eq!(c.project(V2::from_units(-300, -1)), V2::new(-3_276_781, -10_922));
}

#[test]
fn project_from_a_center_that_is_not_the_origin() {
    let c = Circle::from_units(550, -500, 300);
    assert_eq!(c.project(V2::from_units(550, -300)), V2::from_units(550, -200));
    assert_eq!(c.project(V2::from_units(400, -400)), V2::new(19_686_027, -21_862_151));
    assert_eq!(c.project(V2::from_units(1000, 1000)), V2::new(41_694_289, -13_936_370));
}

#[test]
fn project_sends_the_center_to_the_right() {
    let c = Circle::from_units(10, 20, 50);
    assert_eq!(c.project(V2::from_units(10, 20)), V2::from_units(60, 20));
    assert_eq!(c.project(V2::new(10 * UNIT + 1, 20 * UNIT)), V2::from_units(60, 20));
}

#[test]
fn projection_of_an_outside_point_is_inside_at_the_boundary() {
    let zones = [
        Circle::from_units(0, 0, 50),
        Circle::from_units(550, -500, 300),
        Circle { pos: V2::new(17, -5), radius: 1 },
        Circle { pos: V2::new(-1000, 999), radius: 12_345 },
    ];
    let points = [
        V2::from_units(100, 100),
        V2::from_units(-1000, 3),
        V2::from_units(7, -2000),
        V2::new(WORLD_LIMIT, WORLD_LIMIT),
        V2::new(-WORLD_LIMIT, 12),
        V2::new(3_276_801, 0),
    ];
    for zone in zones.iter() {
        for point in points.iter() {
            assert!(!zone.contains(*point));
            let q = zone.project(*point);
            assert!(zone.contains(q));
            let d = zone.pos.distance(&q);
            assert!(d <= zone.radius);
            assert!(d >= zone.radius - 3);
        }
    }
}

#[test]
fn projection_of_an_inside_point_is_inside() {
    let zone = Circle::from_units(0, 0, 50);
    let points = [V2::new(1, 1), V2::new(-1, 0), V2::from_units(10, 10), V2::from_units(-49, 1)];
    for point in points.iter() {
        assert!(zone.contains(*point));
        assert!(zone.contains(zone.project(*point)));
    }
    assert_eq!(zone.project(V2::new(1, 1)), V2::from_units(25, 25));
}

#[test]
fn target_from_units() {
    let t = Target::from_units(0, 0, 50, 250);
    assert_eq!(t.zone, Circle::from_units(0, 0, 50));
    assert_eq!(t.closed, 250 * UNIT);
    assert!(t.is_wf());
    assert_eq!(t.closed_zone(), Circle::from_units(0, 0, 300));
}

#[test]
fn target_needs_a_ring_that_fits() {
    let zone = Circle::from_units(0, 0, 50);
    assert!(Target { zone, closed: 0 }.is_wf());
    assert!(!Target { zone, closed: -1 }.is_wf());
    assert!(Target { zone, closed: WORLD_LIMIT - 50 * UNIT }.is_wf());
    assert!(!Target { zone, closed: WORLD_LIMIT - 50 * UNIT + 1 }.is_wf());
    assert!(!Target { zone, closed: i64::MAX }.is_wf());
    assert!(!Target { zone: Circle { pos: V2::new(0, 0), radius: 0 }, closed: 5 }.is_wf());
}

#[test]
fn projection_of_any_point_is_near_the_boundary() {
    let zone = Circle::from_units(550, -500, 300);
    let mut seed: u64 = 0x9E37_79B9_7F4A_7C15;
    let mut next = move |bound: i64| {
        seed ^= seed << 13;
        seed ^= seed >> 7;
        seed ^= seed << 17;
        (seed % (2 * bound as u64 + 1)) as i64 - bound
    };
    for round in 0..3_000 {
        let reach = [3, 1_000, 65_536, 20_000_000, 1_000_000_000][round % 5];
        let pos = V2::new(zone.pos.x + next(reach), zone.pos.y + next(reach));
        if pos == zone.pos {
            continue;
        }
        let q = zone.project(pos);
        assert!(zone.contains(q));
        let far = pos.distance_squared(&zone.pos);
        let floor = pos.distance(&zone.pos);
        let n = if (floor as u128) * (floor as u128) == far { floor } else { floor + 1 };
        let shortfall = (zone.radius + n - 1) / n;
        let d = zone.pos.distance(&q);
        assert!(zone.radius - 2 - shortfall <= d && d <= zone.radius);
    }
}
