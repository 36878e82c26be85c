use genetic_algo::perception::{closest, point_in_cone, random_point_in_cone, within_vision_cone, Point};
use rand::SeedableRng;
use rand_chacha::ChaCha12Rng;

const ORIGIN: Point = Point { x: 0, y: 0 };
const UP: Point = Point { x: 0, y: 1_000 };

#[test]
fn target_on_heading_axis_within_range_is_seen() {
    assert!(within_vision_cone(ORIGIN, UP, Point { x: 0, y: 50_000 }, 100_000, 90_000));
    assert!(within_vision_cone(ORIGIN, UP, Point { x: 0, y: 100_000 }, 100_000, 10_000));
    assert!(within_vision_cone(ORIGIN, UP, ORIGIN, 100_000, 10_000));
}

#[test]
fn target_beyond_range_is_not_seen() {
    assert!(!within_vision_cone(ORIGIN, UP, Point { x: 0, y: 150_000 }, 100_000, 180_000));
    assert!(!within_vision_cone(ORIGIN, UP, Point { x: 80_000, y: 80_000 }, 100_000, 180_000));
}

#[test]
fn target_outside_angle_is_not_seen() {
    assert!(!within_vision_cone(ORIGIN, UP, Point { x: 50_000, y: 0 }, 100_000, 90_000));
    assert!(!within_vision_cone(ORIGIN, UP, Point { x: 0, y: -50_000 }, 100_000, 180_000));
    assert!(!within_vision_cone(ORIGIN, UP, Point { x: -40_000, y: 30_000 }, 100_000, 90_000));
    assert!(within_vision_cone(ORIGIN, UP, Point { x: -30_000, y: 30_000 }, 100_000, 90_000));
    assert!(within_vision_cone(ORIGIN, UP, Point { x: 50_000, y: 0 }, 100_000, 180_000));
}

#[test]
fn closest_prefers_first_of_equals() {
    let c = vec![Point { x: 10, y: 0 }, Point { x: 5, y: 0 }, Point { x: -5, y: 0 }];
    assert_eq!(closest(&c, ORIGIN), Some(1));
    assert_eq!(closest(&vec![], ORIGIN), None);
    assert_eq!(closest(&c, Point { x: 9, y: 0 }), Some(0));
}

#[test]
fn point_in_cone_exact_values() {
    assert_eq!(point_in_cone(ORIGIN, UP, 10_000, 0, 400_000, 300_000), Point { x: 0, y: 10_000 });
    assert_eq!(point_in_cone(ORIGIN, UP, 10_000, 90_000, 400_000, 300_000), Point { x: -10_000, y: 0 });
    assert_eq!(point_in_cone(ORIGIN, UP, 10_000, -90_000, 400_000, 300_000), Point { x: 10_000, y: 0 });
    assert_eq!(point_in_cone(ORIGIN, UP, 500_000, 0, 400_000, 300_000), Point { x: 0, y: 300_000 });
    assert_eq!(point_in_cone(Point { x: 1_000, y: 2_000 }, Point { x: 1_000, y: 0 }, 4_000, 30_000, 400_000, 300_000), Point { x: 4_459, y: 4_002 });
}

#[test]
fn random_point_in_cone_is_reproducible() {
    let mut a = ChaCha12Rng::seed_from_u64(2024);
    let mut b = ChaCha12Rng::seed_from_u64(2024);
    for _ in 0..20 {
        let p = random_point_in_cone(Point { x: 5_000, y: -5_000 }, UP, 200_000, 120_000, 400_000, 300_000, &mut a);
        let q = random_point_in_cone(Point { x: 5_000, y: -5_000 }, UP, 200_000, 120_000, 400_000, 300_000, &mut b);
        assert_eq!(p, q);
    }
}

#[test]
fn random_point_lies_in_cone_and_world() {
    let mut rng = ChaCha12Rng::seed_from_u64(8);
    let mut distinct = std::collections::HashSet::new();
    for _ in 0..100 {
        let p = random_point_in_cone(ORIGIN, UP, 100_000, 90_000, 400_000, 300_000, &mut rng);
        assert!(p.y >= 0);
        assert!(p.x.abs() <= p.y + 1_000);
        assert!(p.x * p.x + p.y * p.y <= 100_000 * 100_000);
        distinct.insert((p.x, p.y));
    }
    assert!(distinct.len() > 1);
}
