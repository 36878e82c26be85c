use genetic_algo::genes::{blend, blend_colors, blend_with, Color, Genes, SPEED_MAX, SPEED_MIN, WEIGHT_MAX};
use rand::SeedableRng;
use rand_chacha::ChaCha12Rng;

fn extreme(high: bool) -> Genes {
    let pick = |lo: i64, hi: i64| if high { hi } else { lo };
    Genes {
        movement_speed: pick(15_000, 100_000),
        vision_range: pick(100_000, 400_000),
        vision_angle: pick(10_000, 180_000),
        metabolism: pick(500, 5_000),
        color: Color { red: pick(0, 1_000), green: pick(0, 1_000), blue: pick(0, 1_000) },
        mature_age: pick(1, 30),
        birth_energy_loss: pick(10_000_000, 60_000_000),
        reproduction_urge: pick(0, 1_000),
        hunger_weight: pick(0, 2_000),
        reproduction_weight: pick(0, 2_000),
        energy_weight: pick(0, 2_000),
        random_weight: pick(0, 2_000),
    }
}

fn check_bounds(g: &Genes) {
    assert!(g.movement_speed >= 15_000 && g.movement_speed <= 100_000);
    assert!(g.vision_range >= 100_000 && g.vision_range <= 400_000);
    assert!(g.vision_angle >= 10_000 && g.vision_angle <= 180_000);
    assert!(g.metabolism >= 500 && g.metabolism <= 5_000);
    assert!(g.mature_age >= 1 && g.mature_age <= 30);
    assert!(g.birth_energy_loss >= 10_000_000 && g.birth_energy_loss <= 60_000_000);
    assert!(g.reproduction_urge >= 0 && g.reproduction_urge <= 1_000);
    for w in [g.hunger_weight, g.reproduction_weight, g.energy_weight, g.random_weight] {
        assert!(w >= 0 && w <= 2_000);
    }
    for c in [g.color.red, g.color.green, g.color.blue] {
        assert!(c >= 0 && c <= 1_000);
    }
}

#[test]
fn blend_with_exact_values() {
    assert_eq!(blend_with(10_000, 20_000, 0), 15_000);
    assert_eq!(blend_with(10_000, 20_000, 100), 16_500);
    assert_eq!(blend_with(10_000, 20_000, -100), 13_500);
    assert_eq!(blend_with(10_000, 20_000, -1_000), 0);
    assert_eq!(blend_with(3, 4, 0), 3);
}

#[test]
fn blend_stays_within_rate() {
    let mut rng = ChaCha12Rng::seed_from_u64(1);
    let mut seen = std::collections::HashSet::new();
    for _ in 0..200 {
        let v = blend(10_000, 20_000, &mut rng, 100);
        assert!(v >= 13_500 && v <= 16_500);
        seen.insert(v);
    }
    assert!(seen.len() > 1);
    assert_eq!(blend(10_000, 20_000, &mut rng, 0), 15_000);
}

#[test]
fn combine_exact_genome() {
    let a = extreme(false);
    let b = extreme(true);
    let mut u = vec![0; 11];
    u.extend([1_000, 900, 1_100]);
    let g = Genes::combine(&a, &b, &u, 0);
    assert_eq!(g.movement_speed, 57_500);
    assert_eq!(g.vision_range, 250_000);
    assert_eq!(g.vision_angle, 95_000);
    assert_eq!(g.metabolism, 2_750);
    assert_eq!(g.mature_age, 15);
    assert_eq!(g.hunger_weight, 1_000);
    assert_eq!(g.color, Color { red: 500, green: 450, blue: 550 });
}

#[test]
fn combine_clamps_extremes() {
    let hi = extreme(true);
    let lo = extreme(false);
    let mut up = vec![1_000; 11];
    up.extend([1_100, 1_100, 1_100]);
    let g = Genes::combine(&hi, &hi, &up, 1_000);
    assert_eq!(g.movement_speed, SPEED_MAX);
    assert_eq!(g.hunger_weight, WEIGHT_MAX);
    assert_eq!(g.color.red, 1_000);
    let mut down = vec![-1_000; 11];
    down.extend([900, 900, 900]);
    let g = Genes::combine(&lo, &lo, &down, 1_000);
    assert_eq!(g.movement_speed, SPEED_MIN);
    assert_eq!(g.mature_age, 1);
    assert_eq!(g.color.red, 0);
}

#[test]
fn inherited_genes_stay_within_bounds() {
    for seed in 0..50 {
        let mut rng = ChaCha12Rng::seed_from_u64(seed);
        for (a, b) in [(extreme(true), extreme(true)), (extreme(false), extreme(false)), (extreme(true), extreme(false))] {
            let g = Genes::inherit(&a, &b, &mut rng, 1_000);
            check_bounds(&g);
        }
    }
}

#[test]
fn random_genes_stay_within_bounds() {
    let mut rng = ChaCha12Rng::seed_from_u64(77);
    for _ in 0..50 {
        check_bounds(&Genes::random(&mut rng));
    }
}

#[test]
fn blended_colors_stay_in_unit_range() {
    let mut rng = ChaCha12Rng::seed_from_u64(4);
    for _ in 0..100 {
        let c = blend_colors(Color { red: 1_000, green: 0, blue: 500 }, Color { red: 1_000, green: 0, blue: 300 }, &mut rng);
        assert!(c.red >= 900 && c.red <= 1_000);
        assert_eq!(c.green, 0);
        assert!(c.blue >= 360 && c.blue <= 440);
    }
}
