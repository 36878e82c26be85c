use genetic_algo::cell::{argmax, Action, Cell, MAX_LEVEL};
use genetic_algo::perception::Point;
use rand::SeedableRng;
use rand_chacha::ChaCha12Rng;

fn cell_at(id: u64, x: i64, y: i64, seed: u64) -> Cell {
    let mut rng = ChaCha12Rng::seed_from_u64(seed);
    Cell::new(id, Point { x, y }, &mut rng)
}

#[test]
fn new_cell_starts_fresh() {
    let c = cell_at(7, 1_000, -2_000, 1);
    assert_eq!(c.id, 7);
    assert_eq!(c.position, Point { x: 1_000, y: -2_000 });
    assert_eq!((c.health, c.energy, c.hunger, c.age), (MAX_LEVEL, MAX_LEVEL / 2, 0, 0));
    assert_eq!(c.generation, 0);
    assert!(!c.mature);
    assert_eq!(c.action, Action::Idle);
    assert_eq!(c.brain.weights_input_hidden.len(), 90);
}

#[test]
fn argmax_takes_first_largest() {
    assert_eq!(argmax(&vec![3, 7, 7, 1]), 1);
    assert_eq!(argmax(&vec![5]), 0);
    assert_eq!(argmax(&vec![1, 2, 3, 4]), 3);
}

#[test]
fn decision_inputs_exact_values() {
    let mut c = cell_at(1, 0, 0, 2);
    c.hunger = 50_000_000;
    c.health = 80_000_000;
    c.energy = 20_000_000;
    c.genes.hunger_weight = 1_000;
    c.genes.energy_weight = 2_000;
    c.genes.reproduction_urge = 800;
    c.genes.reproduction_weight = 1_500;
    c.genes.metabolism = 2_500;
    c.genes.random_weight = 1_000;
    c.offspring_count = 1;
    assert_eq!(c.decision_inputs(50), vec![500, 800, 400, 1_000, 0, 1_000, 600, 25, 50]);
}

#[test]
fn immature_cell_never_seeks_mate() {
    for seed in 0..40 {
        let mut c = cell_at(1, 0, 0, seed);
        let mut rng = ChaCha12Rng::seed_from_u64(seed + 1000);
        c.process_brain(&mut rng);
        assert_ne!(c.action, Action::SeekMate);
    }
}

#[test]
fn eating_adds_energy_and_removes_hunger() {
    let mut c = cell_at(1, 0, 0, 3);
    c.energy = 95_000_000;
    c.hunger = 10_000_000;
    c.eat();
    assert_eq!((c.energy, c.hunger), (MAX_LEVEL, 0));
    assert_eq!(c.fitness, 15_000);
    c.energy = 40_000_000;
    c.hunger = 60_000_000;
    c.eat();
    assert_eq!((c.energy, c.hunger), (55_000_000, 45_000_000));
}

#[test]
fn idling_regenerates() {
    let mut c = cell_at(1, 0, 0, 4);
    c.energy = 20_000_000;
    c.hunger = 10_000_000;
    c.health = 50_000_000;
    c.target_location = Some(Point { x: 5, y: 5 });
    c.idle();
    assert_eq!((c.energy, c.health), (21_500_000, 50_100_000));
    assert_eq!(c.target_location, None);
    c.hunger = 80_000_000;
    c.idle();
    assert_eq!((c.energy, c.health), (23_000_000, 50_100_000));
}

#[test]
fn metabolism_drains_and_starves() {
    let mut c = cell_at(1, 0, 0, 5);
    c.genes.metabolism = 5_000;
    c.hunger = 98_000_000;
    c.energy = 3_000_000;
    c.health = 1_000_000;
    c.reproduction_cooldown = 5_000;
    c.process_metabolism(1_000);
    assert_eq!((c.hunger, c.energy, c.health, c.reproduction_cooldown), (MAX_LEVEL, 0, 950_000, 4_000));
    c.hunger = 0;
    c.energy = 50_000_000;
    c.process_metabolism(500);
    assert_eq!((c.hunger, c.energy, c.health), (2_500_000, 47_500_000, 950_000));
}

#[test]
fn starving_cell_loses_health_at_every_short_step() {
    let mut c = cell_at(1, 0, 0, 5);
    c.genes.metabolism = 500;
    c.hunger = MAX_LEVEL;
    c.health = 2_000;
    c.process_metabolism(16);
    assert_eq!(c.health, 1_200);
    c.process_metabolism(16);
    assert_eq!(c.health, 400);
    c.process_metabolism(16);
    assert_eq!(c.health, 0);
    c.hunger = MAX_LEVEL;
    c.health = 10;
    c.process_metabolism(1);
    assert_eq!(c.health, 0);
}

#[test]
fn movement_steps_toward_target() {
    let mut c = cell_at(1, 0, 0, 6);
    c.genes.movement_speed = 20_000;
    c.mature = true;
    c.energy = 50_000_000;
    c.target_location = Some(Point { x: 3_000, y: 4_000 });
    c.movement(400_000, 300_000, 100);
    assert_eq!(c.position, Point { x: 1_200, y: 1_600 });
    assert_eq!(c.heading, Point { x: 600, y: 800 });
    assert!(c.is_moving);
    // A full step of 20 units passes the target, along the same line.
    c.movement(400_000, 300_000, 1_000);
    assert_eq!(c.position, Point { x: 13_200, y: 17_600 });
    // Against the world's edge the step is held inside.
    c.target_location = Some(Point { x: 13_200, y: 300_000 });
    c.movement(400_000, 300_000, 1_000_000);
    assert_eq!(c.position, Point { x: 13_200, y: 300_000 });
}

#[test]
fn movement_without_target_changes_nothing() {
    let mut c = cell_at(1, 5_000, 6_000, 6);
    c.is_moving = true;
    c.movement(400_000, 300_000, 100);
    assert_eq!(c.position, Point { x: 5_000, y: 6_000 });
    assert_eq!(c.heading, Point { x: 0, y: 1_000 });
    assert!(c.is_moving);
}

#[test]
fn tired_or_young_cells_move_slower() {
    let mut c = cell_at(1, 0, 0, 6);
    c.genes.movement_speed = 20_000;
    c.mature = false;
    c.energy = 10_000_000;
    c.target_location = Some(Point { x: 0, y: 100_000 });
    c.movement(400_000, 300_000, 1_000);
    assert_eq!(c.position, Point { x: 0, y: 7_500 });
}

#[test]
fn growing_older_brings_maturity() {
    let mut c = cell_at(1, 0, 0, 7);
    c.genes.mature_age = 2;
    c.grow_older();
    assert_eq!(c.age, 1);
    assert!(!c.mature);
    c.grow_older();
    assert_eq!(c.age, 2);
    assert!(c.mature);
    c.age = i64::MAX;
    c.grow_older();
    assert_eq!(c.age, i64::MAX);
    c.fitness = i64::MAX - 10;
    c.eat();
    assert_eq!(c.fitness, i64::MAX);
}

#[test]
fn reproduction_charges_parent_and_resets_child() {
    let mut a = cell_at(3, 4_000, 5_000, 8);
    let mut b = cell_at(9, 0, 0, 9);
    a.energy = 80_000_000;
    a.genes.birth_energy_loss = 30_000_000;
    a.generation = 2;
    b.generation = 5;
    a.mature = true;
    let mut rng = ChaCha12Rng::seed_from_u64(10);
    let child = a.create_offspring(&b, 42, &mut rng, 100);
    assert_eq!(a.energy, 50_000_000);
    assert_eq!(a.offspring_count, 1);
    assert_eq!(a.fitness, 50_000);
    assert_eq!(child.id, 42);
    assert_eq!(child.parents, Some((3, 9)));
    assert_eq!(child.generation, 6);
    assert_eq!(child.position, Point { x: 4_000, y: 5_000 });
    assert_eq!((child.health, child.energy, child.hunger, child.age), (MAX_LEVEL, MAX_LEVEL, 0, 0));
    assert!(!child.mature);
    assert_eq!(child.offspring_count, 0);
    assert_eq!(child.brain.weights_input_hidden.len(), 90);
}

#[test]
fn vision_cone_of_a_cell_follows_its_heading() {
    let mut c = cell_at(1, 0, 0, 14);
    c.genes.vision_range = 100_000;
    c.genes.vision_angle = 90_000;
    c.heading = Point { x: 1_000, y: 0 };
    assert!(c.is_within_vision_cone(Point { x: 50_000, y: 0 }));
    assert!(!c.is_within_vision_cone(Point { x: 0, y: 50_000 }));
    assert!(!c.is_within_vision_cone(Point { x: 150_000, y: 0 }));
}

#[test]
fn step_toward_a_very_close_target_is_no_longer_than_speed_times_dt() {
    let mut c = cell_at(1, 0, 0, 15);
    c.genes.movement_speed = 15_000;
    c.mature = true;
    c.energy = 50_000_000;
    c.target_location = Some(Point { x: 1, y: 1 });
    c.movement(400_000, 300_000, 1_000);
    assert_eq!(c.position, Point { x: 7_500, y: 7_500 });
    assert!(c.position.x * c.position.x + c.position.y * c.position.y <= 15_000 * 15_000);
    assert_eq!(c.heading, Point { x: 706, y: 706 });
    assert!(c.heading.x * c.heading.x + c.heading.y * c.heading.y <= 1_000 * 1_000);
    assert!(c.heading.x * c.heading.x + c.heading.y * c.heading.y >= 996 * 996);
}

#[test]
fn wander_target_stays_within_vision_range() {
    let mut rng = ChaCha12Rng::seed_from_u64(16);
    let mut c = cell_at(1, 0, 0, 16);
    c.genes.vision_range = 150_000;
    c.heading = Point { x: 707, y: 707 };
    for _ in 0..100 {
        c.random_target(400_000, 300_000, &mut rng);
        let t = c.target_location.unwrap();
        assert!(t.x * t.x + t.y * t.y <= 150_000 * 150_000);
    }
}
