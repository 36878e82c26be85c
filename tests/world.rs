use genetic_algo::cell::{Action, Cell, MAX_LEVEL};
use genetic_algo::perception::Point;
use genetic_algo::world::{act, seek_food, Food, GameConfig, Sighting, World};
use rand::SeedableRng;
use rand_chacha::ChaCha12Rng;
use std::collections::HashSet;

fn config() -> GameConfig {
    GameConfig {
        map_width: 800_000,
        map_height: 600_000,
        foods_per_day: 5,
        day_length: 1_000,
        mutation_rate: 100,
        mate_energy: 40_000_000,
    }
}

fn world_with(cells: Vec<Cell>, foods: Vec<Food>, next_id: u64, seed: u64) -> World {
    World {
        cells,
        foods,
        current_day: 1,
        next_id,
        dead_cells: 0,
        day_clock: 0,
        rng: ChaCha12Rng::seed_from_u64(seed),
    }
}

fn trace(w: &World) -> Vec<(u64, i64, i64, i64, i64, i64, Action)> {
    w.cells.iter().map(|c| (c.id, c.position.x, c.position.y, c.health, c.energy, c.hunger, c.action)).collect()
}

#[test]
fn new_world_numbers_cells_from_zero() {
    let w = World::new(&config(), 1, 15, 100);
    assert_eq!(w.cells.len(), 15);
    assert_eq!(w.foods.len(), 100);
    assert_eq!(w.next_id, 15);
    assert_eq!(w.current_day, 1);
    for (k, c) in w.cells.iter().enumerate() {
        assert_eq!(c.id, k as u64);
        assert!(c.position.x >= -400_000 && c.position.x < 400_000);
        assert!(c.position.y >= -300_000 && c.position.y < 300_000);
        assert_eq!((c.generation, c.health, c.energy, c.hunger, c.age), (0, MAX_LEVEL, MAX_LEVEL / 2, 0, 0));
    }
    for f in &w.foods {
        assert!(f.position.x.abs() <= 400_000 && f.position.y.abs() <= 300_000);
    }
}

#[test]
fn same_seed_gives_same_trajectories() {
    let cfg = config();
    let mut a = World::new(&cfg, 99, 15, 100);
    let mut b = World::new(&cfg, 99, 15, 100);
    for _ in 0..300 {
        a.update(&cfg, 16);
        b.update(&cfg, 16);
        assert_eq!(trace(&a), trace(&b));
        assert_eq!(a.foods, b.foods);
    }
    let mut c = World::new(&cfg, 100, 15, 100);
    c.update(&cfg, 16);
    a = World::new(&cfg, 99, 15, 100);
    a.update(&cfg, 16);
    assert_ne!(trace(&a), trace(&c));
}

#[test]
fn levels_stay_in_range_and_ids_stay_unique() {
    let mut cfg = config();
    cfg.mate_energy = 0;
    cfg.day_length = 50;
    let mut w = World::new(&cfg, 5, 20, 100);
    let mut ever: HashSet<u64> = w.cells.iter().map(|c| c.id).collect();
    for step in 0..200 {
        if w.cells.len() > 200 {
            break;
        }
        if step == 100 {
            cfg.map_width = 400_000;
            cfg.foods_per_day = 20;
        }
        let before: HashSet<u64> = w.cells.iter().map(|c| c.id).collect();
        w.update(&cfg, 100);
        let ids: Vec<u64> = w.cells.iter().map(|c| c.id).collect();
        let unique: HashSet<u64> = ids.iter().copied().collect();
        assert_eq!(unique.len(), ids.len());
        for id in &ids {
            if !before.contains(id) {
                assert!(!ever.contains(id));
                ever.insert(*id);
            }
        }
        for c in &w.cells {
            assert!(c.health > 0 && c.health <= MAX_LEVEL);
            assert!(c.energy >= 0 && c.energy <= MAX_LEVEL);
            assert!(c.hunger >= 0 && c.hunger <= MAX_LEVEL);
        }
    }
}

#[test]
fn starving_cell_is_removed() {
    let mut rng = ChaCha12Rng::seed_from_u64(12);
    let mut c = Cell::new(0, Point { x: 0, y: 0 }, &mut rng);
    c.hunger = MAX_LEVEL;
    c.health = 120_000;
    c.genes.metabolism = 5_000;
    let mut w = world_with(vec![c], vec![], 1, 13);
    let cfg = config();
    w.tick(&cfg, 1_000);
    assert_eq!(w.cells.len(), 1);
    assert_eq!(w.cells[0].health, 70_000);
    w.tick(&cfg, 1_000);
    assert_eq!(w.cells[0].health, 20_000);
    w.tick(&cfg, 1_000);
    assert!(w.cells.is_empty());
    assert_eq!(w.dead_cells, 1);
    w.tick(&cfg, 1_000);
    assert!(w.cells.is_empty());
    assert!(w.sightings().is_empty());
}

#[test]
fn cell_on_food_eats_it() {
    let mut rng = ChaCha12Rng::seed_from_u64(21);
    let mut c = Cell::new(0, Point { x: 7_000, y: -3_000 }, &mut rng);
    c.energy = 40_000_000;
    c.hunger = 50_000_000;
    c.action = Action::SeekFood;
    let foods = vec![Food { position: Point { x: 7_000, y: -3_000 } }];
    let mut eaten = vec![false];
    seek_food(&mut c, &foods, &mut eaten, &config(), &mut rng);
    assert_eq!(eaten, vec![true]);
    assert_eq!((c.energy, c.hunger), (55_000_000, 35_000_000));
    assert_eq!(c.target_location, None);

    let mut d = Cell::new(1, Point { x: 0, y: 0 }, &mut rng);
    d.energy = 95_000_000;
    d.hunger = 5_000_000;
    d.action = Action::SeekFood;
    let mut eaten = vec![false];
    let snapshot: Vec<Sighting> = vec![];
    let mate = act(&mut d, 0, &snapshot, &vec![Food { position: Point { x: 0, y: 0 } }], &mut eaten, &config(), &mut rng);
    assert_eq!(mate, None);
    assert_eq!(eaten, vec![true]);
    assert_eq!((d.energy, d.hunger), (MAX_LEVEL, 0));
}

#[test]
fn eaten_food_leaves_the_world() {
    // Whether a cell seeks food this tick is up to its brain: try many
    // brains, each standing on a food.
    let mut fed = 0;
    for seed in 0..200u64 {
        let mut rng = ChaCha12Rng::seed_from_u64(seed);
        let mut c = Cell::new(0, Point { x: 0, y: 0 }, &mut rng);
        c.energy = 40_000_000;
        let food = Food { position: Point { x: 0, y: 0 } };
        let mut w = world_with(vec![c], vec![food], 1, seed);
        w.tick(&config(), 16);
        if w.cells[0].action == Action::SeekFood {
            assert!(w.foods.is_empty());
            fed += 1;
        } else {
            assert_eq!(w.foods.len(), 1);
        }
    }
    assert!(fed > 0);
}

#[test]
fn day_tick_ages_cells_and_spawns_food() {
    let mut w = World::new(&config(), 3, 4, 0);
    for c in w.cells.iter_mut() {
        c.genes.mature_age = 1;
    }
    w.day_tick(&config());
    assert_eq!(w.current_day, 2);
    assert_eq!(w.foods.len(), 5);
    for c in &w.cells {
        assert_eq!(c.age, 1);
        assert!(c.mature);
    }
}

#[test]
fn update_runs_day_cycle_on_schedule() {
    let cfg = config();
    let mut w = World::new(&cfg, 4, 3, 0);
    for _ in 0..9 {
        w.update(&cfg, 100);
    }
    assert_eq!(w.current_day, 1);
    w.update(&cfg, 100);
    assert_eq!(w.current_day, 2);
    assert_eq!(w.day_clock, 0);
}

#[test]
fn close_mates_reproduce_in_a_tick() {
    let mut rng = ChaCha12Rng::seed_from_u64(40);
    let mut a = Cell::new(0, Point { x: 0, y: 0 }, &mut rng);
    let mut b = Cell::new(1, Point { x: 0, y: 1_000 }, &mut rng);
    for c in [&mut a, &mut b] {
        c.mature = true;
        c.energy = 90_000_000;
        c.action = Action::SeekMate;
        c.genes.birth_energy_loss = 30_000_000;
        c.genes.vision_angle = 180_000;
    }
    let snapshot = vec![
        Sighting { position: a.position, mature: true, action: Action::SeekMate, energy: a.energy },
        Sighting { position: b.position, mature: true, action: Action::SeekMate, energy: b.energy },
    ];
    let mut eaten = vec![];
    let mate = act(&mut a, 0, &snapshot, &vec![], &mut eaten, &config(), &mut rng);
    assert_eq!(mate, Some(1));
    assert_eq!(a.target_location, Some(Point { x: 0, y: 1_000 }));
}

#[test]
fn default_config_is_valid() {
    let d = GameConfig::default();
    assert_eq!(d.map_width, 800_000);
    assert_eq!(d.map_height, 600_000);
    assert_eq!(d.foods_per_day, 1);
    assert_eq!(d.mutation_rate, 100);
    assert!(d.is_valid());
    let mut bad = d;
    bad.day_length = 0;
    assert!(!bad.is_valid());
    bad = d;
    bad.mutation_rate = 1_001;
    assert!(!bad.is_valid());
    bad = d;
    bad.map_width = 1;
    assert!(!bad.is_valid());
}

#[test]
fn far_food_becomes_the_target_nearest_first() {
    let mut rng = ChaCha12Rng::seed_from_u64(50);
    let mut c = Cell::new(0, Point { x: 0, y: 0 }, &mut rng);
    c.genes.vision_range = 100_000;
    c.genes.vision_angle = 180_000;
    c.action = Action::SeekFood;
    let foods = vec![
        Food { position: Point { x: 0, y: 30_000 } },
        Food { position: Point { x: 0, y: 20_000 } },
        Food { position: Point { x: 20_000, y: 0 } },
        Food { position: Point { x: 0, y: -5_000 } },
    ];
    let mut eaten = vec![false, false, false, false];
    let energy = c.energy;
    seek_food(&mut c, &foods, &mut eaten, &config(), &mut rng);
    assert_eq!(c.target_location, Some(Point { x: 0, y: 20_000 }));
    assert_eq!(eaten, vec![false; 4]);
    assert_eq!(c.energy, energy);
    let mut eaten = vec![false, true, false, false];
    seek_food(&mut c, &foods, &mut eaten, &config(), &mut rng);
    assert_eq!(c.target_location, Some(Point { x: 20_000, y: 0 }));
}

#[test]
fn tired_cell_does_not_start_a_birth() {
    let mut rng = ChaCha12Rng::seed_from_u64(41);
    let mut a = Cell::new(0, Point { x: 0, y: 0 }, &mut rng);
    a.mature = true;
    a.energy = 35_000_000;
    a.genes.birth_energy_loss = 30_000_000;
    a.genes.vision_angle = 180_000;
    a.action = Action::SeekMate;
    let snapshot = vec![
        Sighting { position: a.position, mature: true, action: Action::SeekMate, energy: a.energy },
        Sighting { position: Point { x: 0, y: 2_000 }, mature: true, action: Action::SeekMate, energy: 90_000_000 },
    ];
    let mut eaten = vec![];
    let mate = act(&mut a, 0, &snapshot, &vec![], &mut eaten, &config(), &mut rng);
    assert_eq!(mate, None);
    assert_eq!(a.target_location, Some(Point { x: 0, y: 2_000 }));
}

#[test]
fn no_ageing_between_days() {
    let cfg = config();
    let mut w = World::new(&cfg, 8, 3, 0);
    w.update(&cfg, 100);
    for c in &w.cells {
        assert_eq!(c.age, 0);
    }
    assert_eq!(w.current_day, 1);
}
