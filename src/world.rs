//! The population: cells and food, the per-tick pipeline over all cells and
//! the slower day cycle.
use crate::cell::{moved, step_length, turned, clamp_level, LOW_HUNGER, decision, metabolized, paid, rewarded, JITTER_MAX, Action, Cell, LOW_ENERGY, MAX_DT, MAX_LEVEL, MEAL, MEAL_REWARD};
use crate::fixed::{ceil_root, ONE};
use crate::genes::{combine_spec, valid_draws};
use crate::perception::{closest, cone_point, dist2, in_cone, lemma_cone_at_origin, lemma_square_bound, Point, COORD_LIMIT};
use crate::random::{draw, seeded_rng};
use rand_chacha::ChaCha12Rng;
use vstd::prelude::*;

verus! {

/// Distance within which a cell reaches its mate (10 units).
pub const MATE_REACH: i64 = 10_000;

/// Tunables of a run, read afresh on every call that needs them.
#[derive(Clone, Copy, Debug, PartialEq, Eq, Structural)]
pub struct GameConfig {
    /// Width and height of the world, fixed-point; it is centred on the
    /// origin.
    pub map_width: i64,
    pub map_height: i64,
    pub foods_per_day: i64,
    /// Length of a day, in milliseconds.
    pub day_length: i64,
    /// Mutation rate, in thousandths.
    pub mutation_rate: i64,
    /// Energy that a mate must exceed.
    pub mate_energy: i64,
}

impl GameConfig {
    pub open spec fn wf(&self) -> bool {
        &&& 2 <= self.map_width <= 2 * COORD_LIMIT
        &&& 2 <= self.map_height <= 2 * COORD_LIMIT
        &&& 0 <= self.foods_per_day
        &&& 1 <= self.day_length
        &&& 0 <= self.mutation_rate <= ONE
        &&& 0 <= self.mate_energy <= MAX_LEVEL
    }

    /// Whether the tunables are usable: `wf`, decided.
    pub fn is_valid(&self) -> (r: bool)
        ensures
            r == self.wf(),
    {
        2 <= self.map_width && self.map_width <= 2 * COORD_LIMIT
            && 2 <= self.map_height && self.map_height <= 2 * COORD_LIMIT
            && 0 <= self.foods_per_day
            && 1 <= self.day_length
            && 0 <= self.mutation_rate && self.mutation_rate <= ONE
            && 0 <= self.mate_energy && self.mate_energy <= MAX_LEVEL
    }

    pub open spec fn half_width(&self) -> i64 {
        (self.map_width / 2) as i64
    }

    pub open spec fn half_height(&self) -> i64 {
        (self.map_height / 2) as i64
    }

    /// Whether `p` lies in the half-open box `[-w/2, w/2) x [-h/2, h/2)`
    /// that random positions are drawn from.
    pub open spec fn spawnable(&self, p: Point) -> bool {
        -self.half_width() <= p.x < self.half_width() && -self.half_height() <= p.y < self.half_height()
    }

    /// Whether `p` lies inside the world.
    pub open spec fn contains(&self, p: Point) -> bool {
        -self.half_width() <= p.x <= self.half_width() && -self.half_height() <= p.y <= self.half_height()
    }
}

impl Default for GameConfig {
    /// An 800 x 600 world, one food a day, one-second days, a mutation rate
    /// of 0.1, and mates needing more than 40.0 energy.
    fn default() -> (r: GameConfig)
        ensures
            r == (GameConfig {
                map_width: 800_000,
                map_height: 600_000,
                foods_per_day: 1,
                day_length: 1_000,
                mutation_rate: 100,
                mate_energy: 40_000_000,
            }),
            r.wf(),
    {
        GameConfig {
            map_width: 800_000,
            map_height: 600_000,
            foods_per_day: 1,
            day_length: 1_000,
            mutation_rate: 100,
            mate_energy: 40_000_000,
        }
    }
}

#[derive(Clone, Copy, Debug, PartialEq, Eq, Structural)]
pub struct Food {
    pub position: Point,
}

/// A point drawn uniformly over `[-w/2, w/2) x [-h/2, h/2)`.
fn random_position(rng: &mut ChaCha12Rng, config: &GameConfig) -> (r: Point)
    requires
        config.wf(),
    ensures
        r.wf(),
        config.contains(r),
        config.spawnable(r),
{
    let hw = config.map_width / 2;
    let hh = config.map_height / 2;
    let x = draw(rng, -hw, hw - 1);
    let y = draw(rng, -hh, hh - 1);
    Point { x, y }
}

impl Food {
    /// A food at a position drawn uniformly over the world (the upper edges
    /// excluded).
    pub fn new(rng: &mut ChaCha12Rng, config: &GameConfig) -> (r: Food)
        requires
            config.wf(),
        ensures
            r.position.wf(),
            config.contains(r.position),
            config.spawnable(r.position),
    {
        Food { position: random_position(rng, config) }
    }
}

/// A first-generation cell as `World::new` makes it: generation 0, no
/// parents, full health, half energy, no hunger, age 0, immature, inside the
/// world.
pub open spec fn fresh_cell(c: Cell, config: GameConfig) -> bool {
    &&& c.generation == 0
    &&& c.parents is None
    &&& c.health == MAX_LEVEL
    &&& c.energy == MAX_LEVEL / 2
    &&& c.hunger == 0
    &&& c.age == 0
    &&& !c.mature
    &&& c.offspring_count == 0
    &&& config.spawnable(c.position)
}

/// A cell one day older: its age grows by one (stopping at `i64::MAX`) and it
/// is mature from `mature_age` on; nothing else changes.
pub open spec fn aged(c: Cell) -> Cell {
    let age: i64 = if c.age < i64::MAX { (c.age + 1) as i64 } else { c.age };
    Cell { age, mature: age >= c.genes.mature_age, ..c }
}

/// `cd` is `c0` after deciding its action under some jitter draw.
pub open spec fn decided(c0: Cell, cd: Cell) -> bool {
    &&& cd == (Cell { action: cd.action, ..c0 })
    &&& exists|j: int| 0 <= j <= JITTER_MAX && cd.action == decision(&c0, j)
}

/// `ca` is `cd` after acting on its action: resting (`idle_post`),
/// wandering (`wander_post`), or, when seeking food or a mate, either
/// wandering or taking a point in view as the target; a food seeker may
/// instead eat (`fed`).
pub open spec fn acted(cd: Cell, ca: Cell, config: GameConfig) -> bool {
    match cd.action {
        Action::Idle => idle_post(cd, ca),
        Action::Wander => wander_post(cd, ca, config),
        Action::SeekFood => wander_post(cd, ca, config) || ca == fed(cd)
            || (exists|p: Point| #[trigger] sees(&cd, p) && Some(p) == ca.target_location && ca == (Cell { target_location: Some(p), ..cd })),
        Action::SeekMate => wander_post(cd, ca, config)
            || (exists|p: Point| #[trigger] sees(&cd, p) && Some(p) == ca.target_location && ca == (Cell { target_location: Some(p), ..cd })),
    }
}

/// `c1` is `ca` after its movement step of `dt` ms (see `Cell::movement`);
/// a resting cell does not move.
pub open spec fn moved_by(ca: Cell, c1: Cell, config: GameConfig, dt: int) -> bool {
    if ca.action == Action::Idle {
        c1 == ca
    } else {
        match ca.target_location {
            None => c1 == ca,
            Some(t) => {
                let len = ceil_root(dist2(ca.position, t));
                c1 == (Cell {
                    position: moved(ca.position, t, step_length(&ca, dt), len, config.half_width() as int, config.half_height() as int),
                    heading: turned(ca.heading, ca.position, t, len),
                    is_moving: len != 0 || ca.is_moving,
                    ..ca
                })
            },
        }
    }
}

/// One cell's part of a tick before births and culling, from `c0` to `c2`:
/// it decides, acts, moves, then metabolises over `dt` ms.
pub open spec fn stepped(c0: Cell, c2: Cell, config: GameConfig, dt: int) -> bool {
    exists|cd: Cell, ca: Cell, c1: Cell| #![trigger decided(c0, cd), acted(cd, ca, config), moved_by(ca, c1, config, dt)]
        decided(c0, cd) && acted(cd, ca, config) && moved_by(ca, c1, config, dt)
        && c2 == metabolized(c1, dt)
}

/// `child` is what `Cell::create_offspring` makes of parent `p` and mate
/// `m`: the next id, both parents' ids, the parent's position, fresh levels,
/// the next generation, and a genome blended from both.
pub open spec fn born_of(child: Cell, p: Cell, m: Cell, mutation_rate: i64) -> bool {
    &&& child.parents == Some((p.id, m.id))
    &&& child.position == p.position
    &&& child.health == MAX_LEVEL
    &&& child.energy == MAX_LEVEL
    &&& child.hunger == 0
    &&& child.age == 0
    &&& !child.mature
    &&& child.offspring_count == 0
    &&& (child.generation == (if p.generation >= m.generation { p.generation } else { m.generation }) + 1
        || (child.generation == u64::MAX && (p.generation == u64::MAX || m.generation == u64::MAX)))
    &&& (exists|u: Seq<i64>| valid_draws(u, mutation_rate) && child.genes == combine_spec(p.genes, m.genes, u))
}

/// `child` was born of a recorded pair: some parent `i` of `before`, which
/// is left `paid` in `after`, and another cell `j` as its mate.
pub open spec fn child_of_pair(child: Cell, before: Seq<Cell>, after: Seq<Cell>, births: Seq<(usize, usize)>, mutation_rate: i64) -> bool {
    exists|b: int| 0 <= b < births.len() && ({
        let i = (#[trigger] births[b]).0 as int;
        let j = births[b].1 as int;
        &&& i < before.len() && j < before.len() && i != j
        &&& after[i] == paid(before[i])
        &&& born_of(child, before[i], before[j], mutation_rate)
    })
}

/// What a cell shows of itself to others at the start of a tick.
pub open spec fn sighting_of(c: Cell) -> Sighting {
    Sighting { position: c.position, mature: c.mature, action: c.action, energy: c.energy }
}

/// Cells `i` and `j` form a birth pair at the start of a tick: `j` is a
/// mate in `i`'s view (see `is_mate`) and `i` is `ready_to_mate` with it.
pub open spec fn mating_pair(cells: Seq<Cell>, i: int, j: int, config: GameConfig) -> bool {
    &&& 0 <= i < cells.len()
    &&& 0 <= j < cells.len()
    &&& is_mate(&cells[i], i, j, sighting_of(cells[j]), config)
    &&& ready_to_mate(cells[i], dist2(cells[i].position, cells[j].position), config)
}

/// Some cell among the first `n` stands within one unit of `p`.
pub open spec fn near_some_cell(cells: Seq<Cell>, p: Point, n: int) -> bool {
    exists|i: int| 0 <= i < n && dist2((#[trigger] cells[i]).position, p) < ONE * ONE
}

/// What a tick did, given its intermediate states: every cell took its
/// step (`stepped`); some then paid for a birth (`charged`); the children,
/// numbered from the old `next_id`, were each born of a recorded pair; the
/// population is the charged cells that still have health, in order,
/// followed by the children; the dead are counted; and the foods left are
/// those not eaten.
pub open spec fn tick_post(
    w0: &World,
    w1: &World,
    config: GameConfig,
    dt: int,
    after_step: Seq<Cell>,
    charged: Seq<Cell>,
    births: Seq<(usize, usize)>,
    kids: Seq<Cell>,
    eaten: Seq<bool>,
) -> bool {
    &&& after_step.len() == w0.cells.len()
    &&& charged.len() == w0.cells.len()
    &&& (forall|k: int| 0 <= k < w0.cells.len() ==> stepped(w0.cells@[k], #[trigger] after_step[k], config, dt))
    &&& (forall|k: int| 0 <= k < w0.cells.len() ==> #[trigger] charged[k] == after_step[k] || charged[k] == paid(after_step[k]))
    &&& (forall|m: int| 0 <= m < kids.len() ==> (#[trigger] kids[m]).id == w0.next_id + m
        && child_of_pair(kids[m], after_step, charged, births, config.mutation_rate))
    &&& (forall|b: int| 0 <= b < births.len() ==> mating_pair(w0.cells@, (#[trigger] births[b]).0 as int, births[b].1 as int, config))
    &&& w1.next_id == w0.next_id + kids.len()
    &&& w1.cells@ == survivors(charged, charged.len() as int) + kids
    &&& w1.dead_cells == saturating_sum(w0.dead_cells as int, dead_count(charged, charged.len() as int))
    &&& eaten.len() == w0.foods.len()
    &&& (forall|k: int| 0 <= k < eaten.len() && #[trigger] eaten[k] ==> near_some_cell(w0.cells@, w0.foods@[k].position, w0.cells.len() as int))
    &&& w1.foods@ == uneaten(w0.foods@, eaten, eaten.len() as int)
}

/// The day clock after `dt` more milliseconds, stopping at
/// `DAY_CLOCK_LIMIT`.
pub open spec fn advanced_clock(clock: i64, dt: i64) -> int {
    if clock <= DAY_CLOCK_LIMIT - dt { clock + dt } else { DAY_CLOCK_LIMIT as int }
}

/// What the day cycle did to the population: on a new day every cell is
/// `aged` and `foods_per_day` foods were added inside the world after the old
/// ones; otherwise cells and foods are as they were.
pub open spec fn day_post(w0: &World, w1: &World, config: GameConfig, new_day: bool) -> bool {
    &&& w1.next_id == w0.next_id
    &&& w1.dead_cells == w0.dead_cells
    &&& if new_day {
        &&& w1.cells.len() == w0.cells.len()
        &&& (forall|k: int| 0 <= k < w1.cells.len() ==> #[trigger] w1.cells@[k] == aged(w0.cells@[k]))
        &&& w1.foods.len() == w0.foods.len() + config.foods_per_day
        &&& w1.foods@.take(w0.foods.len() as int) == w0.foods@
        &&& (forall|k: int| w0.foods.len() <= k < w1.foods.len() ==> config.spawnable((#[trigger] w1.foods@[k]).position))
    } else {
        &&& w1.cells@ == w0.cells@
        &&& w1.foods@ == w0.foods@
    }
}

/// The cells among the first `n` that still have health, in order.
pub open spec fn survivors(cells: Seq<Cell>, n: int) -> Seq<Cell>
    decreases n,
{
    if n <= 0 {
        Seq::empty()
    } else if cells[n - 1].health > 0 {
        survivors(cells, n - 1).push(cells[n - 1])
    } else {
        survivors(cells, n - 1)
    }
}

/// How many of the first `n` cells have no health left.
pub open spec fn dead_count(cells: Seq<Cell>, n: int) -> int
    decreases n,
{
    if n <= 0 {
        0
    } else {
        dead_count(cells, n - 1) + if cells[n - 1].health > 0 { 0int } else { 1int }
    }
}

proof fn lemma_dead_count_nonneg(cells: Seq<Cell>, n: int)
    ensures
        0 <= dead_count(cells, n),
    decreases n,
{
    if n > 0 {
        lemma_dead_count_nonneg(cells, n - 1);
    }
}

/// `a + b`, stopping at `u64::MAX`.
pub open spec fn saturating_sum(a: int, b: int) -> u64 {
    if a + b < u64::MAX { (a + b) as u64 } else { u64::MAX }
}

/// What a cell sees of another at the start of a tick.
#[derive(Clone, Copy, Debug, PartialEq, Eq, Structural)]
pub struct Sighting {
    pub position: Point,
    pub mature: bool,
    pub action: Action,
    pub energy: i64,
}

/// Whether the point `p` (a food or another cell) is in view of cell `c`.
pub open spec fn sees(c: &Cell, p: Point) -> bool {
    in_cone(c.position, c.heading, p, c.genes.vision_range as int, c.genes.vision_angle as int)
}

/// Whether sighting `s` at index `j` is a mate for the cell at index `me`:
/// another cell, mature, seeking a mate, with more than `mate_energy`, in
/// view.
pub open spec fn is_mate(c: &Cell, me: int, j: int, s: Sighting, config: GameConfig) -> bool {
    &&& j != me
    &&& s.mature
    &&& s.action == Action::SeekMate
    &&& s.energy > config.mate_energy
    &&& sees(c, s.position)
}

/// Wandering, as a relation between the cell before and after: only the
/// target may change. A target still more than one unit away is kept;
/// otherwise the new one is a point of the cell's vision cone (see
/// `cone_point`) within the world.
pub open spec fn wander_post(c0: Cell, c1: Cell, config: GameConfig) -> bool {
    &&& c1 == (Cell { target_location: c1.target_location, ..c0 })
    &&& if c0.target_location matches Some(t) && dist2(c0.position, t) >= ONE * ONE {
        c1.target_location == c0.target_location
    } else {
        (exists|d: int, a: int|
            0 <= d <= c0.genes.vision_range && -(c0.genes.vision_angle / 2) <= a <= c0.genes.vision_angle / 2
            && c1.target_location == Some(cone_point(c0.position, c0.heading, d, a, config.half_width() as int, config.half_height() as int)))
    }
}

/// Resting, as a relation: see `Cell::idle`.
pub open spec fn idle_post(c0: Cell, c1: Cell) -> bool {
    c1 == (Cell {
        target_location: None,
        is_moving: false,
        energy: clamp_level(c0.energy + if c0.energy < LOW_ENERGY { 1_500_000int } else { 500_000int }),
        health: clamp_level(c0.health + if c0.hunger < LOW_HUNGER { 100_000int } else { 0int }),
        ..c0
    })
}

/// The cell after a meal: see `Cell::eat`; it also drops its target.
pub open spec fn fed(c0: Cell) -> Cell {
    Cell {
        energy: clamp_level(c0.energy + MEAL),
        hunger: clamp_level(c0.hunger - MEAL),
        fitness: rewarded(c0.fitness, MEAL_REWARD),
        target_location: None,
        ..c0
    }
}

/// Food `k` is in view of `c` and not yet eaten.
pub open spec fn food_in_view(c: Cell, foods: Seq<Food>, eaten: Seq<bool>, k: int) -> bool {
    &&& 0 <= k < foods.len()
    &&& !eaten[k]
    &&& sees(&c, foods[k].position)
}

/// Food `k` is the nearest food in view, the first among equally near ones.
pub open spec fn nearest_food(c: Cell, foods: Seq<Food>, eaten: Seq<bool>, k: int) -> bool {
    &&& food_in_view(c, foods, eaten, k)
    &&& (forall|q: int| #[trigger] food_in_view(c, foods, eaten, q) ==> dist2(c.position, foods[k].position) <= dist2(c.position, foods[q].position))
    &&& (forall|q: int| 0 <= q < k && #[trigger] food_in_view(c, foods, eaten, q) ==> dist2(c.position, foods[k].position) < dist2(c.position, foods[q].position))
}

/// Seeking food, as a relation: the nearest food in view becomes the
/// target; within one unit it is eaten instead (marked in `eaten`, and the
/// cell is `fed`). With no food in view the cell wanders.
pub open spec fn seek_food_post(c0: Cell, c1: Cell, foods: Seq<Food>, e0: Seq<bool>, e1: Seq<bool>, config: GameConfig) -> bool {
    &&& e1.len() == e0.len()
    &&& (exists|k: int| food_in_view(c0, foods, e0, k)) ==> (exists|k: int| #[trigger] nearest_food(c0, foods, e0, k) && if dist2(c0.position, foods[k].position) < ONE * ONE {
            e1 == e0.update(k, true) && c1 == fed(c0)
        } else {
            e1 == e0 && c1 == (Cell { target_location: Some(foods[k].position), ..c0 })
        })
    &&& (forall|k: int| !food_in_view(c0, foods, e0, k)) ==> e1 == e0 && wander_post(c0, c1, config)
}

/// Sighting `j` is the nearest mate in view, the first among equally near
/// ones.
pub open spec fn nearest_mate(c: Cell, me: int, snapshot: Seq<Sighting>, config: GameConfig, j: int) -> bool {
    &&& 0 <= j < snapshot.len()
    &&& is_mate(&c, me, j, snapshot[j], config)
    &&& (forall|q: int| 0 <= q < snapshot.len() && #[trigger] is_mate(&c, me, q, snapshot[q], config)
        ==> dist2(c.position, snapshot[j].position) <= dist2(c.position, snapshot[q].position))
    &&& (forall|q: int| 0 <= q < j && #[trigger] is_mate(&c, me, q, snapshot[q], config)
        ==> dist2(c.position, snapshot[j].position) < dist2(c.position, snapshot[q].position))
}

/// Whether the cell itself may start a birth with a mate at squared distance
/// `d2`: within `MATE_REACH`, able to pay, and with more than `mate_energy`.
pub open spec fn ready_to_mate(c: Cell, d2: int, config: GameConfig) -> bool {
    d2 < MATE_REACH * MATE_REACH && c.can_reproduce() && c.energy > config.mate_energy
}

/// Seeking a mate, as a relation: the nearest mate in view becomes the
/// target, and its index is the result when the cell is `ready_to_mate`.
/// With no mate in view the cell wanders and the result is `None`.
pub open spec fn seek_mate_post(c0: Cell, c1: Cell, me: int, snapshot: Seq<Sighting>, config: GameConfig, mate: Option<usize>) -> bool {
    &&& (exists|j: int| 0 <= j < snapshot.len() && #[trigger] is_mate(&c0, me, j, snapshot[j], config)) ==>
        (exists|j: int| #[trigger] nearest_mate(c0, me, snapshot, config, j)
            && c1 == (Cell { target_location: Some(snapshot[j].position), ..c0 })
            && mate == (if ready_to_mate(c0, dist2(c0.position, snapshot[j].position), config) { Some(j as usize) } else { None }))
    &&& (forall|j: int| 0 <= j < snapshot.len() ==> !#[trigger] is_mate(&c0, me, j, snapshot[j], config)) ==>
        mate is None && wander_post(c0, c1, config)
}

/// Wandering: a new target from the vision cone when the cell has none or
/// has reached it.
pub fn wander(cell: &mut Cell, config: &GameConfig, rng: &mut ChaCha12Rng)
    requires
        old(cell).wf(),
        config.wf(),
    ensures
        final(cell).wf(),
        wander_post(*old(cell), *final(cell), *config),
        final(cell).target_location is Some,
{
    let ghost c0 = *cell;
    if cell.needs_new_target() {
        cell.random_target(config.map_width / 2, config.map_height / 2, rng);
        proof {
            let t = cell.target_location.unwrap();
            let (d, a) = choose|d: int, a: int|
                0 <= d <= c0.genes.vision_range && -(c0.genes.vision_angle / 2) <= a <= c0.genes.vision_angle / 2
                && t == cone_point(c0.position, c0.heading, d, a, config.half_width() as int, config.half_height() as int);
            assert(cell.target_location == Some(cone_point(c0.position, c0.heading, d, a, config.half_width() as int, config.half_height() as int)));
        }
    }
}

/// Seeking food: see `seek_food_post`.
pub fn seek_food(cell: &mut Cell, foods: &Vec<Food>, eaten: &mut Vec<bool>, config: &GameConfig, rng: &mut ChaCha12Rng)
    requires
        old(cell).wf(),
        config.wf(),
        old(eaten).len() == foods.len(),
        forall|k: int| 0 <= k < foods.len() ==> (#[trigger] foods@[k]).position.wf(),
    ensures
        final(cell).wf(),
        seek_food_post(*old(cell), *final(cell), foods@, old(eaten)@, final(eaten)@, *config),
        // Food not yet eaten at the cell's own position is always the one
        // eaten.
        forall|k: int| 0 <= k < foods.len() && !old(eaten)@[k] && #[trigger] foods@[k].position == old(cell).position
            ==> exists|q: int| 0 <= q < foods.len() && !old(eaten)@[q] && #[trigger] final(eaten)@[q]
                && foods@[q].position == old(cell).position && *final(cell) == fed(*old(cell)),
{
    let ghost c0 = *cell;
    let ghost eaten0 = eaten@;
    let mut visible: Vec<Point> = Vec::new();
    let mut index: Vec<usize> = Vec::new();
    let mut k: usize = 0;
    while k < foods.len()
        invariant
            *cell == c0,
            c0.wf(),
            eaten@ == eaten0,
            eaten.len() == foods.len(),
            forall|q: int| 0 <= q < foods.len() ==> (#[trigger] foods@[q]).position.wf(),
            k <= foods.len(),
            visible.len() == index.len(),
            forall|a: int| 0 <= a < index.len() ==> #[trigger] index@[a] < k,
            forall|a: int, b: int| 0 <= a < b < index.len() ==> #[trigger] index@[a] < #[trigger] index@[b],
            forall|a: int| 0 <= a < index.len() ==> visible@[a] == foods@[#[trigger] index@[a] as int].position,
            forall|a: int| 0 <= a < index.len() ==> food_in_view(c0, foods@, eaten0, #[trigger] index@[a] as int),
            forall|a: int| 0 <= a < visible.len() ==> (#[trigger] visible@[a]).wf(),
            forall|q: int| 0 <= q < k && #[trigger] food_in_view(c0, foods@, eaten0, q) ==>
                exists|a: int| 0 <= a < index.len() && #[trigger] index@[a] == q,
        decreases foods.len() - k,
    {
        let p = foods[k].position;
        let ghost index0 = index@;
        if !eaten[k] && cell.is_within_vision_cone(p) {
            visible.push(p);
            index.push(k);
            proof {
                assert(index@[index.len() - 1] == k);
                assert forall|q: int| 0 <= q < k + 1 && #[trigger] food_in_view(c0, foods@, eaten0, q)
                    implies exists|a: int| 0 <= a < index.len() && #[trigger] index@[a] == q by {
                    if q == k {
                        assert(index@[index.len() - 1] == q);
                    } else {
                        let a = choose|a: int| 0 <= a < index0.len() && #[trigger] index0[a] == q;
                        assert(index@[a] == q);
                    }
                }
            }
        } else {
            proof {
                assert(!food_in_view(c0, foods@, eaten0, k as int));
                assert forall|q: int| 0 <= q < k + 1 && #[trigger] food_in_view(c0, foods@, eaten0, q)
                    implies exists|a: int| 0 <= a < index.len() && #[trigger] index@[a] == q by {
                }
            }
        }
        k = k + 1;
    }
    proof {
        assert forall|q: int| 0 <= q < foods.len() && !eaten0[q] && foods@[q].position == c0.position
            implies food_in_view(c0, foods@, eaten0, q) by {
            lemma_cone_at_origin(c0.position, c0.heading, c0.genes.vision_range as int, c0.genes.vision_angle as int);
        }
    }
    match closest(&visible, cell.position) {
        Some(a) => {
            let k = index[a];
            let p = visible[a];
            proof {
                assert(nearest_food(c0, foods@, eaten0, k as int)) by {
                    assert forall|q: int| #[trigger] food_in_view(c0, foods@, eaten0, q) implies
                        dist2(c0.position, foods@[k as int].position) <= dist2(c0.position, foods@[q].position) by {
                        let b = choose|b: int| 0 <= b < index.len() && #[trigger] index@[b] == q;
                        assert(visible@[b] == foods@[q].position);
                    }
                    assert forall|q: int| 0 <= q < k && #[trigger] food_in_view(c0, foods@, eaten0, q) implies
                        dist2(c0.position, foods@[k as int].position) < dist2(c0.position, foods@[q].position) by {
                        let b = choose|b: int| 0 <= b < index.len() && #[trigger] index@[b] == q;
                        assert(visible@[b] == foods@[q].position);
                        if b >= a as int {
                            if b > a as int {
                                assert(index@[a as int] < index@[b]);
                            }
                        }
                    }
                }
            }
            let dx = p.x - cell.position.x;
            let dy = p.y - cell.position.y;
            proof {
                lemma_square_bound(dx as int, 20_000_000);
                lemma_square_bound(dy as int, 20_000_000);
            }
            if dx * dx + dy * dy < ONE * ONE {
                cell.eat();
                eaten.set(k, true);
                cell.target_location = None;
                proof {
                    assert(*cell == fed(c0));
                    assert forall|q: int| 0 <= q < foods.len() && !eaten0[q] && #[trigger] foods@[q].position == c0.position
                        implies exists|r: int| 0 <= r < foods.len() && !eaten0[r] && #[trigger] eaten@[r]
                            && foods@[r].position == c0.position && *cell == fed(c0) by {
                        assert(food_in_view(c0, foods@, eaten0, q));
                        assert(dist2(c0.position, foods@[q].position) == 0);
                        assert(dist2(c0.position, foods@[k as int].position) <= 0);
                        let ex = foods@[k as int].position.x - c0.position.x;
                        let ey = foods@[k as int].position.y - c0.position.y;
                        assert(ex == 0 && ey == 0) by (nonlinear_arith)
                            requires ex * ex + ey * ey <= 0;
                        assert(eaten@[k as int]);
                    }
                }
            } else {
                cell.target_location = Some(p);
                proof {
                    assert forall|q: int| 0 <= q < foods.len() && !eaten0[q] && #[trigger] foods@[q].position == c0.position
                        implies false by {
                        assert(food_in_view(c0, foods@, eaten0, q));
                        assert(dist2(c0.position, foods@[q].position) == 0);
                    }
                }
            }
        },
        None => {
            proof {
                assert forall|q: int| !food_in_view(c0, foods@, eaten0, q) by {
                    if food_in_view(c0, foods@, eaten0, q) {
                        let b = choose|b: int| 0 <= b < index.len() && #[trigger] index@[b] == q;
                    }
                }
            }
            wander(cell, config, rng);
        },
    }
}

/// Seeking a mate: see `seek_mate_post`.
pub fn seek_mate(cell: &mut Cell, me: usize, snapshot: &Vec<Sighting>, config: &GameConfig, rng: &mut ChaCha12Rng) -> (mate: Option<usize>)
    requires
        old(cell).wf(),
        config.wf(),
        forall|j: int| 0 <= j < snapshot.len() ==> (#[trigger] snapshot@[j]).position.wf(),
    ensures
        final(cell).wf(),
        seek_mate_post(*old(cell), *final(cell), me as int, snapshot@, *config, mate),
        mate matches Some(j) ==> j < snapshot.len()
            && is_mate(old(cell), me as int, j as int, snapshot@[j as int], *config)
            && ready_to_mate(*old(cell), dist2(old(cell).position, snapshot@[j as int].position), *config),
        *final(cell) == (Cell { target_location: final(cell).target_location, ..*old(cell) }),
{
    let ghost c0 = *cell;
    let mut visible: Vec<Point> = Vec::new();
    let mut index: Vec<usize> = Vec::new();
    let mut j: usize = 0;
    while j < snapshot.len()
        invariant
            *cell == c0,
            c0.wf(),
            forall|q: int| 0 <= q < snapshot.len() ==> (#[trigger] snapshot@[q]).position.wf(),
            j <= snapshot.len(),
            visible.len() == index.len(),
            forall|a: int| 0 <= a < index.len() ==> #[trigger] index@[a] < j,
            forall|a: int, b: int| 0 <= a < b < index.len() ==> #[trigger] index@[a] < #[trigger] index@[b],
            forall|a: int| 0 <= a < index.len() ==> visible@[a] == snapshot@[#[trigger] index@[a] as int].position,
            forall|a: int| 0 <= a < index.len() ==> is_mate(&c0, me as int, #[trigger] index@[a] as int, snapshot@[index@[a] as int], *config),
            forall|a: int| 0 <= a < visible.len() ==> (#[trigger] visible@[a]).wf(),
            forall|q: int| 0 <= q < j && #[trigger] is_mate(&c0, me as int, q, snapshot@[q], *config) ==>
                exists|a: int| 0 <= a < index.len() && #[trigger] index@[a] == q,
        decreases snapshot.len() - j,
    {
        let s = snapshot[j];
        let ghost index0 = index@;
        if j != me && s.mature && s.action == Action::SeekMate && s.energy > config.mate_energy
            && cell.is_within_vision_cone(s.position) {
            visible.push(s.position);
            index.push(j);
            proof {
                assert(index@[index.len() - 1] == j);
                assert forall|q: int| 0 <= q < j + 1 && #[trigger] is_mate(&c0, me as int, q, snapshot@[q], *config)
                    implies exists|a: int| 0 <= a < index.len() && #[trigger] index@[a] == q by {
                    if q == j {
                        assert(index@[index.len() - 1] == q);
                    } else {
                        let a = choose|a: int| 0 <= a < index0.len() && #[trigger] index0[a] == q;
                        assert(index@[a] == q);
                    }
                }
            }
        } else {
            proof {
                assert(!is_mate(&c0, me as int, j as int, snapshot@[j as int], *config));
            }
        }
        j = j + 1;
    }
    match closest(&visible, cell.position) {
        Some(a) => {
            let j = index[a];
            let p = visible[a];
            proof {
                assert(nearest_mate(c0, me as int, snapshot@, *config, j as int)) by {
                    assert forall|q: int| 0 <= q < snapshot.len() && #[trigger] is_mate(&c0, me as int, q, snapshot@[q], *config) implies
                        dist2(c0.position, snapshot@[j as int].position) <= dist2(c0.position, snapshot@[q].position) by {
                        let b = choose|b: int| 0 <= b < index.len() && #[trigger] index@[b] == q;
                        assert(visible@[b] == snapshot@[q].position);
                    }
                    assert forall|q: int| 0 <= q < j && #[trigger] is_mate(&c0, me as int, q, snapshot@[q], *config) implies
                        dist2(c0.position, snapshot@[j as int].position) < dist2(c0.position, snapshot@[q].position) by {
                        let b = choose|b: int| 0 <= b < index.len() && #[trigger] index@[b] == q;
                        assert(visible@[b] == snapshot@[q].position);
                        if b > a as int {
                            assert(index@[a as int] < index@[b]);
                        }
                    }
                }
            }
            cell.target_location = Some(p);
            let dx = p.x - cell.position.x;
            let dy = p.y - cell.position.y;
            proof {
                lemma_square_bound(dx as int, 20_000_000);
                lemma_square_bound(dy as int, 20_000_000);
            }
            let ready = cell.mature && cell.reproduction_cooldown == 0
                && cell.energy >= cell.genes.birth_energy_loss && cell.offspring_count < i64::MAX
                && cell.energy > config.mate_energy;
            if dx * dx + dy * dy < MATE_REACH * MATE_REACH && ready {
                Some(j)
            } else {
                None
            }
        },
        None => {
            proof {
                assert forall|q: int| 0 <= q < snapshot.len() implies !#[trigger] is_mate(&c0, me as int, q, snapshot@[q], *config) by {
                    if is_mate(&c0, me as int, q, snapshot@[q], *config) {
                        let b = choose|b: int| 0 <= b < index.len() && #[trigger] index@[b] == q;
                    }
                }
            }
            wander(cell, config, rng);
            None
        },
    }
}

/// The action phase of the cell at index `me`, by its current action:
/// resting (`idle_post`), wandering (`wander_post`), seeking food
/// (`seek_food_post`) or seeking a mate (`seek_mate_post`). Returns the
/// index in `snapshot` of a mate reached, if any.
pub fn act(
    cell: &mut Cell,
    me: usize,
    snapshot: &Vec<Sighting>,
    foods: &Vec<Food>,
    eaten: &mut Vec<bool>,
    config: &GameConfig,
    rng: &mut ChaCha12Rng,
) -> (mate: Option<usize>)
    requires
        old(cell).wf(),
        config.wf(),
        old(eaten).len() == foods.len(),
        forall|k: int| 0 <= k < foods.len() ==> (#[trigger] foods@[k]).position.wf(),
        forall|j: int| 0 <= j < snapshot.len() ==> (#[trigger] snapshot@[j]).position.wf(),
    ensures
        final(cell).wf(),
        final(eaten).len() == foods.len(),
        old(cell).action == Action::Idle ==> idle_post(*old(cell), *final(cell)) && mate is None && final(eaten)@ == old(eaten)@,
        old(cell).action == Action::Wander ==> wander_post(*old(cell), *final(cell), *config) && mate is None && final(eaten)@ == old(eaten)@,
        old(cell).action == Action::SeekFood ==> seek_food_post(*old(cell), *final(cell), foods@, old(eaten)@, final(eaten)@, *config) && mate is None,
        old(cell).action == Action::SeekMate ==> seek_mate_post(*old(cell), *final(cell), me as int, snapshot@, *config, mate) && final(eaten)@ == old(eaten)@,
        final(cell).id == old(cell).id,
        final(cell).genes == old(cell).genes,
        final(cell).brain == old(cell).brain,
        final(cell).generation == old(cell).generation,
        final(cell).mature == old(cell).mature,
        final(cell).age == old(cell).age,
        final(cell).action == old(cell).action,
        final(cell).offspring_count == old(cell).offspring_count,
        final(cell).reproduction_cooldown == old(cell).reproduction_cooldown,
        mate matches Some(j) ==> old(cell).action == Action::SeekMate && j < snapshot.len()
            && is_mate(old(cell), me as int, j as int, snapshot@[j as int], *config)
            && ready_to_mate(*old(cell), dist2(old(cell).position, snapshot@[j as int].position), *config),
{
    match cell.action {
        Action::Idle => {
            cell.idle();
            None
        },
        Action::Wander => {
            wander(cell, config, rng);
            None
        },
        Action::SeekFood => {
            let ghost c0 = *cell;
            seek_food(cell, foods, eaten, config, rng);
            proof {
                // Only the target, energy, hunger and fitness can change.
                if exists|k: int| food_in_view(c0, foods@, old(eaten)@, k) {
                    let k = choose|k: int| #[trigger] nearest_food(c0, foods@, old(eaten)@, k) && if dist2(c0.position, foods@[k].position) < ONE * ONE {
                        eaten@ == old(eaten)@.update(k, true) && *cell == fed(c0)
                    } else {
                        eaten@ == old(eaten)@ && *cell == (Cell { target_location: Some(foods@[k].position), ..c0 })
                    };
                }
            }
            None
        },
        Action::SeekMate => seek_mate(cell, me, snapshot, config, rng),
    }
}

/// Bound of the day clock, in milliseconds.
pub const DAY_CLOCK_LIMIT: i64 = 1_000_000_000_000_000;

/// Whether some cell of `cells` has id `id`.
pub open spec fn had_id(cells: Seq<Cell>, id: u64) -> bool {
    exists|q: int| 0 <= q < cells.len() && (#[trigger] cells[q]).id == id
}

/// Ids strictly increase along the population; so no two cells share one.
pub open spec fn ids_increasing(cells: Seq<Cell>) -> bool {
    forall|a: int, b: int| 0 <= a < b < cells.len() ==> #[trigger] cells[a].id < #[trigger] cells[b].id
}

pub struct World {
    pub cells: Vec<Cell>,
    pub foods: Vec<Food>,
    pub current_day: i64,
    /// The id that the next cell will get.
    pub next_id: u64,
    pub dead_cells: u64,
    /// Milliseconds since the current day began.
    pub day_clock: i64,
    pub rng: ChaCha12Rng,
}

impl World {
    /// Every cell and food well formed, ids strictly increasing and below
    /// `next_id`.
    pub open spec fn wf(&self) -> bool {
        &&& (forall|k: int| 0 <= k < self.cells.len() ==> (#[trigger] self.cells@[k]).wf())
        &&& ids_increasing(self.cells@)
        &&& (forall|k: int| 0 <= k < self.cells.len() ==> (#[trigger] self.cells@[k]).id < self.next_id)
        &&& (forall|k: int| 0 <= k < self.foods.len() ==> (#[trigger] self.foods@[k]).position.wf())
        &&& 0 <= self.current_day
        &&& 0 <= self.day_clock <= DAY_CLOCK_LIMIT
    }

    /// Adds one food at a random position.
    pub fn spawn_food(&mut self, config: &GameConfig)
        requires
            old(self).wf(),
            config.wf(),
        ensures
            final(self).wf(),
            final(self).cells@ == old(self).cells@,
            final(self).foods.len() == old(self).foods.len() + 1,
            final(self).foods@.take(old(self).foods.len() as int) == old(self).foods@,
            config.spawnable(final(self).foods@.last().position),
            final(self).next_id == old(self).next_id,
            final(self).current_day == old(self).current_day,
            final(self).day_clock == old(self).day_clock,
            final(self).dead_cells == old(self).dead_cells,
    {
        let f = Food::new(&mut self.rng, config);
        self.foods.push(f);
        assert(self.foods@.take(old(self).foods.len() as int) =~= old(self).foods@);
    }

    /// Adds one first-generation cell at a random position, with the next id.
    pub fn spawn_cell(&mut self, config: &GameConfig)
        requires
            old(self).wf(),
            config.wf(),
            old(self).next_id < u64::MAX,
        ensures
            final(self).wf(),
            final(self).cells.len() == old(self).cells.len() + 1,
            final(self).cells@.take(old(self).cells.len() as int) == old(self).cells@,
            final(self).cells@.last().id == old(self).next_id,
            fresh_cell(final(self).cells@.last(), *config),
            final(self).next_id == old(self).next_id + 1,
            final(self).foods@ == old(self).foods@,
            final(self).current_day == old(self).current_day,
            final(self).dead_cells == old(self).dead_cells,
            final(self).day_clock == old(self).day_clock,
    {
        let p = random_position(&mut self.rng, config);
        let c = Cell::new(self.next_id, p, &mut self.rng);
        self.cells.push(c);
        self.next_id = self.next_id + 1;
        assert(self.cells@.take(old(self).cells.len() as int) =~= old(self).cells@);
    }

    /// A world seeded with `seed`: `cell_count` first-generation cells with
    /// ids `0..cell_count` and `food_count` foods, all at random positions;
    /// day 1.
    pub fn new(config: &GameConfig, seed: u64, cell_count: u64, food_count: u64) -> (r: World)
        requires
            config.wf(),
            cell_count < u64::MAX,
        ensures
            r.wf(),
            r.cells.len() == cell_count,
            r.foods.len() == food_count,
            r.next_id == cell_count,
            r.current_day == 1,
            forall|k: int| 0 <= k < r.cells.len() ==> (#[trigger] r.cells@[k]).id == k && fresh_cell(r.cells@[k], *config),
            forall|k: int| 0 <= k < r.foods.len() ==> config.spawnable((#[trigger] r.foods@[k]).position),
            r.dead_cells == 0,
            r.day_clock == 0,
    {
        let mut w = World {
            cells: Vec::new(),
            foods: Vec::new(),
            current_day: 1,
            next_id: 0,
            dead_cells: 0,
            day_clock: 0,
            rng: seeded_rng(seed),
        };
        let mut i: u64 = 0;
        while i < cell_count
            invariant
                w.wf(),
                config.wf(),
                cell_count < u64::MAX,
                i <= cell_count,
                w.next_id == i,
                w.cells.len() == i,
                w.foods.len() == 0,
                w.current_day == 1,
                forall|k: int| 0 <= k < w.cells.len() ==> (#[trigger] w.cells@[k]).id == k && fresh_cell(w.cells@[k], *config),
                w.dead_cells == 0,
                w.day_clock == 0,
            decreases cell_count - i,
        {
            w.spawn_cell(config);
            proof {
                assert forall|k: int| 0 <= k < w.cells.len() implies (#[trigger] w.cells@[k]).id == k && fresh_cell(w.cells@[k], *config) by {
                    if k < i {
                        assert(w.cells@[k] == w.cells@.take(i as int)[k]);
                    }
                }
            }
            i = i + 1;
        }
        let mut f: u64 = 0;
        while f < food_count
            invariant
                w.wf(),
                config.wf(),
                f <= food_count,
                w.foods.len() == f,
                w.cells.len() == cell_count,
                w.next_id == cell_count,
                w.current_day == 1,
                forall|k: int| 0 <= k < w.cells.len() ==> (#[trigger] w.cells@[k]).id == k && fresh_cell(w.cells@[k], *config),
                forall|k: int| 0 <= k < w.foods.len() ==> config.spawnable((#[trigger] w.foods@[k]).position),
                w.dead_cells == 0,
                w.day_clock == 0,
            decreases food_count - f,
        {
            let ghost f0 = w.foods@;
            w.spawn_food(config);
            proof {
                assert forall|k: int| 0 <= k < w.foods.len() implies config.spawnable((#[trigger] w.foods@[k]).position) by {
                    if k < f0.len() {
                        assert(w.foods@[k] == w.foods@.take(f0.len() as int)[k]);
                    }
                }
            }
            f = f + 1;
        }
        w
    }

    /// What every cell shows of itself at the start of a tick, in order.
    pub fn sightings(&self) -> (r: Vec<Sighting>)
        requires
            self.wf(),
        ensures
            r.len() == self.cells.len(),
            forall|j: int| 0 <= j < r.len() ==> (#[trigger] r@[j]) == (Sighting {
                position: self.cells@[j].position,
                mature: self.cells@[j].mature,
                action: self.cells@[j].action,
                energy: self.cells@[j].energy,
            }),
    {
        let mut out: Vec<Sighting> = Vec::new();
        let mut j: usize = 0;
        while j < self.cells.len()
            invariant
                j <= self.cells.len(),
                out.len() == j,
                forall|q: int| 0 <= q < j ==> (#[trigger] out@[q]) == (Sighting {
                    position: self.cells@[q].position,
                    mature: self.cells@[q].mature,
                    action: self.cells@[q].action,
                    energy: self.cells@[q].energy,
                }),
            decreases self.cells.len() - j,
        {
            let c = &self.cells[j];
            out.push(Sighting { position: c.position, mature: c.mature, action: c.action, energy: c.energy });
            j = j + 1;
        }
        out
    }
}

impl World {
    /// The decision, action, movement and metabolism of every cell, in
    /// order, against `snapshot`. Food eaten is marked in `eaten`; births are
    /// returned as pairs of (parent index, mate index), to apply later.
    fn run_cells(&mut self, snapshot: &Vec<Sighting>, eaten: &mut Vec<bool>, config: &GameConfig, dt: i64) -> (births: Vec<(usize, usize)>)
        requires
            old(self).wf(),
            config.wf(),
            0 <= dt <= MAX_DT,
            old(eaten).len() == old(self).foods.len(),
            forall|j: int| 0 <= j < snapshot.len() ==> (#[trigger] snapshot@[j]).position.wf(),
            snapshot.len() == old(self).cells.len(),
            forall|j: int| 0 <= j < snapshot.len() ==> #[trigger] snapshot@[j] == sighting_of(old(self).cells@[j]),
        ensures
            final(self).wf(),
            final(self).cells.len() == old(self).cells.len(),
            forall|b: int| 0 <= b < births.len() ==> mating_pair(old(self).cells@, (#[trigger] births@[b]).0 as int, births@[b].1 as int, *config),
            forall|k: int| 0 <= k < final(self).cells.len() ==> (#[trigger] final(self).cells@[k]).id == old(self).cells@[k].id,
            forall|k: int| 0 <= k < final(self).cells.len() ==> stepped(old(self).cells@[k], #[trigger] final(self).cells@[k], *config, dt as int),
            final(self).foods@ == old(self).foods@,
            final(self).next_id == old(self).next_id,
            final(self).current_day == old(self).current_day,
            final(self).dead_cells == old(self).dead_cells,
            final(self).day_clock == old(self).day_clock,
            final(eaten).len() == old(eaten).len(),
            forall|q: int| 0 <= q < final(eaten).len() && #[trigger] final(eaten)@[q] && !old(eaten)@[q]
                ==> near_some_cell(old(self).cells@, old(self).foods@[q].position, old(self).cells.len() as int),
            forall|q: int| 0 <= q < final(eaten).len() && old(eaten)@[q] ==> #[trigger] final(eaten)@[q],
            forall|b: int| 0 <= b < births.len() ==> (#[trigger] births@[b]).0 < final(self).cells.len() && births@[b].1 < snapshot.len(),
            forall|a: int, b: int| 0 <= a < b < births.len() ==> (#[trigger] births@[a]).0 < (#[trigger] births@[b]).0,
    {
        let ghost eaten_start = eaten@;
        let ghost start = *self;
        let n = self.cells.len();
        let hw = config.map_width / 2;
        let hh = config.map_height / 2;
        let mut births: Vec<(usize, usize)> = Vec::new();
        let mut i: usize = 0;
        while i < n
            invariant
                config.wf(),
                0 <= dt <= MAX_DT,
                hw == config.map_width / 2,
                hh == config.map_height / 2,
                n == self.cells.len(),
                n == start.cells.len(),
                i <= n,
                forall|k: int| 0 <= k < n ==> (#[trigger] self.cells@[k]).wf(),
                forall|k: int| 0 <= k < n ==> (#[trigger] self.cells@[k]).id == start.cells@[k].id,
                self.foods@ == start.foods@,
                self.next_id == start.next_id,
                self.current_day == start.current_day,
                self.dead_cells == start.dead_cells,
                self.day_clock == start.day_clock,
                eaten.len() == self.foods.len(),
                forall|k: int| 0 <= k < self.foods.len() ==> (#[trigger] self.foods@[k]).position.wf(),
                forall|j: int| 0 <= j < snapshot.len() ==> (#[trigger] snapshot@[j]).position.wf(),
                forall|b: int| 0 <= b < births.len() ==> (#[trigger] births@[b]).0 < i && births@[b].1 < snapshot.len(),
                snapshot.len() == n,
                forall|j: int| 0 <= j < snapshot.len() ==> #[trigger] snapshot@[j] == sighting_of(start.cells@[j]),
                forall|b: int| 0 <= b < births.len() ==> mating_pair(start.cells@, (#[trigger] births@[b]).0 as int, births@[b].1 as int, *config),
                forall|a: int, b: int| 0 <= a < b < births.len() ==> (#[trigger] births@[a]).0 < (#[trigger] births@[b]).0,
                forall|k: int| 0 <= k < i ==> stepped(start.cells@[k], #[trigger] self.cells@[k], *config, dt as int),
                forall|k: int| i <= k < n ==> #[trigger] self.cells@[k] == start.cells@[k],
                eaten_start.len() == eaten.len(),
                forall|q: int| 0 <= q < eaten.len() && #[trigger] eaten@[q] && !eaten_start[q]
                    ==> near_some_cell(start.cells@, start.foods@[q].position, i as int),
                forall|q: int| 0 <= q < eaten.len() && eaten_start[q] ==> #[trigger] eaten@[q],
            decreases n - i,
        {
            let ghost c0 = self.cells@[i as int];
            self.cells[i].process_brain(&mut self.rng);
            let ghost cd = self.cells@[i as int];
            let ghost e_prev = eaten@;
            let mate = act(&mut self.cells[i], i, snapshot, &self.foods, eaten, config, &mut self.rng);
            proof {
                assert(cd.position == start.cells@[i as int].position);
                assert forall|q: int| 0 <= q < eaten.len() && #[trigger] eaten@[q] && !eaten_start[q]
                    implies near_some_cell(start.cells@, start.foods@[q].position, i + 1) by {
                    if e_prev[q] {
                        let i2 = choose|i2: int| 0 <= i2 < i && dist2((#[trigger] start.cells@[i2]).position, start.foods@[q].position) < ONE * ONE;
                        assert(0 <= i2 < i + 1 && dist2(start.cells@[i2].position, start.foods@[q].position) < ONE * ONE);
                    } else {
                        assert(cd.action == Action::SeekFood);
                        assert(seek_food_post(cd, self.cells@[i as int], self.foods@, e_prev, eaten@, *config));
                        if !(exists|k: int| food_in_view(cd, self.foods@, e_prev, k)) {
                            assert(forall|k: int| !food_in_view(cd, self.foods@, e_prev, k));
                            assert(eaten@ == e_prev);
                        }
                        let k = choose|k: int| #[trigger] nearest_food(cd, self.foods@, e_prev, k) && if dist2(cd.position, self.foods@[k].position) < ONE * ONE {
                            eaten@ == e_prev.update(k, true) && self.cells@[i as int] == fed(cd)
                        } else {
                            eaten@ == e_prev && self.cells@[i as int] == (Cell { target_location: Some(self.foods@[k].position), ..cd })
                        };
                        assert(q == k);
                        assert(dist2(start.cells@[i as int].position, start.foods@[q].position) < ONE * ONE);
                    }
                }
                assert forall|q: int| 0 <= q < eaten.len() && eaten_start[q] implies #[trigger] eaten@[q] by {
                    assert(e_prev[q]);
                    if cd.action == Action::SeekFood {
                        if exists|k: int| food_in_view(cd, self.foods@, e_prev, k) {
                            let k = choose|k: int| #[trigger] nearest_food(cd, self.foods@, e_prev, k) && if dist2(cd.position, self.foods@[k].position) < ONE * ONE {
                                eaten@ == e_prev.update(k, true) && self.cells@[i as int] == fed(cd)
                            } else {
                                eaten@ == e_prev && self.cells@[i as int] == (Cell { target_location: Some(self.foods@[k].position), ..cd })
                            };
                        }
                    }
                }
            }
            let ghost ca = self.cells@[i as int];
            let ghost e_after = eaten@;
            if self.cells[i].action != Action::Idle {
                self.cells[i].movement(hw, hh, dt);
            }
            let ghost c1 = self.cells@[i as int];
            self.cells[i].process_metabolism(dt);
            proof {
                assert(metabolized(c1, dt as int) == self.cells@[i as int]);
                assert(c0 == start.cells@[i as int]);
                assert(decided(c0, cd));
                assert(acted(cd, ca, *config)) by {
                    if cd.action == Action::SeekFood {
                        if exists|k: int| food_in_view(cd, self.foods@, e_prev, k) {
                            let k = choose|k: int| #[trigger] nearest_food(cd, self.foods@, e_prev, k) && if dist2(cd.position, self.foods@[k].position) < ONE * ONE {
                                e_after == e_prev.update(k, true) && ca == fed(cd)
                            } else {
                                e_after == e_prev && ca == (Cell { target_location: Some(self.foods@[k].position), ..cd })
                            };
                            if dist2(cd.position, self.foods@[k].position) >= ONE * ONE {
                                let p = self.foods@[k].position;
                                assert(sees(&cd, p) && Some(p) == ca.target_location && ca == (Cell { target_location: Some(p), ..cd }));
                            }
                        } else {
                            assert(forall|k: int| !food_in_view(cd, self.foods@, e_prev, k));
                        }
                    } else if cd.action == Action::SeekMate {
                        if exists|j: int| 0 <= j < snapshot@.len() && #[trigger] is_mate(&cd, i as int, j, snapshot@[j], *config) {
                            let j = choose|j: int| #[trigger] nearest_mate(cd, i as int, snapshot@, *config, j)
                                && ca == (Cell { target_location: Some(snapshot@[j].position), ..cd })
                                && mate == (if ready_to_mate(cd, dist2(cd.position, snapshot@[j].position), *config) { Some(j as usize) } else { None });
                            let p = snapshot@[j].position;
                            assert(sees(&cd, p) && Some(p) == ca.target_location && ca == (Cell { target_location: Some(p), ..cd }));
                        } else {
                            assert(forall|j: int| 0 <= j < snapshot@.len() ==> !#[trigger] is_mate(&cd, i as int, j, snapshot@[j], *config));
                        }
                    }
                }
                assert(moved_by(ca, c1, *config, dt as int));
                assert(stepped(c0, self.cells@[i as int], *config, dt as int));
            }
            match mate {
                Some(j) => {
                    proof {
                        assert(snapshot@[j as int] == sighting_of(start.cells@[j as int]));
                        assert(mating_pair(start.cells@, i as int, j as int, *config));
                    }
                    births.push((i, j));
                },
                None => {},
            }
            i = i + 1;
        }
        proof {
            assert forall|a: int, b: int| 0 <= a < b < self.cells.len() implies #[trigger] self.cells@[a].id < #[trigger] self.cells@[b].id by {
                assert(start.cells@[a].id < start.cells@[b].id);
            }
            assert forall|k: int| 0 <= k < self.cells.len() implies (#[trigger] self.cells@[k]).id < self.next_id by {
                assert(start.cells@[k].id < start.next_id);
            }
        }
        births
    }
}

impl World {
    /// Applies the births requested in a tick, in order. A birth goes ahead
    /// while the parent can still pay for it and the mate is alive; each
    /// child takes the next id. Children are returned, not yet added.
    fn apply_births(&mut self, births: &Vec<(usize, usize)>, config: &GameConfig) -> (children: Vec<Cell>)
        requires
            old(self).wf(),
            config.wf(),
            forall|b: int| 0 <= b < births.len() ==> (#[trigger] births@[b]).0 < old(self).cells.len() && births@[b].1 < old(self).cells.len(),
            forall|a: int, b: int| 0 <= a < b < births.len() ==> (#[trigger] births@[a]).0 < (#[trigger] births@[b]).0,
        ensures
            final(self).wf(),
            final(self).cells.len() == old(self).cells.len(),
            final(self).foods@ == old(self).foods@,
            final(self).current_day == old(self).current_day,
            final(self).dead_cells == old(self).dead_cells,
            final(self).day_clock == old(self).day_clock,
            final(self).next_id == old(self).next_id + children.len(),
            forall|k: int| 0 <= k < final(self).cells.len() ==> (#[trigger] final(self).cells@[k]).id == old(self).cells@[k].id,
            forall|k: int| 0 <= k < final(self).cells.len() ==> #[trigger] final(self).cells@[k] == old(self).cells@[k]
                || final(self).cells@[k] == paid(old(self).cells@[k]),
            forall|m: int| 0 <= m < children.len() ==> (#[trigger] children@[m]).wf()
                && children@[m].id == old(self).next_id + m
                && children@[m].health == MAX_LEVEL,
            forall|m: int| 0 <= m < children.len() ==> child_of_pair(#[trigger] children@[m], old(self).cells@, final(self).cells@, births@, config.mutation_rate),
    {
        let ghost start = *self;
        let n = self.cells.len();
        let mut children: Vec<Cell> = Vec::new();
        let mut b: usize = 0;
        while b < births.len()
            invariant
                config.wf(),
                self.wf(),
                start.wf(),
                n == self.cells.len(),
                n == start.cells.len(),
                forall|q: int| 0 <= q < births.len() ==> (#[trigger] births@[q]).0 < n && births@[q].1 < n,
                forall|a: int, q: int| 0 <= a < q < births.len() ==> (#[trigger] births@[a]).0 < (#[trigger] births@[q]).0,
                forall|k: int| 0 <= k < n ==> (#[trigger] self.cells@[k]).id == start.cells@[k].id,
                forall|k: int| 0 <= k < n ==> #[trigger] self.cells@[k] == start.cells@[k] || self.cells@[k] == paid(start.cells@[k]),
                forall|q: int| b <= q < births.len() ==> self.cells@[(#[trigger] births@[q]).0 as int] == start.cells@[births@[q].0 as int],
                self.foods@ == start.foods@,
                self.current_day == start.current_day,
                self.dead_cells == start.dead_cells,
                self.day_clock == start.day_clock,
                self.next_id == start.next_id + children.len(),
                b <= births.len(),
                forall|m: int| 0 <= m < children.len() ==> (#[trigger] children@[m]).wf()
                    && children@[m].id == start.next_id + m
                    && children@[m].health == MAX_LEVEL,
                forall|m: int| 0 <= m < children.len() ==> child_of_pair(#[trigger] children@[m], start.cells@, self.cells@, births@, config.mutation_rate),
            decreases births.len() - b,
        {
            let (i, j) = births[b];
            if i != j && self.next_id < u64::MAX && self.cells[j].health > 0
                && self.cells[i].energy >= self.cells[i].genes.birth_energy_loss
                && self.cells[i].offspring_count < i64::MAX {
                let ghost before = self.cells@;
                let ghost kids0 = children@;
                assert(before[i as int] == start.cells@[i as int]);
                let mut parent = self.cells.remove(i);
                let jj = if j > i { j - 1 } else { j };
                assert(self.cells@[jj as int] == before[j as int]);
                let child = parent.create_offspring(&self.cells[jj], self.next_id, &mut self.rng, config.mutation_rate);
                self.cells.insert(i, parent);
                proof {
                    assert(self.cells@ =~= before.update(i as int, parent));
                    assert(before[j as int].id == start.cells@[j as int].id);
                    assert(before[j as int].genes == start.cells@[j as int].genes);
                    assert(before[j as int].generation == start.cells@[j as int].generation);
                    assert(born_of(child, start.cells@[i as int], start.cells@[j as int], config.mutation_rate));
                }
                children.push(child);
                self.next_id = self.next_id + 1;
                proof {
                    assert forall|a: int, c: int| 0 <= a < c < self.cells.len() implies #[trigger] self.cells@[a].id < #[trigger] self.cells@[c].id by {
                        assert(before[a].id < before[c].id);
                    }
                    assert forall|k: int| 0 <= k < self.cells.len() implies (#[trigger] self.cells@[k]).id < self.next_id by {
                        assert(before[k].id < self.next_id - 1);
                    }
                    assert forall|k: int| 0 <= k < self.cells.len() implies (#[trigger] self.cells@[k]).wf() by {
                        assert(before[k].wf());
                    }
                    assert forall|m: int| 0 <= m < children.len() implies child_of_pair(#[trigger] children@[m], start.cells@, self.cells@, births@, config.mutation_rate) by {
                        if m < kids0.len() {
                            assert(children@[m] == kids0[m]);
                            assert(child_of_pair(kids0[m], start.cells@, before, births@, config.mutation_rate));
                            let b2 = choose|b2: int| 0 <= b2 < births@.len() && ({
                                let i2 = (#[trigger] births@[b2]).0 as int;
                                let j2 = births@[b2].1 as int;
                                &&& i2 < start.cells@.len() && j2 < start.cells@.len() && i2 != j2
                                &&& before[i2] == paid(start.cells@[i2])
                                &&& born_of(kids0[m], start.cells@[i2], start.cells@[j2], config.mutation_rate)
                            });
                            let i2 = births@[b2].0 as int;
                            assert(i2 != i) by {
                                if i2 == i as int {
                                    assert(paid(start.cells@[i2]).offspring_count != start.cells@[i2].offspring_count);
                                }
                            }
                            assert(self.cells@[i2] == before[i2]);
                        } else {
                            assert(children@[m] == child);
                            assert(self.cells@[i as int] == paid(start.cells@[i as int]));
                            assert(births@[b as int] == (i, j));
                        }
                    }
                    assert forall|q: int| b + 1 <= q < births.len() implies self.cells@[(#[trigger] births@[q]).0 as int] == start.cells@[births@[q].0 as int] by {
                        assert(births@[b as int].0 < births@[q].0);
                    }
                }
            } else {
                proof {
                    assert forall|q: int| b + 1 <= q < births.len() implies self.cells@[(#[trigger] births@[q]).0 as int] == start.cells@[births@[q].0 as int] by {
                    }
                }
            }
            b = b + 1;
        }
        children
    }

    /// Removes every cell without health, counting it as dead, then adds
    /// `children` at the end.
    fn cull_and_add(&mut self, children: Vec<Cell>)
        requires
            old(self).wf(),
            forall|k: int| 0 <= k < children.len() ==> (#[trigger] children@[k]).wf()
                && children@[k].id >= old(self).next_id - children.len()
                && children@[k].id < old(self).next_id
                && children@[k].health > 0,
            forall|a: int, b: int| 0 <= a < b < children.len() ==> #[trigger] children@[a].id < #[trigger] children@[b].id,
            forall|k: int| 0 <= k < old(self).cells.len() ==> (#[trigger] old(self).cells@[k]).id < old(self).next_id - children.len(),
        ensures
            final(self).wf(),
            forall|k: int| 0 <= k < final(self).cells.len() ==> (#[trigger] final(self).cells@[k]).health > 0,
            forall|k: int| 0 <= k < final(self).cells.len() ==> had_id(old(self).cells@, #[trigger] final(self).cells@[k].id)
                || had_id(children@, final(self).cells@[k].id),
            final(self).cells@ == survivors(old(self).cells@, old(self).cells.len() as int) + children@,
            final(self).dead_cells == saturating_sum(old(self).dead_cells as int, dead_count(old(self).cells@, old(self).cells.len() as int)),
            final(self).foods@ == old(self).foods@,
            final(self).next_id == old(self).next_id,
            final(self).current_day == old(self).current_day,
            final(self).day_clock == old(self).day_clock,
    {
        let ghost start = *self;
        let ghost base = (old(self).next_id - children.len()) as int;
        let mut rest: Vec<Cell> = Vec::new();
        std::mem::swap(&mut self.cells, &mut rest);
        let ghost all = rest@;
        assert(all.subrange(0, all.len() as int) =~= all);
        let mut kept: Vec<Cell> = Vec::new();
        while rest.len() > 0
            invariant
                rest.len() <= all.len(),
                rest@ == all.subrange(all.len() - rest.len(), all.len() as int),
                all == start.cells@,
                self.cells@.len() == 0,
                self.foods@ == start.foods@,
                self.next_id == start.next_id,
                self.current_day == start.current_day,
                self.day_clock == start.day_clock,
                0 <= self.day_clock <= DAY_CLOCK_LIMIT,
                0 <= self.current_day,
                forall|k: int| 0 <= k < self.foods.len() ==> (#[trigger] self.foods@[k]).position.wf(),
                start.wf(),
                forall|k: int| 0 <= k < all.len() ==> (#[trigger] all[k]).id < base,
                forall|k: int| 0 <= k < kept.len() ==> (#[trigger] kept@[k]).wf() && kept@[k].health > 0 && kept@[k].id < base,
                forall|k: int| 0 <= k < kept.len() ==> had_id(all, #[trigger] kept@[k].id),
                ids_increasing(kept@),
                forall|a: int, q: int| 0 <= a < kept.len() && 0 <= q < rest.len() ==> #[trigger] kept@[a].id < #[trigger] rest@[q].id,
                kept@ == survivors(all, all.len() - rest.len()),
                self.dead_cells == saturating_sum(start.dead_cells as int, dead_count(all, all.len() - rest.len())),
            decreases rest.len(),
        {
            let ghost r0 = rest@;
            let ghost done = all.len() - r0.len();
            let c = rest.remove(0);
            proof {
                assert(r0[0] == all[done]);
                assert(done + 1 == all.len() - rest.len());
            }
            proof {
                assert(rest@ =~= all.subrange(all.len() - rest.len(), all.len() as int));
                assert(c == r0[0]);
                assert forall|q: int| 0 <= q < rest.len() implies c.id < #[trigger] rest@[q].id by {
                    assert(rest@[q] == r0[q + 1]);
                    let off = all.len() - r0.len();
                    assert(r0[0] == all[off]);
                    assert(r0[q + 1] == all[off + q + 1]);
                }
                assert forall|a: int, q: int| 0 <= a < kept.len() && 0 <= q < rest.len() implies #[trigger] kept@[a].id < #[trigger] rest@[q].id by {
                    assert(rest@[q] == r0[q + 1]);
                }
                assert(c.wf()) by {
                    let off = all.len() - r0.len();
                    assert(r0[0] == all[off]);
                }
                assert(c.id < base) by {
                    let off = all.len() - r0.len();
                    assert(r0[0] == all[off]);
                }
                assert(had_id(all, c.id)) by {
                    let off = all.len() - r0.len();
                    assert(r0[0] == all[off]);
                }
            }
            if c.health > 0 {
                let ghost k0 = kept@;
                kept.push(c);
                proof {
                    assert forall|a: int| 0 <= a < k0.len() implies #[trigger] k0[a].id < c.id by {
                        assert(r0[0] == c);
                    }
                }
            } else {
                if self.dead_cells < u64::MAX {
                    self.dead_cells = self.dead_cells + 1;
                }
            }
            proof {
                lemma_dead_count_nonneg(all, done);
                assert(dead_count(all, done + 1) == dead_count(all, done) + if all[done].health > 0 { 0int } else { 1int });
                assert(survivors(all, done + 1) == if all[done].health > 0 { survivors(all, done).push(all[done]) } else { survivors(all, done) });
            }
        }
        let ghost k0 = kept@;
        let mut children = children;
        let ghost c0 = children@;
        kept.append(&mut children);
        proof {
            assert(kept@ == k0 + c0);
            assert forall|a: int, b: int| 0 <= a < b < kept.len() implies #[trigger] kept@[a].id < #[trigger] kept@[b].id by {
                if b < k0.len() {
                    assert(k0[a].id < k0[b].id);
                } else if a >= k0.len() {
                    assert(c0[a - k0.len()].id < c0[b - k0.len()].id);
                } else {
                    assert(k0[a].id < base);
                    assert(c0[b - k0.len()].id >= base);
                }
            }
            assert forall|q: int| 0 <= q < kept.len() implies (#[trigger] kept@[q]).wf() && kept@[q].health > 0 && kept@[q].id < start.next_id by {
                if q < k0.len() {
                    assert(k0[q].wf());
                } else {
                    assert(c0[q - k0.len()].wf());
                }
            }
            assert forall|q: int| 0 <= q < kept.len() implies had_id(start.cells@, #[trigger] kept@[q].id) || had_id(c0, kept@[q].id) by {
                if q < k0.len() {
                    assert(had_id(all, k0[q].id));
                } else {
                    assert(c0[q - k0.len()] == kept@[q]);
                }
            }
        }
        self.cells = kept;
    }
}

/// The foods among the first `n` that were not eaten, in order.
pub open spec fn uneaten(foods: Seq<Food>, eaten: Seq<bool>, n: int) -> Seq<Food>
    decreases n,
{
    if n <= 0 {
        Seq::empty()
    } else if eaten[n - 1] {
        uneaten(foods, eaten, n - 1)
    } else {
        uneaten(foods, eaten, n - 1).push(foods[n - 1])
    }
}

impl World {
    /// Removes the foods marked in `eaten`, keeping the order of the others.
    fn remove_eaten(&mut self, eaten: &Vec<bool>)
        requires
            old(self).wf(),
            eaten.len() == old(self).foods.len(),
        ensures
            final(self).wf(),
            final(self).foods@ == uneaten(old(self).foods@, eaten@, eaten.len() as int),
            final(self).cells@ == old(self).cells@,
            final(self).next_id == old(self).next_id,
            final(self).current_day == old(self).current_day,
            final(self).dead_cells == old(self).dead_cells,
            final(self).day_clock == old(self).day_clock,
    {
        let mut kept: Vec<Food> = Vec::new();
        let mut k: usize = 0;
        while k < self.foods.len()
            invariant
                eaten.len() == self.foods.len(),
                k <= self.foods.len(),
                kept@ == uneaten(self.foods@, eaten@, k as int),
                forall|q: int| 0 <= q < self.foods.len() ==> (#[trigger] self.foods@[q]).position.wf(),
                forall|q: int| 0 <= q < kept.len() ==> (#[trigger] kept@[q]).position.wf(),
            decreases self.foods.len() - k,
        {
            if !eaten[k] {
                kept.push(self.foods[k]);
            }
            k = k + 1;
        }
        self.foods = kept;
    }

    /// One simulation step of `dt` ms. A snapshot of every cell is taken
    /// first; then each cell in turn decides, acts against that snapshot,
    /// moves and metabolises. Births, the removal of cells without health and
    /// the removal of eaten food are applied after the whole pass.
    pub fn tick(&mut self, config: &GameConfig, dt: i64)
        requires
            old(self).wf(),
            config.wf(),
            0 <= dt <= MAX_DT,
        ensures
            final(self).wf(),
            forall|k: int| 0 <= k < final(self).cells.len() ==> (#[trigger] final(self).cells@[k]).health > 0,
            // A cell after the tick is one from before it, or a child with an
            // id never given out before.
            forall|k: int| 0 <= k < final(self).cells.len() ==> had_id(old(self).cells@, #[trigger] final(self).cells@[k].id)
                || (old(self).next_id <= final(self).cells@[k].id < final(self).next_id),
            final(self).next_id >= old(self).next_id,
            final(self).foods.len() <= old(self).foods.len(),
            final(self).current_day == old(self).current_day,
            final(self).day_clock == old(self).day_clock,
            exists|after_step: Seq<Cell>, charged: Seq<Cell>, births: Seq<(usize, usize)>, kids: Seq<Cell>, eaten: Seq<bool>|
                tick_post(old(self), final(self), *config, dt as int, after_step, charged, births, kids, eaten),
    {
        let ghost w0 = *self;
        let ghost cells0 = self.cells@;
        let ghost next0 = self.next_id;
        let snapshot = self.sightings();
        let mut eaten: Vec<bool> = Vec::new();
        let mut k: usize = 0;
        while k < self.foods.len()
            invariant
                k <= self.foods.len(),
                eaten.len() == k,
                forall|q: int| 0 <= q < k ==> !(#[trigger] eaten@[q]),
            decreases self.foods.len() - k,
        {
            eaten.push(false);
            k = k + 1;
        }
        let ghost foods0 = self.foods@;
        let births = self.run_cells(&snapshot, &mut eaten, config, dt);
        let ghost after_step = self.cells@;
        let children = self.apply_births(&births, config);
        let ghost charged = self.cells@;
        let ghost cells1 = self.cells@;
        let ghost kids = children@;
        self.cull_and_add(children);
        self.remove_eaten(&eaten);
        proof {
            assert(tick_post(&w0, self, *config, dt as int, after_step, charged, births@, kids, eaten@));
            lemma_uneaten_len(foods0, eaten@, eaten.len() as int);
            assert forall|k: int| 0 <= k < self.cells.len() implies had_id(cells0, #[trigger] self.cells@[k].id)
                || (next0 <= self.cells@[k].id < self.next_id) by {
                let id = self.cells@[k].id;
                if had_id(cells1, id) {
                    let q = choose|q: int| 0 <= q < cells1.len() && (#[trigger] cells1[q]).id == id;
                    assert(cells0[q].id == id);
                } else {
                    let q = choose|q: int| 0 <= q < kids.len() && (#[trigger] kids[q]).id == id;
                    assert(kids[q].id == next0 + q);
                }
            }
        }
    }

    /// A day passes: the day count grows, `foods_per_day` foods appear at
    /// random positions, and every cell ages by one day.
    pub fn day_tick(&mut self, config: &GameConfig)
        requires
            old(self).wf(),
            config.wf(),
        ensures
            final(self).wf(),
            final(self).current_day == (if old(self).current_day < i64::MAX { old(self).current_day + 1 } else { old(self).current_day as int }),
            final(self).foods.len() == old(self).foods.len() + config.foods_per_day,
            final(self).cells.len() == old(self).cells.len(),
            forall|k: int| 0 <= k < final(self).cells.len() ==> #[trigger] final(self).cells@[k] == aged(old(self).cells@[k]),
            final(self).foods@.take(old(self).foods.len() as int) == old(self).foods@,
            forall|k: int| old(self).foods.len() <= k < final(self).foods.len() ==> config.spawnable((#[trigger] final(self).foods@[k]).position),
            final(self).day_clock == old(self).day_clock,
            final(self).next_id == old(self).next_id,
            final(self).dead_cells == old(self).dead_cells,
    {
        if self.current_day < i64::MAX {
            self.current_day = self.current_day + 1;
        }
        let ghost start = *self;
        let mut f: i64 = 0;
        while f < config.foods_per_day
            invariant
                self.wf(),
                config.wf(),
                0 <= f <= config.foods_per_day,
                self.foods.len() == start.foods.len() + f,
                self.foods@.take(start.foods.len() as int) == start.foods@,
                forall|k: int| start.foods.len() <= k < self.foods.len() ==> config.spawnable((#[trigger] self.foods@[k]).position),
                self.dead_cells == start.dead_cells,
                self.cells@ == start.cells@,
                self.current_day == start.current_day,
                self.next_id == start.next_id,
                self.day_clock == start.day_clock,
            decreases config.foods_per_day - f,
        {
            let ghost f0 = self.foods@;
            self.spawn_food(config);
            proof {
                assert forall|k: int| start.foods.len() <= k < self.foods.len() implies config.spawnable((#[trigger] self.foods@[k]).position) by {
                    if k < f0.len() {
                        assert(self.foods@[k] == self.foods@.take(f0.len() as int)[k]);
                    }
                }
                assert(self.foods@.take(start.foods.len() as int) =~= f0.take(start.foods.len() as int));
            }
            f = f + 1;
        }
        let ghost mid = *self;
        let n = self.cells.len();
        let mut i: usize = 0;
        while i < n
            invariant
                n == self.cells.len(),
                n == mid.cells.len(),
                i <= n,
                mid.wf(),
                forall|k: int| 0 <= k < n ==> (#[trigger] self.cells@[k]).wf(),
                forall|k: int| 0 <= k < n ==> (#[trigger] self.cells@[k]).id == mid.cells@[k].id,
                forall|k: int| 0 <= k < i ==> #[trigger] self.cells@[k] == aged(mid.cells@[k]),
                self.dead_cells == mid.dead_cells,
                forall|k: int| i <= k < n ==> (#[trigger] self.cells@[k]) == mid.cells@[k],
                self.foods@ == mid.foods@,
                self.current_day == mid.current_day,
                self.next_id == mid.next_id,
                self.day_clock == mid.day_clock,
            decreases n - i,
        {
            self.cells[i].grow_older();
            i = i + 1;
        }
        proof {
            assert forall|a: int, b: int| 0 <= a < b < self.cells.len() implies #[trigger] self.cells@[a].id < #[trigger] self.cells@[b].id by {
                assert(mid.cells@[a].id < mid.cells@[b].id);
            }
            assert forall|k: int| 0 <= k < self.cells.len() implies (#[trigger] self.cells@[k]).id < self.next_id by {
                assert(mid.cells@[k].id < mid.next_id);
            }
        }
    }

    /// Advances the simulation by `dt` ms: one `tick`, and a `day_tick`
    /// whenever a full `day_length` has gone by on the day clock (which
    /// stops at `DAY_CLOCK_LIMIT`).
    pub fn update(&mut self, config: &GameConfig, dt: i64)
        requires
            old(self).wf(),
            config.wf(),
            0 <= dt <= MAX_DT,
        ensures
            final(self).wf(),
            ({
                let clock = if old(self).day_clock <= DAY_CLOCK_LIMIT - dt { old(self).day_clock + dt } else { DAY_CLOCK_LIMIT as int };
                let new_day = if old(self).current_day < i64::MAX { old(self).current_day + 1 } else { old(self).current_day as int };
                if clock >= config.day_length {
                    final(self).day_clock == clock - config.day_length && final(self).current_day == new_day
                } else {
                    final(self).day_clock == clock && final(self).current_day == old(self).current_day
                }
            }),
            forall|k: int| 0 <= k < final(self).cells.len() ==> had_id(old(self).cells@, #[trigger] final(self).cells@[k].id)
                || (old(self).next_id <= final(self).cells@[k].id < final(self).next_id),
            exists|mid: World, after_step: Seq<Cell>, charged: Seq<Cell>, births: Seq<(usize, usize)>, kids: Seq<Cell>, eaten: Seq<bool>|
                tick_post(old(self), &mid, *config, dt as int, after_step, charged, births, kids, eaten)
                && day_post(&mid, final(self), *config, advanced_clock(old(self).day_clock, dt) >= config.day_length),
    {
        let ghost w0 = *self;
        self.tick(config, dt);
        let ghost mid = *self;
        let ghost (after_step, charged, births, kids, eaten) = choose|after_step: Seq<Cell>, charged: Seq<Cell>, births: Seq<(usize, usize)>, kids: Seq<Cell>, eaten: Seq<bool>|
            tick_post(&w0, &mid, *config, dt as int, after_step, charged, births, kids, eaten);
        let clock = if self.day_clock <= DAY_CLOCK_LIMIT - dt { self.day_clock + dt } else { DAY_CLOCK_LIMIT };
        if clock >= config.day_length {
            self.day_clock = clock - config.day_length;
            self.day_tick(config);
        } else {
            self.day_clock = clock;
        }
        proof {
            assert(tick_post(&w0, &mid, *config, dt as int, after_step, charged, births, kids, eaten));
            assert(day_post(&mid, self, *config, advanced_clock(w0.day_clock, dt) >= config.day_length));
        }
    }
}

/// In a well-formed world every cell's health, energy and hunger lie
/// within `[0, MAX_LEVEL]`; `new`, `tick`, `day_tick` and `update` keep the
/// world well formed.
pub proof fn lemma_levels_within_bounds(w: &World)
    requires
        w.wf(),
    ensures
        forall|k: int| 0 <= k < w.cells.len() ==> 0 <= (#[trigger] w.cells@[k]).health <= MAX_LEVEL
            && 0 <= w.cells@[k].energy <= MAX_LEVEL
            && 0 <= w.cells@[k].hunger <= MAX_LEVEL,
{
    assert forall|k: int| 0 <= k < w.cells.len() implies 0 <= (#[trigger] w.cells@[k]).health <= MAX_LEVEL
        && 0 <= w.cells@[k].energy <= MAX_LEVEL && 0 <= w.cells@[k].hunger <= MAX_LEVEL by {
        assert(w.cells@[k].wf());
    }
}

/// In a well-formed world no two cells share an id, and every id is below
/// `next_id`, which never decreases; so a child, which takes `next_id`, is
/// never given an id already used.
pub proof fn lemma_ids_unique(w: &World)
    requires
        w.wf(),
    ensures
        forall|a: int, b: int| 0 <= a < w.cells.len() && 0 <= b < w.cells.len() && a != b
            ==> #[trigger] w.cells@[a].id != #[trigger] w.cells@[b].id,
        forall|k: int| 0 <= k < w.cells.len() ==> (#[trigger] w.cells@[k]).id < w.next_id,
{
    assert forall|a: int, b: int| 0 <= a < w.cells.len() && 0 <= b < w.cells.len() && a != b
        implies #[trigger] w.cells@[a].id != #[trigger] w.cells@[b].id by {
        if a < b {
            assert(w.cells@[a].id < w.cells@[b].id);
        } else {
            assert(w.cells@[b].id < w.cells@[a].id);
        }
    }
}

proof fn lemma_uneaten_len(foods: Seq<Food>, eaten: Seq<bool>, n: int)
    requires
        0 <= n,
    ensures
        uneaten(foods, eaten, n).len() <= n,
    decreases n,
{
    if n > 0 {
        lemma_uneaten_len(foods, eaten, n - 1);
    }
}

} // verus!
