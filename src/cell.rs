//! A cell's runtime state and its lifecycle operations: deciding an action,
//! idling, eating, picking a wander target, moving, metabolising, ageing and
//! reproducing.
//!
//! Resource levels (`health`, `energy`, `hunger`) are counted in millionths
//! (`LEVEL_ONE` is 1.0) and held within `[0, MAX_LEVEL]` (100.0), fine
//! enough that a per-second rate in thousandths times a step in milliseconds
//! is an exact amount. Durations are in milliseconds.
use crate::fixed::{ceil_root, ceil_sqrt, clamp, clamp_spec, div_toward_zero, lemma_clamped_move, lemma_scaled_quotient, lemma_scaled_vector_within, lemma_unit_within_rounding, tdiv, ONE};
use crate::genes::Genes;
use crate::neural_network::{from_either, bounded, draw_many, lemma_mutation_is_small, mutated_from, perturb, NeuralNetwork, INPUT_LIMIT, MUTATION_STEP};
use crate::perception::{within_bounds, bounds_wf, cone_point, dist2, heading_wf, in_cone, lemma_square_bound, random_point_in_cone, within_vision_cone, Point};
use crate::random::draw;
use rand_chacha::ChaCha12Rng;
use vstd::prelude::*;

verus! {

/// One unit of a resource level.
pub const LEVEL_ONE: i64 = 1_000_000;
/// Upper bound of every resource level: 100.0.
pub const MAX_LEVEL: i64 = 100_000_000;
/// Number of network inputs, hidden units and outputs of a cell's brain.
pub const BRAIN_INPUTS: usize = 9;
pub const BRAIN_HIDDEN: usize = 10;
pub const BRAIN_OUTPUTS: usize = 4;
/// Below this energy (30.0) a cell counts as tired.
pub const LOW_ENERGY: i64 = 30_000_000;
/// Below this hunger (30.0) a resting cell heals.
pub const LOW_HUNGER: i64 = 30_000_000;
/// Above this hunger (70.0) a cell counts as starving.
pub const HIGH_HUNGER: i64 = 70_000_000;
/// Above this health (70.0) a cell counts as healthy.
pub const HEALTHY: i64 = 70_000_000;
/// Largest time step that one tick may advance, in milliseconds (about
/// eleven days); beyond it the fixed-point products could overflow.
pub const MAX_DT: i64 = 1_000_000_000;
/// Wait after a birth before the parent may reproduce again (ms).
pub const REPRODUCTION_COOLDOWN: i64 = 5_000;
/// Energy that a meal gives and hunger that it removes (15.0).
pub const MEAL: i64 = 15_000_000;
/// Largest jitter draw, in thousandths (0.1).
pub const JITTER_MAX: i64 = 100;
/// Fitness rewards for a meal and for a birth.
pub const MEAL_REWARD: i64 = 15_000;
pub const BIRTH_REWARD: i64 = 50_000;

/// `fitness` after a reward; the sum stops at `i64::MAX`.
pub open spec fn rewarded(fitness: i64, reward: i64) -> i64 {
    if fitness <= i64::MAX - reward { (fitness + reward) as i64 } else { i64::MAX }
}

fn add_reward(fitness: i64, amount: i64) -> (r: i64)
    requires
        0 <= amount,
    ensures
        r == rewarded(fitness, amount),
{
    if fitness <= i64::MAX - amount { fitness + amount } else { i64::MAX }
}

#[derive(Clone, Copy, Debug, PartialEq, Eq, Structural)]
pub enum Action {
    Idle,
    Wander,
    SeekFood,
    SeekMate,
}

pub struct Cell {
    pub id: u64,
    pub generation: u64,
    /// Ids of the two parents; `None` for a first-generation cell.
    pub parents: Option<(u64, u64)>,
    pub position: Point,
    pub heading: Point,
    pub target_location: Option<Point>,
    pub health: i64,
    pub energy: i64,
    pub hunger: i64,
    /// Age in days.
    pub age: i64,
    pub action: Action,
    pub mature: bool,
    pub is_moving: bool,
    pub offspring_count: i64,
    /// Milliseconds until the cell may reproduce again.
    pub reproduction_cooldown: i64,
    /// Cumulative reward for meals and births; diagnostic only.
    pub fitness: i64,
    pub genes: Genes,
    pub brain: NeuralNetwork,
}

pub open spec fn level_ok(v: i64) -> bool {
    0 <= v <= MAX_LEVEL
}

/// Resource levels held within `[0, MAX_LEVEL]`.
pub open spec fn clamp_level(v: int) -> i64 {
    clamp_spec(v, 0, MAX_LEVEL as int) as i64
}

/// The action for output index `index`: `SeekMate` only for a mature cell,
/// `Idle` otherwise.
pub open spec fn action_for(index: int, mature: bool) -> Action {
    if index == 1 {
        Action::Wander
    } else if index == 2 {
        Action::SeekFood
    } else if index == 3 && mature {
        Action::SeekMate
    } else {
        Action::Idle
    }
}

/// `index` is the first position of a largest element of `s`.
pub open spec fn is_first_max(s: Seq<i64>, index: int) -> bool {
    &&& 0 <= index < s.len()
    &&& (forall|j: int| 0 <= j < s.len() ==> s[j] <= #[trigger] s[index])
    &&& (forall|j: int| 0 <= j < index ==> #[trigger] s[j] < s[index])
}

/// Position of the first largest element.
pub fn argmax(s: &Vec<i64>) -> (r: usize)
    requires
        s.len() >= 1,
    ensures
        is_first_max(s@, r as int),
{
    let mut best: usize = 0;
    let mut k: usize = 1;
    while k < s.len()
        invariant
            1 <= s.len(),
            best < k <= s.len(),
            forall|j: int| 0 <= j < k ==> s@[j] <= #[trigger] s@[best as int],
            forall|j: int| 0 <= j < best ==> #[trigger] s@[j] < s@[best as int],
        decreases s.len() - k,
    {
        if s[k] > s[best] {
            best = k;
        }
        k = k + 1;
    }
    best
}

/// The cell's wish to reproduce: its urge while it has no offspring, half
/// of it with one or two, none from three on; scaled by its weight.
pub open spec fn reproduction_score(c: &Cell) -> int {
    let base: int = if c.offspring_count == 0 {
        c.genes.reproduction_urge as int
    } else if c.offspring_count < 3 {
        c.genes.reproduction_urge / 2
    } else {
        0
    };
    base * c.genes.reproduction_weight / (ONE as int)
}

/// The network inputs of a cell, all in thousandths, under the jitter draw
/// `jitter` (in `[0, JITTER_MAX]`).
pub open spec fn inputs_spec(c: &Cell, jitter: int) -> Seq<i64> {
    seq![
        (c.hunger * c.genes.hunger_weight / (MAX_LEVEL as int)) as i64,
        (c.health / 100_000) as i64,
        (c.energy * c.genes.energy_weight / (MAX_LEVEL as int)) as i64,
        if c.energy < LOW_ENERGY { ONE } else { 0 },
        if c.hunger > HIGH_HUNGER { ONE } else { 0 },
        if c.health > HEALTHY { ONE } else { 0 },
        reproduction_score(c) as i64,
        (c.genes.metabolism / 100) as i64,
        (c.genes.random_weight * jitter / (ONE as int)) as i64,
    ]
}

/// The action a cell decides on under jitter draw `jitter`.
pub open spec fn decision(c: &Cell, jitter: int) -> Action {
    let out = c.brain.feedforward_spec(inputs_spec(c, jitter));
    action_for(choose|i: int| is_first_max(out, i), c.mature)
}

/// Where a step of length `step` from `pos` toward `target` lands, given
/// `len`, the square root of their squared distance rounded up: the full step
/// along the direction (rounded toward zero), which may pass the target, held
/// within the world's bounds. No move when the target is where the cell is.
pub open spec fn moved(pos: Point, target: Point, step: int, len: int, half_width: int, half_height: int) -> Point {
    if len == 0 {
        pos
    } else {
        Point {
            x: clamp_spec(pos.x + tdiv((target.x - pos.x) * step, len), -half_width, half_width) as i64,
            y: clamp_spec(pos.y + tdiv((target.y - pos.y) * step, len), -half_height, half_height) as i64,
        }
    }
}

/// The unit direction (in thousandths) of `(dx, dy)`: the vector over its
/// length rounded up. A short vector is first magnified a thousandfold, so
/// the rounding never costs more than a thousandth of the length.
pub open spec fn unit_toward(dx: int, dy: int) -> Point {
    let d2 = dx * dx + dy * dy;
    if d2 < 1_000_000_000 {
        let big = ceil_root(d2 * 1_000_000);
        Point { x: tdiv(dx * 1_000_000, big) as i64, y: tdiv(dy * 1_000_000, big) as i64 }
    } else {
        let len = ceil_root(d2);
        Point { x: tdiv(dx * 1000, len) as i64, y: tdiv(dy * 1000, len) as i64 }
    }
}

/// The heading after a move: the unit direction to the target, or the old
/// heading when the target is where the cell is.
pub open spec fn turned(heading: Point, pos: Point, target: Point, len: int) -> Point {
    if len == 0 {
        heading
    } else {
        unit_toward(target.x - pos.x, target.y - pos.y)
    }
}

/// The cell after `Cell::process_metabolism` over `dt` ms.
pub open spec fn metabolized(c: Cell, dt: int) -> Cell {
    let hunger = clamp_level(c.hunger + metabolic_cost(&c, dt));
    Cell {
        hunger,
        energy: clamp_level(c.energy - metabolic_cost(&c, dt)),
        health: if hunger == MAX_LEVEL { clamp_level(c.health - starvation_loss(dt)) } else { c.health },
        reproduction_cooldown: clamp_spec(c.reproduction_cooldown - dt, 0, REPRODUCTION_COOLDOWN as int) as i64,
        ..c
    }
}

/// A child's parameter vector: a crossover of the parents' vectors (every
/// element one parent's or the other's), then mutated.
pub open spec fn crossed_and_mutated(r: Seq<i64>, a: Seq<i64>, b: Seq<i64>, mutation_rate: i64) -> bool {
    exists|x: Seq<i64>| from_either(x, a, b) && mutated_from(r, x, mutation_rate)
}

/// The parent after paying for a birth: see `Cell::create_offspring`.
pub open spec fn paid(c: Cell) -> Cell {
    Cell {
        energy: (c.energy - c.genes.birth_energy_loss) as i64,
        offspring_count: (c.offspring_count + 1) as i64,
        reproduction_cooldown: REPRODUCTION_COOLDOWN,
        fitness: rewarded(c.fitness, BIRTH_REWARD),
        ..c
    }
}

/// Distance covered in `dt` ms at the cell's speed: halved when tired,
/// three quarters of it while immature.
pub open spec fn step_length(c: &Cell, dt: int) -> int {
    let base = c.genes.movement_speed * dt / 1000;
    let tired = if c.energy < LOW_ENERGY { base / 2 } else { base };
    if c.mature { tired } else { tired * 3 / 4 }
}

/// The metabolic cost of `dt` ms, in millionths: the per-second rate in
/// thousandths times the milliseconds.
pub open spec fn metabolic_cost(c: &Cell, dt: int) -> int {
    c.genes.metabolism * dt
}

/// Health that a starving cell loses in `dt` ms: 0.05 a second.
pub open spec fn starvation_loss(dt: int) -> int {
    50 * dt
}

impl Cell {
    /// Every level, position and heading within bounds, every gene within its
    /// bounds, and a brain of the cell shape.
    pub open spec fn wf(&self) -> bool {
        &&& level_ok(self.health)
        &&& level_ok(self.energy)
        &&& level_ok(self.hunger)
        &&& 0 <= self.age
        &&& 0 <= self.offspring_count
        &&& 0 <= self.reproduction_cooldown <= REPRODUCTION_COOLDOWN
        &&& self.position.wf()
        &&& heading_wf(self.heading)
        &&& (self.target_location matches Some(t) ==> t.wf())
        &&& self.genes.wf()
        &&& self.brain.wf()
        &&& self.brain.input_size == BRAIN_INPUTS
        &&& self.brain.hidden_size == BRAIN_HIDDEN
        &&& self.brain.output_size == BRAIN_OUTPUTS
    }

    /// A first-generation cell at `position`, with a random genome and brain,
    /// full health, half energy and no hunger.
    pub fn new(id: u64, position: Point, rng: &mut ChaCha12Rng) -> (r: Cell)
        requires
            position.wf(),
        ensures
            r.wf(),
            r.id == id,
            r.position == position,
            r.generation == 0,
            r.parents is None,
            r.health == MAX_LEVEL,
            r.energy == MAX_LEVEL / 2,
            r.hunger == 0,
            r.age == 0,
            !r.mature,
            r.action == Action::Idle,
            r.offspring_count == 0,
            r.target_location is None,
            r.reproduction_cooldown == 0,
            r.fitness == 0,
            r.heading == (Point { x: 0, y: ONE }),
            r.genes.in_start_ranges(),
    {
        let genes = Genes::random(rng);
        let brain = NeuralNetwork::new(BRAIN_INPUTS, BRAIN_HIDDEN, BRAIN_OUTPUTS, rng);
        assert(0 * 0 + ONE * ONE <= ONE * ONE);
        assert(heading_wf(Point { x: 0, y: ONE }));
        Cell {
            id,
            generation: 0,
            parents: None,
            position,
            heading: Point { x: 0, y: ONE },
            target_location: None,
            health: MAX_LEVEL,
            energy: MAX_LEVEL / 2,
            hunger: 0,
            age: 0,
            action: Action::Idle,
            mature: false,
            is_moving: false,
            offspring_count: 0,
            reproduction_cooldown: 0,
            fitness: 0,
            genes,
            brain,
        }
    }

    /// The network inputs under jitter draw `jitter`.
    pub fn decision_inputs(&self, jitter: i64) -> (r: Vec<i64>)
        requires
            self.wf(),
            0 <= jitter <= JITTER_MAX,
        ensures
            r@ == inputs_spec(self, jitter as int),
            bounded(r@, INPUT_LIMIT as int),
    {
        let g = &self.genes;
        proof {
            assert(0 <= self.hunger * g.hunger_weight <= 100_000_000 * 2000) by (nonlinear_arith)
                requires 0 <= self.hunger <= 100_000_000, 0 <= g.hunger_weight <= 2000;
            assert(0 <= self.energy * g.energy_weight <= 100_000_000 * 2000) by (nonlinear_arith)
                requires 0 <= self.energy <= 100_000_000, 0 <= g.energy_weight <= 2000;
            assert(0 <= g.random_weight * jitter <= 2000 * 100) by (nonlinear_arith)
                requires 0 <= g.random_weight <= 2000, 0 <= jitter <= 100;
            assert(0 <= g.reproduction_urge * g.reproduction_weight <= 1000 * 2000) by (nonlinear_arith)
                requires 0 <= g.reproduction_urge <= 1000, 0 <= g.reproduction_weight <= 2000;
            assert(0 <= g.reproduction_urge / 2 * g.reproduction_weight <= 1000 * 2000) by (nonlinear_arith)
                requires 0 <= g.reproduction_urge <= 1000, 0 <= g.reproduction_weight <= 2000;
            assert(self.hunger * g.hunger_weight / 100_000_000 <= 2000) by (nonlinear_arith)
                requires 0 <= self.hunger * g.hunger_weight <= 100_000_000 * 2000;
            assert(self.energy * g.energy_weight / 100_000_000 <= 2000) by (nonlinear_arith)
                requires 0 <= self.energy * g.energy_weight <= 100_000_000 * 2000;
        }
        let base: i64 = if self.offspring_count == 0 {
            g.reproduction_urge
        } else if self.offspring_count < 3 {
            g.reproduction_urge / 2
        } else {
            0
        };
        assert(0 <= base * g.reproduction_weight <= 1000 * 2000) by (nonlinear_arith)
            requires 0 <= base <= 1000, 0 <= g.reproduction_weight <= 2000;
        let mut v: Vec<i64> = Vec::new();
        v.push(self.hunger * g.hunger_weight / MAX_LEVEL);
        v.push(self.health / 100_000);
        v.push(self.energy * g.energy_weight / MAX_LEVEL);
        v.push(if self.energy < LOW_ENERGY { ONE } else { 0 });
        v.push(if self.hunger > HIGH_HUNGER { ONE } else { 0 });
        v.push(if self.health > HEALTHY { ONE } else { 0 });
        v.push(base * g.reproduction_weight / ONE);
        v.push(g.metabolism / 100);
        v.push(g.random_weight * jitter / ONE);
        assert(v@ =~= inputs_spec(self, jitter as int));
        v
    }

    /// Decides the action under jitter draw `jitter`: the network's first
    /// largest output picks it (see `action_for`).
    pub fn decide_with(&mut self, jitter: i64)
        requires
            old(self).wf(),
            0 <= jitter <= JITTER_MAX,
        ensures
            final(self).wf(),
            final(self).action == decision(old(self), jitter as int),
            *final(self) == (Cell { action: final(self).action, ..*old(self) }),
    {
        let inputs = self.decision_inputs(jitter);
        let outputs = self.brain.feedforward(&inputs);
        let index = argmax(&outputs);
        proof {
            let out = self.brain.feedforward_spec(inputs_spec(self, jitter as int));
            assert(out == outputs@);
            assert(is_first_max(out, index as int));
            let c = choose|i: int| is_first_max(out, i);
            assert(is_first_max(out, c));
            assert(c == index as int) by {
                if c < index as int {
                    assert(out[c] < out[index as int]);
                } else if c > index as int {
                    assert(out[index as int] < out[c]);
                }
            }
        }
        let action = if index == 1 {
            Action::Wander
        } else if index == 2 {
            Action::SeekFood
        } else if index == 3 && self.mature {
            Action::SeekMate
        } else {
            Action::Idle
        };
        self.action = action;
    }

    /// Decides the action with a jitter draw from `rng`.
    pub fn process_brain(&mut self, rng: &mut ChaCha12Rng)
        requires
            old(self).wf(),
        ensures
            final(self).wf(),
            exists|j: int| 0 <= j <= JITTER_MAX && final(self).action == decision(old(self), j),
            *final(self) == (Cell { action: final(self).action, ..*old(self) }),
    {
        let jitter = draw(rng, 0, JITTER_MAX);
        self.decide_with(jitter);
    }

    /// Resting: no target; energy regained (1.5 when tired, else 0.5), and
    /// 0.1 health when hunger is below `LOW_HUNGER`.
    pub fn idle(&mut self)
        requires
            old(self).wf(),
        ensures
            final(self).wf(),
            final(self).target_location is None,
            !final(self).is_moving,
            final(self).energy == clamp_level(old(self).energy + if old(self).energy < LOW_ENERGY { 1_500_000int } else { 500_000int }),
            final(self).health == clamp_level(old(self).health + if old(self).hunger < LOW_HUNGER { 100_000int } else { 0int }),
            *final(self) == (Cell { target_location: None, is_moving: false, energy: final(self).energy, health: final(self).health, ..*old(self) }),
    {
        self.target_location = None;
        self.is_moving = false;
        let gain: i64 = if self.energy < LOW_ENERGY { 1_500_000 } else { 500_000 };
        self.energy = clamp(self.energy + gain, 0, MAX_LEVEL);
        let heal: i64 = if self.hunger < LOW_HUNGER { 100_000 } else { 0 };
        self.health = clamp(self.health + heal, 0, MAX_LEVEL);
    }

    /// A meal: energy up and hunger down by `MEAL`, both held within range,
    /// and `MEAL_REWARD` fitness.
    pub fn eat(&mut self)
        requires
            old(self).wf(),
        ensures
            final(self).wf(),
            final(self).energy == clamp_level(old(self).energy + MEAL),
            final(self).hunger == clamp_level(old(self).hunger - MEAL),
            final(self).fitness == rewarded(old(self).fitness, MEAL_REWARD),
            *final(self) == (Cell { energy: final(self).energy, hunger: final(self).hunger, fitness: final(self).fitness, ..*old(self) }),
    {
        self.energy = clamp(self.energy + MEAL, 0, MAX_LEVEL);
        self.hunger = clamp(self.hunger - MEAL, 0, MAX_LEVEL);
        self.fitness = add_reward(self.fitness, MEAL_REWARD);
    }

    /// Whether the cell needs a new wander target: it has none, or it is
    /// within one unit of it.
    pub fn needs_new_target(&self) -> (r: bool)
        requires
            self.wf(),
        ensures
            r == (self.target_location matches Some(t) ==> dist2(self.position, t) < ONE * ONE),
    {
        match self.target_location {
            None => true,
            Some(t) => {
                let dx = t.x - self.position.x;
                let dy = t.y - self.position.y;
                proof {
                    lemma_square_bound(dx as int, 20_000_000);
                    lemma_square_bound(dy as int, 20_000_000);
                }
                dx * dx + dy * dy < ONE * ONE
            },
        }
    }

    /// A new target drawn from the cell's vision cone, within the world.
    pub fn random_target(&mut self, half_width: i64, half_height: i64, rng: &mut ChaCha12Rng)
        requires
            old(self).wf(),
            bounds_wf(half_width, half_height),
        ensures
            final(self).wf(),
            final(self).target_location matches Some(t)
                && -half_width <= t.x <= half_width && -half_height <= t.y <= half_height
                && (within_bounds(old(self).position, half_width as int, half_height as int) ==>
                    dist2(old(self).position, t) <= old(self).genes.vision_range * old(self).genes.vision_range)
                && exists|d: int, a: int|
                    0 <= d <= old(self).genes.vision_range && -(old(self).genes.vision_angle / 2) <= a <= old(self).genes.vision_angle / 2
                    && t == cone_point(old(self).position, old(self).heading, d, a, half_width as int, half_height as int),
            *final(self) == (Cell { target_location: final(self).target_location, ..*old(self) }),
    {
        let t = random_point_in_cone(
            self.position,
            self.heading,
            self.genes.vision_range,
            self.genes.vision_angle,
            half_width,
            half_height,
            rng,
        );
        self.target_location = Some(t);
    }

    /// One movement step of `dt` ms toward the target, if there is one: the
    /// cell turns to face it and advances `step_length` (see `moved`). With
    /// no target, or with the target where the cell stands, nothing changes.
    pub fn movement(&mut self, half_width: i64, half_height: i64, dt: i64)
        requires
            old(self).wf(),
            bounds_wf(half_width, half_height),
            0 <= dt <= MAX_DT,
        ensures
            final(self).wf(),
            old(self).target_location is None ==> *final(self) == *old(self),
            old(self).target_location matches Some(t) ==> ({
                let len = ceil_root(dist2(old(self).position, t));
                &&& final(self).position == moved(old(self).position, t, step_length(old(self), dt as int), len, half_width as int, half_height as int)
                &&& final(self).heading == turned(old(self).heading, old(self).position, t, len)
                &&& final(self).is_moving == (len != 0 || old(self).is_moving)
            }),
            // The cell never moves farther than its step.
            within_bounds(old(self).position, half_width as int, half_height as int) ==>
                dist2(old(self).position, final(self).position) <= step_length(old(self), dt as int) * step_length(old(self), dt as int),
            *final(self) == (Cell { position: final(self).position, heading: final(self).heading, is_moving: final(self).is_moving, ..*old(self) }),
    {
        match self.target_location {
            None => {},
            Some(t) => {
                let pos = self.position;
                let dx = t.x - pos.x;
                let dy = t.y - pos.y;
                proof {
                    lemma_square_bound(dx as int, 20_000_000);
                    lemma_square_bound(dy as int, 20_000_000);
                }
                let d2 = dx * dx + dy * dy;
                let len = ceil_sqrt(d2);
                proof {
                    assert(dx * dx <= len * len && dy * dy <= len * len) by (nonlinear_arith)
                        requires d2 == dx * dx + dy * dy, d2 <= len * len, dy * dy >= 0, dx * dx >= 0;
                    assert(-len <= dx <= len) by (nonlinear_arith)
                        requires dx * dx <= len * len, len >= 0;
                    assert(-len <= dy <= len) by (nonlinear_arith)
                        requires dy * dy <= len * len, len >= 0;
                    assert(0 <= self.genes.movement_speed * dt <= 100_000 * 1_000_000_000) by (nonlinear_arith)
                        requires 0 <= self.genes.movement_speed <= 100_000, 0 <= dt <= 1_000_000_000;
                }
                let base = self.genes.movement_speed * dt / 1000;
                let tired = if self.energy < LOW_ENERGY { base / 2 } else { base };
                let step = if self.mature { tired } else { tired * 3 / 4 };
                proof {
                    assert(step == step_length(old(self), dt as int));
                    assert(0 <= step <= 100_000_000_000);
                }
                if len != 0 {
                    proof {
                        assert(-2_000_000_000_000_000_000 <= dx * step <= 2_000_000_000_000_000_000) by (nonlinear_arith)
                            requires -20_000_000 <= dx <= 20_000_000, 0 <= step <= 100_000_000_000;
                        assert(-2_000_000_000_000_000_000 <= dy * step <= 2_000_000_000_000_000_000) by (nonlinear_arith)
                            requires -20_000_000 <= dy <= 20_000_000, 0 <= step <= 100_000_000_000;
                    }
                    let mx = div_toward_zero(dx * step, len);
                    let my = div_toward_zero(dy * step, len);
                    proof {
                        lemma_scaled_quotient(dx as int, step as int, len as int);
                        lemma_scaled_quotient(dy as int, step as int, len as int);
                    }
                    self.position = Point {
                        x: clamp(pos.x + mx, -half_width, half_width),
                        y: clamp(pos.y + my, -half_height, half_height),
                    };
                    let (hx, hy) = if d2 < 1_000_000_000 {
                        let big = ceil_sqrt(d2 * 1_000_000);
                        proof {
                            let x = dx * 1000;
                            let y = dy * 1000;
                            assert(x * x + y * y == d2 * 1_000_000) by (nonlinear_arith)
                                requires x == dx * 1000, y == dy * 1000, d2 == dx * dx + dy * dy;
                            assert(d2 >= 1);
                            assert(big >= 1000) by (nonlinear_arith)
                                requires d2 * 1_000_000 <= big * big, d2 >= 1, big >= 0;
                            assert(x * x <= big * big && y * y <= big * big) by (nonlinear_arith)
                                requires x * x + y * y <= big * big;
                            assert(-big <= x <= big) by (nonlinear_arith)
                                requires x * x <= big * big, big > 0;
                            assert(-big <= y <= big) by (nonlinear_arith)
                                requires y * y <= big * big, big > 0;
                            lemma_scaled_quotient(x, 1000, big as int);
                            lemma_scaled_quotient(y, 1000, big as int);
                            lemma_scaled_vector_within(x, y, 1000, big as int);
                            lemma_unit_within_rounding(x, y, big as int);
                            assert(x * 1000 == dx * 1_000_000);
                            assert(y * 1000 == dy * 1_000_000);
                        }
                        (div_toward_zero(dx * 1_000_000, big), div_toward_zero(dy * 1_000_000, big))
                    } else {
                        proof {
                            assert(len >= 1000) by (nonlinear_arith)
                                requires d2 <= len * len, d2 >= 1_000_000_000, len >= 0;
                            assert(-20_000_000_000 <= dx * ONE <= 20_000_000_000) by (nonlinear_arith)
                                requires -20_000_000 <= dx <= 20_000_000;
                            assert(-20_000_000_000 <= dy * ONE <= 20_000_000_000) by (nonlinear_arith)
                                requires -20_000_000 <= dy <= 20_000_000;
                            lemma_scaled_quotient(dx as int, 1000, len as int);
                            lemma_scaled_quotient(dy as int, 1000, len as int);
                            lemma_scaled_vector_within(dx as int, dy as int, 1000, len as int);
                            lemma_unit_within_rounding(dx as int, dy as int, len as int);
                        }
                        (div_toward_zero(dx * ONE, len), div_toward_zero(dy * ONE, len))
                    };
                    proof {
                        lemma_scaled_vector_within(dx as int, dy as int, step as int, len as int);
                        if within_bounds(pos, half_width as int, half_height as int) {
                            lemma_clamped_move(pos.x as int, mx as int, -half_width as int, half_width as int);
                            lemma_clamped_move(pos.y as int, my as int, -half_height as int, half_height as int);
                        }
                    }
                    self.heading = Point { x: hx, y: hy };
                    self.is_moving = true;
                } else {
                    proof {
                        assert(dist2(pos, pos) == 0);
                        assert(step * step >= 0) by (nonlinear_arith);
                    }
                }
            },
        }
    }

    /// Metabolism over `dt` ms: hunger grows and energy falls by
    /// `metabolic_cost`; a cell whose hunger is then saturated loses
    /// `starvation_loss` health, so its health falls for every positive step
    /// until it reaches 0; the reproduction cooldown runs down. All held
    /// within range.
    pub fn process_metabolism(&mut self, dt: i64)
        requires
            old(self).wf(),
            0 <= dt <= MAX_DT,
        ensures
            final(self).wf(),
            *final(self) == metabolized(*old(self), dt as int),
            final(self).hunger == MAX_LEVEL && dt > 0 && old(self).health > 0 ==> final(self).health < old(self).health,
    {
        proof {
            assert(0 <= self.genes.metabolism * dt <= 5_000 * 1_000_000_000) by (nonlinear_arith)
                requires 0 <= self.genes.metabolism <= 5_000, 0 <= dt <= 1_000_000_000;
        }
        let cost = self.genes.metabolism * dt;
        self.hunger = clamp(self.hunger + cost, 0, MAX_LEVEL);
        if self.hunger == MAX_LEVEL {
            self.health = clamp(self.health - 50 * dt, 0, MAX_LEVEL);
        }
        self.energy = clamp(self.energy - cost, 0, MAX_LEVEL);
        self.reproduction_cooldown = clamp(self.reproduction_cooldown - dt, 0, REPRODUCTION_COOLDOWN);
    }

    /// A day passes: one day older (the count stops at `i64::MAX`), and
    /// mature from `mature_age` on.
    pub fn grow_older(&mut self)
        requires
            old(self).wf(),
        ensures
            final(self).wf(),
            final(self).age == (if old(self).age < i64::MAX { old(self).age + 1 } else { old(self).age as int }),
            final(self).mature == (final(self).age >= old(self).genes.mature_age),
            *final(self) == (Cell { age: final(self).age, mature: final(self).mature, ..*old(self) }),
    {
        if self.age < i64::MAX {
            self.age = self.age + 1;
        }
        self.mature = self.age >= self.genes.mature_age;
    }
    /// Whether `target_position` lies within the cell's vision cone.
    pub fn is_within_vision_cone(&self, target_position: Point) -> (r: bool)
        requires
            self.wf(),
            target_position.wf(),
        ensures
            r == in_cone(self.position, self.heading, target_position, self.genes.vision_range as int, self.genes.vision_angle as int),
    {
        within_vision_cone(self.position, self.heading, target_position, self.genes.vision_range, self.genes.vision_angle)
    }

    /// Mutation in place: every weight and bias, with probability
    /// `mutation_rate` thousandths, gets a perturbation drawn from `[-0.1, 0.1]`. Values may
    /// drift past `[-1, 1]`; they are only held within `WEIGHT_LIMIT`.
    pub fn mutate(network: &mut NeuralNetwork, mutation_rate: i64, rng: &mut ChaCha12Rng)
        requires
            old(network).wf(),
        ensures
            final(network).wf(),
            final(network).same_shape(old(network)),
            mutated_from(final(network).weights_input_hidden@, old(network).weights_input_hidden@, mutation_rate),
            mutated_from(final(network).weights_hidden_output@, old(network).weights_hidden_output@, mutation_rate),
            mutated_from(final(network).biases_hidden@, old(network).biases_hidden@, mutation_rate),
            mutated_from(final(network).biases_output@, old(network).biases_output@, mutation_rate),
            mutation_rate <= 0 ==> final(network).weights_input_hidden@ == old(network).weights_input_hidden@
                && final(network).weights_hidden_output@ == old(network).weights_hidden_output@
                && final(network).biases_hidden@ == old(network).biases_hidden@
                && final(network).biases_output@ == old(network).biases_output@,
    {
        let ghost start = *network;
        let n1 = network.weights_input_hidden.len();
        let r1 = draw_many(rng, n1, 0, ONE - 1);
        let d1 = draw_many(rng, n1, -MUTATION_STEP, MUTATION_STEP);
        perturb(&mut network.weights_input_hidden, &r1, &d1, mutation_rate);
        let n2 = network.weights_hidden_output.len();
        let r2 = draw_many(rng, n2, 0, ONE - 1);
        let d2 = draw_many(rng, n2, -MUTATION_STEP, MUTATION_STEP);
        perturb(&mut network.weights_hidden_output, &r2, &d2, mutation_rate);
        let n3 = network.biases_hidden.len();
        let r3 = draw_many(rng, n3, 0, ONE - 1);
        let d3 = draw_many(rng, n3, -MUTATION_STEP, MUTATION_STEP);
        perturb(&mut network.biases_hidden, &r3, &d3, mutation_rate);
        let n4 = network.biases_output.len();
        let r4 = draw_many(rng, n4, 0, ONE - 1);
        let d4 = draw_many(rng, n4, -MUTATION_STEP, MUTATION_STEP);
        perturb(&mut network.biases_output, &r4, &d4, mutation_rate);
        proof {
            assert(mutated_from(network.weights_input_hidden@, start.weights_input_hidden@, mutation_rate)) by {
                assert(r1@.len() == start.weights_input_hidden@.len());
            }
            assert(mutated_from(network.weights_hidden_output@, start.weights_hidden_output@, mutation_rate));
            assert(mutated_from(network.biases_hidden@, start.biases_hidden@, mutation_rate));
            assert(mutated_from(network.biases_output@, start.biases_output@, mutation_rate));
            if mutation_rate <= 0 {
                lemma_mutation_is_small(network.weights_input_hidden@, start.weights_input_hidden@, mutation_rate);
                lemma_mutation_is_small(network.weights_hidden_output@, start.weights_hidden_output@, mutation_rate);
                lemma_mutation_is_small(network.biases_hidden@, start.biases_hidden@, mutation_rate);
                lemma_mutation_is_small(network.biases_output@, start.biases_output@, mutation_rate);
            }
        }
    }

    /// Whether the cell can pay for a birth now: mature, rested, with the
    /// energy that a birth costs.
    pub open spec fn can_reproduce(&self) -> bool {
        &&& self.mature
        &&& self.reproduction_cooldown == 0
        &&& self.energy >= self.genes.birth_energy_loss
        &&& self.offspring_count < i64::MAX
    }

    /// A birth with mate `other`: this cell pays `birth_energy_loss` energy,
    /// counts one more offspring, starts its cooldown and earns
    /// `BIRTH_REWARD` fitness. The child, with id
    /// `id`, stands where this cell stands, with full health and energy, no
    /// hunger, age 0 and immature; its genome is the parents' blended one,
    /// its brain the crossover of both brains, then mutated.
    pub fn create_offspring(&mut self, other: &Cell, id: u64, rng: &mut ChaCha12Rng, mutation_rate: i64) -> (child: Cell)
        requires
            old(self).wf(),
            other.wf(),
            old(self).energy >= old(self).genes.birth_energy_loss,
            old(self).offspring_count < i64::MAX,
            0 <= mutation_rate <= ONE,
        ensures
            final(self).wf(),
            *final(self) == paid(*old(self)),
            child.wf(),
            child.id == id,
            child.parents == Some((old(self).id, other.id)),
            child.generation == (if old(self).generation >= other.generation { old(self).generation } else { other.generation }) + 1
                || (child.generation == u64::MAX && (old(self).generation == u64::MAX || other.generation == u64::MAX)),
            child.position == old(self).position,
            child.health == MAX_LEVEL,
            child.energy == MAX_LEVEL,
            child.hunger == 0,
            child.age == 0,
            !child.mature,
            child.offspring_count == 0,
            child.target_location is None,
            exists|u: Seq<i64>| crate::genes::valid_draws(u, mutation_rate)
                && child.genes == crate::genes::combine_spec(old(self).genes, other.genes, u),
            child.brain.same_shape(&old(self).brain),
            crossed_and_mutated(child.brain.weights_input_hidden@, old(self).brain.weights_input_hidden@, other.brain.weights_input_hidden@, mutation_rate),
            crossed_and_mutated(child.brain.weights_hidden_output@, old(self).brain.weights_hidden_output@, other.brain.weights_hidden_output@, mutation_rate),
            crossed_and_mutated(child.brain.biases_hidden@, old(self).brain.biases_hidden@, other.brain.biases_hidden@, mutation_rate),
            crossed_and_mutated(child.brain.biases_output@, old(self).brain.biases_output@, other.brain.biases_output@, mutation_rate),
    {
        self.energy = self.energy - self.genes.birth_energy_loss;
        self.offspring_count = self.offspring_count + 1;
        self.reproduction_cooldown = REPRODUCTION_COOLDOWN;
        self.fitness = add_reward(self.fitness, BIRTH_REWARD);
        let genes = Genes::inherit(&self.genes, &other.genes, rng, mutation_rate);
        let mut brain = NeuralNetwork::crossover(&self.brain, &other.brain, rng);
        let ghost crossed = brain;
        Cell::mutate(&mut brain, mutation_rate, rng);
        proof {
            assert(from_either(crossed.weights_input_hidden@, self.brain.weights_input_hidden@, other.brain.weights_input_hidden@));
            assert(from_either(crossed.weights_hidden_output@, self.brain.weights_hidden_output@, other.brain.weights_hidden_output@));
            assert(from_either(crossed.biases_hidden@, self.brain.biases_hidden@, other.brain.biases_hidden@));
            assert(from_either(crossed.biases_output@, self.brain.biases_output@, other.brain.biases_output@));
        }
        let older = if self.generation >= other.generation { self.generation } else { other.generation };
        let generation = if older < u64::MAX { older + 1 } else { older };
        Cell {
            id,
            generation,
            parents: Some((self.id, other.id)),
            position: self.position,
            heading: Point { x: 0, y: ONE },
            target_location: None,
            health: MAX_LEVEL,
            energy: MAX_LEVEL,
            hunger: 0,
            age: 0,
            action: Action::Idle,
            mature: false,
            is_moving: false,
            offspring_count: 0,
            reproduction_cooldown: 0,
            fitness: 0,
            genes,
            brain,
        }
    }
}

} // verus!
