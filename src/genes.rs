//! Heritable traits of a cell and the blend-and-mutate combinator used at
//! reproduction. Every gene is a fixed-point value (`ONE` is 1.0; angles in
//! milli-degrees) held within its own bounds.
use crate::fixed::{clamp, clamp_spec, ONE};
use crate::random::draw;
use rand_chacha::ChaCha12Rng;
use vstd::prelude::*;

verus! {

pub const SPEED_MIN: i64 = 15_000;
pub const SPEED_MAX: i64 = 100_000;
pub const VISION_RANGE_MIN: i64 = 100_000;
pub const VISION_RANGE_MAX: i64 = 400_000;
pub const VISION_ANGLE_MIN: i64 = 10_000;
pub const VISION_ANGLE_MAX: i64 = 180_000;
pub const METABOLISM_MIN: i64 = 500;
pub const METABOLISM_MAX: i64 = 5_000;
/// Maturity age bounds, in days.
pub const MATURE_AGE_MIN: i64 = 1;
pub const MATURE_AGE_MAX: i64 = 30;
/// Bounds of the energy a birth costs, in the millionths that resource
/// levels are counted in (10.0 to 60.0).
pub const BIRTH_LOSS_MIN: i64 = 10_000_000;
pub const BIRTH_LOSS_MAX: i64 = 60_000_000;
pub const URGE_MIN: i64 = 0;
pub const URGE_MAX: i64 = 1_000;
/// Bounds of the four decision-weighting coefficients: `[0, 2]`.
pub const WEIGHT_MIN: i64 = 0;
pub const WEIGHT_MAX: i64 = 2_000;
/// Bounds of a colour channel: `[0, 1]`.
pub const CHANNEL_MAX: i64 = 1_000;
/// Bounds of the factor that scales a blended colour channel: `[0.9, 1.1]`.
pub const TINT_MIN: i64 = 900;
pub const TINT_MAX: i64 = 1_100;

/// Number of draws that one inheritance consumes: one per numeric gene,
/// then one per colour channel.
pub const GENE_DRAWS: usize = 14;

#[derive(Clone, Copy, Debug, PartialEq, Eq, Structural)]
pub struct Color {
    pub red: i64,
    pub green: i64,
    pub blue: i64,
}

#[derive(Clone, Copy, Debug, PartialEq, Eq, Structural)]
pub struct Genes {
    pub movement_speed: i64,
    pub vision_range: i64,
    /// Full width of the vision cone, in milli-degrees.
    pub vision_angle: i64,
    /// Per-second decay of energy and growth of hunger.
    pub metabolism: i64,
    pub color: Color,
    /// Age, in days, from which the cell is mature.
    pub mature_age: i64,
    pub birth_energy_loss: i64,
    pub reproduction_urge: i64,
    pub hunger_weight: i64,
    pub reproduction_weight: i64,
    pub energy_weight: i64,
    pub random_weight: i64,
}

pub open spec fn in_range(v: i64, lo: i64, hi: i64) -> bool {
    lo <= v <= hi
}

impl Color {
    pub open spec fn wf(&self) -> bool {
        &&& in_range(self.red, 0, CHANNEL_MAX)
        &&& in_range(self.green, 0, CHANNEL_MAX)
        &&& in_range(self.blue, 0, CHANNEL_MAX)
    }
}

impl Genes {
    /// Every gene within its bounds.
    pub open spec fn wf(&self) -> bool {
        &&& in_range(self.movement_speed, SPEED_MIN, SPEED_MAX)
        &&& in_range(self.vision_range, VISION_RANGE_MIN, VISION_RANGE_MAX)
        &&& in_range(self.vision_angle, VISION_ANGLE_MIN, VISION_ANGLE_MAX)
        &&& in_range(self.metabolism, METABOLISM_MIN, METABOLISM_MAX)
        &&& self.color.wf()
        &&& in_range(self.mature_age, MATURE_AGE_MIN, MATURE_AGE_MAX)
        &&& in_range(self.birth_energy_loss, BIRTH_LOSS_MIN, BIRTH_LOSS_MAX)
        &&& in_range(self.reproduction_urge, URGE_MIN, URGE_MAX)
        &&& in_range(self.hunger_weight, WEIGHT_MIN, WEIGHT_MAX)
        &&& in_range(self.reproduction_weight, WEIGHT_MIN, WEIGHT_MAX)
        &&& in_range(self.energy_weight, WEIGHT_MIN, WEIGHT_MAX)
        &&& in_range(self.random_weight, WEIGHT_MIN, WEIGHT_MAX)
    }
}

impl Genes {
    /// The ranges a first-generation genome is drawn from: speed, vision,
    /// metabolism, colour and urge over their whole bounds; maturity at 3 to
    /// 10 days; a birth cost of 30 to 60; the hunger, reproduction and energy
    /// weights 0.9 to 1.2; the random weight 0.5 to 1.5.
    pub open spec fn in_start_ranges(&self) -> bool {
        &&& self.wf()
        &&& in_range(self.mature_age, 3, 10)
        &&& in_range(self.birth_energy_loss, 30_000_000, 60_000_000)
        &&& in_range(self.hunger_weight, 900, 1_200)
        &&& in_range(self.reproduction_weight, 900, 1_200)
        &&& in_range(self.energy_weight, 900, 1_200)
        &&& in_range(self.random_weight, 500, 1_500)
    }
}

/// `avg + u * avg` with `avg = (a + b) / 2` and `u` in thousandths.
pub open spec fn blend_spec(a: int, b: int, u: int) -> int {
    (a + b) / 2 * (ONE + u) / (ONE as int)
}

/// Blend of two parent values with the mutation draw `u` (thousandths,
/// `|u| <= 1`).
pub fn blend_with(value1: i64, value2: i64, u: i64) -> (r: i64)
    requires
        0 <= value1 <= 1_000_000_000,
        0 <= value2 <= 1_000_000_000,
        -ONE <= u <= ONE,
    ensures
        r == blend_spec(value1 as int, value2 as int, u as int),
        r >= 0,
{
    let avg = (value1 + value2) / 2;
    proof {
        assert(0 <= avg * (ONE + u) <= 1_000_000_000 * 2000) by (nonlinear_arith)
            requires 0 <= avg <= 1_000_000_000, 0 <= ONE + u <= 2000;
    }
    avg * (ONE + u) / ONE
}

/// Blend of two parent values: `avg + d * avg` with `avg` their mean and `d`
/// drawn from `[-mutation_rate, mutation_rate]` (thousandths).
pub fn blend(value1: i64, value2: i64, rng: &mut ChaCha12Rng, mutation_rate: i64) -> (r: i64)
    requires
        0 <= value1 <= 1_000_000_000,
        0 <= value2 <= 1_000_000_000,
        0 <= mutation_rate <= ONE,
    ensures
        exists|u: int| -mutation_rate <= u <= mutation_rate && r == blend_spec(value1 as int, value2 as int, u),
{
    let u = draw(rng, -mutation_rate, mutation_rate);
    blend_with(value1, value2, u)
}

/// A blended gene held within its bounds.
pub open spec fn blend_gene(a: i64, b: i64, u: i64, lo: i64, hi: i64) -> i64 {
    clamp_spec(blend_spec(a as int, b as int, u as int), lo as int, hi as int) as i64
}

/// A colour channel: the parents' mean scaled by `tint` thousandths, held
/// within `[0, 1]`.
pub open spec fn blend_channel(a: i64, b: i64, tint: i64) -> i64 {
    clamp_spec((a + b) / 2 * tint / (ONE as int), 0, CHANNEL_MAX as int) as i64
}

/// Draws fit for one inheritance: the numeric ones within the mutation rate,
/// the colour ones within `[TINT_MIN, TINT_MAX]`.
pub open spec fn valid_draws(u: Seq<i64>, mutation_rate: i64) -> bool {
    &&& u.len() == GENE_DRAWS
    &&& (forall|i: int| 0 <= i < 11 ==> -mutation_rate <= #[trigger] u[i] <= mutation_rate)
    &&& (forall|i: int| 11 <= i < 14 ==> TINT_MIN <= #[trigger] u[i] <= TINT_MAX)
}

/// The offspring genome of parents `a` and `b` under draws `u`.
pub open spec fn combine_spec(a: Genes, b: Genes, u: Seq<i64>) -> Genes {
    Genes {
        movement_speed: blend_gene(a.movement_speed, b.movement_speed, u[0], SPEED_MIN, SPEED_MAX),
        vision_range: blend_gene(a.vision_range, b.vision_range, u[1], VISION_RANGE_MIN, VISION_RANGE_MAX),
        vision_angle: blend_gene(a.vision_angle, b.vision_angle, u[2], VISION_ANGLE_MIN, VISION_ANGLE_MAX),
        metabolism: blend_gene(a.metabolism, b.metabolism, u[3], METABOLISM_MIN, METABOLISM_MAX),
        mature_age: blend_gene(a.mature_age, b.mature_age, u[4], MATURE_AGE_MIN, MATURE_AGE_MAX),
        birth_energy_loss: blend_gene(a.birth_energy_loss, b.birth_energy_loss, u[5], BIRTH_LOSS_MIN, BIRTH_LOSS_MAX),
        reproduction_urge: blend_gene(a.reproduction_urge, b.reproduction_urge, u[6], URGE_MIN, URGE_MAX),
        hunger_weight: blend_gene(a.hunger_weight, b.hunger_weight, u[7], WEIGHT_MIN, WEIGHT_MAX),
        reproduction_weight: blend_gene(a.reproduction_weight, b.reproduction_weight, u[8], WEIGHT_MIN, WEIGHT_MAX),
        energy_weight: blend_gene(a.energy_weight, b.energy_weight, u[9], WEIGHT_MIN, WEIGHT_MAX),
        random_weight: blend_gene(a.random_weight, b.random_weight, u[10], WEIGHT_MIN, WEIGHT_MAX),
        color: Color {
            red: blend_channel(a.color.red, b.color.red, u[11]),
            green: blend_channel(a.color.green, b.color.green, u[12]),
            blue: blend_channel(a.color.blue, b.color.blue, u[13]),
        },
    }
}

/// A blended gene lies within whatever bounds `lo <= hi` it is held to,
/// for any parent values and any draw.
pub proof fn lemma_blend_gene_bounded(a: i64, b: i64, u: i64, lo: i64, hi: i64)
    requires
        lo <= hi,
    ensures
        lo <= blend_gene(a, b, u, lo, hi) <= hi,
{
}

/// Every gene of an offspring genome lies within its bounds, whatever the
/// parents' genes and whatever the draws, the mutation rate included.
pub proof fn lemma_offspring_genes_bounded(a: Genes, b: Genes, u: Seq<i64>)
    ensures
        combine_spec(a, b, u).wf(),
{
}

fn blend_bounded(a: i64, b: i64, u: i64, lo: i64, hi: i64) -> (r: i64)
    requires
        0 <= a <= 1_000_000_000,
        0 <= b <= 1_000_000_000,
        -ONE <= u <= ONE,
        lo <= hi,
    ensures
        r == blend_gene(a, b, u, lo, hi),
        lo <= r <= hi,
{
    let v = blend_with(a, b, u);
    clamp(v, lo, hi)
}

fn blend_channel_exec(a: i64, b: i64, tint: i64) -> (r: i64)
    requires
        0 <= a <= CHANNEL_MAX,
        0 <= b <= CHANNEL_MAX,
        TINT_MIN <= tint <= TINT_MAX,
    ensures
        r == blend_channel(a, b, tint),
        0 <= r <= CHANNEL_MAX,
{
    let avg = (a + b) / 2;
    proof {
        assert(0 <= avg * tint <= 1000 * 1100) by (nonlinear_arith)
            requires 0 <= avg <= 1000, 0 <= tint <= 1100;
    }
    clamp(avg * tint / ONE, 0, CHANNEL_MAX)
}

/// Colour of a child: each channel the parents' mean times a factor drawn
/// from `[0.9, 1.1]`, held within `[0, 1]`.
pub fn blend_colors(color1: Color, color2: Color, rng: &mut ChaCha12Rng) -> (r: Color)
    requires
        color1.wf(),
        color2.wf(),
    ensures
        r.wf(),
        exists|tr: i64, tg: i64, tb: i64|
            TINT_MIN <= tr <= TINT_MAX && TINT_MIN <= tg <= TINT_MAX && TINT_MIN <= tb <= TINT_MAX
            && r == (Color {
                red: blend_channel(color1.red, color2.red, tr),
                green: blend_channel(color1.green, color2.green, tg),
                blue: blend_channel(color1.blue, color2.blue, tb),
            }),
{
    let tr = draw(rng, TINT_MIN, TINT_MAX);
    let tg = draw(rng, TINT_MIN, TINT_MAX);
    let tb = draw(rng, TINT_MIN, TINT_MAX);
    Color {
        red: blend_channel_exec(color1.red, color2.red, tr),
        green: blend_channel_exec(color1.green, color2.green, tg),
        blue: blend_channel_exec(color1.blue, color2.blue, tb),
    }
}

impl Genes {
    /// The offspring genome of `a` and `b` under the given draws: every
    /// numeric gene blended and held within its bounds, the colour blended
    /// per channel.
    pub fn combine(a: &Genes, b: &Genes, u: &Vec<i64>, mutation_rate: i64) -> (r: Genes)
        requires
            a.wf(),
            b.wf(),
            0 <= mutation_rate <= ONE,
            valid_draws(u@, mutation_rate),
        ensures
            r == combine_spec(*a, *b, u@),
            r.wf(),
    {
        Genes {
            movement_speed: blend_bounded(a.movement_speed, b.movement_speed, u[0], SPEED_MIN, SPEED_MAX),
            vision_range: blend_bounded(a.vision_range, b.vision_range, u[1], VISION_RANGE_MIN, VISION_RANGE_MAX),
            vision_angle: blend_bounded(a.vision_angle, b.vision_angle, u[2], VISION_ANGLE_MIN, VISION_ANGLE_MAX),
            metabolism: blend_bounded(a.metabolism, b.metabolism, u[3], METABOLISM_MIN, METABOLISM_MAX),
            mature_age: blend_bounded(a.mature_age, b.mature_age, u[4], MATURE_AGE_MIN, MATURE_AGE_MAX),
            birth_energy_loss: blend_bounded(a.birth_energy_loss, b.birth_energy_loss, u[5], BIRTH_LOSS_MIN, BIRTH_LOSS_MAX),
            reproduction_urge: blend_bounded(a.reproduction_urge, b.reproduction_urge, u[6], URGE_MIN, URGE_MAX),
            hunger_weight: blend_bounded(a.hunger_weight, b.hunger_weight, u[7], WEIGHT_MIN, WEIGHT_MAX),
            reproduction_weight: blend_bounded(a.reproduction_weight, b.reproduction_weight, u[8], WEIGHT_MIN, WEIGHT_MAX),
            energy_weight: blend_bounded(a.energy_weight, b.energy_weight, u[9], WEIGHT_MIN, WEIGHT_MAX),
            random_weight: blend_bounded(a.random_weight, b.random_weight, u[10], WEIGHT_MIN, WEIGHT_MAX),
            color: Color {
                red: blend_channel_exec(a.color.red, b.color.red, u[11]),
                green: blend_channel_exec(a.color.green, b.color.green, u[12]),
                blue: blend_channel_exec(a.color.blue, b.color.blue, u[13]),
            },
        }
    }

    /// Draws for one inheritance, in the order that `combine` reads them.
    fn draw_inheritance(rng: &mut ChaCha12Rng, mutation_rate: i64) -> (r: Vec<i64>)
        requires
            0 <= mutation_rate <= ONE,
        ensures
            valid_draws(r@, mutation_rate),
    {
        let mut u: Vec<i64> = Vec::new();
        let mut i: usize = 0;
        while i < GENE_DRAWS
            invariant
                0 <= mutation_rate <= ONE,
                i <= GENE_DRAWS,
                u.len() == i,
                forall|k: int| 0 <= k < i && k < 11 ==> -mutation_rate <= #[trigger] u@[k] <= mutation_rate,
                forall|k: int| 11 <= k < i ==> TINT_MIN <= #[trigger] u@[k] <= TINT_MAX,
            decreases GENE_DRAWS - i,
        {
            let v = if i < 11 {
                draw(rng, -mutation_rate, mutation_rate)
            } else {
                draw(rng, TINT_MIN, TINT_MAX)
            };
            u.push(v);
            i = i + 1;
        }
        u
    }

    /// The offspring genome of `a` and `b`: `combine` under fresh draws. Every
    /// gene lies within its bounds, whatever the parents and the rate.
    pub fn inherit(a: &Genes, b: &Genes, rng: &mut ChaCha12Rng, mutation_rate: i64) -> (r: Genes)
        requires
            a.wf(),
            b.wf(),
            0 <= mutation_rate <= ONE,
        ensures
            r.wf(),
            exists|u: Seq<i64>| valid_draws(u, mutation_rate) && r == combine_spec(*a, *b, u),
    {
        let u = Genes::draw_inheritance(rng, mutation_rate);
        let r = Genes::combine(a, b, &u, mutation_rate);
        assert(valid_draws(u@, mutation_rate) && r == combine_spec(*a, *b, u@));
        r
    }

    /// A genome drawn for a first-generation cell, each gene uniform over its
    /// starting range (see `in_start_ranges`).
    pub fn random(rng: &mut ChaCha12Rng) -> (r: Genes)
        ensures
            r.wf(),
            r.in_start_ranges(),
    {
        let red = draw(rng, 0, CHANNEL_MAX);
        let green = draw(rng, 0, CHANNEL_MAX);
        let blue = draw(rng, 0, CHANNEL_MAX);
        Genes {
            movement_speed: draw(rng, SPEED_MIN, SPEED_MAX),
            vision_range: draw(rng, VISION_RANGE_MIN, VISION_RANGE_MAX),
            color: Color { red, green, blue },
            vision_angle: draw(rng, VISION_ANGLE_MIN, VISION_ANGLE_MAX),
            metabolism: draw(rng, METABOLISM_MIN, METABOLISM_MAX),
            mature_age: draw(rng, 3, 10),
            birth_energy_loss: draw(rng, 30_000_000, 60_000_000),
            reproduction_urge: draw(rng, URGE_MIN, URGE_MAX),
            hunger_weight: draw(rng, 900, 1_200),
            reproduction_weight: draw(rng, 900, 1_200),
            energy_weight: draw(rng, 900, 1_200),
            random_weight: draw(rng, 500, 1_500),
        }
    }
}

} // verus!
