//! Geometric perception: the vision cone, the nearest candidate, and a random
//! point inside the cone.
//!
//! Positions are fixed-point (`ONE` is one world unit). A heading is a
//! direction vector whose components lie within `[-ONE, ONE]`; `(0, ONE)`
//! faces "up".
use crate::fixed::{ceil_root, ceil_sqrt, lemma_clamped_move, lemma_scaled_quotient, lemma_scaled_vector_within, clamp, clamp_spec, cos_milli, cos_spec, div_toward_zero, sin_milli, sin_spec, tdiv, lemma_tdiv_bounds, ONE, QUARTER_TURN, HALF_TURN};
use crate::random::draw;
use rand_chacha::ChaCha12Rng;
use vstd::prelude::*;

verus! {

/// Bound on the magnitude of every coordinate (10,000 world units).
pub const COORD_LIMIT: i64 = 10_000_000;

#[derive(Clone, Copy, Debug, PartialEq, Eq, Structural)]
pub struct Point {
    pub x: i64,
    pub y: i64,
}

impl Point {
    pub open spec fn wf(&self) -> bool {
        -COORD_LIMIT <= self.x <= COORD_LIMIT && -COORD_LIMIT <= self.y <= COORD_LIMIT
    }
}

/// A direction vector of unit length (`ONE`) within rounding: no longer
/// than `ONE`, and short of it by less than one unit per component.
pub open spec fn heading_wf(h: Point) -> bool {
    let ax = if h.x >= 0 { h.x as int } else { -h.x };
    let ay = if h.y >= 0 { h.y as int } else { -h.y };
    &&& -ONE <= h.x <= ONE
    &&& -ONE <= h.y <= ONE
    &&& h.x * h.x + h.y * h.y <= ONE * ONE
    &&& (ax + 1) * (ax + 1) + (ay + 1) * (ay + 1) > 998_000
}

/// Squared Euclidean distance.
pub open spec fn dist2(a: Point, b: Point) -> int {
    (b.x - a.x) * (b.x - a.x) + (b.y - a.y) * (b.y - a.y)
}

/// Whether `target` lies in the cone of half-width `vision_angle / 2`
/// around `heading` from `origin`, no farther than `vision_range`: the angle
/// between the heading and the direction to the target is at most the
/// half-width exactly when `heading . d >= |heading| |d| cos(half-width)`,
/// compared here in squares. A target at the origin itself is seen.
pub open spec fn in_cone(origin: Point, heading: Point, target: Point, vision_range: int, vision_angle: int) -> bool {
    let dx = target.x - origin.x;
    let dy = target.y - origin.y;
    let dot = heading.x * dx + heading.y * dy;
    let c = cos_spec(vision_angle / 2);
    &&& dx * dx + dy * dy <= vision_range * vision_range
    &&& dot >= 0
    &&& dot * dot * (ONE * ONE) >= (heading.x * heading.x + heading.y * heading.y) * (dx * dx + dy * dy) * (c * c)
}

pub proof fn lemma_square_bound(a: int, m: int)
    requires
        -m <= a <= m,
    ensures
        0 <= a * a <= m * m,
{
    assert(0 <= a * a <= m * m) by (nonlinear_arith)
        requires -m <= a <= m;
}

/// Whether `target_position` lies within the vision cone of a cell at
/// `origin` facing `heading`.
pub fn within_vision_cone(origin: Point, heading: Point, target_position: Point, vision_range: i64, vision_angle: i64) -> (r: bool)
    requires
        origin.wf(),
        target_position.wf(),
        heading_wf(heading),
        0 <= vision_range <= 2 * COORD_LIMIT,
        0 <= vision_angle <= HALF_TURN,
    ensures
        r == in_cone(origin, heading, target_position, vision_range as int, vision_angle as int),
{
    let dx = (target_position.x - origin.x) as i128;
    let dy = (target_position.y - origin.y) as i128;
    let hx = heading.x as i128;
    let hy = heading.y as i128;
    let range = vision_range as i128;
    proof {
        lemma_square_bound(dx as int, 20_000_000);
        lemma_square_bound(dy as int, 20_000_000);
        lemma_square_bound(range as int, 20_000_000);
        lemma_square_bound(hx as int, 1000);
        lemma_square_bound(hy as int, 1000);
    }
    let d2 = dx * dx + dy * dy;
    if d2 > range * range {
        return false;
    }
    proof {
        assert(-20_000_000_000 <= hx * dx <= 20_000_000_000) by (nonlinear_arith)
            requires -1000 <= hx <= 1000, -20_000_000 <= dx <= 20_000_000;
        assert(-20_000_000_000 <= hy * dy <= 20_000_000_000) by (nonlinear_arith)
            requires -1000 <= hy <= 1000, -20_000_000 <= dy <= 20_000_000;
    }
    let dot = hx * dx + hy * dy;
    if dot < 0 {
        return false;
    }
    let c = cos_milli(vision_angle / 2) as i128;
    let h2 = hx * hx + hy * hy;
    proof {
        assert(dot * dot <= 40_000_000_000 * 40_000_000_000) by (nonlinear_arith)
            requires 0 <= dot <= 40_000_000_000;
        assert(0 <= c * c <= 1_000_000) by (nonlinear_arith)
            requires 0 <= c <= 1000;
        assert(0 <= h2 * d2 <= 2_000_000 * 800_000_000_000_000) by (nonlinear_arith)
            requires 0 <= h2 <= 2_000_000, 0 <= d2 <= 800_000_000_000_000;
        assert(0 <= h2 * d2 * (c * c) <= 2_000_000 * 800_000_000_000_000 * 1_000_000) by (nonlinear_arith)
            requires 0 <= h2 * d2 <= 2_000_000 * 800_000_000_000_000, 0 <= c * c <= 1_000_000;
    }
    dot * dot * 1_000_000 >= h2 * d2 * (c * c)
}

/// A target on the heading axis within range is seen; one beyond range is
/// not, whatever its direction; one behind the cell is not; and with a cone
/// no wider than 170 degrees, one square to the side is not.
pub proof fn lemma_vision_cone(origin: Point, heading: Point, target: Point, vision_range: int, vision_angle: int, k: int)
    requires
        0 <= vision_angle <= HALF_TURN,
        0 <= vision_range,
    ensures
        vision_angle <= 170_000 && heading != (Point { x: 0, y: 0 }) && target != origin
            && heading.x * (target.x - origin.x) + heading.y * (target.y - origin.y) == 0
            ==> !in_cone(origin, heading, target, vision_range, vision_angle),
        k >= 0 && target.x == origin.x + k * heading.x && target.y == origin.y + k * heading.y
            && dist2(origin, target) <= vision_range * vision_range
            ==> in_cone(origin, heading, target, vision_range, vision_angle),
        dist2(origin, target) > vision_range * vision_range
            ==> !in_cone(origin, heading, target, vision_range, vision_angle),
        heading.x * (target.x - origin.x) + heading.y * (target.y - origin.y) < 0
            ==> !in_cone(origin, heading, target, vision_range, vision_angle),
{
    crate::fixed::lemma_sin_bounds(QUARTER_TURN - vision_angle / 2);
    let c = cos_spec(vision_angle / 2);
    if vision_angle <= 170_000 && heading != (Point { x: 0, y: 0 }) && target != origin {
        lemma_cos_positive(vision_angle / 2);
        let dx = target.x - origin.x;
        let dy = target.y - origin.y;
        let h2 = heading.x * heading.x + heading.y * heading.y;
        let d2 = dx * dx + dy * dy;
        assert(h2 > 0) by (nonlinear_arith)
            requires h2 == heading.x * heading.x + heading.y * heading.y, heading.x != 0 || heading.y != 0;
        assert(d2 > 0) by (nonlinear_arith)
            requires d2 == dx * dx + dy * dy, dx != 0 || dy != 0;
        assert(h2 * d2 * (c * c) > 0) by (nonlinear_arith)
            requires h2 > 0, d2 > 0, c > 0;
    }
    if k >= 0 && target.x == origin.x + k * heading.x && target.y == origin.y + k * heading.y {
        let dx = target.x - origin.x;
        let dy = target.y - origin.y;
        let h2 = heading.x * heading.x + heading.y * heading.y;
        assert(h2 >= 0) by (nonlinear_arith)
            requires h2 == heading.x * heading.x + heading.y * heading.y;
        assert(heading.x * dx + heading.y * dy == k * h2) by (nonlinear_arith)
            requires dx == k * heading.x, dy == k * heading.y, h2 == heading.x * heading.x + heading.y * heading.y;
        assert(dx * dx + dy * dy == k * k * h2) by (nonlinear_arith)
            requires dx == k * heading.x, dy == k * heading.y, h2 == heading.x * heading.x + heading.y * heading.y;
        assert(k * h2 >= 0) by (nonlinear_arith)
            requires k >= 0, h2 == heading.x * heading.x + heading.y * heading.y;
        assert((k * h2) * (k * h2) * (1000 * 1000) >= h2 * (k * k * h2) * (c * c)) by (nonlinear_arith)
            requires 0 <= c <= 1000, h2 >= 0;
    }
}

/// The cosine of a half-width of at most 85 degrees is positive.
proof fn lemma_cos_positive(h: int)
    requires
        0 <= h <= 85_000,
    ensures
        cos_spec(h) > 0,
{
    let x = QUARTER_TURN - h;
    let p = crate::fixed::sine_core(x);
    assert(875_000_000 <= p <= 8_100_000_000) by (nonlinear_arith)
        requires 5_000 <= x <= 90_000, p == x * (180_000 - x);
    assert(4000 * p / (40_500_000_000 - p) >= 1) by (nonlinear_arith)
        requires 875_000_000 <= p <= 8_100_000_000;
}

/// A target at the origin itself is seen.
pub proof fn lemma_cone_at_origin(origin: Point, heading: Point, vision_range: int, vision_angle: int)
    ensures
        in_cone(origin, heading, origin, vision_range, vision_angle),
{
    assert(vision_range * vision_range >= 0) by (nonlinear_arith);
    assert(heading.x * 0 + heading.y * 0 == 0);
    assert((heading.x * heading.x + heading.y * heading.y) * 0 == 0);
}

/// Index of the candidate nearest to `origin`; among equally near ones the
/// first. `None` when there is none.
pub fn closest(candidates: &Vec<Point>, origin: Point) -> (r: Option<usize>)
    requires
        origin.wf(),
        forall|i: int| 0 <= i < candidates.len() ==> (#[trigger] candidates@[i]).wf(),
    ensures
        r is None <==> candidates.len() == 0,
        r matches Some(i) ==> i < candidates.len()
            && (forall|j: int| 0 <= j < candidates.len() ==> dist2(origin, candidates@[i as int]) <= dist2(origin, #[trigger] candidates@[j]))
            && (forall|j: int| 0 <= j < i ==> dist2(origin, candidates@[i as int]) < dist2(origin, #[trigger] candidates@[j])),
{
    let mut best: Option<usize> = None;
    let mut best_d: i64 = 0;
    let mut k: usize = 0;
    while k < candidates.len()
        invariant
            origin.wf(),
            forall|i: int| 0 <= i < candidates.len() ==> (#[trigger] candidates@[i]).wf(),
            k <= candidates.len(),
            best is None <==> k == 0,
            best matches Some(i) ==> i < k && best_d == dist2(origin, candidates@[i as int])
                && (forall|j: int| 0 <= j < k ==> dist2(origin, candidates@[i as int]) <= dist2(origin, #[trigger] candidates@[j]))
                && (forall|j: int| 0 <= j < i ==> dist2(origin, candidates@[i as int]) < dist2(origin, #[trigger] candidates@[j])),
        decreases candidates.len() - k,
    {
        let p = candidates[k];
        let dx = p.x - origin.x;
        let dy = p.y - origin.y;
        proof {
            lemma_square_bound(dx as int, 20_000_000);
            lemma_square_bound(dy as int, 20_000_000);
        }
        let d = dx * dx + dy * dy;
        match best {
            None => {
                best = Some(k);
                best_d = d;
            },
            Some(_) => {
                if d < best_d {
                    best = Some(k);
                    best_d = d;
                }
            },
        }
        k = k + 1;
    }
    best
}

/// The world's extent: coordinates run over `[-half_width, half_width]` and
/// `[-half_height, half_height]`.
pub open spec fn bounds_wf(half_width: i64, half_height: i64) -> bool {
    0 <= half_width <= COORD_LIMIT && 0 <= half_height <= COORD_LIMIT
}

/// Signed sine of `a` milli-degrees, `|a| <= QUARTER_TURN`.
pub open spec fn signed_sin(a: int) -> int {
    if a >= 0 { sin_spec(a) } else { -sin_spec(-a) }
}

/// Cosine of `a` milli-degrees, `|a| <= QUARTER_TURN`.
pub open spec fn even_cos(a: int) -> int {
    if a >= 0 { cos_spec(a) } else { cos_spec(-a) }
}

/// The point `distance` away from `origin` in the direction of `heading`
/// turned by `angle` milli-degrees (counter-clockwise), held within the
/// world's bounds. The turned direction is scaled by `distance` over its
/// length rounded up, so the offset is never longer than `distance`.
pub open spec fn cone_point(origin: Point, heading: Point, distance: int, angle: int, half_width: int, half_height: int) -> Point {
    let c = even_cos(angle);
    let s = signed_sin(angle);
    let rx = tdiv(heading.x * c - heading.y * s, ONE as int);
    let ry = tdiv(heading.x * s + heading.y * c, ONE as int);
    let rl = ceil_root(rx * rx + ry * ry);
    let ox = if rl == 0 { 0 } else { tdiv(rx * distance, rl) };
    let oy = if rl == 0 { 0 } else { tdiv(ry * distance, rl) };
    Point {
        x: clamp_spec(origin.x + ox, -half_width, half_width) as i64,
        y: clamp_spec(origin.y + oy, -half_height, half_height) as i64,
    }
}

/// Whether `p` lies within the world's bounds.
pub open spec fn within_bounds(p: Point, half_width: int, half_height: int) -> bool {
    -half_width <= p.x <= half_width && -half_height <= p.y <= half_height
}

/// The point `distance` away along `heading` turned by `angle`, held within
/// the world's bounds.
pub fn point_in_cone(origin: Point, heading: Point, distance: i64, angle: i64, half_width: i64, half_height: i64) -> (r: Point)
    requires
        origin.wf(),
        heading_wf(heading),
        0 <= distance <= 2 * COORD_LIMIT,
        -QUARTER_TURN <= angle <= QUARTER_TURN,
        bounds_wf(half_width, half_height),
    ensures
        r == cone_point(origin, heading, distance as int, angle as int, half_width as int, half_height as int),
        r.wf(),
        -half_width <= r.x <= half_width,
        -half_height <= r.y <= half_height,
        within_bounds(origin, half_width as int, half_height as int) ==> dist2(origin, r) <= distance * distance,
{
    let mag = if angle >= 0 { angle } else { -angle };
    let c = cos_milli(mag);
    let s0 = sin_milli(mag);
    let s = if angle >= 0 { s0 } else { -s0 };
    proof {
        assert(-1_000_000 <= heading.x * c <= 1_000_000) by (nonlinear_arith)
            requires -1000 <= heading.x <= 1000, 0 <= c <= 1000;
        assert(-1_000_000 <= heading.y * c <= 1_000_000) by (nonlinear_arith)
            requires -1000 <= heading.y <= 1000, 0 <= c <= 1000;
        assert(-1_000_000 <= heading.x * s <= 1_000_000) by (nonlinear_arith)
            requires -1000 <= heading.x <= 1000, -1000 <= s <= 1000;
        assert(-1_000_000 <= heading.y * s <= 1_000_000) by (nonlinear_arith)
            requires -1000 <= heading.y <= 1000, -1000 <= s <= 1000;
    }
    let rx = div_toward_zero(heading.x * c - heading.y * s, ONE);
    let ry = div_toward_zero(heading.x * s + heading.y * c, ONE);
    proof {
        lemma_tdiv_bounds((heading.x * c - heading.y * s) as int, 1000);
        lemma_tdiv_bounds((heading.x * s + heading.y * c) as int, 1000);
        assert(-2000 <= rx <= 2000);
        assert(-2000 <= ry <= 2000);
        assert(-40_000_000_000 <= rx * distance <= 40_000_000_000) by (nonlinear_arith)
            requires -2000 <= rx <= 2000, 0 <= distance <= 20_000_000;
        assert(-40_000_000_000 <= ry * distance <= 40_000_000_000) by (nonlinear_arith)
            requires -2000 <= ry <= 2000, 0 <= distance <= 20_000_000;
    }
    proof {
        lemma_square_bound(rx as int, 2000);
        lemma_square_bound(ry as int, 2000);
    }
    let rl = ceil_sqrt(rx * rx + ry * ry);
    let (ox, oy) = if rl == 0 {
        (0i64, 0i64)
    } else {
        proof {
            assert(rx * rx <= rl * rl && ry * ry <= rl * rl);
            assert(-rl <= rx <= rl) by (nonlinear_arith)
                requires rx * rx <= rl * rl, rl > 0;
            assert(-rl <= ry <= rl) by (nonlinear_arith)
                requires ry * ry <= rl * rl, rl > 0;
            lemma_scaled_quotient(rx as int, distance as int, rl as int);
            lemma_scaled_quotient(ry as int, distance as int, rl as int);
        }
        (div_toward_zero(rx * distance, rl), div_toward_zero(ry * distance, rl))
    };
    let r = Point {
        x: clamp(origin.x + ox, -half_width, half_width),
        y: clamp(origin.y + oy, -half_height, half_height),
    };
    proof {
        if rl != 0 {
            lemma_scaled_vector_within(rx as int, ry as int, distance as int, rl as int);
        } else {
            assert(ox * ox + oy * oy <= distance * distance) by (nonlinear_arith)
                requires ox == 0, oy == 0;
        }
        if within_bounds(origin, half_width as int, half_height as int) {
            lemma_clamped_move(origin.x as int, ox as int, -half_width as int, half_width as int);
            lemma_clamped_move(origin.y as int, oy as int, -half_height as int, half_height as int);
        }
    }
    r
}

/// A point of the cone drawn at random: a distance uniform over
/// `[0, vision_range]` and a turn uniform over
/// `[-vision_angle / 2, vision_angle / 2]`, then `point_in_cone`.
pub fn random_point_in_cone(
    origin: Point,
    heading: Point,
    vision_range: i64,
    vision_angle: i64,
    half_width: i64,
    half_height: i64,
    rng: &mut ChaCha12Rng,
) -> (r: Point)
    requires
        origin.wf(),
        heading_wf(heading),
        0 <= vision_range <= 2 * COORD_LIMIT,
        0 <= vision_angle <= HALF_TURN,
        bounds_wf(half_width, half_height),
    ensures
        r.wf(),
        -half_width <= r.x <= half_width,
        -half_height <= r.y <= half_height,
        exists|d: int, a: int|
            0 <= d <= vision_range && -(vision_angle / 2) <= a <= vision_angle / 2
            && r == cone_point(origin, heading, d, a, half_width as int, half_height as int),
        within_bounds(origin, half_width as int, half_height as int) ==> dist2(origin, r) <= vision_range * vision_range,
{
    let distance = draw(rng, 0, vision_range);
    let half = vision_angle / 2;
    let angle = draw(rng, -half, half);
    let r = point_in_cone(origin, heading, distance, angle, half_width, half_height);
    proof {
        assert(distance * distance <= vision_range * vision_range) by (nonlinear_arith)
            requires 0 <= distance <= vision_range;
    }
    assert(0 <= distance <= vision_range && -(vision_angle / 2) <= angle <= vision_angle / 2
        && r == cone_point(origin, heading, distance as int, angle as int, half_width as int, half_height as int));
    r
}

} // verus!
