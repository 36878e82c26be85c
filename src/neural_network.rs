//! A fixed-topology feed-forward network (input -> hidden -> output) used as
//! each cell's decision function.
//!
//! Weights and biases are fixed-point values (`ONE` is 1.0). A matrix is held
//! row-major in a flat vector: the weight from input `i` to unit `j` of a
//! layer with `cols` units is at `i * cols + j`.
use crate::fixed::{tdiv, ONE};
use crate::random::draw;
use rand_chacha::ChaCha12Rng;
use vstd::prelude::*;

verus! {

/// Largest number of units in one layer.
pub const MAX_LAYER: usize = 512;

/// Bound on the magnitude of every weight and bias (1000.0).
pub const WEIGHT_LIMIT: i64 = 1_000_000;

/// Bound on the magnitude of every network input (1000.0).
pub const INPUT_LIMIT: i64 = 1_000_000;

/// Largest perturbation that a mutation adds to one weight (0.1).
pub const MUTATION_STEP: i64 = 100;

pub struct NeuralNetwork {
    pub input_size: usize,
    pub hidden_size: usize,
    pub output_size: usize,
    /// `input_size x hidden_size`, row-major.
    pub weights_input_hidden: Vec<i64>,
    /// `hidden_size x output_size`, row-major.
    pub weights_hidden_output: Vec<i64>,
    pub biases_hidden: Vec<i64>,
    pub biases_output: Vec<i64>,
}

pub open spec fn bounded(v: Seq<i64>, limit: int) -> bool {
    forall|i: int| 0 <= i < v.len() ==> -limit <= #[trigger] v[i] <= limit
}

pub open spec fn valid_size(n: usize) -> bool {
    1 <= n <= MAX_LAYER
}

/// `sum_{i < n} x[i] * w[i * cols + j]`.
pub open spec fn weighted_sum(x: Seq<i64>, w: Seq<i64>, cols: int, j: int, n: int) -> int
    decreases n,
{
    if n <= 0 {
        0
    } else {
        weighted_sum(x, w, cols, j, n - 1) + x[n - 1] * w[(n - 1) * cols + j]
    }
}

/// The network's activation: the rational sigmoid `1/2 + (1/2) z / (1 + |z|)`
/// (not the exponential logistic `1 / (1 + e^-z)`, which has the same shape:
/// 0 maps to 1/2, it rises with `z` and stays within `(0, 1)`). Here `z` is at
/// scale `ONE * ONE`, the result in `[0, ONE]`, rounded toward zero.
pub open spec fn rational_sigmoid_spec(z: int) -> int {
    500 + tdiv(500 * z, 1_000_000 + (if z >= 0 { z } else { -z }))
}

/// One layer: unit `j` outputs `rational_sigmoid_spec(sum_i x[i] * w[i][j] + b[j] * ONE)`.
pub open spec fn layer_spec(x: Seq<i64>, w: Seq<i64>, b: Seq<i64>, cols: int) -> Seq<i64> {
    Seq::new(
        cols as nat,
        |j: int| rational_sigmoid_spec(weighted_sum(x, w, cols, j, x.len() as int) + b[j] * ONE) as i64,
    )
}

impl NeuralNetwork {
    /// Shapes fixed by the three sizes, and every parameter within
    /// `WEIGHT_LIMIT`.
    pub open spec fn wf(&self) -> bool {
        &&& valid_size(self.input_size)
        &&& valid_size(self.hidden_size)
        &&& valid_size(self.output_size)
        &&& self.weights_input_hidden@.len() == self.input_size * self.hidden_size
        &&& self.weights_hidden_output@.len() == self.hidden_size * self.output_size
        &&& self.biases_hidden@.len() == self.hidden_size
        &&& self.biases_output@.len() == self.output_size
        &&& bounded(self.weights_input_hidden@, WEIGHT_LIMIT as int)
        &&& bounded(self.weights_hidden_output@, WEIGHT_LIMIT as int)
        &&& bounded(self.biases_hidden@, WEIGHT_LIMIT as int)
        &&& bounded(self.biases_output@, WEIGHT_LIMIT as int)
    }

    pub open spec fn same_shape(&self, other: &NeuralNetwork) -> bool {
        &&& self.input_size == other.input_size
        &&& self.hidden_size == other.hidden_size
        &&& self.output_size == other.output_size
    }

    /// What the network outputs for `x`.
    pub open spec fn feedforward_spec(&self, x: Seq<i64>) -> Seq<i64> {
        layer_spec(
            layer_spec(x, self.weights_input_hidden@, self.biases_hidden@, self.hidden_size as int),
            self.weights_hidden_output@,
            self.biases_output@,
            self.output_size as int,
        )
    }
}

proof fn lemma_weighted_sum_bound(x: Seq<i64>, w: Seq<i64>, cols: int, j: int, n: int, xb: int, wb: int)
    requires
        0 <= n <= x.len(),
        0 <= j < cols,
        n * cols <= w.len(),
        xb >= 0,
        wb >= 0,
        bounded(x, xb),
        bounded(w, wb),
    ensures
        -(n * xb * wb) <= weighted_sum(x, w, cols, j, n) <= n * xb * wb,
    decreases n,
{
    if n > 0 {
        assert((n - 1) * cols <= n * cols) by (nonlinear_arith)
            requires n >= 1, cols >= 0;
        lemma_weighted_sum_bound(x, w, cols, j, n - 1, xb, wb);
        let k = (n - 1) * cols + j;
        assert(0 <= k < n * cols) by (nonlinear_arith)
            requires 0 <= j < cols, n >= 1, k == (n - 1) * cols + j;
        let a = x[n - 1];
        let b = w[k];
        assert(-xb <= a <= xb);
        assert(-wb <= b <= wb);
        assert(-(xb * wb) <= a * b <= xb * wb) by (nonlinear_arith)
            requires -xb <= a <= xb, -wb <= b <= wb;
        assert(n * xb * wb == (n - 1) * xb * wb + xb * wb) by (nonlinear_arith);
    }
}

/// Largest magnitude of a pre-activation that `sigmoid` takes.
pub const ACTIVATION_LIMIT: i64 = 1_000_000_000_000_000;

/// The activation: `rational_sigmoid_spec` of `z`, in `[0, ONE]`.
pub fn rational_sigmoid(z: i64) -> (r: i64)
    requires
        -ACTIVATION_LIMIT <= z <= ACTIVATION_LIMIT,
    ensures
        r == rational_sigmoid_spec(z as int),
        0 <= r <= ONE,
{
    let mag = if z >= 0 { z } else { -z };
    let num = 500 * z;
    let den = 1_000_000 + mag;
    let q = if num >= 0 { num / den } else { -((-num) / den) };
    proof {
        let nm = if num >= 0 { num as int } else { -num as int };
        assert(nm < 500 * den) by (nonlinear_arith)
            requires nm == 500 * mag, den == 1_000_000 + mag, mag >= 0;
        assert(nm / (den as int) < 500) by (nonlinear_arith)
            requires nm < 500 * den, den > 0, nm >= 0;
        assert(q == tdiv(num as int, den as int));
    }
    500 + q
}

/// One layer of the forward pass.
fn layer(x: &Vec<i64>, w: &Vec<i64>, b: &Vec<i64>, cols: usize) -> (r: Vec<i64>)
    requires
        1 <= x.len() <= MAX_LAYER,
        1 <= cols <= MAX_LAYER,
        w.len() == x.len() * cols,
        b.len() == cols,
        bounded(x@, INPUT_LIMIT as int),
        bounded(w@, WEIGHT_LIMIT as int),
        bounded(b@, WEIGHT_LIMIT as int),
    ensures
        r@ == layer_spec(x@, w@, b@, cols as int),
        bounded(r@, ONE as int),
        forall|j: int| 0 <= j < r.len() ==> 0 <= #[trigger] r@[j],
{
    let rows = x.len();
    let mut out: Vec<i64> = Vec::new();
    let mut j: usize = 0;
    while j < cols
        invariant
            rows == x.len(),
            1 <= rows <= MAX_LAYER,
            1 <= cols <= MAX_LAYER,
            w.len() == rows * cols,
            b.len() == cols,
            bounded(x@, INPUT_LIMIT as int),
            bounded(w@, WEIGHT_LIMIT as int),
            bounded(b@, WEIGHT_LIMIT as int),
            j <= cols,
            out.len() == j,
            forall|k: int| 0 <= k < j ==> #[trigger] out@[k] == layer_spec(x@, w@, b@, cols as int)[k],
            forall|k: int| 0 <= k < j ==> 0 <= #[trigger] out@[k] <= ONE,
        decreases cols - j,
    {
        let mut acc: i64 = 0;
        let mut i: usize = 0;
        while i < rows
            invariant
                rows == x.len(),
                1 <= rows <= MAX_LAYER,
                1 <= cols <= MAX_LAYER,
                w.len() == rows * cols,
                bounded(x@, INPUT_LIMIT as int),
                bounded(w@, WEIGHT_LIMIT as int),
                j < cols,
                i <= rows,
                acc == weighted_sum(x@, w@, cols as int, j as int, i as int),
            decreases rows - i,
        {
            proof {
                assert((i + 1) * cols <= rows * cols) by (nonlinear_arith)
                    requires i + 1 <= rows, cols >= 1;
                assert(i * cols <= (i + 1) * cols) by (nonlinear_arith)
                    requires cols >= 1;
                lemma_weighted_sum_bound(x@, w@, cols as int, j as int, (i + 1) as int, INPUT_LIMIT as int, WEIGHT_LIMIT as int);
                lemma_weighted_sum_bound(x@, w@, cols as int, j as int, i as int, INPUT_LIMIT as int, WEIGHT_LIMIT as int);
                assert(i * cols + j < rows * cols) by (nonlinear_arith)
                    requires i + 1 <= rows, j < cols;
                assert((i + 1) * 1_000_000 * 1_000_000 <= 512 * 1_000_000 * 1_000_000) by (nonlinear_arith)
                    requires i + 1 <= 512;
                let a = x@[i as int];
                let bw = w@[i * cols + j];
                assert(-1_000_000_000_000 <= a * bw <= 1_000_000_000_000) by (nonlinear_arith)
                    requires -1_000_000 <= a <= 1_000_000, -1_000_000 <= bw <= 1_000_000;
            }
            acc = acc + x[i] * w[i * cols + j];
            i = i + 1;
        }
        proof {
            lemma_weighted_sum_bound(x@, w@, cols as int, j as int, rows as int, INPUT_LIMIT as int, WEIGHT_LIMIT as int);
            assert(rows * cols <= rows * cols);
            assert(rows * 1_000_000 * 1_000_000 <= 512 * 1_000_000 * 1_000_000) by (nonlinear_arith)
                requires rows <= 512;
        }
        let v = rational_sigmoid(acc + b[j] * ONE);
        out.push(v);
        j = j + 1;
    }
    assert(out@ =~= layer_spec(x@, w@, b@, cols as int));
    out
}

/// Each element of `coins` picks one parent: 0 keeps `a`'s value, anything
/// else takes `b`'s.
pub open spec fn mix_spec(a: Seq<i64>, b: Seq<i64>, coins: Seq<i64>) -> Seq<i64> {
    Seq::new(a.len(), |i: int| if coins[i] == 0 { a[i] } else { b[i] })
}

/// Element-wise choice between two parents' parameters.
pub fn mix(a: &Vec<i64>, b: &Vec<i64>, coins: &Vec<i64>) -> (r: Vec<i64>)
    requires
        b.len() == a.len(),
        coins.len() == a.len(),
    ensures
        r@ == mix_spec(a@, b@, coins@),
{
    let mut out: Vec<i64> = Vec::new();
    let mut i: usize = 0;
    while i < a.len()
        invariant
            b.len() == a.len(),
            coins.len() == a.len(),
            i <= a.len(),
            out@ =~= mix_spec(a@, b@, coins@).take(i as int),
        decreases a.len() - i,
    {
        if coins[i] == 0 {
            out.push(a[i]);
        } else {
            out.push(b[i]);
        }
        i = i + 1;
    }
    assert(mix_spec(a@, b@, coins@).take(a.len() as int) =~= mix_spec(a@, b@, coins@));
    out
}

/// `n` fair coin flips, each 0 or 1.
fn flip_coins(rng: &mut ChaCha12Rng, n: usize) -> (r: Vec<i64>)
    ensures
        r.len() == n,
        forall|i: int| 0 <= i < n ==> 0 <= #[trigger] r@[i] <= 1,
{
    let mut out: Vec<i64> = Vec::new();
    let mut i: usize = 0;
    while i < n
        invariant
            i <= n,
            out.len() == i,
            forall|k: int| 0 <= k < i ==> 0 <= #[trigger] out@[k] <= 1,
        decreases n - i,
    {
        let c = draw(rng, 0, 1);
        out.push(c);
        i = i + 1;
    }
    out
}

/// `n` values drawn uniformly from `[lo, hi]`.
pub(crate) fn draw_many(rng: &mut ChaCha12Rng, n: usize, lo: i64, hi: i64) -> (r: Vec<i64>)
    requires
        lo <= hi,
    ensures
        r.len() == n,
        forall|i: int| 0 <= i < n ==> lo <= #[trigger] r@[i] <= hi,
{
    let mut out: Vec<i64> = Vec::new();
    let mut i: usize = 0;
    while i < n
        invariant
            lo <= hi,
            i <= n,
            out.len() == i,
            forall|k: int| 0 <= k < i ==> lo <= #[trigger] out@[k] <= hi,
        decreases n - i,
    {
        let v = draw(rng, lo, hi);
        out.push(v);
        i = i + 1;
    }
    out
}

/// The new value of one parameter under mutation: when its roll falls below
/// `rate` (thousandths), `delta` is added; the result is kept within
/// `WEIGHT_LIMIT`.
pub open spec fn perturbed(v: i64, roll: i64, delta: i64, rate: i64) -> i64 {
    let n = if roll < rate { v + delta } else { v as int };
    (if n < -WEIGHT_LIMIT { -WEIGHT_LIMIT as int } else if n > WEIGHT_LIMIT { WEIGHT_LIMIT as int } else { n }) as i64
}

pub open spec fn perturb_spec(v: Seq<i64>, rolls: Seq<i64>, deltas: Seq<i64>, rate: i64) -> Seq<i64> {
    Seq::new(v.len(), |i: int| perturbed(v[i], rolls[i], deltas[i], rate))
}

/// Applies one mutation roll and perturbation to every parameter of `v`.
pub fn perturb(v: &mut Vec<i64>, rolls: &Vec<i64>, deltas: &Vec<i64>, rate: i64)
    requires
        rolls.len() == old(v).len(),
        deltas.len() == old(v).len(),
        bounded(old(v)@, WEIGHT_LIMIT as int),
        bounded(deltas@, MUTATION_STEP as int),
    ensures
        final(v)@ == perturb_spec(old(v)@, rolls@, deltas@, rate),
        bounded(final(v)@, WEIGHT_LIMIT as int),
{
    let ghost start = v@;
    let mut i: usize = 0;
    while i < v.len()
        invariant
            v.len() == start.len(),
            rolls.len() == start.len(),
            deltas.len() == start.len(),
            bounded(start, WEIGHT_LIMIT as int),
            bounded(deltas@, MUTATION_STEP as int),
            i <= v.len(),
            forall|k: int| 0 <= k < i ==> #[trigger] v@[k] == perturbed(start[k], rolls@[k], deltas@[k], rate),
            forall|k: int| i <= k < v.len() ==> #[trigger] v@[k] == start[k],
        decreases start.len() - i,
    {
        let old_v = v[i];
        let n = if rolls[i] < rate { old_v + deltas[i] } else { old_v };
        let c = if n < -WEIGHT_LIMIT { -WEIGHT_LIMIT } else if n > WEIGHT_LIMIT { WEIGHT_LIMIT } else { n };
        v.set(i, c);
        i = i + 1;
    }
    assert(v@ =~= perturb_spec(start, rolls@, deltas@, rate));
}

/// Parameters after one mutation pass under some fit draws: rolls in
/// `[0, ONE - 1]`, perturbations within `MUTATION_STEP`.
pub open spec fn mutated_from(r: Seq<i64>, v: Seq<i64>, rate: i64) -> bool {
    exists|rolls: Seq<i64>, deltas: Seq<i64>|
        rolls.len() == v.len() && deltas.len() == v.len()
        && (forall|i: int| 0 <= i < v.len() ==> 0 <= #[trigger] rolls[i] < ONE)
        && bounded(deltas, MUTATION_STEP as int)
        && r == perturb_spec(v, rolls, deltas, rate)
}

/// A mutated parameter moves by at most `MUTATION_STEP`, and none moves when
/// the rate is 0 or below.
pub proof fn lemma_mutation_is_small(r: Seq<i64>, v: Seq<i64>, rate: i64)
    requires
        mutated_from(r, v, rate),
        bounded(v, WEIGHT_LIMIT as int),
    ensures
        r.len() == v.len(),
        forall|i: int| 0 <= i < v.len() ==> -MUTATION_STEP <= #[trigger] r[i] - v[i] <= MUTATION_STEP,
        rate <= 0 ==> r == v,
{
    let (rolls, deltas) = choose|rolls: Seq<i64>, deltas: Seq<i64>|
        rolls.len() == v.len() && deltas.len() == v.len()
        && (forall|i: int| 0 <= i < v.len() ==> 0 <= #[trigger] rolls[i] < ONE)
        && bounded(deltas, MUTATION_STEP as int)
        && r == perturb_spec(v, rolls, deltas, rate);
    assert forall|i: int| 0 <= i < v.len() implies -MUTATION_STEP <= #[trigger] r[i] - v[i] <= MUTATION_STEP by {
        assert(-MUTATION_STEP <= deltas[i] <= MUTATION_STEP);
        assert(-WEIGHT_LIMIT <= v[i] <= WEIGHT_LIMIT);
    }
    if rate <= 0 {
        assert forall|i: int| 0 <= i < v.len() implies #[trigger] r[i] == v[i] by {
            assert(0 <= rolls[i]);
            assert(-WEIGHT_LIMIT <= v[i] <= WEIGHT_LIMIT);
        }
        assert(r =~= v);
    }
}

impl NeuralNetwork {
    /// A network of the given shape, every weight and bias drawn uniformly
    /// from `[-1, 1]`.
    pub fn new(input_size: usize, hidden_size: usize, output_size: usize, rng: &mut ChaCha12Rng) -> (r: Self)
        requires
            valid_size(input_size),
            valid_size(hidden_size),
            valid_size(output_size),
        ensures
            r.wf(),
            r.input_size == input_size,
            r.hidden_size == hidden_size,
            r.output_size == output_size,
            bounded(r.weights_input_hidden@, ONE as int),
            bounded(r.weights_hidden_output@, ONE as int),
            bounded(r.biases_hidden@, ONE as int),
            bounded(r.biases_output@, ONE as int),
    {
        assert(input_size * hidden_size <= 512 * 512) by (nonlinear_arith)
            requires input_size <= 512, hidden_size <= 512;
        assert(hidden_size * output_size <= 512 * 512) by (nonlinear_arith)
            requires output_size <= 512, hidden_size <= 512;
        let weights_input_hidden = draw_many(rng, input_size * hidden_size, -ONE, ONE);
        let weights_hidden_output = draw_many(rng, hidden_size * output_size, -ONE, ONE);
        let biases_hidden = draw_many(rng, hidden_size, -ONE, ONE);
        let biases_output = draw_many(rng, output_size, -ONE, ONE);
        NeuralNetwork {
            input_size,
            hidden_size,
            output_size,
            weights_input_hidden,
            weights_hidden_output,
            biases_hidden,
            biases_output,
        }
    }

    /// The forward pass: the hidden layer, then the output layer, each through
/// the rational sigmoid.
    /// Every output lies in `[0, ONE]`.
    pub fn feedforward(&self, inputs: &Vec<i64>) -> (r: Vec<i64>)
        requires
            self.wf(),
            inputs.len() == self.input_size,
            bounded(inputs@, INPUT_LIMIT as int),
        ensures
            r@ == self.feedforward_spec(inputs@),
            r.len() == self.output_size,
            forall|k: int| 0 <= k < r.len() ==> 0 <= #[trigger] r@[k] <= ONE,
    {
        let hidden = layer(inputs, &self.weights_input_hidden, &self.biases_hidden, self.hidden_size);
        assert(bounded(hidden@, INPUT_LIMIT as int));
        let out = layer(&hidden, &self.weights_hidden_output, &self.biases_output, self.output_size);
        out
    }

    /// A child network of the parents' common shape: every weight and bias
    /// is, by an independent fair coin flip, parent1's value or parent2's
    /// value at the same place.
    pub fn crossover(parent1: &NeuralNetwork, parent2: &NeuralNetwork, rng: &mut ChaCha12Rng) -> (r: NeuralNetwork)
        requires
            parent1.wf(),
            parent2.wf(),
            parent1.same_shape(parent2),
        ensures
            r.wf(),
            r.same_shape(parent1),
            r.same_shape(parent2),
            from_either(r.weights_input_hidden@, parent1.weights_input_hidden@, parent2.weights_input_hidden@),
            from_either(r.weights_hidden_output@, parent1.weights_hidden_output@, parent2.weights_hidden_output@),
            from_either(r.biases_hidden@, parent1.biases_hidden@, parent2.biases_hidden@),
            from_either(r.biases_output@, parent1.biases_output@, parent2.biases_output@),
    {
        let c1 = flip_coins(rng, parent1.weights_input_hidden.len());
        let c2 = flip_coins(rng, parent1.weights_hidden_output.len());
        let c3 = flip_coins(rng, parent1.biases_hidden.len());
        let c4 = flip_coins(rng, parent1.biases_output.len());
        NeuralNetwork::crossover_with(parent1, parent2, &c1, &c2, &c3, &c4)
    }

    /// Crossover with the coin flips given: see `mix`.
    pub fn crossover_with(
        parent1: &NeuralNetwork,
        parent2: &NeuralNetwork,
        coins_input_hidden: &Vec<i64>,
        coins_hidden_output: &Vec<i64>,
        coins_hidden: &Vec<i64>,
        coins_output: &Vec<i64>,
    ) -> (r: NeuralNetwork)
        requires
            parent1.wf(),
            parent2.wf(),
            parent1.same_shape(parent2),
            coins_input_hidden.len() == parent1.weights_input_hidden.len(),
            coins_hidden_output.len() == parent1.weights_hidden_output.len(),
            coins_hidden.len() == parent1.biases_hidden.len(),
            coins_output.len() == parent1.biases_output.len(),
        ensures
            r.wf(),
            r.same_shape(parent1),
            r.weights_input_hidden@ == mix_spec(parent1.weights_input_hidden@, parent2.weights_input_hidden@, coins_input_hidden@),
            r.weights_hidden_output@ == mix_spec(parent1.weights_hidden_output@, parent2.weights_hidden_output@, coins_hidden_output@),
            r.biases_hidden@ == mix_spec(parent1.biases_hidden@, parent2.biases_hidden@, coins_hidden@),
            r.biases_output@ == mix_spec(parent1.biases_output@, parent2.biases_output@, coins_output@),
    {
        let r = NeuralNetwork {
            input_size: parent1.input_size,
            hidden_size: parent1.hidden_size,
            output_size: parent1.output_size,
            weights_input_hidden: mix(&parent1.weights_input_hidden, &parent2.weights_input_hidden, coins_input_hidden),
            weights_hidden_output: mix(&parent1.weights_hidden_output, &parent2.weights_hidden_output, coins_hidden_output),
            biases_hidden: mix(&parent1.biases_hidden, &parent2.biases_hidden, coins_hidden),
            biases_output: mix(&parent1.biases_output, &parent2.biases_output, coins_output),
        };
        proof {
            lemma_mix_bounded(parent1.weights_input_hidden@, parent2.weights_input_hidden@, coins_input_hidden@);
            lemma_mix_bounded(parent1.weights_hidden_output@, parent2.weights_hidden_output@, coins_hidden_output@);
            lemma_mix_bounded(parent1.biases_hidden@, parent2.biases_hidden@, coins_hidden@);
            lemma_mix_bounded(parent1.biases_output@, parent2.biases_output@, coins_output@);
        }
        r
    }
}

/// Every element of `r` is the element of `a` or of `b` at the same place,
/// and the three have one length.
pub open spec fn from_either(r: Seq<i64>, a: Seq<i64>, b: Seq<i64>) -> bool {
    &&& r.len() == a.len()
    &&& b.len() == a.len()
    &&& (forall|i: int| 0 <= i < r.len() ==> #[trigger] r[i] == a[i] || r[i] == b[i])
}

proof fn lemma_mix_bounded(a: Seq<i64>, b: Seq<i64>, coins: Seq<i64>)
    requires
        b.len() == a.len(),
        coins.len() == a.len(),
        bounded(a, WEIGHT_LIMIT as int),
        bounded(b, WEIGHT_LIMIT as int),
    ensures
        bounded(mix_spec(a, b, coins), WEIGHT_LIMIT as int),
{
    lemma_crossover_picks_parents(a, b, coins);
}

/// Crossover keeps the parents' shape and never interpolates: every element
/// of the child is the element of one parent at the same place, whatever
/// the coin flips.
pub proof fn lemma_crossover_picks_parents(a: Seq<i64>, b: Seq<i64>, coins: Seq<i64>)
    requires
        b.len() == a.len(),
    ensures
        from_either(mix_spec(a, b, coins), a, b),
{
}

} // verus!
