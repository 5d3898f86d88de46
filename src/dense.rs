//! The fully connected layer: an affine map followed by ReLU.
use vstd::prelude::*;
use crate::fixed::{sat_fold, lemma_sat_fold_step, mul_spec, sub_spec, relu_spec, fx_add, fx_mul, fx_sub, relu};
use crate::random::random_in;

verus! {

/// A sequence of fixed-point numbers read as mathematical integers.
pub open spec fn ints(v: Seq<i64>) -> Seq<int> {
    v.map_values(|e: i64| e as int)
}

/// Whether `m` holds `rows` rows of `cols` entries each.
pub open spec fn is_matrix(m: Seq<Vec<i64>>, rows: int, cols: int) -> bool {
    &&& m.len() == rows
    &&& forall|i: int| 0 <= i < rows ==> (#[trigger] m[i]).len() == cols
}

/// The products `w[j]·x[j]` whose sum is the dot product of `w` and `x`.
pub open spec fn products(w: Seq<i64>, x: Seq<i64>) -> Seq<int> {
    Seq::new(x.len(), |j: int| mul_spec(w[j] as int, x[j] as int))
}

/// The products `w[i][j]·d[i]` whose sum is entry `j` of `wᵀ·d`.
pub open spec fn column_products(w: Seq<Vec<i64>>, j: int, d: Seq<i64>) -> Seq<int> {
    Seq::new(d.len(), |i: int| mul_spec(w[i]@[j] as int, d[i] as int))
}

/// Pre-activation `z = W·x + b`: entry `i` adds the products of row `i` onto `b[i]`.
pub open spec fn affine_spec(w: Seq<Vec<i64>>, b: Seq<i64>, x: Seq<i64>) -> Seq<int> {
    Seq::new(b.len(), |i: int| sat_fold(b[i] as int, products(w[i]@, x)))
}

/// ReLU applied entry by entry.
pub open spec fn relu_seq(z: Seq<int>) -> Seq<int> {
    Seq::new(z.len(), |i: int| relu_spec(z[i]))
}

/// The output of a dense layer: `relu(W·x + b)`.
pub open spec fn dense_output(w: Seq<Vec<i64>>, b: Seq<i64>, x: Seq<i64>) -> Seq<int> {
    relu_seq(affine_spec(w, b, x))
}

/// The upstream gradient gated by the activation pattern: `d[i] = g[i]` where `z[i] > 0`, else 0.
pub open spec fn gate(g: Seq<i64>, z: Seq<i64>) -> Seq<i64> {
    Seq::new(g.len(), |i: int| if z[i] > 0 { g[i] } else { 0i64 })
}

/// The gradient with respect to the input: `Wᵀ·d`.
pub open spec fn input_gradient(w: Seq<Vec<i64>>, d: Seq<i64>, cols: int) -> Seq<int> {
    Seq::new(cols as nat, |j: int| sat_fold(0, column_products(w, j, d)))
}

/// Weights after one SGD step: `W[i][j] − lr·(d[i]·x[j])`.
pub open spec fn updated_weight(w: Seq<Vec<i64>>, d: Seq<i64>, x: Seq<i64>, lr: i64, i: int, j: int) -> int {
    sub_spec(w[i]@[j] as int, mul_spec(lr as int, mul_spec(d[i] as int, x[j] as int)))
}

/// Biases after one SGD step: `b[i] − lr·d[i]`.
pub open spec fn updated_bias(b: Seq<i64>, d: Seq<i64>, lr: i64, i: int) -> int {
    sub_spec(b[i] as int, mul_spec(lr as int, d[i] as int))
}

/// Largest magnitude of an initial weight or bias: 0.1.
pub const DENSE_INIT_BOUND: i64 = 100_000;

/// A fully connected layer with ReLU activation.
pub struct DenseLayer {
    weights: Vec<Vec<i64>>,
    biases: Vec<i64>,
    last_input: Vec<i64>,
    pre_activation: Vec<i64>,
}

impl DenseLayer {
    /// Number of inputs.
    pub closed spec fn input_dim(&self) -> nat {
        if self.weights@.len() > 0 { self.weights@[0]@.len() } else { 0 }
    }

    /// Number of outputs.
    pub open spec fn output_dim(&self) -> nat {
        self.biases_spec().len()
    }

    /// The weight matrix, one row per output.
    pub closed spec fn weights_spec(&self) -> Seq<Vec<i64>> {
        self.weights@
    }

    /// The bias vector.
    pub closed spec fn biases_spec(&self) -> Seq<i64> {
        self.biases@
    }

    /// Whether a forward pass is cached and not yet consumed by `backward`.
    pub closed spec fn is_forwarded(&self) -> bool {
        self.last_input@.len() == self.input_dim() && self.pre_activation@.len() == self.output_dim()
    }

    /// The cached input of the last forward pass.
    pub closed spec fn cached_input(&self) -> Seq<i64> {
        self.last_input@
    }

    /// The cached pre-activation of the last forward pass.
    pub closed spec fn cached_pre_activation(&self) -> Seq<i64> {
        self.pre_activation@
    }

    /// Shapes agree and both dimensions are positive.
    pub closed spec fn wf(&self) -> bool {
        &&& self.output_dim() > 0
        &&& self.input_dim() > 0
        &&& is_matrix(self.weights@, self.output_dim() as int, self.input_dim() as int)
        &&& (self.last_input@.len() == 0 || self.last_input@.len() == self.input_dim())
        &&& (self.pre_activation@.len() == 0 || self.pre_activation@.len() == self.output_dim())
    }

    /// A well-formed layer has positive dimensions and one weight row of
    /// `input_dim` entries per output.
    pub proof fn lemma_dims(&self)
        requires
            self.wf(),
        ensures
            self.input_dim() >= 1,
            self.output_dim() >= 1,
            is_matrix(self.weights_spec(), self.output_dim() as int, self.input_dim() as int),
    {
    }

    /// What `forward` returns on `x` with the current parameters.
    pub open spec fn output_spec(&self, x: Seq<i64>) -> Seq<int> {
        dense_output(self.weights_spec(), self.biases_spec(), x)
    }

    /// The weight matrix, one row per output.
    pub fn weights(&self) -> (r: &Vec<Vec<i64>>)
        ensures
            r@ == self.weights_spec(),
    {
        &self.weights
    }

    /// The bias vector.
    pub fn biases(&self) -> (r: &Vec<i64>)
        ensures
            r@ == self.biases_spec(),
    {
        &self.biases
    }

    /// Builds a layer from given weights (one row per output) and biases.
    pub fn from_parameters(weights: Vec<Vec<i64>>, biases: Vec<i64>) -> (r: DenseLayer)
        requires
            biases.len() > 0,
            weights@.len() > 0 && weights@[0].len() > 0,
            is_matrix(weights@, biases.len() as int, weights@[0].len() as int),
        ensures
            r.wf(),
            r.weights_spec() == weights@,
            r.biases_spec() == biases@,
            r.input_dim() == weights@[0].len(),
            r.output_dim() == biases.len(),
            !r.is_forwarded(),
    {
        DenseLayer { weights, biases, last_input: Vec::new(), pre_activation: Vec::new() }
    }

    /// Builds a layer with weights and biases drawn uniformly from [−0.1, 0.1].
    pub fn new(input: usize, output: usize) -> (r: DenseLayer)
        requires
            input > 0,
            output > 0,
        ensures
            r.wf(),
            r.input_dim() == input,
            r.output_dim() == output,
            is_matrix(r.weights_spec(), output as int, input as int),
            !r.is_forwarded(),
            forall|i: int, j: int|
                0 <= i < output && 0 <= j < input ==> -DENSE_INIT_BOUND <= #[trigger] r.weights_spec()[i]@[j]
                    <= DENSE_INIT_BOUND,
            forall|i: int| 0 <= i < output ==> -DENSE_INIT_BOUND <= #[trigger] r.biases_spec()[i] <= DENSE_INIT_BOUND,
    {
        let mut weights: Vec<Vec<i64>> = Vec::new();
        let mut biases: Vec<i64> = Vec::new();
        let mut i: usize = 0;
        while i < output
            invariant
                i <= output,
                input > 0,
                weights@.len() == i,
                biases@.len() == i,
                forall|a: int| 0 <= a < i ==> (#[trigger] weights@[a]).len() == input,
                forall|a: int, j: int|
                    0 <= a < i && 0 <= j < input ==> -DENSE_INIT_BOUND <= #[trigger] weights@[a]@[j] <= DENSE_INIT_BOUND,
                forall|a: int| 0 <= a < i ==> -DENSE_INIT_BOUND <= #[trigger] biases@[a] <= DENSE_INIT_BOUND,
            decreases output - i,
        {
            let mut row: Vec<i64> = Vec::new();
            let mut j: usize = 0;
            while j < input
                invariant
                    j <= input,
                    row@.len() == j,
                    forall|c: int| 0 <= c < j ==> -DENSE_INIT_BOUND <= #[trigger] row@[c] <= DENSE_INIT_BOUND,
                decreases input - j,
            {
                row.push(random_in(-DENSE_INIT_BOUND, DENSE_INIT_BOUND));
                j += 1;
            }
            weights.push(row);
            biases.push(random_in(-DENSE_INIT_BOUND, DENSE_INIT_BOUND));
            i += 1;
        }
        DenseLayer { weights, biases, last_input: Vec::new(), pre_activation: Vec::new() }
    }
    /// Runs the layer on `input`: returns `relu(W·input + b)` and caches the
    /// input and the pre-activation for `backward`.
    pub fn forward(&mut self, input: &Vec<i64>) -> (r: Vec<i64>)
        requires
            old(self).wf(),
            input.len() == old(self).input_dim(),
        ensures
            final(self).wf(),
            final(self).is_forwarded(),
            final(self).weights_spec() == old(self).weights_spec(),
            final(self).biases_spec() == old(self).biases_spec(),
            final(self).input_dim() == old(self).input_dim(),
            final(self).output_dim() == old(self).output_dim(),
            final(self).cached_input() == input@,
            ints(final(self).cached_pre_activation()) == affine_spec(
                old(self).weights_spec(),
                old(self).biases_spec(),
                input@,
            ),
            ints(r@) == old(self).output_spec(input@),
            r.len() == old(self).output_dim(),
    {
        let n = self.biases.len();
        let mut z: Vec<i64> = Vec::new();
        let mut a: Vec<i64> = Vec::new();
        let mut i: usize = 0;
        while i < n
            invariant
                self.wf(),
                n == self.biases.len(),
                input.len() == self.input_dim(),
                i <= n,
                z.len() == i,
                a.len() == i,
                forall|k: int| 0 <= k < i ==> #[trigger] z@[k] == affine_spec(self.weights@, self.biases@, input@)[k],
                forall|k: int| 0 <= k < i ==> #[trigger] a@[k] == relu_spec(z@[k] as int),
            decreases n - i,
        {
            let v = dot_from(self.biases[i], &self.weights[i], input);
            z.push(v);
            a.push(relu(v));
            i += 1;
        }
        proof {
            assert(ints(z@) =~= affine_spec(self.weights@, self.biases@, input@));
            assert(ints(a@) =~= dense_output(self.weights@, self.biases@, input@));
        }
        self.last_input = input.clone();
        self.pre_activation = z;
        a
    }

    /// Back-propagates `error`, the gradient of the loss with respect to the
    /// last output: gates it through ReLU, returns `Wᵀ·d` computed with the old
    /// weights, and takes one SGD step of size `learn` on weights and biases.
    /// The cache is consumed.
    pub fn backward(&mut self, error: &Vec<i64>, learn: i64) -> (r: Vec<i64>)
        requires
            old(self).wf(),
            old(self).is_forwarded(),
            error.len() == old(self).output_dim(),
        ensures
            final(self).wf(),
            !final(self).is_forwarded(),
            final(self).input_dim() == old(self).input_dim(),
            final(self).output_dim() == old(self).output_dim(),
            is_matrix(final(self).weights_spec(), old(self).output_dim() as int, old(self).input_dim() as int),
            r.len() == old(self).input_dim(),
            ints(r@) == input_gradient(
                old(self).weights_spec(),
                gate(error@, old(self).cached_pre_activation()),
                old(self).input_dim() as int,
            ),
            forall|i: int, j: int|
                0 <= i < old(self).output_dim() && 0 <= j < old(self).input_dim() ==> #[trigger] final(self).weights_spec()[i]@[j] == updated_weight(
                    old(self).weights_spec(),
                    gate(error@, old(self).cached_pre_activation()),
                    old(self).cached_input(),
                    learn,
                    i,
                    j,
                ),
            forall|i: int|
                0 <= i < old(self).output_dim() ==> #[trigger] final(self).biases_spec()[i] == updated_bias(
                    old(self).biases_spec(),
                    gate(error@, old(self).cached_pre_activation()),
                    learn,
                    i,
                ),
    {
        let n = self.biases.len();
        let m = self.last_input.len();
        let ghost dg = gate(error@, self.pre_activation@);
        let mut d: Vec<i64> = Vec::new();
        let mut i: usize = 0;
        while i < n
            invariant
                n == self.biases.len(),
                n == error.len(),
                self.pre_activation@.len() == n,
                dg == gate(error@, self.pre_activation@),
                i <= n,
                d.len() == i,
                forall|k: int| 0 <= k < i ==> #[trigger] d@[k] == dg[k],
            decreases n - i,
        {
            if self.pre_activation[i] > 0 {
                d.push(error[i]);
            } else {
                d.push(0);
            }
            i += 1;
        }
        assert(d@ =~= dg);
        let mut dx: Vec<i64> = Vec::new();
        let mut j: usize = 0;
        while j < m
            invariant
                self.wf(),
                self.is_forwarded(),
                m == self.input_dim(),
                n == self.output_dim(),
                d@ == dg,
                d.len() == n,
                j <= m,
                dx.len() == j,
                forall|k: int| 0 <= k < j ==> #[trigger] dx@[k] == input_gradient(self.weights@, dg, m as int)[k],
            decreases m - j,
        {
            let ghost terms = column_products(self.weights@, j as int, dg);
            let mut acc: i64 = 0;
            let mut k: usize = 0;
            while k < n
                invariant
                    self.wf(),
                    m == self.input_dim(),
                    n == self.output_dim(),
                    j < m,
                    d@ == dg,
                    d.len() == n,
                    k <= n,
                    terms == column_products(self.weights@, j as int, dg),
                    acc == sat_fold(0, terms.take(k as int)),
                decreases n - k,
            {
                proof {
                    lemma_sat_fold_step(0, terms, k as int);
                }
                acc = fx_add(acc, fx_mul(self.weights[k][j], d[k]));
                k += 1;
            }
            assert(terms.take(n as int) =~= terms);
            dx.push(acc);
            j += 1;
        }
        assert(ints(dx@) =~= input_gradient(self.weights@, dg, m as int));
        let ghost w0 = self.weights@;
        let ghost b0 = self.biases@;
        let ghost x0 = self.last_input@;
        let mut new_weights: Vec<Vec<i64>> = Vec::new();
        let mut new_biases: Vec<i64> = Vec::new();
        let mut i: usize = 0;
        while i < n
            invariant
                self.wf(),
                self.is_forwarded(),
                w0 == self.weights@,
                b0 == self.biases@,
                x0 == self.last_input@,
                m == self.input_dim(),
                n == self.output_dim(),
                d@ == dg,
                d.len() == n,
                i <= n,
                new_weights.len() == i,
                new_biases.len() == i,
                forall|a: int| 0 <= a < i ==> (#[trigger] new_weights@[a]).len() == m,
                forall|a: int, c: int|
                    0 <= a < i && 0 <= c < m ==> #[trigger] new_weights@[a]@[c] == updated_weight(w0, dg, x0, learn, a, c),
                forall|a: int| 0 <= a < i ==> #[trigger] new_biases@[a] == updated_bias(b0, dg, learn, a),
            decreases n - i,
        {
            let mut row: Vec<i64> = Vec::new();
            let mut c: usize = 0;
            while c < m
                invariant
                    self.wf(),
                    self.is_forwarded(),
                    w0 == self.weights@,
                    x0 == self.last_input@,
                    m == self.input_dim(),
                    n == self.output_dim(),
                    d@ == dg,
                    d.len() == n,
                    i < n,
                    c <= m,
                    row.len() == c,
                    forall|e: int| 0 <= e < c ==> #[trigger] row@[e] == updated_weight(w0, dg, x0, learn, i as int, e),
                decreases m - c,
            {
                let step = fx_mul(learn, fx_mul(d[i], self.last_input[c]));
                row.push(fx_sub(self.weights[i][c], step));
                c += 1;
            }
            new_weights.push(row);
            new_biases.push(fx_sub(self.biases[i], fx_mul(learn, d[i])));
            i += 1;
        }
        self.weights = new_weights;
        self.biases = new_biases;
        self.last_input = Vec::new();
        self.pre_activation = Vec::new();
        dx
    }
}

/// Adds the products `w[j]·x[j]` one by one onto `init`.
fn dot_from(init: i64, w: &Vec<i64>, x: &Vec<i64>) -> (r: i64)
    requires
        w.len() == x.len(),
    ensures
        r == sat_fold(init as int, products(w@, x@)),
{
    let ghost terms = products(w@, x@);
    let mut acc: i64 = init;
    let mut j: usize = 0;
    while j < x.len()
        invariant
            j <= x.len(),
            w.len() == x.len(),
            terms == products(w@, x@),
            acc == sat_fold(init as int, terms.take(j as int)),
        decreases x.len() - j,
    {
        proof {
            lemma_sat_fold_step(init as int, terms, j as int);
        }
        acc = fx_add(acc, fx_mul(w[j], x[j]));
        j += 1;
    }
    assert(terms.take(x.len() as int) =~= terms);
    acc
}

} // verus!
