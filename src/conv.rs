//! The 2D convolutional layer: single input channel, several filters,
//! zero padding and stride, no activation.
use vstd::prelude::*;
use crate::fixed::{sat_fold, mul_spec, sub_spec, fx_add, fx_mul, fx_sub};
use crate::grid::{grid, lemma_grid_step, lemma_grid_whole, lemma_flat_index};
use crate::random::random_in;
use crate::dense::{ints, is_matrix};

verus! {

/// The rows of a matrix as sequences.
pub open spec fn rows_of(m: Seq<Vec<i64>>) -> Seq<Seq<i64>> {
    m.map_values(|row: Vec<i64>| row@)
}

/// A row-major vector of `h·w` entries cut into `h` rows of `w`.
pub open spec fn unflatten(v: Seq<i64>, h: int, w: int) -> Seq<Seq<i64>> {
    Seq::new(h as nat, |i: int| v.subrange(i * w, i * w + w))
}

/// Entry `(y, c)` of `x` surrounded by a border of `p` zeros.
pub open spec fn pad_at(x: Seq<Seq<i64>>, p: int, y: int, c: int) -> int {
    if p <= y < p + x.len() && p <= c < p + x[y - p].len() {
        x[y - p][c - p] as int
    } else {
        0
    }
}

/// Output size along one axis: `(n + 2p − f)/s + 1`.
pub open spec fn out_size(n: int, p: int, f: int, s: int) -> int {
    (n + 2 * p - f) / s + 1
}

/// The products of a filter with the padded-input window at output position `(i, j)`.
pub open spec fn window_fn(x: Seq<Seq<i64>>, f: Seq<Vec<i64>>, p: int, s: int, i: int, j: int) -> spec_fn(
    int,
    int,
) -> int {
    |r: int, c: int| mul_spec(f[r]@[c] as int, pad_at(x, p, i * s + r, j * s + c))
}

/// Largest magnitude of an initial filter entry or bias: 1.0.
pub const CONV_INIT_BOUND: i64 = 1_000_000;

proof fn lemma_out_size(n: int, p: int, f: int, s: int)
    requires
        1 <= f <= n + 2 * p,
        s >= 1,
        p >= 0,
    ensures
        1 <= out_size(n, p, f, s) <= n + 2 * p,
        (out_size(n, p, f, s) - 1) * s + f <= n + 2 * p,
{
    let a = n + 2 * p - f;
    vstd::arithmetic::div_mod::lemma_fundamental_div_mod(a, s);
    vstd::arithmetic::div_mod::lemma_div_pos_is_pos(a, s);
    vstd::arithmetic::div_mod::lemma_div_is_ordered_by_denominator(a, 1, s);
    assert((a / s) * s <= a) by (nonlinear_arith)
        requires
            a == s * (a / s) + a % s,
            a % s >= 0,
    ;
}

proof fn lemma_window_in_bounds(i: int, r: int, o: int, s: int, f: int, n: int)
    requires
        0 <= i < o,
        0 <= r < f,
        s >= 1,
        (o - 1) * s + f <= n,
    ensures
        0 <= i * s + r < n,
        0 <= i * s,
{
    assert(0 <= i * s <= (o - 1) * s) by (nonlinear_arith)
        requires
            0 <= i < o,
            s >= 1,
    ;
}

/// A 2D convolutional layer over one input channel.
pub struct ConvLayer {
    filters: Vec<Vec<Vec<i64>>>,
    bias: Vec<i64>,
    padding: usize,
    stride: usize,
    filter_size: usize,
    input_rows: usize,
    input_cols: usize,
    last_input_matrix: Vec<Vec<i64>>,
}

impl ConvLayer {
    /// The filters, each `filter_size × filter_size`.
    pub closed spec fn filters_spec(&self) -> Seq<Vec<Vec<i64>>> {
        self.filters@
    }

    /// The filter at channel `k` as rows.
    pub open spec fn filter(&self, k: int) -> Seq<Vec<i64>> {
        self.filters_spec()[k]@
    }

    /// One bias per filter.
    pub closed spec fn bias_spec(&self) -> Seq<i64> {
        self.bias@
    }

    pub closed spec fn padding_spec(&self) -> int {
        self.padding as int
    }

    pub closed spec fn stride_spec(&self) -> int {
        self.stride as int
    }

    pub closed spec fn filter_size_spec(&self) -> int {
        self.filter_size as int
    }

    /// Rows of the input this layer reads.
    pub closed spec fn input_rows_spec(&self) -> int {
        self.input_rows as int
    }

    /// Columns of the input this layer reads.
    pub closed spec fn input_cols_spec(&self) -> int {
        self.input_cols as int
    }

    /// Number of filters, that is of output channels.
    pub open spec fn channels(&self) -> int {
        self.bias_spec().len() as int
    }

    pub open spec fn padded_rows(&self) -> int {
        self.input_rows_spec() + 2 * self.padding_spec()
    }

    pub open spec fn padded_cols(&self) -> int {
        self.input_cols_spec() + 2 * self.padding_spec()
    }

    pub open spec fn out_rows(&self) -> int {
        out_size(self.input_rows_spec(), self.padding_spec(), self.filter_size_spec(), self.stride_spec())
    }

    pub open spec fn out_cols(&self) -> int {
        out_size(self.input_cols_spec(), self.padding_spec(), self.filter_size_spec(), self.stride_spec())
    }

    /// Length of the flattened input.
    pub open spec fn input_len(&self) -> int {
        self.input_rows_spec() * self.input_cols_spec()
    }

    /// Length of the flattened output: channels × rows × columns.
    pub open spec fn output_len(&self) -> int {
        self.channels() * (self.out_rows() * self.out_cols())
    }

    /// The padded input cached by the last forward pass.
    pub closed spec fn cached_padded(&self) -> Seq<Vec<i64>> {
        self.last_input_matrix@
    }

    /// Whether a forward pass is cached and not yet consumed.
    pub closed spec fn is_forwarded(&self) -> bool {
        self.last_input_matrix@.len() > 0
    }

    /// Shapes agree, sizes are positive, and every size fits in `usize`.
    pub closed spec fn wf(&self) -> bool {
        &&& self.bias@.len() >= 1
        &&& self.filters@.len() == self.bias@.len()
        &&& self.filter_size >= 1
        &&& self.stride >= 1
        &&& self.input_rows >= 1
        &&& self.input_cols >= 1
        &&& self.filter_size <= self.input_rows + 2 * self.padding
        &&& self.filter_size <= self.input_cols + 2 * self.padding
        &&& (self.input_rows + 2 * self.padding - self.filter_size) % (self.stride as int) == 0
        &&& (self.input_cols + 2 * self.padding - self.filter_size) % (self.stride as int) == 0
        &&& (self.input_rows + 2 * self.padding) * (self.input_cols + 2 * self.padding) * self.bias@.len()
            <= usize::MAX
        &&& forall|k: int|
            0 <= k < self.filters@.len() ==> is_matrix(
                #[trigger] self.filters@[k]@,
                self.filter_size as int,
                self.filter_size as int,
            )
        &&& (self.last_input_matrix@.len() == 0 || is_matrix(
            self.last_input_matrix@,
            self.input_rows + 2 * self.padding,
            self.input_cols + 2 * self.padding,
        ))
    }

    /// Output channel `k` at position `(i, j)` for input `x`:
    /// `bias[k] + Σ_{r,c} filter[k][r][c] · padded(x)[i·s + r][j·s + c]`.
    pub open spec fn output_at(&self, x: Seq<Seq<i64>>, k: int, i: int, j: int) -> int {
        sat_fold(
            self.bias_spec()[k] as int,
            grid(
                self.filter_size_spec(),
                self.filter_size_spec(),
                window_fn(x, self.filter(k), self.padding_spec(), self.stride_spec(), i, j),
            ),
        )
    }
    /// The flattened output for a flattened input `x`: entry
    /// `(k·out_rows + i)·out_cols + j` is channel `k` at `(i, j)`.
    pub open spec fn flat_output(&self, x: Seq<i64>) -> Seq<int> {
        let hw = self.out_rows() * self.out_cols();
        let ow = self.out_cols();
        let m = unflatten(x, self.input_rows_spec(), self.input_cols_spec());
        Seq::new(self.output_len() as nat, |t: int| self.output_at(m, t / hw, (t % hw) / ow, (t % hw) % ow))
    }

    /// Both layers have the same filters, biases and shape.
    pub open spec fn same_parameters(&self, other: &ConvLayer) -> bool {
        &&& self.filters_spec() == other.filters_spec()
        &&& self.bias_spec() == other.bias_spec()
        &&& self.padding_spec() == other.padding_spec()
        &&& self.stride_spec() == other.stride_spec()
        &&& self.filter_size_spec() == other.filter_size_spec()
        &&& self.input_rows_spec() == other.input_rows_spec()
        &&& self.input_cols_spec() == other.input_cols_spec()
    }

    /// The cache holds `x` padded with zeros.
    pub open spec fn caches(&self, x: Seq<Seq<i64>>) -> bool {
        &&& self.is_forwarded()
        &&& forall|y: int, c: int|
            0 <= y < self.padded_rows() && 0 <= c < self.padded_cols() ==> #[trigger] self.cached_padded()[y]@[c]
                == pad_at(x, self.padding_spec(), y, c)
    }

    /// The upstream gradient at channel `k`, position `(i, j)`, read from its flattened form.
    pub open spec fn grad_at(&self, g: Seq<i64>, k: int, i: int, j: int) -> int {
        g[k * (self.out_rows() * self.out_cols()) + (i * self.out_cols() + j)] as int
    }

    /// The products `G[k][i][j] · padded[i·s + r][j·s + c]` over output positions.
    pub open spec fn filter_grad_fn(&self, g: Seq<i64>, k: int, r: int, c: int) -> spec_fn(int, int) -> int {
        |i: int, j: int|
            mul_spec(
                self.grad_at(g, k, i, j),
                self.cached_padded()[i * self.stride_spec() + r]@[j * self.stride_spec() + c] as int,
            )
    }

    /// `∂L/∂filter[k][r][c] = Σ_{i,j} G[k][i][j] · padded[i·s + r][j·s + c]`.
    pub open spec fn filter_gradient(&self, g: Seq<i64>, k: int, r: int, c: int) -> int {
        sat_fold(0, grid(self.out_rows(), self.out_cols(), self.filter_grad_fn(g, k, r, c)))
    }

    /// The entries of channel `k` of the upstream gradient.
    pub open spec fn bias_grad_fn(&self, g: Seq<i64>, k: int) -> spec_fn(int, int) -> int {
        |i: int, j: int| self.grad_at(g, k, i, j)
    }

    /// `∂L/∂bias[k] = Σ_{i,j} G[k][i][j]`.
    pub open spec fn bias_gradient(&self, g: Seq<i64>, k: int) -> int {
        sat_fold(0, grid(self.out_rows(), self.out_cols(), self.bias_grad_fn(g, k)))
    }

    /// What filter `k` at `(r, c)` scatters into padded cell `(y, x)`:
    /// `filter[k][r][c] · G[k][i][j]` where `(y, x) = (i·s + r, j·s + c)`, else 0.
    pub open spec fn contribution(&self, g: Seq<i64>, k: int, r: int, c: int, y: int, x: int) -> int {
        let s = self.stride_spec();
        if y >= r && x >= c && (y - r) % s == 0 && (x - c) % s == 0 && (y - r) / s < self.out_rows() && (x - c) / s
            < self.out_cols() {
            mul_spec(self.filter(k)[r]@[c] as int, self.grad_at(g, k, (y - r) / s, (x - c) / s))
        } else {
            0
        }
    }

    /// The contributions to padded cell `(y, x)`, by filter and filter position.
    pub open spec fn input_grad_fn(&self, g: Seq<i64>, y: int, x: int) -> spec_fn(int, int) -> int {
        let f = self.filter_size_spec();
        |k: int, q: int| self.contribution(g, k, q / f, q % f, y, x)
    }

    /// `∂L/∂input[a][b]`: the sum of all contributions to padded cell `(a + p, b + p)`.
    pub open spec fn input_gradient_at(&self, g: Seq<i64>, a: int, b: int) -> int {
        let f = self.filter_size_spec();
        let p = self.padding_spec();
        sat_fold(0, grid(self.channels(), f * f, self.input_grad_fn(g, a + p, b + p)))
    }

    /// The flattened gradient with respect to the input.
    pub open spec fn input_gradient(&self, g: Seq<i64>) -> Seq<int> {
        let w = self.input_cols_spec();
        Seq::new(self.input_len() as nat, |t: int| self.input_gradient_at(g, t / w, t % w))
    }

    /// The filters.
    pub fn filters(&self) -> (r: &Vec<Vec<Vec<i64>>>)
        ensures
            r@ == self.filters_spec(),
    {
        &self.filters
    }

    /// One bias per filter.
    pub fn bias(&self) -> (r: &Vec<i64>)
        ensures
            r@ == self.bias_spec(),
    {
        &self.bias
    }

    /// Builds a layer reading `input_rows × input_cols` inputs from given
    /// filters (each `filter_size × filter_size`) and one bias per filter.
    pub fn from_parameters(
        input_rows: usize,
        input_cols: usize,
        filters: Vec<Vec<Vec<i64>>>,
        bias: Vec<i64>,
        filter_size: usize,
        stride: usize,
        padding: usize,
    ) -> (r: ConvLayer)
        requires
            bias.len() >= 1,
            filters.len() == bias.len(),
            filter_size >= 1,
            stride >= 1,
            input_rows >= 1,
            input_cols >= 1,
            filter_size <= input_rows + 2 * padding,
            filter_size <= input_cols + 2 * padding,
            (input_rows + 2 * padding - filter_size) % (stride as int) == 0,
            (input_cols + 2 * padding - filter_size) % (stride as int) == 0,
            (input_rows + 2 * padding) * (input_cols + 2 * padding) * bias.len() <= usize::MAX,
            forall|k: int|
                0 <= k < filters.len() ==> is_matrix(#[trigger] filters@[k]@, filter_size as int, filter_size as int),
        ensures
            r.wf(),
            !r.is_forwarded(),
            r.filters_spec() == filters@,
            r.bias_spec() == bias@,
            r.filter_size_spec() == filter_size,
            r.stride_spec() == stride,
            r.padding_spec() == padding,
            r.input_rows_spec() == input_rows,
            r.input_cols_spec() == input_cols,
    {
        ConvLayer {
            filters,
            bias,
            padding,
            stride,
            filter_size,
            input_rows,
            input_cols,
            last_input_matrix: Vec::new(),
        }
    }

    /// Builds a layer with `output` filters for square `input × input`
    /// inputs, entries drawn uniformly from [−1, 1].
    pub fn new(input: usize, output: usize, filter_size: usize, stride: usize, padding: usize) -> (r: ConvLayer)
        requires
            output >= 1,
            filter_size >= 1,
            stride >= 1,
            input >= 1,
            filter_size <= input + 2 * padding,
            (input + 2 * padding - filter_size) % (stride as int) == 0,
            (input + 2 * padding) * (input + 2 * padding) * output <= usize::MAX,
        ensures
            r.wf(),
            !r.is_forwarded(),
            r.channels() == output,
            r.filters_spec().len() == r.channels(),
            forall|k: int|
                0 <= k < r.channels() ==> is_matrix(
                    #[trigger] r.filter(k),
                    r.filter_size_spec(),
                    r.filter_size_spec(),
                ),
            r.filter_size_spec() == filter_size,
            r.stride_spec() == stride,
            r.padding_spec() == padding,
            r.input_rows_spec() == input,
            r.input_cols_spec() == input,
            forall|k: int, a: int, b: int|
                0 <= k < output && 0 <= a < filter_size && 0 <= b < filter_size ==> -CONV_INIT_BOUND
                    <= #[trigger] r.filter(k)[a]@[b] <= CONV_INIT_BOUND,
            forall|k: int| 0 <= k < output ==> -CONV_INIT_BOUND <= #[trigger] r.bias_spec()[k] <= CONV_INIT_BOUND,
    {
        let mut filters: Vec<Vec<Vec<i64>>> = Vec::new();
        let mut bias: Vec<i64> = Vec::new();
        let mut k: usize = 0;
        while k < output
            invariant
                k <= output,
                filters.len() == k,
                bias.len() == k,
                forall|q: int|
                    0 <= q < k ==> is_matrix(#[trigger] filters@[q]@, filter_size as int, filter_size as int),
                forall|q: int, a: int, b: int|
                    0 <= q < k && 0 <= a < filter_size && 0 <= b < filter_size ==> -CONV_INIT_BOUND
                        <= #[trigger] filters@[q]@[a]@[b] <= CONV_INIT_BOUND,
                forall|q: int| 0 <= q < k ==> -CONV_INIT_BOUND <= #[trigger] bias@[q] <= CONV_INIT_BOUND,
            decreases output - k,
        {
            let mut f: Vec<Vec<i64>> = Vec::new();
            let mut a: usize = 0;
            while a < filter_size
                invariant
                    a <= filter_size,
                    f.len() == a,
                    forall|q: int| 0 <= q < a ==> (#[trigger] f@[q]).len() == filter_size,
                    forall|q: int, b: int|
                        0 <= q < a && 0 <= b < filter_size ==> -CONV_INIT_BOUND <= #[trigger] f@[q]@[b]
                            <= CONV_INIT_BOUND,
                decreases filter_size - a,
            {
                let mut row: Vec<i64> = Vec::new();
                let mut b: usize = 0;
                while b < filter_size
                    invariant
                        b <= filter_size,
                        row.len() == b,
                        forall|q: int| 0 <= q < b ==> -CONV_INIT_BOUND <= #[trigger] row@[q] <= CONV_INIT_BOUND,
                    decreases filter_size - b,
                {
                    row.push(random_in(-CONV_INIT_BOUND, CONV_INIT_BOUND));
                    b += 1;
                }
                f.push(row);
                a += 1;
            }
            filters.push(f);
            bias.push(random_in(-CONV_INIT_BOUND, CONV_INIT_BOUND));
            k += 1;
        }
        ConvLayer {
            filters,
            bias,
            padding,
            stride,
            filter_size,
            input_rows: input,
            input_cols: input,
            last_input_matrix: Vec::new(),
        }
    }

    /// Every size derived from the shape fits in `usize`.
    pub proof fn lemma_sizes(&self)
        requires
            self.wf(),
        ensures
            1 <= self.padded_rows() <= usize::MAX,
            1 <= self.padded_cols() <= usize::MAX,
            self.padded_rows() * self.padded_cols() <= usize::MAX,
            1 <= self.out_rows() <= self.padded_rows(),
            1 <= self.out_cols() <= self.padded_cols(),
            (self.out_rows() - 1) * self.stride_spec() + self.filter_size_spec() <= self.padded_rows(),
            (self.out_cols() - 1) * self.stride_spec() + self.filter_size_spec() <= self.padded_cols(),
            1 <= self.out_rows() * self.out_cols() <= usize::MAX,
            1 <= self.output_len() <= usize::MAX,
            1 <= self.input_len() <= usize::MAX,
            self.filter_size_spec() * self.filter_size_spec() <= usize::MAX,
            self.channels() * (self.filter_size_spec() * self.filter_size_spec()) <= usize::MAX,
            (self.padded_rows() - self.filter_size_spec()) % self.stride_spec() == 0,
            (self.padded_cols() - self.filter_size_spec()) % self.stride_spec() == 0,
            self.filters_spec().len() == self.channels(),
            forall|k: int|
                0 <= k < self.channels() ==> is_matrix(
                    #[trigger] self.filter(k),
                    self.filter_size_spec(),
                    self.filter_size_spec(),
                ),
    {
        let ph = self.padded_rows();
        let pw = self.padded_cols();
        let k = self.channels();
        let h = self.input_rows_spec();
        let w = self.input_cols_spec();
        let f = self.filter_size_spec();
        lemma_out_size(h, self.padding_spec(), f, self.stride_spec());
        lemma_out_size(w, self.padding_spec(), f, self.stride_spec());
        let oh = self.out_rows();
        let ow = self.out_cols();
        assert(ph * pw * k <= usize::MAX);
        assert(1 <= ph <= ph * pw <= ph * pw * k) by (nonlinear_arith)
            requires
                ph >= 1,
                pw >= 1,
                k >= 1,
        ;
        assert(pw <= ph * pw) by (nonlinear_arith)
            requires
                ph >= 1,
                pw >= 1,
        ;
        assert(1 <= oh * ow <= ph * pw) by (nonlinear_arith)
            requires
                1 <= oh <= ph,
                1 <= ow <= pw,
        ;
        assert(1 <= k * (oh * ow) <= ph * pw * k) by (nonlinear_arith)
            requires
                1 <= oh * ow <= ph * pw,
                k >= 1,
        ;
        assert(1 <= h * w <= ph * pw) by (nonlinear_arith)
            requires
                1 <= h <= ph,
                1 <= w <= pw,
        ;
        assert(1 <= f * f <= ph * pw) by (nonlinear_arith)
            requires
                1 <= f <= ph,
                1 <= f <= pw,
        ;
        assert(k * (f * f) <= ph * pw * k) by (nonlinear_arith)
            requires
                1 <= f * f <= ph * pw,
                k >= 1,
        ;
    }

    /// Surrounds `input` with a border of `padding` zeros.
    fn pad(&self, input: &Vec<Vec<i64>>) -> (r: Vec<Vec<i64>>)
        requires
            self.wf(),
            is_matrix(input@, self.input_rows_spec(), self.input_cols_spec()),
        ensures
            is_matrix(r@, self.padded_rows(), self.padded_cols()),
            forall|y: int, c: int|
                0 <= y < self.padded_rows() && 0 <= c < self.padded_cols() ==> #[trigger] r@[y]@[c] == pad_at(
                    rows_of(input@),
                    self.padding_spec(),
                    y,
                    c,
                ),
    {
        proof {
            self.lemma_sizes();
        }
        let ph = self.input_rows + 2 * self.padding;
        let pw = self.input_cols + 2 * self.padding;
        let p = self.padding;
        let mut out: Vec<Vec<i64>> = Vec::new();
        let mut y: usize = 0;
        while y < ph
            invariant
                self.wf(),
                is_matrix(input@, self.input_rows_spec(), self.input_cols_spec()),
                ph == self.padded_rows(),
                pw == self.padded_cols(),
                p == self.padding_spec(),
                y <= ph,
                out.len() == y,
                forall|a: int| 0 <= a < y ==> (#[trigger] out@[a]).len() == pw,
                forall|a: int, c: int|
                    0 <= a < y && 0 <= c < pw ==> #[trigger] out@[a]@[c] == pad_at(rows_of(input@), p as int, a, c),
            decreases ph - y,
        {
            let mut row: Vec<i64> = Vec::new();
            let mut c: usize = 0;
            while c < pw
                invariant
                    self.wf(),
                    is_matrix(input@, self.input_rows_spec(), self.input_cols_spec()),
                    ph == self.padded_rows(),
                    pw == self.padded_cols(),
                    p == self.padding_spec(),
                    y < ph,
                    c <= pw,
                    row.len() == c,
                    forall|e: int| 0 <= e < c ==> #[trigger] row@[e] == pad_at(rows_of(input@), p as int, y as int, e),
                decreases pw - c,
            {
                if p <= y && y < p + self.input_rows && p <= c && c < p + self.input_cols {
                    row.push(input[y - p][c - p]);
                } else {
                    row.push(0);
                }
                c += 1;
            }
            out.push(row);
            y += 1;
        }
        out
    }

    /// The output of channel `k` at position `(i, j)`, read from the padded input.
    fn window_sum(&self, padded: &Vec<Vec<i64>>, k: usize, i: usize, j: usize, Ghost(x): Ghost<Seq<Seq<i64>>>) -> (r: i64)
        requires
            self.wf(),
            k < self.channels(),
            i < self.out_rows(),
            j < self.out_cols(),
            is_matrix(padded@, self.padded_rows(), self.padded_cols()),
            forall|y: int, c: int|
                0 <= y < self.padded_rows() && 0 <= c < self.padded_cols() ==> #[trigger] padded@[y]@[c] == pad_at(
                    x,
                    self.padding_spec(),
                    y,
                    c,
                ),
        ensures
            r == self.output_at(x, k as int, i as int, j as int),
    {
        let fs = self.filter_size;
        let s = self.stride;
        let ghost f = window_fn(x, self.filter(k as int), self.padding_spec(), s as int, i as int, j as int);
        proof {
            self.lemma_sizes();
            lemma_window_in_bounds(i as int, 0, self.out_rows(), s as int, fs as int, self.padded_rows());
            lemma_window_in_bounds(j as int, 0, self.out_cols(), s as int, fs as int, self.padded_cols());
        }
        let row0 = i * s;
        let col0 = j * s;
        let mut acc: i64 = self.bias[k];
        let mut r: usize = 0;
        while r < fs
            invariant
                self.wf(),
                fs == self.filter_size_spec(),
                s == self.stride_spec(),
                k < self.channels(),
                i < self.out_rows(),
                j < self.out_cols(),
                row0 == i * s,
                col0 == j * s,
                (self.out_rows() - 1) * s + fs <= self.padded_rows(),
                (self.out_cols() - 1) * s + fs <= self.padded_cols(),
                self.padded_rows() <= usize::MAX,
                self.padded_cols() <= usize::MAX,
                is_matrix(padded@, self.padded_rows(), self.padded_cols()),
                forall|y: int, c: int|
                    0 <= y < self.padded_rows() && 0 <= c < self.padded_cols() ==> #[trigger] padded@[y]@[c]
                        == pad_at(x, self.padding_spec(), y, c),
                f == window_fn(x, self.filter(k as int), self.padding_spec(), s as int, i as int, j as int),
                r <= fs,
                acc == sat_fold(self.bias_spec()[k as int] as int, grid(fs as int, fs as int, f).take(r * fs)),
            decreases fs - r,
        {
            let mut c: usize = 0;
            while c < fs
                invariant
                    self.wf(),
                    fs == self.filter_size_spec(),
                    s == self.stride_spec(),
                    k < self.channels(),
                    i < self.out_rows(),
                    j < self.out_cols(),
                    row0 == i * s,
                    col0 == j * s,
                    (self.out_rows() - 1) * s + fs <= self.padded_rows(),
                    (self.out_cols() - 1) * s + fs <= self.padded_cols(),
                    self.padded_rows() <= usize::MAX,
                    self.padded_cols() <= usize::MAX,
                    is_matrix(padded@, self.padded_rows(), self.padded_cols()),
                    forall|y: int, c: int|
                        0 <= y < self.padded_rows() && 0 <= c < self.padded_cols() ==> #[trigger] padded@[y]@[c]
                            == pad_at(x, self.padding_spec(), y, c),
                    f == window_fn(x, self.filter(k as int), self.padding_spec(), s as int, i as int, j as int),
                    r < fs,
                    c <= fs,
                    acc == sat_fold(self.bias_spec()[k as int] as int, grid(fs as int, fs as int, f).take(r * fs + c)),
                decreases fs - c,
            {
                proof {
                    lemma_grid_step(self.bias_spec()[k as int] as int, fs as int, fs as int, f, r as int, c as int);
                    lemma_window_in_bounds(i as int, r as int, self.out_rows(), s as int, fs as int, self.padded_rows());
                    lemma_window_in_bounds(j as int, c as int, self.out_cols(), s as int, fs as int, self.padded_cols());
                    assert(is_matrix(self.filter(k as int), fs as int, fs as int));
                }
                acc = fx_add(acc, fx_mul(self.filters[k][r][c], padded[row0 + r][col0 + c]));
                c += 1;
            }
            proof {
                lemma_flat_index(r as int, 0, fs as int, fs as int);
            }
            r += 1;
        }
        proof {
            lemma_grid_whole(self.bias_spec()[k as int] as int, fs as int, fs as int, f);
        }
        acc
    }
    /// Runs every filter over `input`, of any shape for which the output
    /// size is a positive whole number; the layer takes that shape from now on.
    /// Channel `k` at `(i, j)` is
    /// `bias[k] + Σ_{r,c} filter[k][r][c] · padded[i·s + r][j·s + c]`.
    /// Caches the padded input for `backward`.
    pub fn forward(&mut self, input: &Vec<Vec<i64>>) -> (r: Vec<Vec<Vec<i64>>>)
        requires
            old(self).wf(),
            input.len() >= 1,
            input@[0].len() >= 1,
            is_matrix(input@, input.len() as int, input@[0].len() as int),
            old(self).filter_size_spec() <= input.len() + 2 * old(self).padding_spec(),
            old(self).filter_size_spec() <= input@[0].len() + 2 * old(self).padding_spec(),
            (input.len() + 2 * old(self).padding_spec() - old(self).filter_size_spec()) % old(self).stride_spec() == 0,
            (input@[0].len() + 2 * old(self).padding_spec() - old(self).filter_size_spec()) % old(self).stride_spec()
                == 0,
            (input.len() + 2 * old(self).padding_spec()) * (input@[0].len() + 2 * old(self).padding_spec())
                * old(self).channels() <= usize::MAX,
        ensures
            final(self).wf(),
            final(self).filters_spec() == old(self).filters_spec(),
            final(self).bias_spec() == old(self).bias_spec(),
            final(self).padding_spec() == old(self).padding_spec(),
            final(self).stride_spec() == old(self).stride_spec(),
            final(self).filter_size_spec() == old(self).filter_size_spec(),
            final(self).input_rows_spec() == input.len(),
            final(self).input_cols_spec() == input@[0].len(),
            final(self).caches(rows_of(input@)),
            r.len() == final(self).channels(),
            forall|k: int|
                0 <= k < r.len() ==> is_matrix(#[trigger] r@[k]@, final(self).out_rows(), final(self).out_cols()),
            forall|k: int, i: int, j: int|
                0 <= k < final(self).channels() && 0 <= i < final(self).out_rows() && 0 <= j < final(self).out_cols()
                    ==> #[trigger] r@[k]@[i]@[j] == final(self).output_at(rows_of(input@), k, i, j),
    {
        self.input_rows = input.len();
        self.input_cols = input[0].len();
        self.last_input_matrix = Vec::new();
        self.forward_same_shape(input)
    }

    /// Runs every filter over `input`, of the layer's own shape, padded with
    /// zeros, and caches the padded input.
    fn forward_same_shape(&mut self, input: &Vec<Vec<i64>>) -> (r: Vec<Vec<Vec<i64>>>)
        requires
            old(self).wf(),
            is_matrix(input@, old(self).input_rows_spec(), old(self).input_cols_spec()),
        ensures
            final(self).wf(),
            final(self).same_parameters(old(self)),
            final(self).caches(rows_of(input@)),
            r.len() == old(self).channels(),
            forall|k: int| 0 <= k < r.len() ==> is_matrix(#[trigger] r@[k]@, old(self).out_rows(), old(self).out_cols()),
            forall|k: int, i: int, j: int|
                0 <= k < old(self).channels() && 0 <= i < old(self).out_rows() && 0 <= j < old(self).out_cols()
                    ==> #[trigger] r@[k]@[i]@[j] == old(self).output_at(rows_of(input@), k, i, j),
    {
        proof {
            self.lemma_sizes();
        }
        let padded = self.pad(input);
        let ghost x = rows_of(input@);
        let nk = self.bias.len();
        let oh = (self.input_rows + 2 * self.padding - self.filter_size) / self.stride + 1;
        let ow = (self.input_cols + 2 * self.padding - self.filter_size) / self.stride + 1;
        let mut out: Vec<Vec<Vec<i64>>> = Vec::new();
        let mut k: usize = 0;
        while k < nk
            invariant
                self.wf(),
                nk == self.channels(),
                oh == self.out_rows(),
                ow == self.out_cols(),
                is_matrix(padded@, self.padded_rows(), self.padded_cols()),
                forall|y: int, c: int|
                    0 <= y < self.padded_rows() && 0 <= c < self.padded_cols() ==> #[trigger] padded@[y]@[c]
                        == pad_at(x, self.padding_spec(), y, c),
                k <= nk,
                out.len() == k,
                forall|q: int| 0 <= q < k ==> is_matrix(#[trigger] out@[q]@, oh as int, ow as int),
                forall|q: int, i: int, j: int|
                    0 <= q < k && 0 <= i < oh && 0 <= j < ow ==> #[trigger] out@[q]@[i]@[j] == self.output_at(x, q, i, j),
            decreases nk - k,
        {
            let mut plane: Vec<Vec<i64>> = Vec::new();
            let mut i: usize = 0;
            while i < oh
                invariant
                    self.wf(),
                    nk == self.channels(),
                    oh == self.out_rows(),
                    ow == self.out_cols(),
                    is_matrix(padded@, self.padded_rows(), self.padded_cols()),
                    forall|y: int, c: int|
                        0 <= y < self.padded_rows() && 0 <= c < self.padded_cols() ==> #[trigger] padded@[y]@[c]
                            == pad_at(x, self.padding_spec(), y, c),
                    k < nk,
                    i <= oh,
                    plane.len() == i,
                    forall|a: int| 0 <= a < i ==> (#[trigger] plane@[a]).len() == ow,
                    forall|a: int, j: int|
                        0 <= a < i && 0 <= j < ow ==> #[trigger] plane@[a]@[j] == self.output_at(x, k as int, a, j),
                decreases oh - i,
            {
                let mut row: Vec<i64> = Vec::new();
                let mut j: usize = 0;
                while j < ow
                    invariant
                        self.wf(),
                        nk == self.channels(),
                        oh == self.out_rows(),
                        ow == self.out_cols(),
                        is_matrix(padded@, self.padded_rows(), self.padded_cols()),
                        forall|y: int, c: int|
                            0 <= y < self.padded_rows() && 0 <= c < self.padded_cols() ==> #[trigger] padded@[y]@[c]
                                == pad_at(x, self.padding_spec(), y, c),
                        k < nk,
                        i < oh,
                        j <= ow,
                        row.len() == j,
                        forall|e: int| 0 <= e < j ==> #[trigger] row@[e] == self.output_at(x, k as int, i as int, e),
                    decreases ow - j,
                {
                    let v = self.window_sum(&padded, k, i, j, Ghost(x));
                    row.push(v);
                    j += 1;
                }
                plane.push(row);
                i += 1;
            }
            out.push(plane);
            k += 1;
        }
        self.last_input_matrix = padded;
        out
    }

    /// Cuts a flattened input into rows.
    fn reshape_input(&self, input: &Vec<i64>) -> (r: Vec<Vec<i64>>)
        requires
            self.wf(),
            input.len() == self.input_len(),
        ensures
            is_matrix(r@, self.input_rows_spec(), self.input_cols_spec()),
            rows_of(r@) == unflatten(input@, self.input_rows_spec(), self.input_cols_spec()),
    {
        proof {
            self.lemma_sizes();
        }
        let h = self.input_rows;
        let w = self.input_cols;
        let mut m: Vec<Vec<i64>> = Vec::new();
        let mut a: usize = 0;
        while a < h
            invariant
                h == self.input_rows_spec(),
                w == self.input_cols_spec(),
                h * w == input.len(),
                h >= 1,
                w >= 1,
                a <= h,
                m.len() == a,
                forall|q: int| 0 <= q < a ==> (#[trigger] m@[q]).len() == w,
                forall|q: int| 0 <= q < a ==> (#[trigger] m@[q])@ == input@.subrange(q * w, q * w + w),
            decreases h - a,
        {
            let mut row: Vec<i64> = Vec::new();
            let mut b: usize = 0;
            while b < w
                invariant
                    h == self.input_rows_spec(),
                    w == self.input_cols_spec(),
                    h * w == input.len(),
                    a < h,
                    b <= w,
                    row.len() == b,
                    forall|e: int| 0 <= e < b ==> #[trigger] row@[e] == input@[a * w + e],
                decreases w - b,
            {
                proof {
                    lemma_flat_index(a as int, b as int, h as int, w as int);
                }
                row.push(input[a * w + b]);
                b += 1;
            }
            proof {
                lemma_flat_index(a as int, 0, h as int, w as int);
                lemma_flat_index(a as int, w - 1, h as int, w as int);
                assert(row@ =~= input@.subrange(a * w, a * w + w));
            }
            m.push(row);
            a += 1;
        }
        assert(rows_of(m@) =~= unflatten(input@, h as int, w as int));
        m
    }

    /// Runs the layer on a flattened `input_rows × input_cols` input and
    /// returns the output flattened channel by channel, row by row.
    pub fn forward_flat(&mut self, input: &Vec<i64>) -> (r: Vec<i64>)
        requires
            old(self).wf(),
            input.len() == old(self).input_len(),
        ensures
            final(self).wf(),
            final(self).same_parameters(old(self)),
            final(self).caches(unflatten(input@, old(self).input_rows_spec(), old(self).input_cols_spec())),
            r.len() == old(self).output_len(),
            ints(r@) == old(self).flat_output(input@),
    {
        proof {
            self.lemma_sizes();
        }
        let m = self.reshape_input(input);
        let ghost x = rows_of(m@);
        let out = self.forward_same_shape(&m);
        let nk = self.bias.len();
        let oh = (self.input_rows + 2 * self.padding - self.filter_size) / self.stride + 1;
        let ow = (self.input_cols + 2 * self.padding - self.filter_size) / self.stride + 1;
        let ghost hw = oh * ow;
        let ghost full = self.flat_output(input@);
        let mut res: Vec<i64> = Vec::new();
        let mut k: usize = 0;
        while k < nk
            invariant
                self.wf(),
                nk == self.channels(),
                oh == self.out_rows(),
                ow == self.out_cols(),
                hw == oh * ow,
                x == unflatten(input@, self.input_rows_spec(), self.input_cols_spec()),
                full == self.flat_output(input@),
                out.len() == nk,
                forall|q: int| 0 <= q < nk ==> is_matrix(#[trigger] out@[q]@, oh as int, ow as int),
                forall|q: int, i: int, j: int|
                    0 <= q < nk && 0 <= i < oh && 0 <= j < ow ==> #[trigger] out@[q]@[i]@[j] == self.output_at(x, q, i, j),
                k <= nk,
                res.len() == k * hw,
                forall|t: int| 0 <= t < res.len() ==> #[trigger] res@[t] == full[t],
            decreases nk - k,
        {
            let mut i: usize = 0;
            while i < oh
                invariant
                    self.wf(),
                    nk == self.channels(),
                    oh == self.out_rows(),
                    ow == self.out_cols(),
                    hw == oh * ow,
                    x == unflatten(input@, self.input_rows_spec(), self.input_cols_spec()),
                    full == self.flat_output(input@),
                    out.len() == nk,
                    forall|q: int| 0 <= q < nk ==> is_matrix(#[trigger] out@[q]@, oh as int, ow as int),
                    forall|q: int, i: int, j: int|
                        0 <= q < nk && 0 <= i < oh && 0 <= j < ow ==> #[trigger] out@[q]@[i]@[j] == self.output_at(
                            x,
                            q,
                            i,
                            j,
                        ),
                    k < nk,
                    i <= oh,
                    res.len() == k * hw + i * ow,
                    forall|t: int| 0 <= t < res.len() ==> #[trigger] res@[t] == full[t],
                decreases oh - i,
            {
                let mut j: usize = 0;
                while j < ow
                    invariant
                        self.wf(),
                        nk == self.channels(),
                        oh == self.out_rows(),
                        ow == self.out_cols(),
                        hw == oh * ow,
                        x == unflatten(input@, self.input_rows_spec(), self.input_cols_spec()),
                        full == self.flat_output(input@),
                        out.len() == nk,
                        forall|q: int| 0 <= q < nk ==> is_matrix(#[trigger] out@[q]@, oh as int, ow as int),
                        forall|q: int, i: int, j: int|
                            0 <= q < nk && 0 <= i < oh && 0 <= j < ow ==> #[trigger] out@[q]@[i]@[j]
                                == self.output_at(x, q, i, j),
                        k < nk,
                        i < oh,
                        j <= ow,
                        res.len() == k * hw + i * ow + j,
                        forall|t: int| 0 <= t < res.len() ==> #[trigger] res@[t] == full[t],
                    decreases ow - j,
                {
                    proof {
                        lemma_flat_index(i as int, j as int, oh as int, ow as int);
                        lemma_flat_index(k as int, i * ow + j, nk as int, hw);
                        assert(k * hw + (i * ow + j) == k * hw + i * ow + j);
                    }
                    res.push(out[k][i][j]);
                    j += 1;
                }
                proof {
                    lemma_flat_index(i as int, 0, oh as int, ow as int);
                }
                i += 1;
            }
            proof {
                self.lemma_sizes();
                lemma_flat_index(k as int, 0, nk as int, hw);
                assert(oh * ow == hw);
            }
            k += 1;
        }
        assert(ints(res@) =~= full);
        res
    }
    /// `∂L/∂filter[k][r][c]` from the cached padded input.
    #[verifier::loop_isolation(false)]
    fn filter_gradient_exec(&self, g: &Vec<i64>, k: usize, r: usize, c: usize) -> (res: i64)
        requires
            self.wf(),
            self.is_forwarded(),
            g.len() == self.output_len(),
            k < self.channels(),
            r < self.filter_size_spec(),
            c < self.filter_size_spec(),
        ensures
            res == self.filter_gradient(g@, k as int, r as int, c as int),
    {
        proof {
            self.lemma_sizes();
        }
        let oh = (self.input_rows + 2 * self.padding - self.filter_size) / self.stride + 1;
        let ow = (self.input_cols + 2 * self.padding - self.filter_size) / self.stride + 1;
        let hw = oh * ow;
        let s = self.stride;
        let ghost f = self.filter_grad_fn(g@, k as int, r as int, c as int);
        let mut acc: i64 = 0;
        let mut i: usize = 0;
        while i < oh
            invariant
                i <= oh,
                acc == sat_fold(0, grid(oh as int, ow as int, f).take(i * ow)),
            decreases oh - i,
        {
            let mut j: usize = 0;
            while j < ow
                invariant
                    i < oh,
                    j <= ow,
                    acc == sat_fold(0, grid(oh as int, ow as int, f).take(i * ow + j)),
                decreases ow - j,
            {
                proof {
                    lemma_grid_step(0, oh as int, ow as int, f, i as int, j as int);
                    lemma_flat_index(i as int, j as int, oh as int, ow as int);
                    lemma_flat_index(k as int, i * ow + j, self.channels(), hw as int);
                    lemma_window_in_bounds(i as int, r as int, oh as int, s as int, self.filter_size_spec(), self.padded_rows());
                    lemma_window_in_bounds(j as int, c as int, ow as int, s as int, self.filter_size_spec(), self.padded_cols());
                }
                let gv = g[k * hw + (i * ow + j)];
                acc = fx_add(acc, fx_mul(gv, self.last_input_matrix[i * s + r][j * s + c]));
                j += 1;
            }
            proof {
                lemma_flat_index(i as int, 0, oh as int, ow as int);
            }
            i += 1;
        }
        proof {
            lemma_grid_whole(0, oh as int, ow as int, f);
        }
        acc
    }

    /// `∂L/∂bias[k]`.
    #[verifier::loop_isolation(false)]
    fn bias_gradient_exec(&self, g: &Vec<i64>, k: usize) -> (res: i64)
        requires
            self.wf(),
            g.len() == self.output_len(),
            k < self.channels(),
        ensures
            res == self.bias_gradient(g@, k as int),
    {
        proof {
            self.lemma_sizes();
        }
        let oh = (self.input_rows + 2 * self.padding - self.filter_size) / self.stride + 1;
        let ow = (self.input_cols + 2 * self.padding - self.filter_size) / self.stride + 1;
        let hw = oh * ow;
        let ghost f = self.bias_grad_fn(g@, k as int);
        let mut acc: i64 = 0;
        let mut i: usize = 0;
        while i < oh
            invariant
                i <= oh,
                acc == sat_fold(0, grid(oh as int, ow as int, f).take(i * ow)),
            decreases oh - i,
        {
            let mut j: usize = 0;
            while j < ow
                invariant
                    i < oh,
                    j <= ow,
                    acc == sat_fold(0, grid(oh as int, ow as int, f).take(i * ow + j)),
                decreases ow - j,
            {
                proof {
                    lemma_grid_step(0, oh as int, ow as int, f, i as int, j as int);
                    lemma_flat_index(i as int, j as int, oh as int, ow as int);
                    lemma_flat_index(k as int, i * ow + j, self.channels(), hw as int);
                }
                acc = fx_add(acc, g[k * hw + (i * ow + j)]);
                j += 1;
            }
            proof {
                lemma_flat_index(i as int, 0, oh as int, ow as int);
            }
            i += 1;
        }
        proof {
            lemma_grid_whole(0, oh as int, ow as int, f);
        }
        acc
    }

    /// `∂L/∂input[a][b]`, gathering every contribution to padded cell `(a + p, b + p)`.
    #[verifier::loop_isolation(false)]
    fn input_gradient_exec(&self, g: &Vec<i64>, a: usize, b: usize) -> (res: i64)
        requires
            self.wf(),
            g.len() == self.output_len(),
            a < self.input_rows_spec(),
            b < self.input_cols_spec(),
        ensures
            res == self.input_gradient_at(g@, a as int, b as int),
    {
        proof {
            self.lemma_sizes();
        }
        let oh = (self.input_rows + 2 * self.padding - self.filter_size) / self.stride + 1;
        let ow = (self.input_cols + 2 * self.padding - self.filter_size) / self.stride + 1;
        let hw = oh * ow;
        let s = self.stride;
        let fs = self.filter_size;
        let ff = fs * fs;
        let nk = self.bias.len();
        let y = a + self.padding;
        let x = b + self.padding;
        let ghost f = self.input_grad_fn(g@, y as int, x as int);
        let mut acc: i64 = 0;
        let mut k: usize = 0;
        while k < nk
            invariant
                k <= nk,
                acc == sat_fold(0, grid(nk as int, ff as int, f).take(k * ff)),
            decreases nk - k,
        {
            let mut r: usize = 0;
            while r < fs
                invariant
                    k < nk,
                    r <= fs,
                    acc == sat_fold(0, grid(nk as int, ff as int, f).take(k * ff + r * fs)),
                decreases fs - r,
            {
                let mut c: usize = 0;
                while c < fs
                    invariant
                        k < nk,
                        r < fs,
                        c <= fs,
                        acc == sat_fold(0, grid(nk as int, ff as int, f).take(k * ff + (r * fs + c))),
                    decreases fs - c,
                {
                    proof {
                        lemma_flat_index(r as int, c as int, fs as int, fs as int);
                        lemma_grid_step(0, nk as int, ff as int, f, k as int, r * fs + c);
                        assert(is_matrix(self.filter(k as int), fs as int, fs as int));
                    }
                    if y >= r && x >= c && (y - r) % s == 0 && (x - c) % s == 0 && (y - r) / s < oh && (x - c) / s < ow {
                        let i = (y - r) / s;
                        let j = (x - c) / s;
                        proof {
                            lemma_flat_index(i as int, j as int, oh as int, ow as int);
                            lemma_flat_index(k as int, i * ow + j, nk as int, hw as int);
                        }
                        acc = fx_add(acc, fx_mul(self.filters[k][r][c], g[k * hw + (i * ow + j)]));
                    } else {
                        acc = fx_add(acc, 0);
                    }
                    c += 1;
                }
                proof {
                    lemma_flat_index(r as int, 0, fs as int, fs as int);
                }
                r += 1;
            }
            proof {
                assert(ff >= 1) by (nonlinear_arith)
                    requires
                        fs >= 1,
                        ff == fs * fs,
                ;
                lemma_flat_index(k as int, 0, nk as int, ff as int);
            }
            k += 1;
        }
        proof {
            lemma_grid_whole(0, nk as int, ff as int, f);
        }
        acc
    }

    /// Back-propagates `error`, the flattened gradient of the loss with
    /// respect to the last output. Returns the flattened gradient with respect
    /// to the input, computed with the old filters, and takes one SGD step of
    /// size `learn` on filters and biases. The cache is consumed.
    pub fn backward(&mut self, error: &Vec<i64>, learn: i64) -> (r: Vec<i64>)
        requires
            old(self).wf(),
            old(self).is_forwarded(),
            error.len() == old(self).output_len(),
        ensures
            final(self).wf(),
            !final(self).is_forwarded(),
            final(self).bias_spec().len() == old(self).bias_spec().len(),
            final(self).filters_spec().len() == final(self).channels(),
            forall|k: int|
                0 <= k < final(self).channels() ==> is_matrix(
                    #[trigger] final(self).filter(k),
                    final(self).filter_size_spec(),
                    final(self).filter_size_spec(),
                ),
            final(self).padding_spec() == old(self).padding_spec(),
            final(self).stride_spec() == old(self).stride_spec(),
            final(self).filter_size_spec() == old(self).filter_size_spec(),
            final(self).input_rows_spec() == old(self).input_rows_spec(),
            final(self).input_cols_spec() == old(self).input_cols_spec(),
            r.len() == old(self).input_len(),
            ints(r@) == old(self).input_gradient(error@),
            forall|k: int, a: int, b: int|
                0 <= k < old(self).channels() && 0 <= a < old(self).filter_size_spec() && 0 <= b
                    < old(self).filter_size_spec() ==> #[trigger] final(self).filter(k)[a]@[b] == sub_spec(
                    old(self).filter(k)[a]@[b] as int,
                    mul_spec(learn as int, old(self).filter_gradient(error@, k, a, b)),
                ),
            forall|k: int|
                0 <= k < old(self).channels() ==> #[trigger] final(self).bias_spec()[k] == sub_spec(
                    old(self).bias_spec()[k] as int,
                    mul_spec(learn as int, old(self).bias_gradient(error@, k)),
                ),
    {
        proof {
            self.lemma_sizes();
        }
        let h = self.input_rows;
        let w = self.input_cols;
        let fs = self.filter_size;
        let nk = self.bias.len();
        let ghost full = self.input_gradient(error@);
        let mut dx: Vec<i64> = Vec::new();
        let mut a: usize = 0;
        while a < h
            invariant
                self.wf(),
                self.is_forwarded(),
                error.len() == self.output_len(),
                h == self.input_rows_spec(),
                w == self.input_cols_spec(),
                full == self.input_gradient(error@),
                h * w <= usize::MAX,
                a <= h,
                dx.len() == a * w,
                forall|t: int| 0 <= t < dx.len() ==> #[trigger] dx@[t] == full[t],
            decreases h - a,
        {
            let mut b: usize = 0;
            while b < w
                invariant
                    self.wf(),
                    self.is_forwarded(),
                    error.len() == self.output_len(),
                    h == self.input_rows_spec(),
                    w == self.input_cols_spec(),
                    full == self.input_gradient(error@),
                    h * w <= usize::MAX,
                    a < h,
                    b <= w,
                    dx.len() == a * w + b,
                    forall|t: int| 0 <= t < dx.len() ==> #[trigger] dx@[t] == full[t],
                decreases w - b,
            {
                proof {
                    lemma_flat_index(a as int, b as int, h as int, w as int);
                }
                let v = self.input_gradient_exec(error, a, b);
                dx.push(v);
                b += 1;
            }
            proof {
                lemma_flat_index(a as int, 0, h as int, w as int);
            }
            a += 1;
        }
        assert(ints(dx@) =~= full);
        let ghost old_self = *self;
        let mut filters: Vec<Vec<Vec<i64>>> = Vec::new();
        let mut bias: Vec<i64> = Vec::new();
        let mut k: usize = 0;
        while k < nk
            invariant
                *self == old_self,
                self.wf(),
                self.is_forwarded(),
                error.len() == self.output_len(),
                nk == self.channels(),
                fs == self.filter_size_spec(),
                k <= nk,
                filters.len() == k,
                bias.len() == k,
                forall|q: int| 0 <= q < k ==> is_matrix(#[trigger] filters@[q]@, fs as int, fs as int),
                forall|q: int, e: int, d: int|
                    0 <= q < k && 0 <= e < fs && 0 <= d < fs ==> #[trigger] filters@[q]@[e]@[d] == sub_spec(
                        self.filter(q)[e]@[d] as int,
                        mul_spec(learn as int, self.filter_gradient(error@, q, e, d)),
                    ),
                forall|q: int|
                    0 <= q < k ==> #[trigger] bias@[q] == sub_spec(
                        self.bias_spec()[q] as int,
                        mul_spec(learn as int, self.bias_gradient(error@, q)),
                    ),
            decreases nk - k,
        {
            proof {
                assert(is_matrix(self.filter(k as int), fs as int, fs as int));
            }
            let mut fnew: Vec<Vec<i64>> = Vec::new();
            let mut e: usize = 0;
            while e < fs
                invariant
                    *self == old_self,
                    self.wf(),
                    self.is_forwarded(),
                    error.len() == self.output_len(),
                    nk == self.channels(),
                    fs == self.filter_size_spec(),
                    is_matrix(self.filter(k as int), fs as int, fs as int),
                    k < nk,
                    e <= fs,
                    fnew.len() == e,
                    forall|q: int| 0 <= q < e ==> (#[trigger] fnew@[q]).len() == fs,
                    forall|q: int, d: int|
                        0 <= q < e && 0 <= d < fs ==> #[trigger] fnew@[q]@[d] == sub_spec(
                            self.filter(k as int)[q]@[d] as int,
                            mul_spec(learn as int, self.filter_gradient(error@, k as int, q, d)),
                        ),
                decreases fs - e,
            {
                let mut row: Vec<i64> = Vec::new();
                let mut d: usize = 0;
                while d < fs
                    invariant
                        *self == old_self,
                        self.wf(),
                        self.is_forwarded(),
                        error.len() == self.output_len(),
                        nk == self.channels(),
                        fs == self.filter_size_spec(),
                        is_matrix(self.filter(k as int), fs as int, fs as int),
                        k < nk,
                        e < fs,
                        d <= fs,
                        row.len() == d,
                        forall|q: int|
                            0 <= q < d ==> #[trigger] row@[q] == sub_spec(
                                self.filter(k as int)[e as int]@[q] as int,
                                mul_spec(learn as int, self.filter_gradient(error@, k as int, e as int, q)),
                            ),
                    decreases fs - d,
                {
                    let gr = self.filter_gradient_exec(error, k, e, d);
                    row.push(fx_sub(self.filters[k][e][d], fx_mul(learn, gr)));
                    d += 1;
                }
                fnew.push(row);
                e += 1;
            }
            filters.push(fnew);
            let gb = self.bias_gradient_exec(error, k);
            bias.push(fx_sub(self.bias[k], fx_mul(learn, gb)));
            k += 1;
        }
        self.filters = filters;
        self.bias = bias;
        self.last_input_matrix = Vec::new();
        dx
    }
}

} // verus!
