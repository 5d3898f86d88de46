//! Loss functions: a scalar loss and its gradient with respect to the output.
use vstd::prelude::*;
use crate::dense::ints;
use crate::fixed::{sat, sat_fold, lemma_sat_fold_step, sub_spec, fx_add, fx_sub, saturate, SCALE};

verus! {

/// Largest magnitude of a gradient entry: 1e10.
pub const GRADIENT_LIMIT: i64 = 10_000_000_000_000_000;

/// The fixed-point square of `e`, rounded up so that only zero squares to zero.
pub open spec fn square_up(e: int) -> int {
    sat((e * e + SCALE - 1) / (SCALE as int))
}

/// The squared differences `(result[i] − target[i])²`.
pub open spec fn squared_errors(result: Seq<i64>, target: Seq<i64>) -> Seq<int> {
    Seq::new(result.len(), |i: int| square_up(sub_spec(result[i] as int, target[i] as int)))
}

/// Mean squared error: the sum of the squared differences over their count,
/// rounded up.
pub open spec fn mse_spec(result: Seq<i64>, target: Seq<i64>) -> int {
    (sat_fold(0, squared_errors(result, target)) + result.len() - 1) / (result.len() as int)
}

/// `2·(result[i] − target[i]) / N`, before clamping.
pub open spec fn mse_gradient_raw(result: Seq<i64>, target: Seq<i64>, i: int) -> int {
    (2 * (result[i] as int - target[i] as int)) / (result.len() as int)
}

/// Clamps a gradient entry into `[−GRADIENT_LIMIT, GRADIENT_LIMIT]`.
pub open spec fn clamp_gradient(x: int) -> int {
    if x < -GRADIENT_LIMIT {
        -GRADIENT_LIMIT as int
    } else if x > GRADIENT_LIMIT {
        GRADIENT_LIMIT as int
    } else {
        x
    }
}

/// The gradient of mean squared error, entry by entry.
pub open spec fn mse_gradient_spec(result: Seq<i64>, target: Seq<i64>) -> Seq<int> {
    Seq::new(result.len(), |i: int| clamp_gradient(mse_gradient_raw(result, target, i)))
}

/// Mean squared error.
#[derive(Clone, Copy)]
pub struct MeanSquaredError;

impl MeanSquaredError {
    /// `Σ (result[i] − target[i])² / N`, each square and the mean rounded up,
    /// so the loss is zero exactly when result and target agree.
    pub fn compute(&self, result: &Vec<i64>, target: &Vec<i64>) -> (r: i64)
        requires
            result.len() == target.len(),
            result.len() > 0,
        ensures
            r == mse_spec(result@, target@),
            r >= 0,
            r == 0 <==> result@ == target@,
    {
        let ghost terms = squared_errors(result@, target@);
        let mut acc: i64 = 0;
        let mut i: usize = 0;
        while i < result.len()
            invariant
                i <= result.len(),
                result.len() == target.len(),
                terms == squared_errors(result@, target@),
                acc == sat_fold(0, terms.take(i as int)),
            decreases result.len() - i,
        {
            proof {
                lemma_sat_fold_step(0, terms, i as int);
            }
            let e = fx_sub(result[i], target[i]);
            acc = fx_add(acc, square_up_exec(e));
            i += 1;
        }
        assert(terms.take(result.len() as int) =~= terms);
        proof {
            lemma_mse_zero_iff_equal(result@, target@);
            assert forall|k: int| 0 <= k < terms.len() implies terms[k] >= 0 by {
                lemma_square_up(sub_spec(result@[k] as int, target@[k] as int));
            }
            lemma_fold_nonneg(terms);
        }
        let n: u128 = result.len() as u128;
        let m: u128 = ((acc as u128) + n - 1) / n;
        proof {
            let x = (acc as int) + (n as int) - 1;
            let ni = n as int;
            vstd::arithmetic::div_mod::lemma_fundamental_div_mod(x, ni);
            assert(m as int <= acc as int) by (nonlinear_arith)
                requires
                    x == ni * (m as int) + x % ni,
                    0 <= x % ni,
                    ni >= 1,
                    x == acc as int + ni - 1,
                    m >= 0,
                    acc >= 0,
            ;
        }
        m as i64
    }

    /// `2·(result[i] − target[i]) / N` for each `i`, clamped to `±GRADIENT_LIMIT`.
    pub fn gradient(&self, result: &Vec<i64>, target: &Vec<i64>) -> (r: Vec<i64>)
        requires
            result.len() == target.len(),
            result.len() > 0,
        ensures
            ints(r@) == mse_gradient_spec(result@, target@),
            r.len() == result.len(),
    {
        let n = result.len();
        let mut g: Vec<i64> = Vec::new();
        let mut i: usize = 0;
        while i < n
            invariant
                i <= n,
                n == result.len(),
                n == target.len(),
                n > 0,
                g.len() == i,
                forall|k: int| 0 <= k < i ==> #[trigger] g@[k] == clamp_gradient(mse_gradient_raw(result@, target@, k)),
            decreases n - i,
        {
            let twice: i128 = 2 * (result[i] as i128 - target[i] as i128);
            let q = floor_div_len(twice, n);
            let v: i64 = if q < -(GRADIENT_LIMIT as i128) {
                -GRADIENT_LIMIT
            } else if q > GRADIENT_LIMIT as i128 {
                GRADIENT_LIMIT
            } else {
                q as i64
            };
            g.push(v);
            i += 1;
        }
        assert(ints(g@) =~= mse_gradient_spec(result@, target@));
        g
    }
}

/// The losses a network can be trained with.
pub enum Loss {
    MeanSquared(MeanSquaredError),
}

impl Loss {
    /// The scalar loss of `result` against `target`.
    pub open spec fn compute_spec(&self, result: Seq<i64>, target: Seq<i64>) -> int {
        match self {
            Loss::MeanSquared(_) => mse_spec(result, target),
        }
    }

    /// The gradient of the loss with respect to `result`.
    pub open spec fn gradient_spec(&self, result: Seq<i64>, target: Seq<i64>) -> Seq<int> {
        match self {
            Loss::MeanSquared(_) => mse_gradient_spec(result, target),
        }
    }

    /// The scalar loss of `result` against `target`.
    pub fn compute(&self, result: &Vec<i64>, target: &Vec<i64>) -> (r: i64)
        requires
            result.len() == target.len(),
            result.len() > 0,
        ensures
            r == self.compute_spec(result@, target@),
    {
        match self {
            Loss::MeanSquared(m) => m.compute(result, target),
        }
    }

    /// The gradient of the loss with respect to `result`.
    pub fn gradient(&self, result: &Vec<i64>, target: &Vec<i64>) -> (r: Vec<i64>)
        requires
            result.len() == target.len(),
            result.len() > 0,
        ensures
            ints(r@) == self.gradient_spec(result@, target@),
            r.len() == result.len(),
    {
        match self {
            Loss::MeanSquared(m) => m.gradient(result, target),
        }
    }
}

/// Floor division of a doubled difference by a positive length.
fn floor_div_len(x: i128, n: usize) -> (r: i128)
    requires
        n > 0,
        -0x4_0000_0000_0000_0000 <= x <= 0x4_0000_0000_0000_0000,
    ensures
        r == x as int / n as int,
        -0x4_0000_0000_0000_0000 <= r <= 0x4_0000_0000_0000_0000,
{
    proof {
        lemma_div_bounded(x as int, n as int);
    }
    crate::fixed::floor_div(x, n as i128)
}

proof fn lemma_div_bounded(x: int, n: int)
    requires
        n > 0,
        -0x4_0000_0000_0000_0000 <= x <= 0x4_0000_0000_0000_0000,
    ensures
        -0x4_0000_0000_0000_0000 <= x / n <= 0x4_0000_0000_0000_0000,
{
    vstd::arithmetic::div_mod::lemma_div_is_ordered(-0x4_0000_0000_0000_0000, x, n);
    vstd::arithmetic::div_mod::lemma_div_is_ordered(x, 0x4_0000_0000_0000_0000, n);
    vstd::arithmetic::div_mod::lemma_div_is_ordered_by_denominator(0x4_0000_0000_0000_0000, 1, n);
    let q = x / n;
    vstd::arithmetic::div_mod::lemma_fundamental_div_mod(x, n);
    assert(q >= -0x4_0000_0000_0000_0000) by (nonlinear_arith)
        requires
            x == n * q + x % n,
            0 <= x % n < n,
            x >= -0x4_0000_0000_0000_0000,
    ;
}

/// The fixed-point square of `e`, rounded up, saturating.
fn square_up_exec(e: i64) -> (r: i64)
    ensures
        r == square_up(e as int),
{
    let ei = e as i128;
    proof {
        assert(0 <= (e as int) * (e as int) <= 0x4000_0000_0000_0000_0000_0000_0000_0000) by (nonlinear_arith)
            requires
                -0x8000_0000_0000_0000 <= e <= 0x7fff_ffff_ffff_ffff,
        ;
    }
    let sq: u128 = (ei * ei) as u128;
    let q: u128 = (sq + (SCALE as u128) - 1) / (SCALE as u128);
    proof {
        vstd::arithmetic::div_mod::lemma_div_is_ordered_by_denominator(sq + SCALE - 1, 1, SCALE as int);
    }
    saturate(q as i128)
}

/// A square rounded up is zero for zero and at least one for anything else.
proof fn lemma_square_up(e: int)
    ensures
        square_up(e) >= 0,
        e == 0 ==> square_up(e) == 0,
        e != 0 ==> square_up(e) >= 1,
{
    let s = SCALE as int;
    assert(e * e >= 0) by (nonlinear_arith);
    vstd::arithmetic::div_mod::lemma_div_pos_is_pos(e * e + s - 1, s);
    if e != 0 {
        assert(e * e >= 1) by (nonlinear_arith)
            requires
                e != 0,
        ;
        vstd::arithmetic::div_mod::lemma_div_is_ordered(s, e * e + s - 1, s);
        vstd::arithmetic::div_mod::lemma_div_by_self(s);
    } else {
        assert((s - 1) / s == 0);
    }
}

/// A fold of non-negative terms from zero is non-negative, fits in `i64`,
/// and is at least each term that fits in `i64`.
pub proof fn lemma_fold_nonneg(terms: Seq<int>)
    requires
        forall|k: int| 0 <= k < terms.len() ==> terms[k] >= 0,
    ensures
        0 <= sat_fold(0, terms) <= i64::MAX,
        forall|k: int| 0 <= k < terms.len() && terms[k] <= i64::MAX ==> sat_fold(0, terms) >= terms[k],
    decreases terms.len(),
{
    if terms.len() > 0 {
        let init = terms.drop_last();
        lemma_fold_nonneg(init);
        assert forall|k: int| 0 <= k < terms.len() && terms[k] <= i64::MAX implies sat_fold(0, terms) >= terms[k] by {
            if k < terms.len() - 1 {
                assert(init[k] == terms[k]);
            }
        }
    }
}

/// Mean squared error is never negative, and is zero exactly when result
/// and target agree entry by entry.
pub proof fn lemma_mse_zero_iff_equal(result: Seq<i64>, target: Seq<i64>)
    requires
        result.len() == target.len(),
        0 < result.len(),
    ensures
        mse_spec(result, target) >= 0,
        mse_spec(result, target) == 0 <==> result == target,
{
    let terms = squared_errors(result, target);
    let n = result.len() as int;
    assert forall|k: int| 0 <= k < terms.len() implies terms[k] >= 0 by {
        lemma_square_up(sub_spec(result[k] as int, target[k] as int));
    }
    lemma_fold_nonneg(terms);
    let total = sat_fold(0, terms);
    vstd::arithmetic::div_mod::lemma_div_pos_is_pos(total + n - 1, n);
    if result == target {
        assert forall|k: int| 0 <= k < terms.len() implies terms[k] == 0 by {
            lemma_square_up(sub_spec(result[k] as int, target[k] as int));
        }
        lemma_fold_zeros(terms);
        vstd::arithmetic::div_mod::lemma_basic_div(n - 1, n);
    } else {
        assert(!(result =~= target));
        let i = choose|i: int| 0 <= i < result.len() && result[i] != target[i];
        lemma_square_up(sub_spec(result[i] as int, target[i] as int));
        assert(terms[i] >= 1);
        assert(total >= 1);
        vstd::arithmetic::div_mod::lemma_div_is_ordered(n, total + n - 1, n);
        vstd::arithmetic::div_mod::lemma_div_by_self(n);
    }
}

/// The gradient of mean squared error is `2·(result − target)/N` wherever that
/// value lies within the clamping bound.
pub proof fn lemma_mse_gradient_unclamped(result: Seq<i64>, target: Seq<i64>, i: int)
    requires
        result.len() == target.len(),
        0 <= i < result.len(),
        -GRADIENT_LIMIT <= mse_gradient_raw(result, target, i) <= GRADIENT_LIMIT,
    ensures
        mse_gradient_spec(result, target)[i] == (2 * (result[i] - target[i])) / (result.len() as int),
{
}

/// A fold of zero terms from zero is zero.
pub proof fn lemma_fold_zeros(terms: Seq<int>)
    requires
        forall|k: int| 0 <= k < terms.len() ==> terms[k] == 0,
    ensures
        sat_fold(0, terms) == 0,
    decreases terms.len(),
{
    if terms.len() > 0 {
        lemma_fold_zeros(terms.drop_last());
    }
}

} // verus!
