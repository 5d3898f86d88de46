//! Fixed-point scalars: an `i64` holding a real number times `SCALE`.
//! Every operation saturates at the bounds of `i64`.
use vstd::prelude::*;

verus! {

/// The number of raw units in one.
pub const SCALE: i64 = 1_000_000;

/// Clamps a mathematical integer into the range of `i64`.
pub open spec fn sat(x: int) -> int {
    if x < i64::MIN {
        i64::MIN as int
    } else if x > i64::MAX {
        i64::MAX as int
    } else {
        x
    }
}

/// Saturating sum.
pub open spec fn add_spec(a: int, b: int) -> int {
    sat(a + b)
}

/// Saturating difference.
pub open spec fn sub_spec(a: int, b: int) -> int {
    sat(a - b)
}

/// Fixed-point product, rounded down, saturating.
pub open spec fn mul_spec(a: int, b: int) -> int {
    sat((a * b) / (SCALE as int))
}

/// The rectified linear unit.
pub open spec fn relu_spec(x: int) -> int {
    if x > 0 {
        x
    } else {
        0
    }
}

/// Left fold of saturating additions of `terms` onto `init`.
pub open spec fn sat_fold(init: int, terms: Seq<int>) -> int
    decreases terms.len(),
{
    if terms.len() == 0 {
        init
    } else {
        add_spec(sat_fold(init, terms.drop_last()), terms.last())
    }
}

/// Folding one more term of a sequence extends the fold of its prefix.
pub proof fn lemma_sat_fold_step(init: int, terms: Seq<int>, k: int)
    requires
        0 <= k < terms.len(),
    ensures
        sat_fold(init, terms.take(k + 1)) == add_spec(sat_fold(init, terms.take(k)), terms[k]),
{
    assert(terms.take(k + 1).drop_last() =~= terms.take(k));
}

/// Clamps an `i128` into `i64`.
pub fn saturate(x: i128) -> (r: i64)
    ensures
        r == sat(x as int),
{
    if x < i64::MIN as i128 {
        i64::MIN
    } else if x > i64::MAX as i128 {
        i64::MAX
    } else {
        x as i64
    }
}

/// Saturating sum of two fixed-point numbers.
pub fn fx_add(a: i64, b: i64) -> (r: i64)
    ensures
        r == add_spec(a as int, b as int),
{
    saturate(a as i128 + b as i128)
}

/// Saturating difference of two fixed-point numbers.
pub fn fx_sub(a: i64, b: i64) -> (r: i64)
    ensures
        r == sub_spec(a as int, b as int),
{
    saturate(a as i128 - b as i128)
}

/// Floor division of an `i128` by a positive divisor.
pub(crate) fn floor_div(x: i128, d: i128) -> (r: i128)
    requires
        0 < d <= 0xffff_ffff_ffff_ffff,
        -0x4000_0000_0000_0000_0000_0000_0000_0000 <= x <= 0x4000_0000_0000_0000_0000_0000_0000_0000,
    ensures
        r == x as int / d as int,
{
    if x >= 0 {
        let q: u128 = (x as u128) / (d as u128);
        proof {
            vstd::arithmetic::div_mod::lemma_div_pos_is_pos(x as int, d as int);
            vstd::arithmetic::div_mod::lemma_div_is_ordered_by_denominator(x as int, 1, d as int);
        }
        q as i128
    } else {
        let m: u128 = (-x) as u128;
        let q: u128 = (m + (d as u128) - 1) / (d as u128);
        proof {
            let xi = x as int;
            let di = d as int;
            let qi = q as int;
            assert(qi == (-xi + di - 1) / di);
            lemma_neg_floor(xi, di);
            vstd::arithmetic::div_mod::lemma_fundamental_div_mod(-xi + di - 1, di);
            assert(qi <= -xi + di - 1) by (nonlinear_arith)
                requires
                    qi >= 0,
                    di >= 1,
                    di * qi <= -xi + di - 1,
            ;
        }
        -(q as i128)
    }
}

/// Floor division of a negative number through the ceiling of its negation.
proof fn lemma_neg_floor(x: int, d: int)
    requires
        d > 0,
        x < 0,
    ensures
        x / d == -((-x + d - 1) / d),
{
    let q = (-x + d - 1) / d;
    let rm = (-x + d - 1) % d;
    vstd::arithmetic::div_mod::lemma_fundamental_div_mod(-x + d - 1, d);
    assert(x == (-q) * d + (d - 1 - rm)) by (nonlinear_arith)
        requires
            -x + d - 1 == d * q + rm,
    ;
    vstd::arithmetic::div_mod::lemma_fundamental_div_mod_converse(x, d, -q, d - 1 - rm);
}

/// Fixed-point product of two fixed-point numbers, rounded down, saturating.
pub fn fx_mul(a: i64, b: i64) -> (r: i64)
    ensures
        r == mul_spec(a as int, b as int),
{
    proof {
        let ai = a as int;
        let bi = b as int;
        assert(-0x4000_0000_0000_0000_0000_0000_0000_0000 <= ai * bi <= 0x4000_0000_0000_0000_0000_0000_0000_0000)
            by (nonlinear_arith)
            requires
                -0x8000_0000_0000_0000 <= ai <= 0x7fff_ffff_ffff_ffff,
                -0x8000_0000_0000_0000 <= bi <= 0x7fff_ffff_ffff_ffff,
        ;
    }
    let p: i128 = a as i128 * b as i128;
    saturate(floor_div(p, SCALE as i128))
}

/// The rectified linear unit on a fixed-point number.
pub fn relu(x: i64) -> (r: i64)
    ensures
        r == relu_spec(x as int),
{
    if x > 0 {
        x
    } else {
        0
    }
}

} // verus!
