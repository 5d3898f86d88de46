//! Sums over rectangular index ranges, flattened in row-major order.
use vstd::prelude::*;
use crate::fixed::{sat_fold, add_spec, lemma_sat_fold_step};

verus! {

/// The terms `f(r, c)` for `r < h`, `c < w`, row by row.
pub open spec fn grid(h: int, w: int, f: spec_fn(int, int) -> int) -> Seq<int> {
    Seq::new((h * w) as nat, |t: int| f(t / w, t % w))
}

/// Position `r·w + c` of a row-major grid holds row `r`, column `c`.
pub proof fn lemma_flat_index(r: int, c: int, h: int, w: int)
    requires
        0 <= r < h,
        0 <= c < w,
    ensures
        (r * w + c) / w == r,
        (r * w + c) % w == c,
        0 <= r * w + c < h * w,
        r * w + c + 1 <= h * w,
        r * w + w == (r + 1) * w,
{
    vstd::arithmetic::div_mod::lemma_fundamental_div_mod_converse(r * w + c, w, r, c);
    assert(r * w + c + 1 <= h * w) by (nonlinear_arith)
        requires
            0 <= r < h,
            0 <= c < w,
    ;
    assert(r * w + w == (r + 1) * w) by (nonlinear_arith);
    assert(0 <= r * w) by (nonlinear_arith)
        requires
            0 <= r,
            0 <= c < w,
    ;
}

/// Adding the term at row `r`, column `c` extends the fold by one position.
pub proof fn lemma_grid_step(init: int, h: int, w: int, f: spec_fn(int, int) -> int, r: int, c: int)
    requires
        0 <= r < h,
        0 <= c < w,
    ensures
        sat_fold(init, grid(h, w, f).take(r * w + c + 1)) == add_spec(
            sat_fold(init, grid(h, w, f).take(r * w + c)),
            f(r, c),
        ),
        r * w + c + 1 <= h * w,
        r * w + w == (r + 1) * w,
{
    lemma_flat_index(r, c, h, w);
    lemma_sat_fold_step(init, grid(h, w, f), r * w + c);
}

/// The fold over a whole grid.
pub proof fn lemma_grid_whole(init: int, h: int, w: int, f: spec_fn(int, int) -> int)
    requires
        0 <= h,
        0 <= w,
    ensures
        sat_fold(init, grid(h, w, f).take(h * w)) == sat_fold(init, grid(h, w, f)),
{
    assert(0 <= h * w) by (nonlinear_arith)
        requires
            0 <= h,
            0 <= w,
    ;
    assert(grid(h, w, f).take(h * w) =~= grid(h, w, f));
}

} // verus!
