//! Row-major addressing of rectangular buffers.
use vstd::prelude::*;
use vstd::arithmetic::div_mod::lemma_fundamental_div_mod_converse;

verus! {

/// Position of row `r`, column `c` in a row-major buffer with `cols` columns.
pub open spec fn cell(r: int, c: int, cols: int) -> int {
    r * cols + c
}

/// A cell inside a `rows` x `cols` buffer has an index inside the buffer.
pub proof fn lemma_cell_bounds(r: int, c: int, rows: int, cols: int)
    requires
        0 <= r < rows,
        0 <= c < cols,
    ensures
        0 <= cell(r, c, cols) < rows * cols,
        cell(r, 0, cols) + cols <= rows * cols,
{
    assert(0 <= r * cols + c < rows * cols && r * cols + cols <= rows * cols) by (nonlinear_arith)
        requires
            0 <= r < rows,
            0 <= c < cols,
    ;
}

/// Distinct cells have distinct indices.
pub proof fn lemma_cell_injective(r1: int, c1: int, r2: int, c2: int, cols: int)
    requires
        0 <= c1 < cols,
        0 <= c2 < cols,
    ensures
        cell(r1, c1, cols) == cell(r2, c2, cols) <==> (r1 == r2 && c1 == c2),
{
    if cell(r1, c1, cols) == cell(r2, c2, cols) {
        let k = cell(r1, c1, cols);
        lemma_fundamental_div_mod_converse(k, cols, r1, c1);
        lemma_fundamental_div_mod_converse(k, cols, r2, c2);
    }
}

/// Every index of a `rows` x `cols` buffer is the cell of its quotient and
/// remainder by `cols`.
pub proof fn lemma_cell_of_index(k: int, rows: int, cols: int)
    requires
        0 <= k < rows * cols,
        cols > 0,
    ensures
        k == cell(k / cols, k % cols, cols),
        0 <= k / cols < rows,
        0 <= k % cols < cols,
{
    assert(k == (k / cols) * cols + k % cols && 0 <= k % cols < cols) by (nonlinear_arith)
        requires
            cols > 0,
    ;
    assert(0 <= k / cols < rows) by (nonlinear_arith)
        requires
            0 <= k < rows * cols,
            cols > 0,
            k == (k / cols) * cols + k % cols,
            0 <= k % cols < cols,
    ;
}

} // verus!
