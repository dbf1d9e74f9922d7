//! In-place transpose of a square buffer through a packed triangular
//! scratch buffer, in two passes: stage the strict upper triangle, then swap
//! each symmetric pair using the staged value.
use vstd::prelude::*;
use crate::layout::{cell, lemma_cell_bounds, lemma_cell_injective, lemma_cell_of_index};
use vstd::arithmetic::div_mod::lemma_fundamental_div_mod_converse;
use crate::plan::triangle_len;

verus! {

/// The transpose of the `n` x `n` row-major matrix `x`.
pub open spec fn transposed<T>(x: Seq<T>, n: nat) -> Seq<T> {
    Seq::new(n * n, |k: int| x[cell(k % (n as int), k / (n as int), n as int)])
}

/// Index at which column `c` of the packed upper triangle begins; column `c`
/// holds rows `0..=c`.
pub open spec fn column_start(c: nat) -> nat
    decreases c,
{
    if c == 0 {
        0
    } else {
        column_start((c - 1) as nat) + c
    }
}

/// Packed position of the upper-triangle entry at row `r`, column `c`.
pub open spec fn packed(r: nat, c: nat) -> int {
    (column_start(c) + r) as int
}

/// `scratch` holds every strict upper-triangle entry of `x` at its packed
/// position.
pub open spec fn stages_upper<T>(scratch: Seq<T>, x: Seq<T>, n: nat) -> bool {
    forall|r: nat, c: nat|
        #![trigger packed(r, c)]
        r < c < n ==> scratch[packed(r, c)] == x[cell(r as int, c as int, n as int)]
}

proof fn lemma_column_start_closed(c: nat)
    ensures
        2 * column_start(c) == c * (c + 1),
    decreases c,
{
    if c > 0 {
        let p = (c - 1) as nat;
        lemma_column_start_closed(p);
        let prev = column_start(p) as int;
        let ci = c as int;
        assert(column_start(c) == prev + ci);
        assert(2 * (prev + ci) == ci * (ci + 1)) by (nonlinear_arith)
            requires
                2 * prev == (ci - 1) * ci,
        ;
        assert(ci * (ci + 1) == c * (c + 1));
        assert(2 * column_start(c) == c * (c + 1));
    } else {
        assert(column_start(0) == 0);
        assert(c * (c + 1) == 0) by (nonlinear_arith)
            requires
                c == 0,
        ;
    }
}

proof fn lemma_column_start_mono(a: nat, b: nat)
    requires
        a <= b,
    ensures
        column_start(a) <= column_start(b),
    decreases b,
{
    if a < b {
        lemma_column_start_mono(a, (b - 1) as nat);
    }
}

/// The packed triangle of a side-`n` matrix fits in `triangle_len(n)`
/// entries, and column `c` lies wholly before column `c + 1`.
proof fn lemma_packed_bounds(r: nat, c: nat, n: nat)
    requires
        r <= c < n,
    ensures
        0 <= packed(r, c) < column_start(c + 1),
        column_start(c + 1) <= triangle_len(n),
{
    lemma_column_start_mono(c + 1, n);
    lemma_column_start_closed(n);
}

/// Pass one: copies the strict upper triangle of the `n` x `n` matrix `x`
/// into `scratch` in packed column order.
pub fn copy_upper<T: Copy>(x: &Vec<T>, scratch: &mut Vec<T>, n: usize)
    requires
        x.len() == n * n,
        old(scratch).len() >= triangle_len(n as nat),
    ensures
        final(scratch).len() == old(scratch).len(),
        stages_upper(final(scratch)@, x@, n as nat),
{
    let mut base: usize = 0;
    let mut c: usize = 0;
    while c < n
        invariant
            x.len() == n * n,
            scratch.len() >= triangle_len(n as nat),
            scratch.len() == old(scratch).len(),
            c <= n,
            base == column_start(c as nat),
            forall|r2: nat, c2: nat|
                #![trigger packed(r2, c2)]
                r2 < c2 < c ==> scratch@[packed(r2, c2)] == x@[cell(r2 as int, c2 as int, n as int)],
        decreases n - c,
    {
        proof {
            lemma_packed_bounds(c as nat, c as nat, n as nat);
        }
        let mut r: usize = 0;
        while r < c
            invariant
                x.len() == n * n,
                scratch.len() >= triangle_len(n as nat),
                scratch.len() == old(scratch).len(),
                r <= c < n,
                base == column_start(c as nat),
                column_start(c as nat + 1) <= triangle_len(n as nat),
                forall|r2: nat, c2: nat|
                    #![trigger packed(r2, c2)]
                    (r2 < c2 < c || (c2 == c && r2 < r)) ==> scratch@[packed(r2, c2)]
                        == x@[cell(r2 as int, c2 as int, n as int)],
            decreases c - r,
        {
            proof {
                lemma_cell_bounds(r as int, c as int, n as int, n as int);
            }
            let v = x[r * n + c];
            let ghost prev = scratch@;
            scratch[base + r] = v;
            proof {
                assert forall|r2: nat, c2: nat|
                    #![trigger packed(r2, c2)]
                    (r2 < c2 < c || (c2 == c && r2 <= r)) implies scratch@[packed(r2, c2)]
                        == x@[cell(r2 as int, c2 as int, n as int)] by {
                    if c2 < c {
                        lemma_packed_bounds(r2, c2, n as nat);
                        lemma_column_start_mono(c2 + 1, c as nat);
                    }
                }
            }
            r = r + 1;
        }
        base = base + c + 1;
        c = c + 1;
    }
}

/// Pass two: swaps each symmetric pair of `buf`, taking the upper value from
/// `scratch` (staged from `buf` by `copy_upper`) rather than from `buf`.
pub fn transpose_lower<T: Copy>(buf: &mut Vec<T>, scratch: &Vec<T>, n: usize)
    requires
        old(buf).len() == n * n,
        scratch.len() >= triangle_len(n as nat),
        stages_upper(scratch@, old(buf)@, n as nat),
    ensures
        final(buf)@ == transposed(old(buf)@, n as nat),
{
    let ghost x = buf@;
    let mut base: usize = 0;
    let mut c: usize = 0;
    while c < n
        invariant
            buf.len() == n * n,
            x.len() == n * n,
            scratch.len() >= triangle_len(n as nat),
            stages_upper(scratch@, x, n as nat),
            c <= n,
            base == column_start(c as nat),
            forall|a: int, b: int|
                #![trigger buf@[cell(a, b, n as int)]]
                0 <= a < n && 0 <= b < n ==> buf@[cell(a, b, n as int)] == if a != b && a < c && b
                    < c {
                    x[cell(b, a, n as int)]
                } else {
                    x[cell(a, b, n as int)]
                },
        decreases n - c,
    {
        proof {
            lemma_packed_bounds(c as nat, c as nat, n as nat);
        }
        let mut r: usize = 0;
        while r < c
            invariant
                buf.len() == n * n,
                x.len() == n * n,
                scratch.len() >= triangle_len(n as nat),
                stages_upper(scratch@, x, n as nat),
                r <= c < n,
                base == column_start(c as nat),
                column_start(c as nat + 1) <= triangle_len(n as nat),
                forall|a: int, b: int|
                    #![trigger buf@[cell(a, b, n as int)]]
                    0 <= a < n && 0 <= b < n ==> buf@[cell(a, b, n as int)] == if a != b && ((a
                        < c && b < c) || (a == c && b < r) || (b == c && a < r)) {
                        x[cell(b, a, n as int)]
                    } else {
                        x[cell(a, b, n as int)]
                    },
            decreases c - r,
        {
            proof {
                lemma_cell_bounds(r as int, c as int, n as int, n as int);
                lemma_cell_bounds(c as int, r as int, n as int, n as int);
                assert(scratch@[packed(r as nat, c as nat)] == x[cell(r as int, c as int, n as int)]);
            }
            let upper_pos = r * n + c;
            let lower_pos = c * n + r;
            let ghost prev = buf@;
            assert(prev[cell(c as int, r as int, n as int)] == x[cell(c as int, r as int, n as int)]);
            let lower = buf[lower_pos];
            let upper = scratch[base + r];
            buf[upper_pos] = lower;
            buf[lower_pos] = upper;
            proof {
                assert forall|a: int, b: int|
                    #![trigger buf@[cell(a, b, n as int)]]
                    0 <= a < n && 0 <= b < n implies buf@[cell(a, b, n as int)] == if a != b && ((a
                        < c && b < c) || (a == c && b < r + 1) || (b == c && a < r + 1)) {
                        x[cell(b, a, n as int)]
                    } else {
                        x[cell(a, b, n as int)]
                    } by {
                    lemma_cell_bounds(a, b, n as int, n as int);
                    assert(prev[cell(a, b, n as int)] == prev[cell(a, b, n as int)]);
                    lemma_cell_injective(a, b, r as int, c as int, n as int);
                    lemma_cell_injective(a, b, c as int, r as int, n as int);
                }
            }
            r = r + 1;
        }
        base = base + c + 1;
        c = c + 1;
    }
    proof {
        let t = transposed(x, n as nat);
        if n == 0 {
            assert(n * n == 0);
        }
        assert forall|k: int| 0 <= k < n * n implies buf@[k] == t[k] by {
            lemma_cell_of_index(k, n as int, n as int);
            let (a, b) = (k / (n as int), k % (n as int));
            lemma_cell_bounds(b, a, n as int, n as int);
            assert(buf@[cell(a, b, n as int)] == x[cell(b, a, n as int)]);
            assert(t[k] == x[cell(b, a, n as int)]);
        }
        assert(buf@ =~= t);
    }
}

/// Transposes the `n` x `n` matrix `buf` in place, using `scratch` (at least
/// `triangle_len(n)` entries) to stage the upper triangle. The diagonal is
/// left in place.
pub fn transpose<T: Copy>(buf: &mut Vec<T>, scratch: &mut Vec<T>, n: usize)
    requires
        old(buf).len() == n * n,
        old(scratch).len() >= triangle_len(n as nat),
    ensures
        final(buf)@ == transposed(old(buf)@, n as nat),
        final(scratch).len() == old(scratch).len(),
{
    copy_upper(buf, scratch, n);
    transpose_lower(buf, scratch, n);
}

/// Transposing a square matrix twice gives back the matrix itself, entry for
/// entry.
pub proof fn lemma_transpose_involution<T>(x: Seq<T>, n: nat)
    requires
        x.len() == n * n,
    ensures
        transposed(transposed(x, n), n) == x,
{
    let t = transposed(x, n);
    let tt = transposed(t, n);
    let ni = n as int;
    assert forall|k: int| 0 <= k < x.len() implies tt[k] == x[k] by {
        lemma_cell_of_index(k, ni, ni);
        let (q, r) = (k / ni, k % ni);
        let j = cell(r, q, ni);
        lemma_cell_bounds(r, q, ni, ni);
        lemma_fundamental_div_mod_converse(j, ni, r, q);
    }
    assert(tt =~= x);
}

} // verus!
