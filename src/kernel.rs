//! The convolution kernel's footprint and its wrap-around placement in the
//! spectral buffer.
use vstd::prelude::*;
use crate::layout::{cell, lemma_cell_bounds, lemma_cell_injective, lemma_cell_of_index};

verus! {

/// Largest kernel radius; a kernel of this radius fits in the smallest
/// spectral buffer.
pub const MAX_KERNEL_RADIUS: u32 = 127;

/// Radius of the kernel that a new engine uses.
pub const DEFAULT_KERNEL_RADIUS: u32 = 40;

/// Side of the square that holds a kernel of radius `r`.
pub open spec fn kernel_side(r: nat) -> nat {
    2 * r + 1
}

/// Squared distance of cell `(i, j)` of the kernel square from its center.
pub open spec fn squared_offset(i: int, j: int, r: int) -> int {
    (i - r) * (i - r) + (j - r) * (j - r)
}

/// Cell `(i, j)` of a radius-`r` kernel carries weight exactly when its
/// distance from the center is below `r`; it then carries that squared
/// distance, from which the host computes the bell-shaped weight.
pub open spec fn support_entry(i: int, j: int, r: int) -> Option<u64> {
    if squared_offset(i, j, r) < r * r {
        Some(squared_offset(i, j, r) as u64)
    } else {
        None
    }
}

/// The row-major footprint of a radius-`r` kernel.
pub open spec fn support_of(r: nat) -> Seq<Option<u64>> {
    let side = kernel_side(r) as int;
    Seq::new((side * side) as nat, |k: int| support_entry(k / side, k % side, r as int))
}

/// Global position of local offset `i` of a radius-`r` kernel in a buffer of
/// side `s`: `(i - r) mod s` for `i < s`.
pub open spec fn wrap_offset(i: int, r: int, s: int) -> int {
    if i >= r {
        i - r
    } else {
        s + i - r
    }
}

/// Local offset that lands on global position `p`: `(p + r) mod s` for
/// `p < s`.
pub open spec fn local_offset(p: int, r: int, s: int) -> int {
    if p + r < s {
        p + r
    } else {
        p + r - s
    }
}

/// Entry at `(p, q)` of the `s` x `s` buffer that holds the row-major kernel
/// `weights` of radius `r`, centered on the origin with wrap-around.
pub open spec fn placed_entry<T>(weights: Seq<T>, r: int, s: int, zero: T, p: int, q: int) -> (T, T) {
    let (i, j) = (local_offset(p, r, s), local_offset(q, r, s));
    if i < 2 * r + 1 && j < 2 * r + 1 {
        (weights[cell(i, j, 2 * r + 1)], zero)
    } else {
        (zero, zero)
    }
}

/// The whole `s` x `s` buffer holding the placed kernel.
pub open spec fn placed<T>(weights: Seq<T>, r: nat, s: nat, zero: T) -> Seq<(T, T)> {
    Seq::new(
        s * s,
        |k: int| placed_entry(weights, r as int, s as int, zero, k / (s as int), k % (s as int)),
    )
}

proof fn lemma_wrap_round_trip(i: int, r: int, s: int)
    requires
        0 <= i < s,
        0 <= r < s,
    ensures
        0 <= wrap_offset(i, r, s) < s,
        local_offset(wrap_offset(i, r, s), r, s) == i,
{
}

proof fn lemma_local_round_trip(p: int, r: int, s: int)
    requires
        0 <= p < s,
        0 <= r < s,
    ensures
        0 <= local_offset(p, r, s) < s,
        wrap_offset(local_offset(p, r, s), r, s) == p,
{
}

/// Absolute difference of two small integers.
fn distance(a: u64, b: u64) -> (d: u64)
    ensures
        d * d == (a - b) * (a - b),
{
    if a >= b {
        a - b
    } else {
        proof {
            assert((b - a) * (b - a) == (a - b) * (a - b)) by (nonlinear_arith);
        }
        b - a
    }
}

/// The footprint of a radius-`radius` kernel: for each cell of the
/// `2 radius + 1` square, row-major, its squared distance from the center
/// where that distance is below `radius`, and `None` elsewhere.
pub fn kernel_support(radius: u32) -> (out: Vec<Option<u64>>)
    requires
        radius <= MAX_KERNEL_RADIUS,
    ensures
        out@ == support_of(radius as nat),
{
    let side: u64 = 2 * radius as u64 + 1;
    let r = radius as u64;
    let ghost sd = side as int;
    let mut out: Vec<Option<u64>> = Vec::new();
    let mut i: u64 = 0;
    while i < side
        invariant
            side == 2 * r + 1,
            r == radius,
            r <= MAX_KERNEL_RADIUS,
            sd == side,
            i <= side,
            out.len() == i * side,
            forall|k: int| 0 <= k < i * side ==> #[trigger] out@[k] == support_entry(k / sd, k % sd, r as int),
        decreases side - i,
    {
        let mut j: u64 = 0;
        while j < side
            invariant
                side == 2 * r + 1,
                r == radius,
                r <= MAX_KERNEL_RADIUS,
                sd == side,
                i < side,
                j <= side,
                out.len() == i * side + j,
                forall|k: int|
                    0 <= k < i * side + j ==> #[trigger] out@[k] == support_entry(k / sd, k % sd, r as int),
            decreases side - j,
        {
            let di = distance(i, r);
            let dj = distance(j, r);
            proof {
                assert(di * di <= 255 * 255 && dj * dj <= 255 * 255) by (nonlinear_arith)
                    requires
                        di * di == (i - r) * (i - r),
                        dj * dj == (j - r) * (j - r),
                        0 <= i < 255,
                        0 <= j < 255,
                        0 <= r <= 127,
                ;
                assert(r * r <= 127 * 127) by (nonlinear_arith)
                    requires
                        r <= 127,
                ;
                vstd::arithmetic::div_mod::lemma_fundamental_div_mod_converse(
                    i * side + j,
                    sd,
                    i as int,
                    j as int,
                );
            }
            let d2 = di * di + dj * dj;
            let entry = if d2 < r * r {
                Some(d2)
            } else {
                None
            };
            out.push(entry);
            j = j + 1;
        }
        proof {
            assert(i * side + side == (i + 1) * side) by (nonlinear_arith);
        }
        i = i + 1;
    }
    proof {
        assert(out@ =~= support_of(radius as nat));
    }
    out
}

/// Builds the `size` x `size` buffer that holds the row-major radius-`radius`
/// kernel `weights` centered on the origin: local offset `(i, j)` goes to
/// `((i - radius) mod size, (j - radius) mod size)` as a real value, and every
/// other entry is zero.
pub fn place_kernel<T: Copy>(weights: &Vec<T>, radius: usize, size: usize, zero: T) -> (out: Vec<(T, T)>)
    requires
        2 * radius + 1 <= size,
        size * size <= usize::MAX,
        weights.len() == (2 * radius + 1) * (2 * radius + 1),
    ensures
        out@ == placed(weights@, radius as nat, size as nat, zero),
{
    let side: usize = 2 * radius + 1;
    let ghost (r, s, sd) = (radius as int, size as int, side as int);
    let total: usize = size * size;
    let mut out: Vec<(T, T)> = Vec::new();
    while out.len() < total
        invariant
            total == size * size,
            out.len() <= total,
            forall|k: int| 0 <= k < out.len() ==> #[trigger] out@[k] == (zero, zero),
        decreases total - out.len(),
    {
        out.push((zero, zero));
    }
    proof {
        assert forall|p: int, q: int|
            #![trigger out@[cell(p, q, s)]]
            0 <= p < s && 0 <= q < s implies out@[cell(p, q, s)] == (zero, zero) by {
            lemma_cell_bounds(p, q, s, s);
        }
    }
    let mut i: usize = 0;
    while i < side
        invariant
            side == 2 * radius + 1,
            side <= size,
            r == radius,
            s == size,
            sd == side,
            weights.len() == side * side,
            out.len() == size * size,
            i <= side,
            forall|p: int, q: int|
                #![trigger out@[cell(p, q, s)]]
                0 <= p < s && 0 <= q < s ==> out@[cell(p, q, s)] == if local_offset(p, r, s) < i
                    && local_offset(q, r, s) < sd {
                    placed_entry(weights@, r, s, zero, p, q)
                } else {
                    (zero, zero)
                },
        decreases side - i,
    {
        let pi = if i >= radius {
            i - radius
        } else {
            size - (radius - i)
        };
        proof {
            lemma_wrap_round_trip(i as int, r, s);
        }
        let mut j: usize = 0;
        while j < side
            invariant
                side == 2 * radius + 1,
                side <= size,
                r == radius,
                s == size,
                sd == side,
                weights.len() == side * side,
                out.len() == size * size,
                i < side,
                j <= side,
                pi == wrap_offset(i as int, r, s),
                0 <= pi < s,
                local_offset(pi as int, r, s) == i,
                forall|p: int, q: int|
                    #![trigger out@[cell(p, q, s)]]
                    0 <= p < s && 0 <= q < s ==> out@[cell(p, q, s)] == if (local_offset(p, r, s)
                        < i || (local_offset(p, r, s) == i && local_offset(q, r, s) < j))
                        && local_offset(q, r, s) < sd {
                        placed_entry(weights@, r, s, zero, p, q)
                    } else {
                        (zero, zero)
                    },
            decreases side - j,
        {
            let pj = if j >= radius {
                j - radius
            } else {
                size - (radius - j)
            };
            proof {
                lemma_wrap_round_trip(j as int, r, s);
                lemma_cell_bounds(i as int, j as int, sd, sd);
                lemma_cell_bounds(pi as int, pj as int, s, s);
            }
            let w = weights[i * side + j];
            let ghost prev = out@;
            out[pi * size + pj] = (w, zero);
            proof {
                assert forall|p: int, q: int|
                    #![trigger out@[cell(p, q, s)]]
                    0 <= p < s && 0 <= q < s implies out@[cell(p, q, s)] == if (local_offset(
                        p,
                        r,
                        s,
                    ) < i || (local_offset(p, r, s) == i && local_offset(q, r, s) < j + 1))
                        && local_offset(q, r, s) < sd {
                        placed_entry(weights@, r, s, zero, p, q)
                    } else {
                        (zero, zero)
                    } by {
                    lemma_cell_bounds(p, q, s, s);
                    lemma_cell_injective(p, q, pi as int, pj as int, s);
                    lemma_local_round_trip(p, r, s);
                    lemma_local_round_trip(q, r, s);
                    assert(prev[cell(p, q, s)] == prev[cell(p, q, s)]);
                }
            }
            j = j + 1;
        }
        i = i + 1;
    }
    proof {
        let pl = placed(weights@, radius as nat, size as nat, zero);
        if size == 0 {
            assert(size * size == 0);
        }
        assert forall|k: int| 0 <= k < s * s implies out@[k] == pl[k] by {
            lemma_cell_of_index(k, s, s);
            let (p, q) = (k / s, k % s);
            lemma_local_round_trip(p, r, s);
            lemma_local_round_trip(q, r, s);
            assert(out@[cell(p, q, s)] == pl[k]);
        }
        assert(out@ =~= pl);
    }
    out
}

} // verus!
