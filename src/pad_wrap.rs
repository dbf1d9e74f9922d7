//! Moving densities between the `width` x `height` grid and the square
//! complex spectral buffer.
use vstd::prelude::*;
use crate::layout::{cell, lemma_cell_bounds, lemma_cell_of_index};

verus! {

/// Entry at row `r`, column `c` of the padded spectral buffer: the grid's
/// density as the real part where the cell lies inside the grid, zero
/// elsewhere, and a zero imaginary part throughout.
pub open spec fn padded_entry<T>(grid: Seq<T>, width: nat, height: nat, zero: T, r: int, c: int) -> (T, T) {
    if r < height && c < width {
        (grid[cell(r, c, width as int)], zero)
    } else {
        (zero, zero)
    }
}

/// The full `size` x `size` padded spectral buffer of `grid`.
pub open spec fn padded<T>(grid: Seq<T>, width: nat, height: nat, size: nat, zero: T) -> Seq<(T, T)> {
    Seq::new(
        size * size,
        |k: int| padded_entry(grid, width, height, zero, k / (size as int), k % (size as int)),
    )
}

/// The real parts of the top-left `width` x `height` block of a spectral
/// buffer of side `size`, as a row-major grid.
pub open spec fn cropped_real<T>(buf: Seq<(T, T)>, width: nat, height: nat, size: nat) -> Seq<T> {
    Seq::new(
        width * height,
        |k: int| buf[cell(k / (width as int), k % (width as int), size as int)].0,
    )
}

/// Writes the row-major `width` x `height` grid into the real channel of the
/// `size` x `size` buffer `buf`, zeroing the imaginary channel and every entry
/// outside the grid. The result depends on `grid` alone.
pub fn pad_wrap<T: Copy>(
    grid: &Vec<T>,
    width: usize,
    height: usize,
    buf: &mut Vec<(T, T)>,
    size: usize,
    zero: T,
)
    requires
        grid.len() == width * height,
        width <= size,
        height <= size,
        old(buf).len() == size * size,
    ensures
        final(buf)@ == padded(grid@, width as nat, height as nat, size as nat, zero),
{
    let mut r: usize = 0;
    while r < size
        invariant
            grid.len() == width * height,
            width <= size,
            height <= size,
            buf.len() == size * size,
            r <= size,
            forall|a: int, b: int|
                #![trigger buf@[cell(a, b, size as int)]]
                0 <= a < r && 0 <= b < size ==> buf@[cell(a, b, size as int)] == padded_entry(
                    grid@,
                    width as nat,
                    height as nat,
                    zero,
                    a,
                    b,
                ),
        decreases size - r,
    {
        let mut c: usize = 0;
        while c < size
            invariant
                grid.len() == width * height,
                width <= size,
                height <= size,
                buf.len() == size * size,
                r < size,
                c <= size,
                forall|a: int, b: int|
                    #![trigger buf@[cell(a, b, size as int)]]
                    0 <= a < size && 0 <= b < size && (a < r || (a == r && b < c))
                        ==> buf@[cell(a, b, size as int)] == padded_entry(
                        grid@,
                        width as nat,
                        height as nat,
                        zero,
                        a,
                        b,
                    ),
            decreases size - c,
        {
            proof {
                lemma_cell_bounds(r as int, c as int, size as int, size as int);
            }
            let v = if r < height && c < width {
                proof {
                    lemma_cell_bounds(r as int, c as int, height as int, width as int);
                    assert(height * width == width * height) by (nonlinear_arith);
                }
                (grid[r * width + c], zero)
            } else {
                (zero, zero)
            };
            let ghost prev = buf@;
            buf[r * size + c] = v;
            proof {
                assert forall|a: int, b: int|
                    #![trigger buf@[cell(a, b, size as int)]]
                    0 <= a < size && 0 <= b < size && (a < r || (a == r && b < c + 1))
                        implies buf@[cell(a, b, size as int)] == padded_entry(
                        grid@,
                        width as nat,
                        height as nat,
                        zero,
                        a,
                        b,
                    ) by {
                    crate::layout::lemma_cell_injective(a, b, r as int, c as int, size as int);
                    lemma_cell_bounds(a, b, size as int, size as int);
                    assert(prev[cell(a, b, size as int)] == prev[cell(a, b, size as int)]);
                }
            }
            c = c + 1;
        }
        r = r + 1;
    }
    proof {
        let p = padded(grid@, width as nat, height as nat, size as nat, zero);
        if size == 0 {
            assert(size * size == 0);
        }
        assert forall|k: int| 0 <= k < size * size implies buf@[k] == p[k] by {
            lemma_cell_of_index(k, size as int, size as int);
            let (a, b) = (k / (size as int), k % (size as int));
            assert(buf@[cell(a, b, size as int)] == padded_entry(
                grid@,
                width as nat,
                height as nat,
                zero,
                a,
                b,
            ));
        }
        assert(buf@ =~= p);
    }
}

/// Reads the real channel of the top-left `width` x `height` block of the
/// `size` x `size` buffer `buf` back into a row-major grid.
pub fn crop_real<T: Copy>(buf: &Vec<(T, T)>, size: usize, width: usize, height: usize) -> (out: Vec<T>)
    requires
        buf.len() == size * size,
        width <= size,
        height <= size,
    ensures
        out@ == cropped_real(buf@, width as nat, height as nat, size as nat),
{
    proof {
        assert(width * height <= size * size) by (nonlinear_arith)
            requires
                width <= size,
                height <= size,
        ;
    }
    let mut out: Vec<T> = Vec::new();
    let mut r: usize = 0;
    while r < height
        invariant
            buf.len() == size * size,
            width <= size,
            height <= size,
            r <= height,
            width * height <= size * size,
            out.len() == r * width,
            forall|k: int|
                0 <= k < r * width ==> #[trigger] out@[k] == buf@[cell(
                    k / (width as int),
                    k % (width as int),
                    size as int,
                )].0,
        decreases height - r,
    {
        let mut c: usize = 0;
        proof {
            assert(r * width + width <= height * width) by (nonlinear_arith)
                requires
                    r < height,
            ;
        }
        while c < width
            invariant
                buf.len() == size * size,
                width <= size,
                height <= size,
                r < height,
                c <= width,
                width * height <= size * size,
                r * width + width <= height * width,
                out.len() == r * width + c,
                forall|k: int|
                    0 <= k < r * width + c ==> #[trigger] out@[k] == buf@[cell(
                        k / (width as int),
                        k % (width as int),
                        size as int,
                    )].0,
            decreases width - c,
        {
            proof {
                lemma_cell_bounds(r as int, c as int, size as int, size as int);
                let k = cell(r as int, c as int, width as int);
                vstd::arithmetic::div_mod::lemma_fundamental_div_mod_converse(
                    k,
                    width as int,
                    r as int,
                    c as int,
                );
            }
            out.push(buf[r * size + c].0);
            c = c + 1;
        }
        proof {
            assert(r * width + width == (r + 1) * width) by (nonlinear_arith);
        }
        r = r + 1;
    }
    proof {
        assert(height * width == width * height) by (nonlinear_arith);
        assert(out@ =~= cropped_real(buf@, width as nat, height as nat, size as nat));
    }
    out
}

} // verus!
