//! Size derivation for the spectral buffers.
use vstd::prelude::*;

verus! {

/// Largest grid width or height the planner accepts; it keeps every buffer
/// size below in `u64` and the transform size in `u32`.
pub const MAX_DIMENSION: u32 = 0x4000_0000;

/// Smallest side of the square spectral buffer.
pub const MIN_FFT_SIZE: u32 = 256;

/// Side of the square thread tile that each workgroup covers.
pub const WORKGROUP_SIDE: u32 = 16;

/// Bytes in one complex entry (two 32-bit floats).
pub const COMPLEX_BYTES: u64 = 8;

/// Bytes in one grid cell (one 32-bit float).
pub const CELL_BYTES: u64 = 4;

/// `2^k`.
pub open spec fn two_pow(k: nat) -> nat
    decreases k,
{
    if k == 0 {
        1
    } else {
        2 * two_pow((k - 1) as nat)
    }
}

pub open spec fn is_power_of_two(n: int) -> bool {
    exists|k: nat| two_pow(k) == n
}

/// Doubles `p` until it reaches `n`.
pub open spec fn double_until(n: nat, p: nat) -> nat
    decreases 2 * n - p,
    when p >= 1
{
    if p >= n {
        p
    } else {
        double_until(n, 2 * p)
    }
}

/// The smallest power of two that is at least `n` (1 for 0).
pub open spec fn next_pow2(n: nat) -> nat {
    double_until(n, 1)
}

pub proof fn lemma_two_pow_positive(k: nat)
    ensures
        two_pow(k) >= 1,
    decreases k,
{
    if k > 0 {
        lemma_two_pow_positive((k - 1) as nat);
    }
}

proof fn lemma_double_until(n: nat, p: nat, k: nat)
    requires
        p == two_pow(k),
        p < 2 * n || p == 1,
    ensures
        is_power_of_two(double_until(n, p) as int),
        double_until(n, p) >= n,
        double_until(n, p) == 1 || double_until(n, p) < 2 * n,
    decreases 2 * n - p,
{
    lemma_two_pow_positive(k);
    if p >= n {
    } else {
        assert(two_pow(k + 1) == 2 * p);
        lemma_double_until(n, 2 * p, k + 1);
    }
}

/// `next_pow2(n)` is a power of two, at least `n`, and less than `2 n`.
pub proof fn lemma_next_pow2(n: nat)
    ensures
        is_power_of_two(next_pow2(n) as int),
        next_pow2(n) >= n,
        next_pow2(n) == 1 || next_pow2(n) < 2 * n,
{
    assert(two_pow(0) == 1);
    lemma_double_until(n, 1, 0);
}

/// The smallest power of two that is at least `n`.
pub fn next_power_of_two(n: u32) -> (r: u32)
    requires
        n <= 0x8000_0000,
    ensures
        r == next_pow2(n as nat),
{
    let mut p: u32 = 1;
    while p < n
        invariant
            1 <= p,
            p == 1 || p < 2 * n,
            n <= 0x8000_0000,
            double_until(n as nat, p as nat) == next_pow2(n as nat),
        decreases 2 * n - p,
    {
        p = p * 2;
    }
    p
}

pub open spec fn max_nat(a: nat, b: nat) -> nat {
    if a >= b {
        a
    } else {
        b
    }
}

/// Side of the spectral buffer for a `width` x `height` grid: the next power
/// of two that covers both dimensions, and never below `MIN_FFT_SIZE`.
pub open spec fn fft_size_of(width: nat, height: nat) -> nat {
    max_nat(next_pow2(max_nat(width, height)), MIN_FFT_SIZE as nat)
}

/// The spectral side is a power of two, at least `MIN_FFT_SIZE`, covers the
/// grid, and is at most `MAX_DIMENSION` for grids within the limit.
pub proof fn lemma_fft_size(width: nat, height: nat)
    requires
        width <= MAX_DIMENSION,
        height <= MAX_DIMENSION,
    ensures
        is_power_of_two(fft_size_of(width, height) as int),
        fft_size_of(width, height) >= MIN_FFT_SIZE,
        fft_size_of(width, height) >= width,
        fft_size_of(width, height) >= height,
        fft_size_of(width, height) <= MAX_DIMENSION,
{
    let m = max_nat(width, height);
    lemma_next_pow2(m);
    if next_pow2(m) < MIN_FFT_SIZE {
        lemma_two_pow_landmarks();
    }
    if next_pow2(m) > MAX_DIMENSION {
        let k = choose|k: nat| two_pow(k) == next_pow2(m);
        lemma_two_pow_landmarks();
        lemma_pow2_above(k, 30);
    }
}

pub proof fn lemma_two_pow_landmarks()
    ensures
        two_pow(8) == MIN_FFT_SIZE,
        two_pow(30) == MAX_DIMENSION,
        two_pow(31) == 0x8000_0000,
{
    reveal_with_fuel(two_pow, 32);
}

/// `2^(a + b) == 2^a * 2^b`.
pub proof fn lemma_two_pow_add(a: nat, b: nat)
    ensures
        two_pow(a + b) == two_pow(a) * two_pow(b),
    decreases a,
{
    if a > 0 {
        lemma_two_pow_add((a - 1) as nat, b);
        assert(two_pow(a + b) == 2 * two_pow((a - 1 + b) as nat));
        assert(2 * (two_pow((a - 1) as nat) * two_pow(b)) == (2 * two_pow((a - 1) as nat))
            * two_pow(b)) by (nonlinear_arith);
    } else {
        assert(two_pow(0) == 1);
        assert(1 * two_pow(b) == two_pow(b));
    }
}

/// Powers of two grow with the exponent.
pub proof fn lemma_two_pow_mono(a: nat, b: nat)
    requires
        a <= b,
    ensures
        two_pow(a) <= two_pow(b),
    decreases b,
{
    if a < b {
        lemma_two_pow_mono(a, (b - 1) as nat);
        lemma_two_pow_positive((b - 1) as nat);
    }
}

/// A power of two above `2^j` is at least `2^(j+1)`.
proof fn lemma_pow2_above(k: nat, j: nat)
    requires
        two_pow(k) > two_pow(j),
    ensures
        two_pow(k) >= 2 * two_pow(j),
    decreases k,
{
    lemma_two_pow_positive(k);
    lemma_two_pow_positive(j);
    if k > 0 && j > 0 {
        lemma_pow2_above((k - 1) as nat, (j - 1) as nat);
    }
}

/// Side of the spectral buffer for a `width` x `height` grid.
pub fn fft_size(width: u32, height: u32) -> (r: u32)
    requires
        width <= MAX_DIMENSION,
        height <= MAX_DIMENSION,
    ensures
        r == fft_size_of(width as nat, height as nat),
{
    let m = if width >= height {
        width
    } else {
        height
    };
    let p = next_power_of_two(m);
    if p >= MIN_FFT_SIZE {
        p
    } else {
        MIN_FFT_SIZE
    }
}

pub proof fn lemma_two_pow_exceeds(k: nat)
    ensures
        two_pow(k) > k,
    decreases k,
{
    if k > 0 {
        lemma_two_pow_exceeds((k - 1) as nat);
    }
}

/// Only a larger exponent gives a larger power of two.
pub proof fn lemma_two_pow_mono_converse(a: nat, b: nat)
    requires
        two_pow(a) <= two_pow(b),
    ensures
        a <= b,
{
    if a > b {
        lemma_two_pow_mono(b + 1, a);
        lemma_two_pow_positive(b);
    }
}

/// Number of radix-2 stages of a transform of length `size`: its base-2
/// logarithm.
pub fn num_stages(size: u32) -> (r: u32)
    requires
        is_power_of_two(size as int),
    ensures
        two_pow(r as nat) == size,
{
    let ghost j: nat = choose|j: nat| two_pow(j) == size;
    proof {
        lemma_two_pow_exceeds(j);
    }
    let mut p: u32 = size;
    let mut k: u32 = 0;
    while p > 1
        invariant
            k <= j,
            p == two_pow((j - k) as nat),
            size == two_pow(j),
            j < size,
        decreases p,
    {
        assert(j - k > 0);
        assert(two_pow((j - k) as nat) == 2 * two_pow((j - k - 1) as nat));
        p = p / 2;
        k = k + 1;
    }
    proof {
        lemma_two_pow_positive((j - k) as nat);
        if j > k {
            lemma_two_pow_positive((j - k - 1) as nat);
            assert(two_pow((j - k) as nat) == 2 * two_pow((j - k - 1) as nat));
        }
    }
    k
}

/// Workgroups needed to cover `n` cells with tiles of `WORKGROUP_SIDE`.
pub fn workgroups(n: u32) -> (r: u32)
    ensures
        r == (n as int + WORKGROUP_SIDE - 1) / (WORKGROUP_SIDE as int),
{
    let q = n / WORKGROUP_SIDE;
    if n % WORKGROUP_SIDE == 0 {
        q
    } else {
        q + 1
    }
}

/// Entries of the packed upper triangle (diagonal included) of a
/// `size` x `size` matrix.
pub open spec fn triangle_len(size: nat) -> nat {
    size * (size + 1) / 2
}

/// Complex entries of the transpose scratch buffer.
pub fn transpose_scratch_len(size: u32) -> (r: u64)
    ensures
        r == triangle_len(size as nat),
{
    let s = size as u64;
    proof {
        assert(s * (s + 1) <= 0xFFFF_FFFF * 0x1_0000_0000) by (nonlinear_arith)
            requires s <= 0xFFFF_FFFF;
    }
    s * (s + 1) / 2
}

/// Bytes of a square complex buffer of side `size`.
pub fn spectral_buffer_bytes(size: u32) -> (r: u64)
    requires
        size <= MAX_DIMENSION,
    ensures
        r == size * size * COMPLEX_BYTES,
{
    let s = size as u64;
    proof {
        assert(s * s * 8 <= 0x4000_0000 * 0x4000_0000 * 8) by (nonlinear_arith)
            requires s <= 0x4000_0000;
    }
    s * s * COMPLEX_BYTES
}

/// Bytes of the transpose scratch buffer for side `size`.
pub fn scratch_buffer_bytes(size: u32) -> (r: u64)
    requires
        size <= MAX_DIMENSION,
    ensures
        r == triangle_len(size as nat) * COMPLEX_BYTES,
{
    let n = transpose_scratch_len(size);
    proof {
        let s = size as nat;
        assert(s * (s + 1) <= 0x4000_0000 * 0x4000_0001) by (nonlinear_arith)
            requires s <= 0x4000_0000;
    }
    n * COMPLEX_BYTES
}

/// Bytes of a `width` x `height` grid of densities.
pub fn grid_bytes(width: u32, height: u32) -> (r: u64)
    requires
        width <= MAX_DIMENSION,
        height <= MAX_DIMENSION,
    ensures
        r == width * height * CELL_BYTES,
{
    let w = width as u64;
    let h = height as u64;
    proof {
        assert(w * h * 4 <= 0x4000_0000 * 0x4000_0000 * 4) by (nonlinear_arith)
            requires w <= 0x4000_0000, h <= 0x4000_0000;
    }
    w * h * CELL_BYTES
}

} // verus!
