//! Index structure of the in-place radix-2 row transform: the bit-reversal
//! reordering of each row, and the butterfly pairs and twiddle indices of
//! each stage. The host applies the complex arithmetic at these indices.
use vstd::prelude::*;
use crate::layout::{cell, lemma_cell_bounds, lemma_cell_injective, lemma_cell_of_index};
use vstd::arithmetic::div_mod::lemma_fundamental_div_mod_converse;
use crate::plan::{
    is_power_of_two, lemma_two_pow_add, lemma_two_pow_landmarks, lemma_two_pow_mono,
    lemma_two_pow_mono_converse,
    lemma_two_pow_positive, two_pow,
};

verus! {

/// The lowest `bits` bits of `x` in reverse order.
pub open spec fn reverse_bits(x: nat, bits: nat) -> nat
    decreases bits,
{
    if bits == 0 {
        0
    } else {
        (x % 2) * two_pow((bits - 1) as nat) + reverse_bits(x / 2, (bits - 1) as nat)
    }
}

/// Each row of the `n` x `n` matrix `x` reordered by bit-reversed column
/// index.
pub open spec fn bit_reversed_rows<T>(x: Seq<T>, n: nat, bits: nat) -> Seq<T> {
    Seq::new(
        n * n,
        |k: int|
            x[cell(k / (n as int), reverse_bits((k % (n as int)) as nat, bits) as int, n as int)],
    )
}

pub proof fn lemma_reverse_bits_bound(x: nat, bits: nat)
    ensures
        reverse_bits(x, bits) < two_pow(bits),
    decreases bits,
{
    if bits > 0 {
        let b = (bits - 1) as nat;
        lemma_reverse_bits_bound(x / 2, b);
        assert((x % 2) * two_pow(b) <= two_pow(b)) by (nonlinear_arith)
            requires
                x % 2 <= 1,
        ;
    }
}

/// Reverses the lowest `bits` bits of `x`.
pub fn bit_reverse(x: u32, bits: u32) -> (r: u32)
    requires
        bits <= 31,
    ensures
        r == reverse_bits(x as nat, bits as nat),
{
    let mut acc: u32 = 0;
    let mut rest: u32 = x;
    let mut t: u32 = 0;
    proof {
        lemma_two_pow_landmarks();
    }
    while t < bits
        invariant
            t <= bits <= 31,
            acc < two_pow(t as nat),
            two_pow(31) == 0x8000_0000,
            reverse_bits(x as nat, bits as nat) == acc * two_pow((bits - t) as nat)
                + reverse_bits(rest as nat, (bits - t) as nat),
        decreases bits - t,
    {
        let ghost m = (bits - t) as nat;
        proof {
            let m1 = (m - 1) as nat;
            assert(two_pow(m) == 2 * two_pow(m1));
            let (a, bit, p) = (acc as int, (rest % 2) as int, two_pow(m1) as int);
            assert(a * (2 * p) + (bit * p + reverse_bits((rest / 2) as nat, m1)) == (2 * a + bit)
                * p + reverse_bits((rest / 2) as nat, m1)) by (nonlinear_arith);
            lemma_two_pow_mono((t + 1) as nat, 31);
        }
        acc = 2 * acc + rest % 2;
        rest = rest / 2;
        t = t + 1;
    }
    proof {
        assert(two_pow(0) == 1);
        assert(reverse_bits(rest as nat, 0) == 0);
        assert(acc * 1 == acc);
    }
    acc
}

/// Reorders every row of the `n` x `n` matrix `buf` so that column `k`
/// receives the entry from column `reverse_bits(k, bits)`, where
/// `n == 2^bits`.
pub fn bit_reverse_rows<T: Copy>(buf: &mut Vec<T>, n: usize, bits: u32)
    requires
        old(buf).len() == n * n,
        bits <= 31,
        n == two_pow(bits as nat),
    ensures
        final(buf)@ == bit_reversed_rows(old(buf)@, n as nat, bits as nat),
{
    let ghost x = buf@;
    let ghost ni = n as int;
    proof {
        lemma_two_pow_landmarks();
        lemma_two_pow_mono(bits as nat, 31);
    }
    let mut row: usize = 0;
    while row < n
        invariant
            buf.len() == n * n,
            x.len() == n * n,
            ni == n,
            bits <= 31,
            n == two_pow(bits as nat),
            n <= 0x8000_0000,
            row <= n,
            forall|a: int, b: int|
                #![trigger buf@[cell(a, b, ni)]]
                0 <= a < n && 0 <= b < n ==> buf@[cell(a, b, ni)] == if a < row {
                    x[cell(a, reverse_bits(b as nat, bits as nat) as int, ni)]
                } else {
                    x[cell(a, b, ni)]
                },
        decreases n - row,
    {
        let mut line: Vec<T> = Vec::new();
        let mut k: usize = 0;
        while k < n
            invariant
                buf.len() == n * n,
                ni == n,
                row < n,
                k <= n,
                line.len() == k,
                forall|b: int| 0 <= b < k ==> #[trigger] line@[b] == buf@[cell(row as int, b, ni)],
            decreases n - k,
        {
            proof {
                lemma_cell_bounds(row as int, k as int, ni, ni);
            }
            line.push(buf[row * n + k]);
            k = k + 1;
        }
        let ghost before = buf@;
        let mut k: usize = 0;
        while k < n
            invariant
                buf.len() == n * n,
                x.len() == n * n,
                ni == n,
                bits <= 31,
                n == two_pow(bits as nat),
                n <= 0x8000_0000,
                row < n,
                k <= n,
                line.len() == n,
                forall|b: int| 0 <= b < n ==> #[trigger] line@[b] == before[cell(row as int, b, ni)],
                forall|a: int, b: int|
                    #![trigger before[cell(a, b, ni)]]
                    0 <= a < n && 0 <= b < n ==> before[cell(a, b, ni)] == if a < row {
                        x[cell(a, reverse_bits(b as nat, bits as nat) as int, ni)]
                    } else {
                        x[cell(a, b, ni)]
                    },
                forall|a: int, b: int|
                    #![trigger buf@[cell(a, b, ni)]]
                    0 <= a < n && 0 <= b < n ==> buf@[cell(a, b, ni)] == if a < row || (a == row
                        && b < k) {
                        x[cell(a, reverse_bits(b as nat, bits as nat) as int, ni)]
                    } else {
                        x[cell(a, b, ni)]
                    },
            decreases n - k,
        {
            let src = bit_reverse(k as u32, bits);
            proof {
                lemma_reverse_bits_bound(k as nat, bits as nat);
                lemma_cell_bounds(row as int, k as int, ni, ni);
                lemma_cell_bounds(row as int, src as int, ni, ni);
                assert(before[cell(row as int, src as int, ni)] == x[cell(row as int, src as int, ni)]);
            }
            let v = line[src as usize];
            let ghost prev = buf@;
            buf[row * n + k] = v;
            proof {
                assert forall|a: int, b: int|
                    #![trigger buf@[cell(a, b, ni)]]
                    0 <= a < n && 0 <= b < n implies buf@[cell(a, b, ni)] == if a < row || (a
                        == row && b < k + 1) {
                        x[cell(a, reverse_bits(b as nat, bits as nat) as int, ni)]
                    } else {
                        x[cell(a, b, ni)]
                    } by {
                    lemma_cell_bounds(a, b, ni, ni);
                    lemma_cell_injective(a, b, row as int, k as int, ni);
                    assert(prev[cell(a, b, ni)] == prev[cell(a, b, ni)]);
                }
            }
            k = k + 1;
        }
        row = row + 1;
    }
    proof {
        let t = bit_reversed_rows(x, n as nat, bits as nat);
        if n == 0 {
            assert(n * n == 0);
        }
        assert forall|k: int| 0 <= k < n * n implies buf@[k] == t[k] by {
            lemma_cell_of_index(k, ni, ni);
            let (a, b) = (k / ni, k % ni);
            assert(buf@[cell(a, b, ni)] == x[cell(a, reverse_bits(b as nat, bits as nat) as int, ni)]);
        }
        assert(buf@ =~= t);
    }
}

/// One butterfly of a radix-2 stage: it combines the entries at `top` and
/// `bottom` of a row with the twiddle factor `w^twiddle`, where `w` is the
/// principal `size`-th root of unity of the transform's direction.
#[derive(Clone, Copy, Debug, PartialEq, Eq, Structural)]
pub struct Butterfly {
    pub top: u32,
    pub bottom: u32,
    pub twiddle: u32,
}

/// First index of butterfly `k` in a stage whose pairs lie `half` apart.
pub open spec fn butterfly_top(k: nat, half: nat) -> nat {
    (k / half) * (2 * half) + k % half
}

/// Twiddle index of butterfly `k` in a stage whose pairs lie `half` apart,
/// for a transform of length `size`.
pub open spec fn butterfly_twiddle(k: nat, half: nat, size: nat) -> nat {
    (k % half) * (size / (2 * half))
}

/// `2^stage`, the distance between the two entries of a butterfly of stage
/// `stage`.
pub fn stage_half(stage: u32) -> (h: u32)
    requires
        two_pow(stage as nat) <= u32::MAX,
    ensures
        h == two_pow(stage as nat),
{
    let mut h: u32 = 1;
    let mut t: u32 = 0;
    while t < stage
        invariant
            t <= stage,
            h == two_pow(t as nat),
            two_pow(stage as nat) <= u32::MAX,
        decreases stage - t,
    {
        proof {
            lemma_two_pow_mono((t + 1) as nat, stage as nat);
        }
        h = h * 2;
        t = t + 1;
    }
    h
}

/// Butterfly `k` of stage `stage` of a radix-2 transform of length `size`
/// (with inputs in bit-reversed order): its pair of indices lies `2^stage`
/// apart inside the block of `2^(stage + 1)` entries that holds `k`.
pub fn butterfly(size: u32, stage: u32, k: u32) -> (b: Butterfly)
    requires
        is_power_of_two(size as int),
        two_pow(stage as nat + 1) <= size,
        k < size / 2,
    ensures
        b.top == butterfly_top(k as nat, two_pow(stage as nat)),
        b.bottom == b.top + two_pow(stage as nat),
        b.twiddle == butterfly_twiddle(k as nat, two_pow(stage as nat), size as nat),
        b.bottom < size,
        b.twiddle < size / 2,
{
    let ghost bits: nat = choose|j: nat| two_pow(j) == size;
    let ghost st = stage as nat;
    proof {
        lemma_two_pow_mono(st, st + 1);
        lemma_two_pow_mono_converse(st + 1, bits);
        lemma_two_pow_add(st + 1, (bits - st - 1) as nat);
        lemma_two_pow_positive(st);
        lemma_two_pow_positive((bits - st - 1) as nat);
    }
    let h = stage_half(stage);
    let ghost m = two_pow((bits - st - 1) as nat) as int;
    proof {
        assert(two_pow(st + 1) == 2 * h);
        assert(size == 2 * h * m);
        assert((size as int) / (2 * (h as int)) == m) by (nonlinear_arith)
            requires
                size == 2 * h * m,
                h > 0,
        ;
        assert((size as int) / 2 == h * m) by (nonlinear_arith)
            requires
                size == 2 * h * m,
        ;
    }
    let g = k / h;
    let p = k % h;
    let span = size / (2 * h);
    proof {
        let (gi, pi, hi, ki) = (g as int, p as int, h as int, k as int);
        assert(ki == gi * hi + pi && 0 <= pi < hi) by (nonlinear_arith)
            requires
                gi == ki / hi,
                pi == ki % hi,
                hi > 0,
        ;
        assert(gi * (2 * hi) + pi + hi < 2 * hi * m && gi * (2 * hi) + pi <= 2 * ki && pi * m
            < hi * m) by (nonlinear_arith)
            requires
                ki == gi * hi + pi,
                0 <= pi < hi,
                ki < hi * m,
                gi >= 0,
                m > 0,
        ;
    }
    let top = g * (2 * h) + p;
    Butterfly { top, bottom: top + h, twiddle: p * span }
}

proof fn lemma_top_split(k: nat, h: nat)
    requires
        h > 0,
    ensures
        butterfly_top(k, h) / (2 * h) == k / h,
        butterfly_top(k, h) % (2 * h) == k % h,
        (butterfly_top(k, h) + h) / (2 * h) == k / h,
        (butterfly_top(k, h) + h) % (2 * h) == k % h + h,
        k == (k / h) * h + k % h,
        k % h < h,
{
    let (ki, hi) = (k as int, h as int);
    let (g, p) = (ki / hi, ki % hi);
    assert(ki == g * hi + p && 0 <= p < hi) by (nonlinear_arith)
        requires
            g == ki / hi,
            p == ki % hi,
            hi > 0,
    ;
    assert(g * (2 * hi) == g * 2 * hi) by (nonlinear_arith);
    lemma_fundamental_div_mod_converse(g * (2 * hi) + p, 2 * hi, g, p);
    lemma_fundamental_div_mod_converse(g * (2 * hi) + p + hi, 2 * hi, g, p + hi);
}

/// Within one stage the butterflies are disjoint and cover the row: two
/// different butterflies share no index, and every index of the row is the
/// top or the bottom of some butterfly. The butterflies of a stage can
/// therefore run in parallel without touching one another's entries.
pub proof fn lemma_stage_partitions_row(size: nat, stage: nat, k1: nat, k2: nat, i: nat)
    requires
        is_power_of_two(size as int),
        two_pow(stage + 1) <= size,
        k1 < size / 2,
        k2 < size / 2,
        i < size,
    ensures
        k1 != k2 ==> {
            let h = two_pow(stage);
            &&& butterfly_top(k1, h) != butterfly_top(k2, h)
            &&& butterfly_top(k1, h) + h != butterfly_top(k2, h) + h
            &&& butterfly_top(k1, h) != butterfly_top(k2, h) + h
        },
        exists|k: nat|
            #![trigger butterfly_top(k, two_pow(stage))]
            k < size / 2 && (butterfly_top(k, two_pow(stage)) == i || butterfly_top(k, two_pow(stage))
                + two_pow(stage) == i),
{
    let h = two_pow(stage);
    lemma_two_pow_positive(stage);
    assert(two_pow(stage + 1) == 2 * h);
    lemma_top_split(k1, h);
    lemma_top_split(k2, h);
    let (ii, hi) = (i as int, h as int);
    let (g, p) = (ii / (2 * hi), ii % (2 * hi));
    assert(ii == g * (2 * hi) + p && 0 <= p < 2 * hi && g >= 0) by (nonlinear_arith)
        requires
            g == ii / (2 * hi),
            p == ii % (2 * hi),
            hi > 0,
            ii >= 0,
    ;
    let bits: nat = choose|j: nat| two_pow(j) == size;
    lemma_two_pow_mono_converse(stage + 1, bits);
    lemma_two_pow_add(stage + 1, (bits - stage - 1) as nat);
    let m = two_pow((bits - stage - 1) as nat) as int;
    assert(size == 2 * hi * m);
    assert(g < m) by (nonlinear_arith)
        requires
            ii == g * (2 * hi) + p,
            0 <= p,
            ii < 2 * hi * m,
            hi > 0,
    ;
    let q = if p < hi {
        p
    } else {
        p - hi
    };
    let k = (g * hi + q) as nat;
    assert(k < size / 2) by (nonlinear_arith)
        requires
            k == g * hi + q,
            0 <= q < hi,
            g < m,
            size == 2 * hi * m,
    ;
    lemma_fundamental_div_mod_converse(k as int, hi, g, q);
    assert(g * (2 * hi) == g * 2 * hi) by (nonlinear_arith);
    assert(butterfly_top(k, h) == i || butterfly_top(k, h) + h == i);
}

} // verus!
