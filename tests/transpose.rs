use spectral_lenia::transpose::{copy_upper, transpose, transpose_lower};

fn matrix(n: usize) -> Vec<(f32, f32)> {
    (0..n * n).map(|k| (k as f32 * 0.5 - 3.25, -(k as f32) * 1.75 + 0.125)).collect()
}

#[test]
fn transpose_moves_every_entry_to_its_mirror() {
    let n = 5;
    let x = matrix(n);
    let mut buf = x.clone();
    let mut scratch = vec![(0.0f32, 0.0f32); n * (n + 1) / 2];
    transpose(&mut buf, &mut scratch, n);
    for r in 0..n {
        for c in 0..n {
            assert_eq!(buf[c * n + r], x[r * n + c]);
        }
    }
}

#[test]
fn transpose_keeps_the_diagonal() {
    let n = 4;
    let x = matrix(n);
    let mut buf = x.clone();
    let mut scratch = vec![(0.0f32, 0.0f32); n * (n + 1) / 2];
    transpose(&mut buf, &mut scratch, n);
    for i in 0..n {
        assert_eq!(buf[i * n + i], x[i * n + i]);
    }
}

#[test]
fn transpose_twice_is_bit_exact_identity() {
    let n = 16;
    let x: Vec<(f32, f32)> = (0..n * n)
        .map(|k| (f32::from_bits(0x3f80_0000 + k as u32 * 7919), f32::from_bits(0xbf00_0000 ^ k as u32)))
        .collect();
    let mut buf = x.clone();
    let mut scratch = vec![(0.0f32, 0.0f32); n * (n + 1) / 2];
    transpose(&mut buf, &mut scratch, n);
    assert_ne!(buf, x);
    transpose(&mut buf, &mut scratch, n);
    for k in 0..n * n {
        assert_eq!(buf[k].0.to_bits(), x[k].0.to_bits());
        assert_eq!(buf[k].1.to_bits(), x[k].1.to_bits());
    }
}

#[test]
fn copy_upper_packs_columns() {
    let n = 3;
    let x: Vec<u32> = (0..9).collect();
    let mut scratch = vec![99u32; 6];
    copy_upper(&x, &mut scratch, n);
    // column 1 starts at 1 and holds row 0; column 2 starts at 3 and holds rows 0, 1
    assert_eq!(scratch[1], x[1]);
    assert_eq!(scratch[3], x[2]);
    assert_eq!(scratch[4], x[5]);
    assert_eq!(scratch.len(), 6);
}

#[test]
fn transpose_lower_reads_staged_values() {
    let n = 3;
    let x: Vec<u32> = (0..9).collect();
    let mut scratch = vec![0u32; 6];
    copy_upper(&x, &mut scratch, n);
    let mut buf = x.clone();
    transpose_lower(&mut buf, &scratch, n);
    assert_eq!(buf, vec![0, 3, 6, 1, 4, 7, 2, 5, 8]);
}

#[test]
fn transpose_of_one_and_empty() {
    let mut one = vec![(1.5f32, -2.0f32)];
    let mut scratch = vec![(0.0f32, 0.0f32); 1];
    transpose(&mut one, &mut scratch, 1);
    assert_eq!(one, vec![(1.5, -2.0)]);
    let mut empty: Vec<(f32, f32)> = Vec::new();
    let mut none: Vec<(f32, f32)> = Vec::new();
    transpose(&mut empty, &mut none, 0);
    assert!(empty.is_empty());
}
