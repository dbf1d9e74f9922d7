use spectral_lenia::fft::{bit_reverse, bit_reverse_rows, butterfly, stage_half, Butterfly};

#[test]
fn bit_reverse_values() {
    assert_eq!(bit_reverse(0, 3), 0);
    assert_eq!(bit_reverse(1, 3), 4);
    assert_eq!(bit_reverse(6, 3), 3);
    assert_eq!(bit_reverse(3, 8), 0xC0);
    assert_eq!(bit_reverse(1, 0), 0);
    assert_eq!(bit_reverse(1, 31), 0x4000_0000);
    // bits above the width are ignored
    assert_eq!(bit_reverse(0b1010, 2), 0b01);
}

#[test]
fn bit_reverse_is_its_own_inverse_on_a_row() {
    for k in 0..256u32 {
        assert_eq!(bit_reverse(bit_reverse(k, 8), 8), k);
    }
}

#[test]
fn bit_reverse_rows_reorders_each_row() {
    let x: Vec<u32> = (0..16).collect();
    let mut buf = x.clone();
    bit_reverse_rows(&mut buf, 4, 2);
    assert_eq!(buf, vec![0, 2, 1, 3, 4, 6, 5, 7, 8, 10, 9, 11, 12, 14, 13, 15]);
}

#[test]
fn stage_half_values() {
    assert_eq!(stage_half(0), 1);
    assert_eq!(stage_half(7), 128);
}

#[test]
fn butterflies_of_first_and_last_stage() {
    assert_eq!(butterfly(8, 0, 0), Butterfly { top: 0, bottom: 1, twiddle: 0 });
    assert_eq!(butterfly(8, 0, 3), Butterfly { top: 6, bottom: 7, twiddle: 0 });
    assert_eq!(butterfly(8, 1, 1), Butterfly { top: 1, bottom: 3, twiddle: 2 });
    assert_eq!(butterfly(8, 1, 2), Butterfly { top: 4, bottom: 6, twiddle: 0 });
    assert_eq!(butterfly(8, 2, 3), Butterfly { top: 3, bottom: 7, twiddle: 3 });
}

#[test]
fn butterflies_of_a_stage_cover_the_row_once() {
    let size = 256u32;
    for stage in 0..8 {
        let mut seen = vec![0u32; size as usize];
        for k in 0..size / 2 {
            let b = butterfly(size, stage, k);
            seen[b.top as usize] += 1;
            seen[b.bottom as usize] += 1;
        }
        assert!(seen.iter().all(|&c| c == 1));
    }
}
