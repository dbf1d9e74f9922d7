use spectral_lenia::pad_wrap::{crop_real, pad_wrap};

#[test]
fn pad_wrap_places_grid_top_left_and_zeroes_the_rest() {
    // 3 wide, 2 high
    let grid = vec![1.0f32, 2.0, 3.0, 4.0, 5.0, 6.0];
    let mut buf = vec![(7.0f32, 7.0f32); 16];
    pad_wrap(&grid, 3, 2, &mut buf, 4, 0.0);
    let expected = vec![
        (1.0, 0.0), (2.0, 0.0), (3.0, 0.0), (0.0, 0.0),
        (4.0, 0.0), (5.0, 0.0), (6.0, 0.0), (0.0, 0.0),
        (0.0, 0.0), (0.0, 0.0), (0.0, 0.0), (0.0, 0.0),
        (0.0, 0.0), (0.0, 0.0), (0.0, 0.0), (0.0, 0.0),
    ];
    assert_eq!(buf, expected);
}

#[test]
fn pad_wrap_is_idempotent() {
    let grid: Vec<f32> = (0..25 * 13).map(|k| (k % 7) as f32 / 7.0).collect();
    let mut a = vec![(3.0f32, -1.0f32); 32 * 32];
    pad_wrap(&grid, 25, 13, &mut a, 32, 0.0);
    let first = a.clone();
    pad_wrap(&grid, 25, 13, &mut a, 32, 0.0);
    assert_eq!(a, first);
    let mut fresh = vec![(0.0f32, 0.0f32); 32 * 32];
    pad_wrap(&grid, 25, 13, &mut fresh, 32, 0.0);
    assert_eq!(fresh, first);
}

#[test]
fn crop_real_reads_back_the_grid() {
    let grid: Vec<f32> = (0..25 * 13).map(|k| k as f32).collect();
    let mut buf = vec![(0.0f32, 0.0f32); 32 * 32];
    pad_wrap(&grid, 25, 13, &mut buf, 32, 0.0);
    assert_eq!(crop_real(&buf, 32, 25, 13), grid);
}

#[test]
fn crop_real_takes_the_real_channel_only() {
    let buf: Vec<(i32, i32)> = (0..16).map(|k| (k, -k)).collect();
    assert_eq!(crop_real(&buf, 4, 2, 3), vec![0, 1, 4, 5, 8, 9]);
}
