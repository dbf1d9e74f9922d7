use spectral_lenia::kernel::{kernel_support, place_kernel, DEFAULT_KERNEL_RADIUS, MAX_KERNEL_RADIUS};

#[test]
fn support_of_radius_one_is_the_center() {
    let s = kernel_support(1);
    assert_eq!(s, vec![None, None, None, None, Some(0), None, None, None, None]);
}

#[test]
fn support_of_radius_two() {
    let s = kernel_support(2);
    assert_eq!(s.len(), 25);
    assert_eq!(s[12], Some(0));
    assert_eq!(s[7], Some(1));
    assert_eq!(s[6], Some(2));
    // distance exactly 2 lies outside
    assert_eq!(s[2], None);
    assert_eq!(s[10], None);
    assert_eq!(s[0], None);
    assert_eq!(s.iter().filter(|e| e.is_some()).count(), 9);
}

#[test]
fn support_of_radius_zero_is_empty() {
    assert_eq!(kernel_support(0), vec![None]);
}

#[test]
fn support_counts_for_tested_radii() {
    assert_eq!(kernel_support(5).iter().filter(|e| e.is_some()).count(), 69);
    let big = kernel_support(DEFAULT_KERNEL_RADIUS);
    assert_eq!(big.len(), 81 * 81);
    assert_eq!(big.iter().filter(|e| e.is_some()).count(), 5013);
    let largest = kernel_support(MAX_KERNEL_RADIUS);
    assert_eq!(largest.len(), 255 * 255);
    assert_eq!(largest[127 * 255 + 127], Some(0));
}

#[test]
fn place_kernel_wraps_around_the_origin() {
    let weights: Vec<u32> = (1..=9).collect();
    let out = place_kernel(&weights, 1, 4, 0);
    let at = |p: usize, q: usize| out[p * 4 + q];
    // center (1, 1) lands on the origin
    assert_eq!(at(0, 0), (5, 0));
    // local (0, 0) is offset (-1, -1): wraps to (3, 3)
    assert_eq!(at(3, 3), (1, 0));
    assert_eq!(at(3, 0), (2, 0));
    assert_eq!(at(3, 1), (3, 0));
    assert_eq!(at(0, 3), (4, 0));
    assert_eq!(at(0, 1), (6, 0));
    assert_eq!(at(1, 3), (7, 0));
    assert_eq!(at(1, 0), (8, 0));
    assert_eq!(at(1, 1), (9, 0));
    // nothing reaches row or column 2
    for k in 0..4 {
        assert_eq!(at(2, k), (0, 0));
        assert_eq!(at(k, 2), (0, 0));
    }
}

#[test]
fn place_kernel_filling_the_buffer() {
    let weights: Vec<u32> = (0..9).collect();
    let out = place_kernel(&weights, 1, 3, 100);
    assert_eq!(out.len(), 9);
    assert!(out.iter().all(|e| e.1 == 100));
    let mut reals: Vec<u32> = out.iter().map(|e| e.0).collect();
    reals.sort();
    assert_eq!(reals, weights);
}
