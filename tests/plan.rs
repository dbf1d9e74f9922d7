use spectral_lenia::plan::{
    fft_size, grid_bytes, next_power_of_two, num_stages, scratch_buffer_bytes,
    spectral_buffer_bytes, transpose_scratch_len, workgroups, MAX_DIMENSION, MIN_FFT_SIZE,
};

#[test]
fn next_power_of_two_values() {
    assert_eq!(next_power_of_two(0), 1);
    assert_eq!(next_power_of_two(1), 1);
    assert_eq!(next_power_of_two(2), 2);
    assert_eq!(next_power_of_two(3), 4);
    assert_eq!(next_power_of_two(25), 32);
    assert_eq!(next_power_of_two(256), 256);
    assert_eq!(next_power_of_two(257), 512);
    assert_eq!(next_power_of_two(0x8000_0000), 0x8000_0000);
}

#[test]
fn fft_size_of_smoke_grid_is_256() {
    // 25 x 13 grid: next power of two of 25 is 32, raised to the floor of 256.
    assert_eq!(fft_size(25, 13), 256);
    assert_eq!(fft_size(13, 25), 256);
}

#[test]
fn fft_size_covers_larger_grids() {
    assert_eq!(fft_size(256, 1), 256);
    assert_eq!(fft_size(257, 1), 512);
    assert_eq!(fft_size(1000, 300), 1024);
    assert_eq!(fft_size(1, 1), MIN_FFT_SIZE);
    assert_eq!(fft_size(MAX_DIMENSION, 1), MAX_DIMENSION);
}

#[test]
fn num_stages_is_log2() {
    assert_eq!(num_stages(1), 0);
    assert_eq!(num_stages(2), 1);
    assert_eq!(num_stages(256), 8);
    assert_eq!(num_stages(1024), 10);
    assert_eq!(num_stages(0x8000_0000), 31);
}

#[test]
fn workgroups_round_up() {
    assert_eq!(workgroups(0), 0);
    assert_eq!(workgroups(1), 1);
    assert_eq!(workgroups(16), 1);
    assert_eq!(workgroups(17), 2);
    assert_eq!(workgroups(256), 16);
    assert_eq!(workgroups(u32::MAX), 0x1000_0000);
}

#[test]
fn buffer_sizes() {
    assert_eq!(transpose_scratch_len(256), 32896);
    assert_eq!(transpose_scratch_len(0), 0);
    assert_eq!(transpose_scratch_len(u32::MAX), 9223372034707292160);
    assert_eq!(spectral_buffer_bytes(256), 256 * 256 * 8);
    assert_eq!(scratch_buffer_bytes(256), 32896 * 8);
    assert_eq!(grid_bytes(25, 13), 25 * 13 * 4);
    assert_eq!(spectral_buffer_bytes(MAX_DIMENSION), 1u64 << 63);
}
