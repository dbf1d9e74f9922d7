use spectral_lenia::engine::{
    ConfigError, Dispatch, FFTComputeState, FFTUniforms, GrowthSizes, KernelUniforms,
    PadWrapUniforms, Program, ResizeEffect, Stage, StageUniforms, TransposeUniforms,
};
use spectral_lenia::kernel::DEFAULT_KERNEL_RADIUS;

#[test]
fn new_plans_the_smoke_grid() {
    let e = FFTComputeState::new(25, 13).unwrap();
    assert_eq!(e.width, 25);
    assert_eq!(e.height, 13);
    assert_eq!(e.size, 256);
    assert_eq!(e.kernel_radius, DEFAULT_KERNEL_RADIUS);
    assert_eq!(
        e.uniforms,
        StageUniforms {
            pad_wrap: PadWrapUniforms { width: 25, height: 13, size: 256 },
            fft: FFTUniforms { size: 256, num_stages: 8 },
            transpose: TransposeUniforms { size: 256 },
            kernel: KernelUniforms { size: 256 },
            growth: GrowthSizes { fft_size: 256, width: 25, height: 13 },
        }
    );
}

#[test]
fn new_refuses_zero_dimensions() {
    assert_eq!(FFTComputeState::new(0, 13), Err(ConfigError::ZeroDimension));
    assert_eq!(FFTComputeState::new(25, 0), Err(ConfigError::ZeroDimension));
    assert_eq!(FFTComputeState::new(0, 0), Err(ConfigError::ZeroDimension));
}

#[test]
fn kernel_radius_bounds() {
    assert_eq!(
        FFTComputeState::with_kernel_radius(25, 13, 0),
        Err(ConfigError::InvalidKernelRadius)
    );
    assert_eq!(
        FFTComputeState::with_kernel_radius(25, 13, 128),
        Err(ConfigError::InvalidKernelRadius)
    );
    assert_eq!(FFTComputeState::with_kernel_radius(25, 13, 127).unwrap().kernel_radius, 127);
    assert_eq!(
        FFTComputeState::with_kernel_radius(0, 13, 0),
        Err(ConfigError::ZeroDimension)
    );
    let mut e = FFTComputeState::new(25, 13).unwrap();
    let before = e;
    assert_eq!(e.set_kernel_radius(200), Err(ConfigError::InvalidKernelRadius));
    assert_eq!(e, before);
    assert_eq!(e.set_kernel_radius(5), Ok(true));
    assert_eq!(e.kernel_radius, 5);
    assert_eq!(e.set_kernel_radius(5), Ok(false));
    assert_eq!(e.uniforms, before.uniforms);
}

#[test]
fn resize_twice_is_a_no_op_the_second_time() {
    let mut e = FFTComputeState::new(25, 13).unwrap();
    assert_eq!(e.handle_resize(640, 480), ResizeEffect::Rebuilt);
    let after_first = e;
    assert_eq!(e.size, 1024);
    assert_eq!(e.uniforms.fft.num_stages, 10);
    assert_eq!(e.handle_resize(640, 480), ResizeEffect::Ignored);
    assert_eq!(e, after_first);
}

#[test]
fn resize_ignores_zero_and_unchanged() {
    let mut e = FFTComputeState::new(25, 13).unwrap();
    let before = e;
    assert_eq!(e.handle_resize(0, 100), ResizeEffect::Ignored);
    assert_eq!(e.handle_resize(100, 0), ResizeEffect::Ignored);
    assert_eq!(e.handle_resize(25, 13), ResizeEffect::Ignored);
    assert_eq!(e, before);
}

#[test]
fn resize_within_the_same_side_keeps_the_spectral_buffers() {
    let mut e = FFTComputeState::new(25, 13).unwrap();
    assert_eq!(e.handle_resize(200, 100), ResizeEffect::Resized);
    assert_eq!(e.size, 256);
    assert_eq!(e.uniforms.pad_wrap, PadWrapUniforms { width: 200, height: 100, size: 256 });
    assert_eq!(e.uniforms.growth, GrowthSizes { fft_size: 256, width: 200, height: 100 });
    assert_eq!(e.handle_resize(300, 100), ResizeEffect::Rebuilt);
    assert_eq!(e.size, 512);
    assert_eq!(e.uniforms.transpose, TransposeUniforms { size: 512 });
    assert_eq!(e.uniforms.kernel, KernelUniforms { size: 512 });
    assert_eq!(e.kernel_radius, DEFAULT_KERNEL_RADIUS);
}

#[test]
fn create_fft_buffer_sizes() {
    assert_eq!(FFTComputeState::create_fft_buffer(25, 13), (256, 256 * 256 * 8));
    assert_eq!(FFTComputeState::create_fft_buffer(1025, 2), (2048, 2048 * 2048 * 8));
}

#[test]
fn stages_cycle_in_a_fixed_order() {
    let order = [
        Stage::Idle,
        Stage::PadWrap,
        Stage::ForwardTransformRow1,
        Stage::Transpose1,
        Stage::ForwardTransformRow2,
        Stage::KernelMultiply,
        Stage::InverseTransformRow1,
        Stage::Transpose2,
        Stage::InverseTransformRow2,
        Stage::Growth,
    ];
    for i in 0..order.len() {
        assert_eq!(order[i].next(), order[(i + 1) % order.len()]);
    }
}

#[test]
fn one_step_dispatches_every_stage_in_order() {
    let e = FFTComputeState::new(25, 13).unwrap();
    let sq = |program| Dispatch { program, groups_x: 16, groups_y: 16 };
    let row = |program| Dispatch { program, groups_x: 256, groups_y: 1 };
    assert_eq!(
        e.run(),
        vec![
            sq(Program::PadWrap),
            row(Program::FFTForward),
            sq(Program::TransposeCopyUpper),
            sq(Program::TransposeLower),
            row(Program::FFTForward),
            sq(Program::KernelMultiply),
            row(Program::FFTInverse),
            sq(Program::TransposeCopyUpper),
            sq(Program::TransposeLower),
            row(Program::FFTInverse),
            Dispatch { program: Program::Growth, groups_x: 2, groups_y: 1 },
        ]
    );
    assert!(e.dispatches(Stage::Idle).is_empty());
}

#[test]
fn kernel_spectrum_is_a_forward_transform() {
    let e = FFTComputeState::new(600, 20).unwrap();
    let sq = |program| Dispatch { program, groups_x: 64, groups_y: 64 };
    let row = Dispatch { program: Program::FFTForward, groups_x: 1024, groups_y: 1 };
    assert_eq!(
        e.kernel_spectrum_dispatches(),
        vec![row, sq(Program::TransposeCopyUpper), sq(Program::TransposeLower), row]
    );
}
