//! The orchestrator: the sizes and uniforms of every stage, the fixed
//! sequence of dispatches that makes one simulation step, and what a resize
//! has to rebuild.
use vstd::prelude::*;
use crate::kernel::{DEFAULT_KERNEL_RADIUS, MAX_KERNEL_RADIUS};
use crate::plan::{
    fft_size, fft_size_of, lemma_fft_size, lemma_two_pow_mono_converse, num_stages, two_pow,
    workgroups, MAX_DIMENSION, MIN_FFT_SIZE, WORKGROUP_SIDE,
};

verus! {

/// Parameters of the pad/wrap stage.
#[derive(Clone, Copy, Debug, PartialEq, Eq, Structural)]
pub struct PadWrapUniforms {
    pub width: u32,
    pub height: u32,
    pub size: u32,
}

/// Parameters of the row transform stage: the row length, a power of two,
/// and its base-2 logarithm.
#[derive(Clone, Copy, Debug, PartialEq, Eq, Structural)]
pub struct FFTUniforms {
    pub size: u32,
    pub num_stages: u32,
}

/// Parameters of the transpose stage.
#[derive(Clone, Copy, Debug, PartialEq, Eq, Structural)]
pub struct TransposeUniforms {
    pub size: u32,
}

/// Parameters of the kernel multiply stage.
#[derive(Clone, Copy, Debug, PartialEq, Eq, Structural)]
pub struct KernelUniforms {
    pub size: u32,
}

/// Size-dependent parameters of the growth stage; the growth shape (mean,
/// spread, time step) is the host's to set.
#[derive(Clone, Copy, Debug, PartialEq, Eq, Structural)]
pub struct GrowthSizes {
    pub fft_size: u32,
    pub width: u32,
    pub height: u32,
}

/// The parameter records of all stages.
#[derive(Clone, Copy, Debug, PartialEq, Eq, Structural)]
pub struct StageUniforms {
    pub pad_wrap: PadWrapUniforms,
    pub fft: FFTUniforms,
    pub transpose: TransposeUniforms,
    pub kernel: KernelUniforms,
    pub growth: GrowthSizes,
}

/// The base-2 logarithm of a power of two.
pub open spec fn log2_of(size: u32) -> u32 {
    (choose|k: nat| two_pow(k) == size) as u32
}

/// The parameter records for a `width` x `height` grid and spectral side
/// `size`.
pub open spec fn uniforms_for(width: u32, height: u32, size: u32) -> StageUniforms {
    StageUniforms {
        pad_wrap: PadWrapUniforms { width, height, size },
        fft: FFTUniforms { size, num_stages: log2_of(size) },
        transpose: TransposeUniforms { size },
        kernel: KernelUniforms { size },
        growth: GrowthSizes { fft_size: size, width, height },
    }
}

/// Why an engine could not be configured.
#[derive(Clone, Copy, Debug, PartialEq, Eq, Structural)]
pub enum ConfigError {
    /// The grid's width or height is zero.
    ZeroDimension,
    /// The kernel radius is zero or above `MAX_KERNEL_RADIUS`.
    InvalidKernelRadius,
}

/// What the host has to do after a resize request.
#[derive(Clone, Copy, Debug, PartialEq, Eq, Structural)]
pub enum ResizeEffect {
    /// A dimension was zero or nothing changed: nothing to do.
    Ignored,
    /// The grid changed but the spectral side did not: reallocate the grid
    /// and push the new uniforms.
    Resized,
    /// The spectral side changed as well: also reallocate the spectral and
    /// scratch buffers and recompute the kernel spectrum.
    Rebuilt,
}

/// A compute program of the pipeline.
#[derive(Clone, Copy, Debug, PartialEq, Eq, Structural)]
pub enum Program {
    PadWrap,
    FFTForward,
    FFTInverse,
    TransposeCopyUpper,
    TransposeLower,
    KernelMultiply,
    Growth,
}

/// One dispatch of a program over a two-dimensional grid of workgroups.
#[derive(Clone, Copy, Debug, PartialEq, Eq, Structural)]
pub struct Dispatch {
    pub program: Program,
    pub groups_x: u32,
    pub groups_y: u32,
}

/// The stages of one simulation step, in order; `Idle` lies between steps.
#[derive(Clone, Copy, Debug, PartialEq, Eq, Structural)]
pub enum Stage {
    Idle,
    PadWrap,
    ForwardTransformRow1,
    Transpose1,
    ForwardTransformRow2,
    KernelMultiply,
    InverseTransformRow1,
    Transpose2,
    InverseTransformRow2,
    Growth,
}

/// Stages left before the step returns to `Idle`.
pub open spec fn stages_left(s: Stage) -> nat {
    match s {
        Stage::Idle => 0,
        Stage::PadWrap => 9,
        Stage::ForwardTransformRow1 => 8,
        Stage::Transpose1 => 7,
        Stage::ForwardTransformRow2 => 6,
        Stage::KernelMultiply => 5,
        Stage::InverseTransformRow1 => 4,
        Stage::Transpose2 => 3,
        Stage::InverseTransformRow2 => 2,
        Stage::Growth => 1,
    }
}

pub open spec fn next_stage(s: Stage) -> Stage {
    match s {
        Stage::Idle => Stage::PadWrap,
        Stage::PadWrap => Stage::ForwardTransformRow1,
        Stage::ForwardTransformRow1 => Stage::Transpose1,
        Stage::Transpose1 => Stage::ForwardTransformRow2,
        Stage::ForwardTransformRow2 => Stage::KernelMultiply,
        Stage::KernelMultiply => Stage::InverseTransformRow1,
        Stage::InverseTransformRow1 => Stage::Transpose2,
        Stage::Transpose2 => Stage::InverseTransformRow2,
        Stage::InverseTransformRow2 => Stage::Growth,
        Stage::Growth => Stage::Idle,
    }
}

impl Stage {
    /// The stage that follows this one; the sequence is fixed.
    pub fn next(self) -> (r: Stage)
        ensures
            r == next_stage(self),
    {
        match self {
            Stage::Idle => Stage::PadWrap,
            Stage::PadWrap => Stage::ForwardTransformRow1,
            Stage::ForwardTransformRow1 => Stage::Transpose1,
            Stage::Transpose1 => Stage::ForwardTransformRow2,
            Stage::ForwardTransformRow2 => Stage::KernelMultiply,
            Stage::KernelMultiply => Stage::InverseTransformRow1,
            Stage::InverseTransformRow1 => Stage::Transpose2,
            Stage::Transpose2 => Stage::InverseTransformRow2,
            Stage::InverseTransformRow2 => Stage::Growth,
            Stage::Growth => Stage::Idle,
        }
    }
}

/// Workgroups needed to cover `n` cells.
pub open spec fn groups(n: u32) -> u32 {
    ((n as int + WORKGROUP_SIDE - 1) / (WORKGROUP_SIDE as int)) as u32
}

/// A dispatch of `program` over the whole `size` x `size` buffer.
pub open spec fn square(program: Program, size: u32) -> Dispatch {
    Dispatch { program, groups_x: groups(size), groups_y: groups(size) }
}

/// A row-transform dispatch: one workgroup per row.
pub open spec fn rows(program: Program, size: u32) -> Dispatch {
    Dispatch { program, groups_x: size, groups_y: 1 }
}

/// The engine's plan for a grid and kernel: the grid's dimensions, the side
/// of the spectral buffers, the kernel radius, and the stage parameters.
#[derive(Clone, Copy, Debug, PartialEq, Eq, Structural)]
pub struct FFTComputeState {
    pub width: u32,
    pub height: u32,
    pub size: u32,
    pub kernel_radius: u32,
    pub uniforms: StageUniforms,
}

/// The plan for a `width` x `height` grid and a kernel of radius `radius`.
pub open spec fn plan_for(width: u32, height: u32, radius: u32) -> FFTComputeState {
    let size = fft_size_of(width as nat, height as nat) as u32;
    FFTComputeState {
        width,
        height,
        size,
        kernel_radius: radius,
        uniforms: uniforms_for(width, height, size),
    }
}

/// Dispatches of the transpose stage: stage the upper triangle, then swap.
pub open spec fn transpose_dispatches(size: u32) -> Seq<Dispatch> {
    seq![square(Program::TransposeCopyUpper, size), square(Program::TransposeLower, size)]
}

/// Dispatches of the full 2-D forward transform: row, transpose, row.
pub open spec fn forward_2d_dispatches(size: u32) -> Seq<Dispatch> {
    seq![rows(Program::FFTForward, size)] + transpose_dispatches(size) + seq![
        rows(Program::FFTForward, size),
    ]
}

impl FFTComputeState {
    /// The plan's fields agree with one another.
    pub open spec fn wf(self) -> bool {
        &&& 0 < self.width <= MAX_DIMENSION
        &&& 0 < self.height <= MAX_DIMENSION
        &&& 0 < self.kernel_radius <= MAX_KERNEL_RADIUS
        &&& self == plan_for(self.width, self.height, self.kernel_radius)
    }

    /// A resize to `width` x `height` changes nothing.
    pub open spec fn ignores(self, width: u32, height: u32) -> bool {
        width == 0 || height == 0 || (width == self.width && height == self.height)
    }

    /// The plan after a resize request.
    pub open spec fn resized(self, width: u32, height: u32) -> FFTComputeState {
        if self.ignores(width, height) {
            self
        } else {
            plan_for(width, height, self.kernel_radius)
        }
    }

    /// What a resize request asks of the host.
    pub open spec fn resize_effect(self, width: u32, height: u32) -> ResizeEffect {
        if self.ignores(width, height) {
            ResizeEffect::Ignored
        } else if fft_size_of(width as nat, height as nat) == self.size {
            ResizeEffect::Resized
        } else {
            ResizeEffect::Rebuilt
        }
    }

    /// The dispatches that carry out `stage`.
    pub open spec fn stage_dispatches(self, stage: Stage) -> Seq<Dispatch> {
        let s = self.size;
        match stage {
            Stage::Idle => seq![],
            Stage::PadWrap => seq![square(Program::PadWrap, s)],
            Stage::ForwardTransformRow1 => seq![rows(Program::FFTForward, s)],
            Stage::Transpose1 => transpose_dispatches(s),
            Stage::ForwardTransformRow2 => seq![rows(Program::FFTForward, s)],
            Stage::KernelMultiply => seq![square(Program::KernelMultiply, s)],
            Stage::InverseTransformRow1 => seq![rows(Program::FFTInverse, s)],
            Stage::Transpose2 => transpose_dispatches(s),
            Stage::InverseTransformRow2 => seq![rows(Program::FFTInverse, s)],
            Stage::Growth => seq![
                Dispatch {
                    program: Program::Growth,
                    groups_x: groups(self.width),
                    groups_y: groups(self.height),
                },
            ],
        }
    }

    /// The dispatches from `stage` to the end of the step.
    pub open spec fn schedule_from(self, stage: Stage) -> Seq<Dispatch>
        decreases stages_left(stage),
    {
        if stages_left(stage) == 0 {
            seq![]
        } else {
            self.stage_dispatches(stage) + self.schedule_from(next_stage(stage))
        }
    }

    /// The dispatches of one whole step.
    pub open spec fn step_schedule(self) -> Seq<Dispatch> {
        self.schedule_from(Stage::PadWrap)
    }

    fn make_plan(width: u32, height: u32, radius: u32) -> (r: FFTComputeState)
        requires
            0 < width <= MAX_DIMENSION,
            0 < height <= MAX_DIMENSION,
            0 < radius <= MAX_KERNEL_RADIUS,
        ensures
            r == plan_for(width, height, radius),
            r.wf(),
    {
        let size = fft_size(width, height);
        proof {
            lemma_fft_size(width as nat, height as nat);
        }
        let stages = num_stages(size);
        proof {
            let k = choose|k: nat| two_pow(k) == size;
            lemma_two_pow_mono_converse(k, stages as nat);
            lemma_two_pow_mono_converse(stages as nat, k);
        }
        FFTComputeState {
            width,
            height,
            size,
            kernel_radius: radius,
            uniforms: StageUniforms {
                pad_wrap: PadWrapUniforms { width, height, size },
                fft: FFTUniforms { size, num_stages: stages },
                transpose: TransposeUniforms { size },
                kernel: KernelUniforms { size },
                growth: GrowthSizes { fft_size: size, width, height },
            },
        }
    }

    /// The plan for a `width` x `height` grid with the default kernel radius;
    /// a zero dimension is refused.
    pub fn new(width: u32, height: u32) -> (r: Result<FFTComputeState, ConfigError>)
        requires
            width <= MAX_DIMENSION,
            height <= MAX_DIMENSION,
        ensures
            width == 0 || height == 0 ==> r == Err::<FFTComputeState, ConfigError>(
                ConfigError::ZeroDimension,
            ),
            width > 0 && height > 0 ==> r == Ok::<FFTComputeState, ConfigError>(
                plan_for(width, height, DEFAULT_KERNEL_RADIUS),
            ),
            r is Ok ==> r->Ok_0.wf(),
    {
        Self::with_kernel_radius(width, height, DEFAULT_KERNEL_RADIUS)
    }

    /// The plan for a `width` x `height` grid and a kernel of radius
    /// `radius`; a zero dimension, or a radius outside `1..=MAX_KERNEL_RADIUS`,
    /// is refused.
    pub fn with_kernel_radius(width: u32, height: u32, radius: u32) -> (r: Result<
        FFTComputeState,
        ConfigError,
    >)
        requires
            width <= MAX_DIMENSION,
            height <= MAX_DIMENSION,
        ensures
            width == 0 || height == 0 ==> r == Err::<FFTComputeState, ConfigError>(
                ConfigError::ZeroDimension,
            ),
            width > 0 && height > 0 && (radius == 0 || radius > MAX_KERNEL_RADIUS) ==> r == Err::<
                FFTComputeState,
                ConfigError,
            >(ConfigError::InvalidKernelRadius),
            width > 0 && height > 0 && 0 < radius <= MAX_KERNEL_RADIUS ==> r == Ok::<
                FFTComputeState,
                ConfigError,
            >(plan_for(width, height, radius)),
            r is Ok ==> r->Ok_0.wf(),
    {
        if width == 0 || height == 0 {
            Err(ConfigError::ZeroDimension)
        } else if radius == 0 || radius > MAX_KERNEL_RADIUS {
            Err(ConfigError::InvalidKernelRadius)
        } else {
            Ok(Self::make_plan(width, height, radius))
        }
    }

    /// Handles a change of the grid's dimensions: a zero or unchanged size is
    /// ignored; otherwise every size-dependent parameter is recomputed, and
    /// the result says whether the spectral buffers must be rebuilt too.
    pub fn handle_resize(&mut self, width: u32, height: u32) -> (r: ResizeEffect)
        requires
            old(self).wf(),
            width <= MAX_DIMENSION,
            height <= MAX_DIMENSION,
        ensures
            *final(self) == old(self).resized(width, height),
            r == old(self).resize_effect(width, height),
            final(self).wf(),
    {
        if width == 0 || height == 0 || (width == self.width && height == self.height) {
            return ResizeEffect::Ignored;
        }
        proof {
            lemma_fft_size(width as nat, height as nat);
        }
        let next = Self::make_plan(width, height, self.kernel_radius);
        let effect = if next.size == self.size {
            ResizeEffect::Resized
        } else {
            ResizeEffect::Rebuilt
        };
        *self = next;
        effect
    }

    /// Changes the kernel radius; the result tells whether it changed, in
    /// which case the kernel spectrum must be recomputed. A radius outside
    /// `1..=MAX_KERNEL_RADIUS` is refused and leaves the plan as it was.
    pub fn set_kernel_radius(&mut self, radius: u32) -> (r: Result<bool, ConfigError>)
        requires
            old(self).wf(),
        ensures
            radius == 0 || radius > MAX_KERNEL_RADIUS ==> r == Err::<bool, ConfigError>(
                ConfigError::InvalidKernelRadius,
            ) && *final(self) == *old(self),
            0 < radius <= MAX_KERNEL_RADIUS ==> r == Ok::<bool, ConfigError>(
                radius != old(self).kernel_radius,
            ) && *final(self) == (FFTComputeState { kernel_radius: radius, ..*old(self) }),
            final(self).wf(),
    {
        if radius == 0 || radius > MAX_KERNEL_RADIUS {
            return Err(ConfigError::InvalidKernelRadius);
        }
        let changed = radius != self.kernel_radius;
        self.kernel_radius = radius;
        Ok(changed)
    }

    /// The side of the spectral buffer and its size in bytes for a
    /// `width` x `height` grid.
    pub fn create_fft_buffer(width: u32, height: u32) -> (r: (u32, u64))
        requires
            width <= MAX_DIMENSION,
            height <= MAX_DIMENSION,
        ensures
            r.0 == fft_size_of(width as nat, height as nat),
            r.1 == r.0 * r.0 * crate::plan::COMPLEX_BYTES,
    {
        let size = fft_size(width, height);
        proof {
            lemma_fft_size(width as nat, height as nat);
        }
        (size, crate::plan::spectral_buffer_bytes(size))
    }

    /// The dispatches that carry out `stage`, in order.
    pub fn dispatches(&self, stage: Stage) -> (r: Vec<Dispatch>)
        ensures
            r@ == self.stage_dispatches(stage),
    {
        let s = self.size;
        let sq = workgroups(s);
        let mut out: Vec<Dispatch> = Vec::new();
        match stage {
            Stage::Idle => {},
            Stage::PadWrap => {
                out.push(Dispatch { program: Program::PadWrap, groups_x: sq, groups_y: sq });
            },
            Stage::ForwardTransformRow1 | Stage::ForwardTransformRow2 => {
                out.push(Dispatch { program: Program::FFTForward, groups_x: s, groups_y: 1 });
            },
            Stage::Transpose1 | Stage::Transpose2 => {
                out.push(
                    Dispatch { program: Program::TransposeCopyUpper, groups_x: sq, groups_y: sq },
                );
                out.push(Dispatch { program: Program::TransposeLower, groups_x: sq, groups_y: sq });
            },
            Stage::KernelMultiply => {
                out.push(Dispatch { program: Program::KernelMultiply, groups_x: sq, groups_y: sq });
            },
            Stage::InverseTransformRow1 | Stage::InverseTransformRow2 => {
                out.push(Dispatch { program: Program::FFTInverse, groups_x: s, groups_y: 1 });
            },
            Stage::Growth => {
                let gx = workgroups(self.width);
                let gy = workgroups(self.height);
                out.push(Dispatch { program: Program::Growth, groups_x: gx, groups_y: gy });
            },
        }
        proof {
            assert(out@ =~= self.stage_dispatches(stage));
        }
        out
    }

    /// The dispatches of one simulation step: every stage from `PadWrap` to
    /// `Growth`, each after the one before it.
    pub fn run(&self) -> (r: Vec<Dispatch>)
        ensures
            r@ == self.step_schedule(),
    {
        let mut out: Vec<Dispatch> = Vec::new();
        let mut stage = Stage::PadWrap;
        while stage != Stage::Idle
            invariant
                out@ + self.schedule_from(stage) == self.step_schedule(),
            decreases stages_left(stage),
        {
            let mut part = self.dispatches(stage);
            proof {
                assert(out@ + part@ + self.schedule_from(next_stage(stage)) =~= out@
                    + self.schedule_from(stage));
            }
            out.append(&mut part);
            stage = stage.next();
        }
        out
    }

    /// The dispatches that turn the placed kernel into its spectrum: the
    /// full 2-D forward transform, run on the kernel's buffer.
    pub fn kernel_spectrum_dispatches(&self) -> (r: Vec<Dispatch>)
        ensures
            r@ == forward_2d_dispatches(self.size),
    {
        let mut out = self.dispatches(Stage::ForwardTransformRow1);
        let mut t = self.dispatches(Stage::Transpose1);
        let mut f = self.dispatches(Stage::ForwardTransformRow2);
        out.append(&mut t);
        out.append(&mut f);
        proof {
            assert(out@ =~= forward_2d_dispatches(self.size));
        }
        out
    }
}

/// Asking twice for the same dimensions changes nothing the second time:
/// the second request is ignored and leaves the plan (spectral side, kernel
/// and every stage parameter) as the first one left it.
pub proof fn lemma_resize_idempotent(e: FFTComputeState, width: u32, height: u32)
    requires
        e.wf(),
    ensures
        e.resized(width, height).resize_effect(width, height) == ResizeEffect::Ignored,
        e.resized(width, height).resized(width, height) == e.resized(width, height),
{
}

/// Every plan's spectral side is a power of two, at least `MIN_FFT_SIZE`,
/// covers the grid, and holds the kernel.
pub proof fn lemma_plan_sizes(e: FFTComputeState)
    requires
        e.wf(),
    ensures
        crate::plan::is_power_of_two(e.size as int),
        e.size >= MIN_FFT_SIZE,
        e.size >= e.width,
        e.size >= e.height,
        2 * e.kernel_radius + 1 <= e.size,
        two_pow(e.uniforms.fft.num_stages as nat) == e.size,
{
    lemma_fft_size(e.width as nat, e.height as nat);
    let k = choose|k: nat| two_pow(k) == e.size;
    crate::plan::lemma_two_pow_exceeds(k);
}

} // verus!
