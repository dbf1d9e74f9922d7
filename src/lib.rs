//! Integer planning and data-movement stages of a spectral (FFT-based)
//! convolution pipeline for a Lenia-style continuous cellular automaton.
//!
//! The floating-point arithmetic of the pipeline (butterflies, kernel
//! weights, growth mapping) is left to the host; this crate decides sizes,
//! uniforms, dispatch sequences and index layouts, and moves data between
//! layouts with proved contracts.
pub mod engine;
pub mod fft;
pub mod kernel;
pub mod layout;
pub mod pad_wrap;
pub mod plan;
pub mod transpose;
