//! Noise levels, steps between them and guidance.
pub mod diffusion_step;
pub mod guiders;
pub mod schedule;
