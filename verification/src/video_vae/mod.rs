//! From video latents to frames.
pub mod decoder;
pub mod residual;
pub mod resnet;
pub mod sizes;
pub mod tiling;
pub mod upsample;
pub mod upsampler;
