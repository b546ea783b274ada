//! From sound latents to a waveform.
pub mod attention;
pub mod causal_conv2d;
pub mod decoder;
pub mod filters;
pub mod resample;
pub mod resnet;
pub mod snake;
pub mod upsample;
pub mod vocoder;
