//! The diffusion transformer.
pub mod block;
pub mod ltx;
pub mod modality;
pub mod modulation;
pub mod preprocessor;
