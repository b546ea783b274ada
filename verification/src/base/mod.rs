//! Shapes, patches, statistics and the basic normalisations.
pub mod config;
pub mod latent_state;
pub mod ops;
pub mod patchify;
pub mod statistics;
pub mod types;
