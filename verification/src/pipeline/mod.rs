//! From options to a video with sound.
pub mod checkpoint;
pub mod denoise;
pub mod noising;
pub mod options;
pub mod output;
pub mod scales;
pub mod stages;
