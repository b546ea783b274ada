pub mod array;
pub mod audio_vae;
pub mod base;
pub mod branches;
pub mod error;
pub mod lemmas;
pub mod model;
pub mod nn;
pub mod pipeline;
pub mod reals;
pub mod scalar;
pub mod scheduler;
pub mod text;
pub mod text_encoder;
pub mod transformer;
pub mod video_vae;
pub mod weights;
