//! Building blocks of the networks.
pub mod activation;
pub mod adaln;
pub mod adapting;
pub mod attending;
pub mod attention;
pub mod conv1d;
pub mod conv3d;
pub mod feed_forward;
pub mod group_norm;
pub mod linear;
pub mod lora;
pub mod norms;
pub mod pixel_norm;
pub mod rope;
pub mod rotation;
pub mod text_projection;
pub mod timestep_embedding;
