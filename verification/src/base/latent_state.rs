//! What is denoised.
use vstd::prelude::*;

use crate::array::Array;

verus! {

/// The arrays that belong to a latent while it is denoised.
pub struct LatentState {
    /// The noisy latent, as tokens.
    pub latent: Array,
    /// How strongly each token is denoised: one fully, zero not at all.
    pub denoise_mask: Array,
    /// Where each token lies.
    pub positions: Array,
    /// The latent before denoising.
    pub clean_latent: Array,
}

impl LatentState {
    pub fn new(latent: Array, denoise_mask: Array, positions: Array, clean_latent: Array) -> (r: LatentState)
        ensures
            r == (LatentState { latent, denoise_mask, positions, clean_latent }),
    {
        LatentState { latent, denoise_mask, positions, clean_latent }
    }
}

} // verus!
