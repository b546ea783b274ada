//! The ways in which the library fails.
use vstd::prelude::*;

verus! {

/// Error type of candle, carried through unopened.
#[verifier::external_type_specification]
#[verifier::external_body]
pub struct ExCandleError(candle_core::Error);

/// Why an operation could not be carried out.
#[derive(Debug)]
#[allow(inconsistent_fields)]
pub enum Failure {
    /// Candle refused or failed an operation.
    Candle(candle_core::Error),
    /// A size does not fit into the machine's integers.
    Overflow,
    /// A tensor does not have the expected number of axes.
    Rank { expected: usize, got: usize },
    /// The shapes of the operands do not go together.
    Shape,
    /// The element type does not support the operation.
    Dtype,
    /// Something has another shape than the one that was asked for.
    Mismatch { expected: String, got: String },
    /// A component that the operation needs is not there.
    Missing { what: String },
    /// There are not as many means as standard deviations.
    ChannelCount { mean: usize, std: usize },
    /// A size is not a multiple of the size of its parts.
    NotDivisible { size: usize, part: usize },
    /// A word is none of those that are understood.
    Unknown { what: String },
    /// A convolution kernel has no elements.
    EmptyKernel,
    /// Stride and padding differ between height and width.
    NotSquare,
    /// An axis is too short to be mirrored that far.
    ReflectPadding { pad: usize, size: usize },
    /// Neighbours cannot be paired along an axis of odd size.
    OddRope,
    /// A head is too small for a rotation along each of `ndim` axes.
    RopeDim { dim: usize, ndim: usize },
    /// The halves of the rotated elements cannot be shared out to the heads.
    RopeHeads { half: usize, heads: usize },
    /// A low-rank adapter does not have the shape of the layer that it adapts.
    LoraShape { rank: usize, lora_in: usize, lora_out: usize, rank_b: usize },
    /// Channels cannot be moved into height and width.
    PixelShuffle { expected: usize, got: usize },
    /// Tiles in time are too short to overlap.
    TileLength { frames: usize },
    /// Tiles in time do not overlap, or nothing is left of a tile without its overlap.
    TileOverlap { overlap: usize },
    /// Everything that was decoded from a tile lies in its overlap.
    TileConsumed { skip: usize, frames: usize },
    /// There is not one hidden state for each layer.
    HiddenStates { expected: usize, got: usize },
    /// A tokenizer could not be read or could not encode a text.
    Tokenizer { what: String },
    /// There is no room for the special tokens.
    SpecialTokens { max_length: usize, added: usize },
    /// There are not enough noise levels for a step.
    TooFewSigmas { got: usize },
    /// The two-stage sampler has no way to take noise out of sound.
    SamplerAudio,
    /// The header of a safetensors file is longer than it can be.
    HeaderLength { bytes: u64 },
    /// There is no safetensors file.
    NoWeights,
}

impl Failure {
    /// The failures of a single operation on tensors.
    pub open spec fn basic(self) -> bool {
        self is Candle || self is Overflow || self is Rank || self is Shape || self is Dtype
    }
}

} // verus!
