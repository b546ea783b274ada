//! Configuration of the model, the scheduler and the guidance.
use vstd::prelude::*;

use crate::scalar::{Scalar, ONE, ZERO};
use crate::text::same;

verus! {

/// 1e-6
pub const NORM_EPS: Scalar = 0x3EB0_C6F7_A0B5_ED8D;

/// 10000
pub const TEN_THOUSAND: Scalar = 0x40C3_8800_0000_0000;

/// 2.05
pub const MAX_SHIFT: Scalar = 0x4000_6666_6666_6666;

/// 0.95
pub const BASE_SHIFT: Scalar = 0x3FEE_6666_6666_6666;

/// 0.1
pub const TERMINAL: Scalar = 0x3FB9_9999_9999_999A;

/// The parameters of one block of the video decoder.
#[derive(Clone, Copy, PartialEq, Eq, Structural, Debug)]
pub struct BlockSettings {
    /// Number of layers of a `res_x` block.
    pub num_layers: Option<u64>,
    /// By what factor the block reduces the number of channels.
    pub multiplier: Option<u64>,
}

/// Configuration of the video decoder.
pub struct VaeConfig {
    pub dims: usize,
    pub latent_channels: usize,
    pub out_channels: usize,
    /// The kind and the parameters of each block, in the order of the encoder.
    pub decoder_blocks: Vec<(String, BlockSettings)>,
    pub decoder_spatial_padding_mode: String,
    pub patch_size: usize,
    pub norm_layer: String,
    pub causal_decoder: bool,
    pub timestep_conditioning: bool,
}

impl VaeConfig {
    /// The configuration that holds where nothing else is said.
    pub open spec fn is_default(&self) -> bool {
        &&& self.dims == 3
        &&& self.latent_channels == 128
        &&& self.out_channels == 3
        &&& self.decoder_blocks@.len() == 0
        &&& self.decoder_spatial_padding_mode@ == "reflect"@
        &&& self.patch_size == 4
        &&& self.norm_layer@ == "pixel_norm"@
        &&& !self.causal_decoder
        &&& self.timestep_conditioning
    }
}

impl Default for VaeConfig {
    fn default() -> (r: VaeConfig)
        ensures
            r.is_default(),
    {
        VaeConfig {
            dims: 3,
            latent_channels: 128,
            out_channels: 3,
            decoder_blocks: Vec::new(),
            decoder_spatial_padding_mode: default_reflect(),
            patch_size: 4,
            norm_layer: default_pixel_norm(),
            causal_decoder: false,
            timestep_conditioning: true,
        }
    }
}

/// Configuration of the transformer.
pub struct TransformerConfig {
    pub num_attention_heads: usize,
    pub attention_head_dim: usize,
    pub in_channels: usize,
    pub out_channels: usize,
    pub num_layers: usize,
    pub cross_attention_dim: usize,
    pub norm_eps: Scalar,
    pub attention_type: String,
    pub caption_channels: usize,
    pub positional_embedding_theta: Scalar,
    pub positional_embedding_max_pos: Vec<usize>,
    pub timestep_scale_multiplier: usize,
    pub use_middle_indices_grid: bool,
    pub rope_type: String,
    pub frequencies_precision: Option<String>,
    pub apply_gated_attention: bool,
    pub connector_num_attention_heads: usize,
    pub connector_attention_head_dim: usize,
    pub connector_num_layers: usize,
    pub connector_positional_embedding_max_pos: Vec<usize>,
    pub connector_num_learnable_registers: usize,
    pub connector_apply_gated_attention: bool,
    pub audio_num_attention_heads: usize,
    pub audio_attention_head_dim: usize,
    pub audio_in_channels: usize,
    pub audio_out_channels: usize,
    pub audio_cross_attention_dim: usize,
    pub audio_positional_embedding_max_pos: Vec<usize>,
    pub av_ca_timestep_scale_multiplier: Scalar,
    pub audio_connector_num_attention_heads: usize,
    pub audio_connector_attention_head_dim: usize,
    pub audio_connector_num_layers: usize,
    pub cross_attention_adaln: bool,
    pub caption_proj_before_connector: bool,
}

impl TransformerConfig {
    /// The configuration that holds where nothing else is said.
    pub open spec fn is_default(&self) -> bool {
        &&& self.num_attention_heads == 32
        &&& self.attention_head_dim == 128
        &&& self.in_channels == 128
        &&& self.out_channels == 128
        &&& self.num_layers == 48
        &&& self.cross_attention_dim == 4096
        &&& self.norm_eps == NORM_EPS
        &&& self.attention_type@ == "default"@
        &&& self.caption_channels == 3840
        &&& self.positional_embedding_theta == TEN_THOUSAND
        &&& self.positional_embedding_max_pos@ == seq![20usize, 2048, 2048]
        &&& self.timestep_scale_multiplier == 1000
        &&& self.use_middle_indices_grid
        &&& self.rope_type@ == "split"@
        &&& self.frequencies_precision matches Some(p) && p@ == "float64"@
        &&& !self.apply_gated_attention
        &&& self.connector_num_attention_heads == 32
        &&& self.connector_attention_head_dim == 128
        &&& self.connector_num_layers == 8
        &&& self.connector_positional_embedding_max_pos@ == seq![4096usize]
        &&& self.connector_num_learnable_registers == 128
        &&& self.connector_apply_gated_attention
        &&& self.audio_num_attention_heads == 32
        &&& self.audio_attention_head_dim == 64
        &&& self.audio_in_channels == 128
        &&& self.audio_out_channels == 128
        &&& self.audio_cross_attention_dim == 2048
        &&& self.audio_positional_embedding_max_pos@ == seq![20usize]
        &&& self.av_ca_timestep_scale_multiplier == ONE
        &&& self.audio_connector_num_attention_heads == 32
        &&& self.audio_connector_attention_head_dim == 64
        &&& self.audio_connector_num_layers == 8
        &&& self.cross_attention_adaln
        &&& self.caption_proj_before_connector
    }

    /// Width of the video stream.
    pub fn video_inner_dim(&self) -> (r: usize)
        requires
            self.num_attention_heads * self.attention_head_dim <= usize::MAX,
        ensures
            r == self.num_attention_heads * self.attention_head_dim,
    {
        self.num_attention_heads * self.attention_head_dim
    }

    /// Width of the audio stream.
    pub fn audio_inner_dim(&self) -> (r: usize)
        requires
            self.audio_num_attention_heads * self.audio_attention_head_dim <= usize::MAX,
        ensures
            r == self.audio_num_attention_heads * self.audio_attention_head_dim,
    {
        self.audio_num_attention_heads * self.audio_attention_head_dim
    }

    /// Whether rotation frequencies are to be computed in double precision.
    pub fn double_precision_rope(&self) -> (r: bool)
        ensures
            r == (self.frequencies_precision matches Some(p) && p@ == "float64"@),
    {
        match &self.frequencies_precision {
            Some(p) => same(p.as_str(), "float64"),
            None => false,
        }
    }
}

impl Default for TransformerConfig {
    fn default() -> (r: TransformerConfig)
        ensures
            r.is_default(),
    {
        TransformerConfig {
            num_attention_heads: 32,
            attention_head_dim: 128,
            in_channels: 128,
            out_channels: 128,
            num_layers: 48,
            cross_attention_dim: 4096,
            norm_eps: NORM_EPS,
            attention_type: default_attention_type(),
            caption_channels: 3840,
            positional_embedding_theta: TEN_THOUSAND,
            positional_embedding_max_pos: default_pos_max(),
            timestep_scale_multiplier: 1000,
            use_middle_indices_grid: true,
            rope_type: default_rope_type(),
            frequencies_precision: default_float64(),
            apply_gated_attention: false,
            connector_num_attention_heads: 32,
            connector_attention_head_dim: 128,
            connector_num_layers: 8,
            connector_positional_embedding_max_pos: default_connector_pos_max(),
            connector_num_learnable_registers: 128,
            connector_apply_gated_attention: true,
            audio_num_attention_heads: 32,
            audio_attention_head_dim: 64,
            audio_in_channels: 128,
            audio_out_channels: 128,
            audio_cross_attention_dim: 2048,
            audio_positional_embedding_max_pos: default_audio_pos_max(),
            av_ca_timestep_scale_multiplier: ONE,
            audio_connector_num_attention_heads: 32,
            audio_connector_attention_head_dim: 64,
            audio_connector_num_layers: 8,
            cross_attention_adaln: true,
            caption_proj_before_connector: true,
        }
    }
}

/// Configuration of the components of a checkpoint.
pub struct ModelConfig {
    pub transformer: TransformerConfig,
    pub vae: VaeConfig,
}

/// Which streams a transformer has.
#[derive(Clone, Copy, PartialEq, Eq, Structural, Debug)]
pub enum LtxModelType {
    AudioVideo,
    VideoOnly,
    AudioOnly,
}

impl LtxModelType {
    pub open spec fn has_video(&self) -> bool {
        *self != LtxModelType::AudioOnly
    }

    pub open spec fn has_audio(&self) -> bool {
        *self != LtxModelType::VideoOnly
    }

    pub fn is_video_enabled(&self) -> (r: bool)
        ensures
            r == self.has_video(),
    {
        matches!(self, LtxModelType::AudioVideo | LtxModelType::VideoOnly)
    }

    pub fn is_audio_enabled(&self) -> (r: bool)
        ensures
            r == self.has_audio(),
    {
        matches!(self, LtxModelType::AudioVideo | LtxModelType::AudioOnly)
    }
}

/// How rotated elements pair up.
#[derive(Clone, Copy, PartialEq, Eq, Structural, Debug)]
pub enum RopeType {
    Interleaved,
    Split,
}

impl RopeType {
    /// `split`; every other word means interleaved.
    pub fn parse(s: &str) -> (r: RopeType)
        ensures
            r == (if s@ == "split"@ { RopeType::Split } else { RopeType::Interleaved }),
    {
        if same(s, "split") {
            RopeType::Split
        } else {
            RopeType::Interleaved
        }
    }
}

/// Configuration of the noise schedule.
#[derive(Clone, Copy, PartialEq, Eq, Structural, Debug)]
pub struct SchedulerConfig {
    pub max_shift: Scalar,
    pub base_shift: Scalar,
    pub stretch: bool,
    pub terminal: Scalar,
}

impl Default for SchedulerConfig {
    fn default() -> (r: SchedulerConfig)
        ensures
            r == (SchedulerConfig {
                max_shift: MAX_SHIFT,
                base_shift: BASE_SHIFT,
                stretch: true,
                terminal: TERMINAL,
            }),
    {
        SchedulerConfig { max_shift: MAX_SHIFT, base_shift: BASE_SHIFT, stretch: true, terminal: TERMINAL }
    }
}

/// Configuration of the guidance.
pub struct GuiderConfig {
    pub cfg_scale: Scalar,
    pub stg_scale: Scalar,
    pub stg_blocks: Option<Vec<usize>>,
    pub rescale_scale: Scalar,
    pub modality_scale: Scalar,
    pub skip_step: usize,
}

impl Default for GuiderConfig {
    fn default() -> (r: GuiderConfig)
        ensures
            r.cfg_scale == ONE && r.stg_scale == ZERO && r.stg_blocks is None && r.rescale_scale == ZERO
                && r.modality_scale == ONE && r.skip_step == 0,
    {
        GuiderConfig {
            cfg_scale: ONE,
            stg_scale: ZERO,
            stg_blocks: None,
            rescale_scale: ZERO,
            modality_scale: ONE,
            skip_step: 0,
        }
    }
}

pub fn default_attention_type() -> (r: String)
    ensures
        r@ == "default"@,
{
    "default".to_owned()
}

pub fn default_rope_type() -> (r: String)
    ensures
        r@ == "split"@,
{
    "split".to_owned()
}

pub fn default_float64() -> (r: Option<String>)
    ensures
        r matches Some(p) && p@ == "float64"@,
{
    Some("float64".to_owned())
}

/// The largest positions in time, height and width.
pub fn default_pos_max() -> (r: Vec<usize>)
    ensures
        r@ == seq![20usize, 2048, 2048],
{
    let r: Vec<usize> = vec![20, 2048, 2048];
    assert(r@ =~= seq![20usize, 2048, 2048]);
    r
}

/// The largest position in time of a sound.
pub fn default_audio_pos_max() -> (r: Vec<usize>)
    ensures
        r@ == seq![20usize],
{
    let r: Vec<usize> = vec![20];
    assert(r@ =~= seq![20usize]);
    r
}

/// The largest position in a text.
pub fn default_connector_pos_max() -> (r: Vec<usize>)
    ensures
        r@ == seq![4096usize],
{
    let r: Vec<usize> = vec![4096];
    assert(r@ =~= seq![4096usize]);
    r
}

pub fn default_reflect() -> (r: String)
    ensures
        r@ == "reflect"@,
{
    "reflect".to_owned()
}

pub fn default_pixel_norm() -> (r: String)
    ensures
        r@ == "pixel_norm"@,
{
    "pixel_norm".to_owned()
}

} // verus!
