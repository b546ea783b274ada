//! From the hidden states of all layers of the language model to features.
use vstd::prelude::*;

use crate::array::{self, kernels, Array};
use crate::base::config::NORM_EPS;
use crate::error::Failure;
use crate::lemmas;
use crate::model::{self, BinOp, Dtype, RelOp, TensorView, UnOp};
use crate::nn::linear::{self, Linear};
use crate::nn::lora;
use crate::scalar::{Scalar, MINUS_ONE, ONE, ZERO};
use crate::text::same;
use crate::text_encoder::gemma3::{self, EIGHT};
use crate::weights::{self, Weights, WeightsView};

verus! {

/// The largest binary32 number.
pub const LARGEST: Scalar = 0x47EF_FFFF_E000_0000;

/// The smallest binary32 number.
pub const SMALLEST: Scalar = 0xC7EF_FFFF_E000_0000;

/// Normalises the hidden states of all layers and projects them to features.
pub struct GemmaFeatureExtractor {
    pub projection: GemmaFeatureProjection,
    pub hidden_dim: usize,
    pub num_layers: usize,
}

/// One projection for both modalities, or one for each.
pub enum GemmaFeatureProjection {
    Single { aggregate_embed: Linear },
    Dual {
        video_aggregate_embed: Linear,
        audio_aggregate_embed: Linear,
        video_out_dim: usize,
        audio_out_dim: usize,
    },
}

impl GemmaFeatureExtractor {
    /// Whether this is the extractor with one projection that a checkpoint holds.
    pub open spec fn loaded_single(&self, hidden_dim: nat, num_layers: nat, vb: WeightsView) -> bool {
        &&& self.hidden_dim == hidden_dim
        &&& self.num_layers == num_layers
        &&& self.projection matches GemmaFeatureProjection::Single { aggregate_embed }
        &&& aggregate_embed@ == lora::linear_no_bias_of(vb.pp("aggregate_embed"@), None)
    }

    /// Whether this is the extractor with two projections that a checkpoint holds.
    pub open spec fn loaded_dual(
        &self,
        hidden_dim: nat,
        num_layers: nat,
        video_dim: nat,
        audio_dim: nat,
        vb: WeightsView,
    ) -> bool {
        &&& self.hidden_dim == hidden_dim
        &&& self.num_layers == num_layers
        &&& self.projection matches GemmaFeatureProjection::Dual {
            video_aggregate_embed,
            audio_aggregate_embed,
            video_out_dim,
            audio_out_dim,
        }
        &&& video_aggregate_embed@ == lora::linear_of(vb.pp("video_aggregate_embed"@), None)
        &&& audio_aggregate_embed@ == lora::linear_of(vb.pp("audio_aggregate_embed"@), None)
        &&& video_out_dim == video_dim
        &&& audio_out_dim == audio_dim
    }

    /// The extractor with one projection.
    pub fn new(hidden_dim: usize, num_layers: usize, vb: &Weights) -> (r: Result<GemmaFeatureExtractor, Failure>)
        ensures
            r matches Ok(e) ==> e.loaded_single(hidden_dim as nat, num_layers as nat, vb@),
            r is Ok ==> lora::has_linear(
                vb@.pp("aggregate_embed"@),
                None,
                hidden_dim as nat * num_layers as nat,
                hidden_dim as nat,
                false,
            ),
            vb@.sound() && lora::has_linear(
                vb@.pp("aggregate_embed"@),
                None,
                hidden_dim as nat * num_layers as nat,
                hidden_dim as nat,
                false,
            ) ==> r is Ok,
            hidden_dim * num_layers > usize::MAX ==> r == Err::<GemmaFeatureExtractor, Failure>(
                Failure::Overflow,
            ),
    {
        GemmaFeatureExtractor::new_single(hidden_dim, num_layers, vb)
    }

    /// The extractor with one projection.
    pub fn new_single(hidden_dim: usize, num_layers: usize, vb: &Weights) -> (r: Result<
        GemmaFeatureExtractor,
        Failure,
    >)
        ensures
            r matches Ok(e) ==> e.loaded_single(hidden_dim as nat, num_layers as nat, vb@),
            r is Ok ==> lora::has_linear(
                vb@.pp("aggregate_embed"@),
                None,
                hidden_dim as nat * num_layers as nat,
                hidden_dim as nat,
                false,
            ),
            vb@.sound() && lora::has_linear(
                vb@.pp("aggregate_embed"@),
                None,
                hidden_dim as nat * num_layers as nat,
                hidden_dim as nat,
                false,
            ) ==> r is Ok,
            hidden_dim * num_layers > usize::MAX ==> r == Err::<GemmaFeatureExtractor, Failure>(
                Failure::Overflow,
            ),
    {
        proof {
            let one = vb@.pp("aggregate_embed"@);
            let dims: Seq<nat> = seq![hidden_dim as nat, hidden_dim as nat * num_layers as nat];
            if vb@.sound() && one.holds("weight"@, dims) {
                weights::lemma_axis_counts(one, "weight"@, dims, 1);
            }
        }
        let input_dim: usize = match hidden_dim.checked_mul(num_layers) {
            Some(d) => d,
            None => {
                return Err(Failure::Overflow);
            },
        };
        let aggregate_embed = lora::linear_no_bias(input_dim, hidden_dim, &vb.pp("aggregate_embed"), None)?;
        Ok(
            GemmaFeatureExtractor {
                projection: GemmaFeatureProjection::Single { aggregate_embed },
                hidden_dim,
                num_layers,
            },
        )
    }

    /// The extractor with a projection for video and one for audio.
    pub fn new_dual(
        hidden_dim: usize,
        num_layers: usize,
        video_out_dim: usize,
        audio_out_dim: usize,
        vb: &Weights,
    ) -> (r: Result<GemmaFeatureExtractor, Failure>)
        ensures
            r matches Ok(e) ==> e.loaded_dual(
                hidden_dim as nat,
                num_layers as nat,
                video_out_dim as nat,
                audio_out_dim as nat,
                vb@,
            ),
            r is Ok ==> lora::has_linear(
                vb@.pp("video_aggregate_embed"@),
                None,
                hidden_dim as nat * num_layers as nat,
                video_out_dim as nat,
                true,
            ) && lora::has_linear(
                vb@.pp("audio_aggregate_embed"@),
                None,
                hidden_dim as nat * num_layers as nat,
                audio_out_dim as nat,
                true,
            ),
            vb@.sound() && lora::has_linear(
                vb@.pp("video_aggregate_embed"@),
                None,
                hidden_dim as nat * num_layers as nat,
                video_out_dim as nat,
                true,
            ) && lora::has_linear(
                vb@.pp("audio_aggregate_embed"@),
                None,
                hidden_dim as nat * num_layers as nat,
                audio_out_dim as nat,
                true,
            ) ==> r is Ok,
            hidden_dim * num_layers > usize::MAX ==> r == Err::<GemmaFeatureExtractor, Failure>(
                Failure::Overflow,
            ),
    {
        proof {
            let video = vb@.pp("video_aggregate_embed"@);
            let dims: Seq<nat> = seq![video_out_dim as nat, hidden_dim as nat * num_layers as nat];
            if vb@.sound() && video.holds("weight"@, dims) {
                weights::lemma_axis_counts(video, "weight"@, dims, 1);
            }
        }
        let input_dim: usize = match hidden_dim.checked_mul(num_layers) {
            Some(d) => d,
            None => {
                return Err(Failure::Overflow);
            },
        };
        let video_aggregate_embed = lora::linear(
            input_dim,
            video_out_dim,
            &vb.pp("video_aggregate_embed"),
            None,
        )?;
        let audio_aggregate_embed = lora::linear(
            input_dim,
            audio_out_dim,
            &vb.pp("audio_aggregate_embed"),
            None,
        )?;
        Ok(
            GemmaFeatureExtractor {
                projection: GemmaFeatureProjection::Dual {
                    video_aggregate_embed,
                    audio_aggregate_embed,
                    video_out_dim,
                    audio_out_dim,
                },
                hidden_dim,
                num_layers,
            },
        )
    }

    /// The features of both modalities.
    pub open spec fn apply(&self, states: Seq<TensorView>, attention_mask: TensorView, left: bool) -> (
        TensorView,
        TensorView,
    ) {
        let stacked = model::stack(states, 3);
        match self.projection {
            GemmaFeatureProjection::Single { aggregate_embed } => {
                let normed = padded_norm_of(stacked, attention_mask, left);
                let features = aggregate_embed@.apply(model::cast(normed, states[0].dtype));
                (features, features)
            },
            GemmaFeatureProjection::Dual {
                video_aggregate_embed,
                audio_aggregate_embed,
                video_out_dim,
                audio_out_dim,
            } => {
                let normed = model::cast(token_norm_of(stacked, attention_mask), states[0].dtype);
                (
                    video_aggregate_embed@.apply(rescaled(normed, video_out_dim as nat, self.hidden_dim as nat)),
                    audio_aggregate_embed@.apply(rescaled(normed, audio_out_dim as nat, self.hidden_dim as nat)),
                )
            },
        }
    }

    /// Whether features can be computed from states of this shape, in main memory and in single
    /// precision.
    pub open spec fn extracts(&self, states: Seq<Array>, attention_mask: &Array, d: Seq<nat>) -> bool {
        &&& 0 < states.len() == self.num_layers && d.len() == 3 && model::numel(d) > 0
        &&& gemma3::are_states(states, d) && model::fits(seq![d[0], d[1], d[2], states.len()])
        &&& attention_mask.usable() && attention_mask@.dims == seq![d[0], d[1]]
        &&& rows_of(self.projection, d, states.len())
    }

    /// The features of the first modality.
    pub fn forward(&self, hidden_states: &Vec<Array>, attention_mask: &Array, padding_side: &str) -> (r: Result<
        Array,
        Failure,
    >)
        ensures
            r matches Ok(t) ==> t@ == self.apply(
                array::views(hidden_states@),
                attention_mask@,
                padding_side@ == "left"@,
            ).0,
            r is Ok ==> hidden_states.len() == self.num_layers,
            hidden_states.len() != self.num_layers ==> r == Err::<Array, Failure>(
                Failure::HiddenStates { expected: self.num_layers, got: hidden_states.len() },
            ),
            forall|d: Seq<nat>| #[trigger]
                self.extracts(hidden_states@, attention_mask, d) ==> (r matches Ok(t) && t.on_cpu() && t@.dtype == Dtype::F32),
    {
        let both = self.forward_av(hidden_states, attention_mask, padding_side)?;
        Ok(both.0)
    }

    /// The features for video and for audio.
    ///
    /// Each hidden state has shape `(B, T, D)`, `attention_mask` shape `(B, T)` with one for
    /// a token and zero for padding.
    pub fn forward_av(&self, hidden_states: &Vec<Array>, attention_mask: &Array, padding_side: &str) -> (r: Result<
        (Array, Array),
        Failure,
    >)
        ensures
            r matches Ok(t) ==> (t.0@, t.1@) == self.apply(
                array::views(hidden_states@),
                attention_mask@,
                padding_side@ == "left"@,
            ),
            r is Ok ==> hidden_states.len() == self.num_layers,
            hidden_states.len() != self.num_layers ==> r == Err::<(Array, Array), Failure>(
                Failure::HiddenStates { expected: self.num_layers, got: hidden_states.len() },
            ),
            forall|d: Seq<nat>| #[trigger]
                self.extracts(hidden_states@, attention_mask, d) ==> (r matches Ok(t) && t.0.on_cpu() && t.1.on_cpu() && t.0@.dtype
                    == Dtype::F32 && t.1@.dtype == Dtype::F32),
    {
        if hidden_states.len() != self.num_layers {
            return Err(
                Failure::HiddenStates { expected: self.num_layers, got: hidden_states.len() },
            );
        }
        if hidden_states.len() == 0 {
            return Err(Failure::Shape);
        }
        let dtype = hidden_states[0].dtype();
        assert(array::views(hidden_states@)[0] == hidden_states@[0]@);
        proof {
            assert forall|d: Seq<nat>| #[trigger]
                self.extracts(hidden_states@, attention_mask, d) implies kernels::stackable(hidden_states@, 3)
                && hidden_states@[0]@.dims == d && hidden_states@[0]@.dtype == Dtype::F32 && hidden_states@[0].on_cpu() by {
                let n = hidden_states@.len();
                assert(d =~= seq![d[0], d[1], d[2]]);
                assert(d.insert(3, n) =~= seq![d[0], d[1], d[2], n]);
                assert(gemma3::is_state(&hidden_states@[0], d));
                assert forall|i: int| 0 <= i < n implies (#[trigger] hidden_states@[i]).on_cpu()
                    && hidden_states@[i]@.dtype == Dtype::F32 && hidden_states@[i]@.dims == d by {
                    assert(gemma3::is_state(&hidden_states@[i], d));
                }
            }
        }
        let stacked = Array::stack(hidden_states, 3)?;
        proof {
            assert forall|d: Seq<nat>| #[trigger]
                self.extracts(hidden_states@, attention_mask, d) implies covers(&stacked, attention_mask) && stacked@.dims
                == seq![d[0], d[1], d[2], hidden_states@.len()] && model::numel(side_by_side(stacked@.dims)) > 0 && rows_of(
                self.projection,
                d,
                hidden_states@.len(),
            ) by {
                let n = hidden_states@.len();
                assert(d =~= seq![d[0], d[1], d[2]]);
                assert(d.insert(3, n) =~= seq![d[0], d[1], d[2], n]);
                lemmas::lemma_numel3(d[0], d[1], d[2]);
                lemmas::lemma_numel4(d[0], d[1], d[2], n);
                let w = d[0] * d[1] * d[2];
                assert(w * n > 0) by (nonlinear_arith)
                    requires
                        w > 0,
                        n > 0,
                ;
                lemma_side_by_side(d[0], d[1], d[2], n);
            }
            let flat = side_by_side(stacked@.dims);
            assert forall|out: nat| #[trigger] linear::with_width(flat, out) == seq![flat[0], flat[1], out] by {
                assert(linear::with_width(flat, out) =~= seq![flat[0], flat[1], out]);
            }
        }
        match &self.projection {
            GemmaFeatureProjection::Single { aggregate_embed } => {
                let normed = norm_and_concat_padded_batch(&stacked, attention_mask, padding_side)?;
                let features = aggregate_embed.forward(&normed.to_dtype(dtype)?)?;
                Ok((features.clone(), features))
            },
            GemmaFeatureProjection::Dual {
                video_aggregate_embed,
                audio_aggregate_embed,
                video_out_dim,
                audio_out_dim,
            } => {
                let normed = norm_and_concat_per_token_rms(&stacked, attention_mask)?.to_dtype(dtype)?;
                let video = rescale(&normed, *video_out_dim, self.hidden_dim)?;
                let audio = rescale(&normed, *audio_out_dim, self.hidden_dim)?;
                Ok((video_aggregate_embed.forward(&video)?, audio_aggregate_embed.forward(&audio)?))
            },
        }
    }
}

/// Whether a projection takes `n` states of this shape side by side.
pub open spec fn rows_of(projection: GemmaFeatureProjection, d: Seq<nat>, n: nat) -> bool {
    match projection {
        GemmaFeatureProjection::Single { aggregate_embed } => takes_rows(aggregate_embed, d, n),
        GemmaFeatureProjection::Dual {
            video_aggregate_embed,
            audio_aggregate_embed,
            video_out_dim,
            audio_out_dim,
        } => {
            &&& takes_rows(video_aggregate_embed, d, n) && takes_rows(audio_aggregate_embed, d, n)
        },
    }
}

/// Whether a layer takes `n` states of this shape side by side.
pub open spec fn takes_rows(layer: Linear, d: Seq<nat>, n: nat) -> bool {
    let out = layer.weight@.dims[0];
    layer.maps(d[2] * n, out) && model::fits(seq![d[0], d[1], out])
}

/// `x * sqrt(to / from)`.
pub open spec fn rescaled(x: TensorView, to: nat, from: nat) -> TensorView {
    model::affine(
        x,
        model::unary(
            UnOp::Sqrt,
            model::binary(BinOp::Over, model::count(to), model::count(from)),
        ),
        model::number(ZERO),
    )
}

fn rescale(x: &Array, to: usize, from: usize) -> (r: Result<Array, Failure>)
    ensures
        r matches Ok(t) ==> t@ == rescaled(x@, to as nat, from as nat) && t.on_cpu() == x.on_cpu(),
        x.on_cpu() && x@.dtype.float() ==> r is Ok,
{
    let ratio = Array::count(to)?.broadcast(BinOp::Over, &Array::count(from)?)?;
    x.scale_by(&ratio.unary(UnOp::Sqrt)?)
}

/// Each row of a mask `(B, T)` repeated to `width` features: `(B, T, width)`.
pub open spec fn mask_rows(mask: TensorView, b: nat, t: nat, width: nat) -> TensorView {
    model::broadcast_to(model::unsqueeze(model::cast(mask, Dtype::F32), 2), seq![b, t, width])
}

fn repeat_mask(mask: &Array, b: usize, t: usize, width: usize) -> (r: Result<Array, Failure>)
    ensures
        r matches Ok(m) ==> m@ == mask_rows(mask@, b as nat, t as nat, width as nat),
        mask.usable() && mask@.dims == seq![b as nat, t as nat] && model::fits(seq![b as nat, t as nat, width as nat])
            ==> (r matches Ok(m) && m.on_cpu() && m@.dtype == Dtype::F32 && m@.dims == seq![
            b as nat,
            t as nat,
            width as nat,
        ]),
{
    let dims: Vec<usize> = vec![b, t, width];
    assert(model::nats(dims@) =~= seq![b as nat, t as nat, width as nat]);
    proof {
        reveal(model::broadcast_to);
        if mask@.dims == seq![b as nat, t as nat] {
            assert(mask@.dims.insert(2, 1) =~= seq![b as nat, t as nat, 1]);
        }
    }
    mask.to_dtype(Dtype::F32)?.unsqueeze(2)?.expand(&dims)
}

/// Each token of each layer divided by the root of its mean square, zero for padding; the
/// layers side by side.
pub open spec fn token_norm_of(stacked: TensorView, attention_mask: TensorView) -> TensorView {
    let (b, t, d, l) = (stacked.dims[0], stacked.dims[1], stacked.dims[2], stacked.dims[3]);
    let wide = model::cast(stacked, Dtype::F32);
    let variance = model::mean_keepdim(model::unary(UnOp::Sqr, wide), 2);
    let denom = model::unary(
        UnOp::Sqrt,
        model::affine(variance, model::number(ONE), model::number(NORM_EPS)),
    );
    let normed = model::reshape(model::binary(BinOp::Over, wide, denom), seq![b, t, d * l]);
    model::binary(BinOp::Times, normed, mask_rows(attention_mask, b, t, d * l))
}

/// The shape of layers side by side.
pub open spec fn side_by_side(d: Seq<nat>) -> Seq<nat> {
    seq![d[0], d[1], d[2] * d[3]]
}

/// Whether there are layers `(B, T, D, L)` of tokens in main memory and a mask `(B, T)` of them.
pub open spec fn covers(encoded_text: &Array, attention_mask: &Array) -> bool {
    let d = encoded_text@.dims;
    &&& encoded_text.usable() && d.len() == 4 && model::numel(d) > 0
    &&& attention_mask.usable() && attention_mask@.dims == seq![d[0], d[1]]
}

/// Layers side by side hold as many numbers as before.
proof fn lemma_side_by_side(b: nat, t: nat, d: nat, l: nat)
    requires
        model::numel(seq![b, t, d, l]) > 0,
        model::fits(seq![b, t, d, l]),
    ensures
        model::numel(seq![b, t, d * l]) == model::numel(seq![b, t, d, l]),
        model::fits(seq![b, t, d * l]),
        d * l <= usize::MAX,
{
    let dims: Seq<nat> = seq![b, t, d, l];
    lemmas::lemma_numel4(b, t, d, l);
    lemmas::lemma_numel3(b, t, d * l);
    let bt = b * t;
    assert(bt * (d * l) == bt * d * l) by (nonlinear_arith);
    lemmas::lemma_factors(b, t, d * l);
    lemmas::lemma_extent_is_numel(dims);
    lemmas::lemma_room(seq![b, t, d * l], dims);
}

/// Normalises each token of each layer by its root mean square and puts the layers side by
/// side.
pub fn norm_and_concat_per_token_rms(encoded_text: &Array, attention_mask: &Array) -> (r: Result<Array, Failure>)
    ensures
        r matches Ok(t) ==> t@ == token_norm_of(encoded_text@, attention_mask@),
        r is Ok ==> encoded_text@.rank() == 4,
        covers(encoded_text, attention_mask) ==> (r matches Ok(t) && t.on_cpu() && t@.dtype == Dtype::F32 && t@.dims
            == side_by_side(encoded_text@.dims)),
{
    let (b, t, d, l) = encoded_text.dims4()?;
    proof {
        reveal(model::mean_keepdim);
        if covers(encoded_text, attention_mask) {
            let dims = encoded_text@.dims;
            lemmas::lemma_spread_common(dims.update(2, 1), dims);
            lemma_side_by_side(b as nat, t as nat, d as nat, l as nat);
            lemmas::lemma_common_dims(side_by_side(dims));
        }
    }
    let wide = encoded_text.to_dtype(Dtype::F32)?;
    let denom = wide.unary(UnOp::Sqr)?.mean_keepdim(2)?.shift(NORM_EPS)?.unary(UnOp::Sqrt)?;
    let width: usize = match d.checked_mul(l) {
        Some(w) => w,
        None => {
            return Err(Failure::Overflow);
        },
    };
    let normed = wide.broadcast(BinOp::Over, &denom)?.reshape3(b, t, width)?;
    normed.broadcast(BinOp::Times, &repeat_mask(attention_mask, b, t, width)?)
}

/// The number of tokens of each sample.
pub open spec fn lengths_of(attention_mask: TensorView) -> TensorView {
    model::sum(model::cast(attention_mask, Dtype::F32), seq![1int])
}

/// One for each of the last `lengths` of `t` positions, or of the first; zero for the
/// others.
pub open spec fn valid_of(lengths: TensorView, t: nat, left: bool) -> TensorView {
    let positions = model::unsqueeze(model::cast(model::range(t), Dtype::F32), 0);
    if left {
        let start = model::affine(lengths, model::number(MINUS_ONE), model::count(t));
        model::relation(RelOp::Ge, positions, model::unsqueeze(start, 1))
    } else {
        model::relation(RelOp::Lt, positions, model::unsqueeze(lengths, 1))
    }
}

/// Which positions hold a token.
fn valid_mask(lengths: &Array, t: usize, padding_side: &str, device: &candle_core::Device) -> (r: Result<
    Array,
    Failure,
>)
    ensures
        r matches Ok(m) ==> m@ == valid_of(lengths@, t as nat, padding_side@ == "left"@),
        array::is_main_memory(*device) && lengths.on_cpu() && lengths@.dtype == Dtype::F32 && lengths@.rank() == 1
            && model::fits(seq![t as nat]) && model::fits(seq![lengths@.dims[0], t as nat]) ==> (
        r matches Ok(m) && m.on_cpu() && m@.dtype == Dtype::U8 && m@.dims == seq![lengths@.dims[0], t as nat]),
{
    proof {
        if lengths@.rank() == 1 {
            let b = lengths@.dims[0];
            assert(lengths@.dims =~= seq![b]);
            assert(seq![b].insert(1, 1) =~= seq![b, 1]);
            assert(seq![t as nat].insert(0, 1) =~= seq![1, t as nat]);
            lemmas::lemma_table(b, t as nat);
        }
    }
    let positions = Array::range(t, device)?.to_dtype(Dtype::F32)?.unsqueeze(0)?;
    if same(padding_side, "left") {
        let start = lengths.affine(&Array::number(MINUS_ONE)?, &Array::count(t)?)?.unsqueeze(1)?;
        positions.relate(RelOp::Ge, &start)
    } else {
        positions.relate(RelOp::Lt, &lengths.unsqueeze(1)?)
    }
}

/// The mean of the tokens of each layer of each sample: `(B, 1, 1, L)`.
pub open spec fn masked_mean_of(wide: TensorView, mask_4d: TensorView, lengths: TensorView) -> TensorView {
    let total = model::sum(model::binary(BinOp::Times, wide, mask_4d), seq![1int, 2int]);
    let denom = model::reshape(
        model::affine(lengths, model::count(wide.dims[2]), model::number(ZERO)),
        seq![wide.dims[0], 1, 1, 1],
    );
    model::binary(
        BinOp::Over,
        model::unsqueeze(model::unsqueeze(total, 1), 1),
        model::affine(denom, model::number(ONE), model::number(NORM_EPS)),
    )
}

/// `wide` with `bound` added to padding, its tokens along one axis: `(B, T * D, L)`.
pub open spec fn fenced_of(wide: TensorView, mask_4d: TensorView, bound: Scalar) -> TensorView {
    let padded = model::affine(model::unary(UnOp::Neg, mask_4d), model::number(ONE), model::number(ONE));
    let fence = model::binary(
        BinOp::Times,
        padded,
        model::cast(model::number(bound), Dtype::F32),
    );
    model::reshape(
        model::binary(BinOp::Plus, wide, fence),
        seq![wide.dims[0], wide.dims[1] * wide.dims[2], wide.dims[3]],
    )
}

/// The distance between the smallest and the largest element of the tokens of each layer of
/// each sample: `(B, 1, 1, L)`.
pub open spec fn masked_range_of(wide: TensorView, mask_4d: TensorView) -> TensorView {
    let x_min = model::min(fenced_of(wide, mask_4d, LARGEST), 1);
    let x_max = model::max(fenced_of(wide, mask_4d, SMALLEST), 1);
    model::binary(
        BinOp::Minus,
        model::unsqueeze(model::unsqueeze(x_max, 1), 1),
        model::unsqueeze(model::unsqueeze(x_min, 1), 1),
    )
}

/// `8 * (x - mean) / (max - min + eps)` over the tokens of each layer, zero for padding; the
/// layers side by side.
pub open spec fn padded_norm_of(stacked: TensorView, attention_mask: TensorView, left: bool) -> TensorView {
    let (b, t, d, l) = (stacked.dims[0], stacked.dims[1], stacked.dims[2], stacked.dims[3]);
    let lengths = lengths_of(attention_mask);
    let mask = valid_of(lengths, t, left);
    let mask_4d = model::unsqueeze(model::unsqueeze(model::cast(mask, Dtype::F32), 2), 3);
    let wide = model::cast(stacked, Dtype::F32);
    let centred = model::affine(
        model::binary(BinOp::Minus, wide, masked_mean_of(wide, mask_4d, lengths)),
        model::number(EIGHT),
        model::number(ZERO),
    );
    let range = model::affine(
        masked_range_of(wide, mask_4d),
        model::number(ONE),
        model::number(NORM_EPS),
    );
    let normed = model::reshape(model::binary(BinOp::Over, centred, range), seq![b, t, d * l]);
    model::binary(BinOp::Times, normed, mask_rows(mask, b, t, d * l))
}

/// The shape of one number for each layer of each sample.
pub open spec fn per_layer(d: Seq<nat>) -> Seq<nat> {
    seq![d[0], 1, 1, d[3]]
}

/// Whether there are layers `(B, T, D, L)` in main memory and in single precision, and a mask
/// `(B, T, 1, 1)` of them.
pub open spec fn is_masked(wide: &Array, mask_4d: &Array) -> bool {
    let d = wide@.dims;
    &&& wide.on_cpu() && wide@.dtype == Dtype::F32 && d.len() == 4 && model::numel(d) > 0 && model::fits(d)
    &&& mask_4d.on_cpu() && mask_4d@.dtype == Dtype::F32 && mask_4d@.dims == seq![d[0], d[1], 1, 1]
}

/// What is computed on the way has no empty axis and can be addressed.
proof fn lemma_masked(d: Seq<nat>)
    requires
        d.len() == 4,
        model::numel(d) > 0,
        model::fits(d),
    ensures
        d[0] > 0 && d[1] > 0 && d[2] > 0 && d[3] > 0,
        d[0] <= usize::MAX && d[2] <= i64::MAX && d[1] * d[2] <= usize::MAX && d[1] * d[2] > 0,
        model::numel(seq![d[0], d[1] * d[2], d[3]]) == model::numel(d),
        model::fits(seq![d[0], d[1] * d[2], d[3]]),
        model::fits(seq![d[0], d[3]]) && model::fits(per_layer(d)),
        model::fits(seq![d[0], 1, 1, 1]),
        lemmas::spreads(seq![d[0], d[1], 1, 1], d),
        d[1] <= i64::MAX && model::fits(seq![d[1]]) && model::fits(seq![d[0], d[1]]),
{
    let (b, t, w, l) = (d[0], d[1], d[2], d[3]);
    assert(d =~= seq![b, t, w, l]);
    lemmas::lemma_axis_positive(d, 0);
    lemmas::lemma_axis_positive(d, 1);
    lemmas::lemma_axis_positive(d, 2);
    lemmas::lemma_axis_positive(d, 3);
    lemmas::lemma_extent_is_numel(d);
    lemmas::lemma_numel4(b, t, w, l);
    lemmas::lemma_numel3(b, t * w, l);
    let tw = t * w;
    assert(b * (t * w) * l == b * t * w * l) by (nonlinear_arith);
    assert(tw > 0) by (nonlinear_arith)
        requires
            tw == t * w,
            t > 0,
            w > 0,
    ;
    lemmas::lemma_factors(b, tw, l);
    lemmas::lemma_factors(t, w, 1);
    lemmas::lemma_numel2(b, l);
    lemmas::lemma_numel2(b, t);
    lemmas::lemma_numel1(t);
    lemmas::lemma_numel4(b, 1, 1, l);
    lemmas::lemma_numel4(b, 1, 1, 1);
    assert(b * 1 * 1 * l == b * l && b * 1 * 1 * 1 == b) by (nonlinear_arith);
    let bl = b * l;
    let n = b * tw * l;
    assert(0 < bl <= n) by (nonlinear_arith)
        requires
            bl == b * l,
            n == b * tw * l,
            tw > 0,
            b > 0,
            l > 0,
    ;
    let bt = b * t;
    assert(0 < bt <= b * t * w * l) by (nonlinear_arith)
        requires
            bt == b * t,
            b > 0,
            t > 0,
            w > 0,
            l > 0,
    ;
    assert(t <= bt) by (nonlinear_arith)
        requires
            bt == b * t,
            b > 0,
    ;
    lemmas::lemma_room(seq![b, tw, l], d);
    lemmas::lemma_room(seq![b, l], d);
    lemmas::lemma_room(seq![b, 1, 1, l], d);
    lemmas::lemma_room(seq![b, 1, 1, 1], d);
    lemmas::lemma_room(seq![b, t], d);
    lemmas::lemma_room(seq![t], d);
}

fn masked_mean(wide: &Array, mask_4d: &Array, lengths: &Array) -> (r: Result<Array, Failure>)
    ensures
        r matches Ok(t) ==> t@ == masked_mean_of(wide@, mask_4d@, lengths@),
        is_masked(wide, mask_4d) && lengths.on_cpu() && lengths@.dtype == Dtype::F32 && lengths@.dims == seq![
            wide@.dims[0],
        ] ==> (r matches Ok(t) && t.on_cpu() && t@.dtype == Dtype::F32 && t@.dims == per_layer(wide@.dims)),
{
    let (b, _t, d, _l) = wide.dims4()?;
    proof {
        if is_masked(wide, mask_4d) {
            let dims = wide@.dims;
            lemma_masked(wide@.dims);
            reveal(model::sum);
            reveal_with_fuel(model::without, 3);
            lemmas::lemma_spread_common(mask_4d@.dims, dims);
            let axes = seq![1int, 2int];
            assert(axes.drop_last() =~= seq![1int]);
            assert(seq![1int].drop_last() =~= Seq::<int>::empty());
            assert(dims.remove(2).remove(1) =~= seq![dims[0], dims[3]]);
            assert(seq![dims[0], dims[3]].insert(1, 1).insert(1, 1) =~= per_layer(dims));
            lemmas::lemma_spread_common(seq![dims[0], 1, 1, 1], per_layer(dims));
            lemmas::lemma_numel1(dims[0]);
            lemmas::lemma_numel4(dims[0], 1, 1, 1);
            let b0 = dims[0];
            assert(b0 * 1 * 1 * 1 == b0) by (nonlinear_arith);
        }
    }
    let total = wide.broadcast(BinOp::Times, mask_4d)?.sum2(1, 2)?;
    let denom = lengths.scale_by(&Array::count(d)?)?.reshape4(b, 1, 1, 1)?;
    total.unsqueeze(1)?.unsqueeze(1)?.broadcast(BinOp::Over, &denom.shift(NORM_EPS)?)
}

fn fenced(wide: &Array, mask_4d: &Array, bound: Scalar) -> (r: Result<Array, Failure>)
    ensures
        r matches Ok(t) ==> t@ == fenced_of(wide@, mask_4d@, bound),
        is_masked(wide, mask_4d) ==> (r matches Ok(t) && t.on_cpu() && t@.dtype == Dtype::F32 && t@.dims == seq![
            wide@.dims[0],
            wide@.dims[1] * wide@.dims[2],
            wide@.dims[3],
        ]),
{
    let (b, t, d, l) = wide.dims4()?;
    proof {
        if is_masked(wide, mask_4d) {
            lemma_masked(wide@.dims);
            lemmas::lemma_spread_common(mask_4d@.dims, wide@.dims);
            lemmas::lemma_number_spreads(mask_4d@.dims);
        }
    }
    let rows: usize = match t.checked_mul(d) {
        Some(n) => n,
        None => {
            return Err(Failure::Overflow);
        },
    };
    let padded = mask_4d.unary(UnOp::Neg)?.shift(ONE)?;
    let bound = Array::number(bound)?.to_dtype(Dtype::F32)?.to_device(&wide.device())?;
    let fence = padded.broadcast(BinOp::Times, &bound)?;
    wide.broadcast(BinOp::Plus, &fence)?.reshape3(b, rows, l)
}

fn masked_range(wide: &Array, mask_4d: &Array) -> (r: Result<Array, Failure>)
    ensures
        r matches Ok(t) ==> t@ == masked_range_of(wide@, mask_4d@),
        is_masked(wide, mask_4d) ==> (r matches Ok(t) && t.on_cpu() && t@.dtype == Dtype::F32 && t@.dims == per_layer(
            wide@.dims,
        )),
{
    proof {
        reveal(model::min);
        reveal(model::max);
        if is_masked(wide, mask_4d) {
            let dims = wide@.dims;
            let flat = seq![dims[0], dims[1] * dims[2], dims[3]];
            lemma_masked(dims);
            assert(flat.remove(1) =~= seq![dims[0], dims[3]]);
            assert(seq![dims[0], dims[3]].insert(1, 1).insert(1, 1) =~= per_layer(dims));
        }
    }
    let x_min = fenced(wide, mask_4d, LARGEST)?.smallest(1)?.unsqueeze(1)?.unsqueeze(1)?;
    let x_max = fenced(wide, mask_4d, SMALLEST)?.largest(1)?.unsqueeze(1)?.unsqueeze(1)?;
    x_max.pairwise(BinOp::Minus, &x_min)
}

/// Normalises the tokens of each layer to a common range and puts the layers side by side.
///
/// `encoded_text` has shape `(B, T, D, L)`; the result has shape `(B, T, D * L)`.
pub fn norm_and_concat_padded_batch(encoded_text: &Array, attention_mask: &Array, padding_side: &str) -> (r: Result<
    Array,
    Failure,
>)
    ensures
        r matches Ok(t) ==> t@ == padded_norm_of(encoded_text@, attention_mask@, padding_side@ == "left"@),
        r is Ok ==> encoded_text@.rank() == 4,
        covers(encoded_text, attention_mask) ==> (r matches Ok(t) && t.on_cpu() && t@.dtype == Dtype::F32 && t@.dims
            == side_by_side(encoded_text@.dims)),
{
    let (b, t, d, l) = encoded_text.dims4()?;
    proof {
        if covers(encoded_text, attention_mask) {
            let dims = encoded_text@.dims;
            lemma_masked(dims);
            lemma_side_by_side(b as nat, t as nat, d as nat, l as nat);
            lemmas::lemma_common_dims(side_by_side(dims));
            reveal(model::sum);
            reveal_with_fuel(model::without, 2);
            assert(seq![1int].drop_last() =~= Seq::<int>::empty());
            assert(attention_mask@.dims.remove(1) =~= seq![b as nat]);
            assert(seq![b as nat, t as nat].insert(2, 1).insert(3, 1) =~= seq![b as nat, t as nat, 1, 1]);
            lemmas::lemma_spread_common(per_layer(dims), dims);
        }
    }
    let lengths = attention_mask.to_dtype(Dtype::F32)?.sum1(1)?;
    let mask = valid_mask(&lengths, t, padding_side, &encoded_text.device())?;
    let mask_4d = mask.to_dtype(Dtype::F32)?.unsqueeze(2)?.unsqueeze(3)?;
    let wide = encoded_text.to_dtype(Dtype::F32)?;
    let mean = masked_mean(&wide, &mask_4d, &lengths)?;
    let range = masked_range(&wide, &mask_4d)?;
    let centred = wide.broadcast(BinOp::Minus, &mean)?.scale(EIGHT)?;
    let width: usize = match d.checked_mul(l) {
        Some(w) => w,
        None => {
            return Err(Failure::Overflow);
        },
    };
    let normed = centred.broadcast(BinOp::Over, &range.shift(NORM_EPS)?)?.reshape3(b, t, width)?;
    normed.broadcast(BinOp::Times, &repeat_mask(&mask, b, t, width)?)
}

} // verus!
