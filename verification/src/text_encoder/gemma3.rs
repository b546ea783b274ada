//! The language model.
use vstd::prelude::*;

use crate::array::{self, kernels, Array};
use crate::audio_vae::attention::MINUS_HALF;
use crate::base::config::{NORM_EPS, TEN_THOUSAND};
use crate::error::Failure;
use crate::lemmas;
use crate::model::{self, BinOp, Dtype, RelOp, TensorView, UnOp};
use crate::nn::linear::{self, Linear};
use crate::nn::rope;
use crate::nn::lora;
use crate::reals::{self, Functions};
use crate::scalar::{Scalar, HALF, MINUS_ONE, ONE, TWO, ZERO};
use crate::weights::{self, Weights, WeightsView};

verus! {

/// -10000: what is added to a score that is not to count.
pub const MASKED: Scalar = 0xC0C3_8800_0000_0000;

/// 1000000
pub const MILLION: Scalar = 0x412E_8480_0000_0000;

/// 8
pub const EIGHT: Scalar = 0x4020_0000_0000_0000;

/// 0.044715
pub const GELU_CUBIC: Scalar = 0x3FA6_E4E2_6D48_01F7;

/// The binary64 number nearest to the square root of two over pi.
pub const GELU_SLOPE: Scalar = 0x3FE9_8845_33D4_3651;

/// The sizes of the language model.
#[derive(Clone, Copy, PartialEq, Eq, Structural, Debug)]
pub struct Gemma3Config {
    pub hidden_size: usize,
    pub num_hidden_layers: usize,
    pub num_attention_heads: usize,
    pub num_key_value_heads: usize,
    pub head_dim: usize,
    pub intermediate_size: usize,
    pub rms_norm_eps: Scalar,
    pub rope_theta: Scalar,
    pub rope_local_base_freq: Scalar,
    pub rope_scaling_factor: Scalar,
    pub sliding_window: usize,
    pub sliding_window_pattern: usize,
    pub vocab_size: usize,
}

/// The sizes of the language model with twelve billion parameters.
pub open spec fn default_config() -> Gemma3Config {
    Gemma3Config {
        hidden_size: 3840,
        num_hidden_layers: 48,
        num_attention_heads: 16,
        num_key_value_heads: 8,
        head_dim: 256,
        intermediate_size: 15360,
        rms_norm_eps: NORM_EPS,
        rope_theta: MILLION,
        rope_local_base_freq: TEN_THOUSAND,
        rope_scaling_factor: EIGHT,
        sliding_window: 1024,
        sliding_window_pattern: 6,
        vocab_size: 262208,
    }
}

impl Default for Gemma3Config {
    fn default() -> (r: Gemma3Config)
        ensures
            r == default_config(),
    {
        Gemma3Config {
            hidden_size: 3840,
            num_hidden_layers: 48,
            num_attention_heads: 16,
            num_key_value_heads: 8,
            head_dim: 256,
            intermediate_size: 15360,
            rms_norm_eps: NORM_EPS,
            rope_theta: MILLION,
            rope_local_base_freq: TEN_THOUSAND,
            rope_scaling_factor: EIGHT,
            sliding_window: 1024,
            sliding_window_pattern: 6,
            vocab_size: 262208,
        }
    }
}

// Rotation by position.

/// `1 / theta^(2 i / head_dim) / scaling`.
pub open spec fn inv_freq_at(head_dim: nat, theta: Scalar, scaling: Scalar, i: nat) -> TensorView {
    let exponent = model::binary(
        BinOp::Over,
        model::affine(model::count(i), model::number(TWO), model::number(ZERO)),
        model::count(head_dim),
    );
    let freq = model::unary(UnOp::Recip, model::powf(model::number(theta), exponent));
    model::cast(model::binary(BinOp::Over, freq, model::number(scaling)), Dtype::F32)
}

/// The frequency of each pair of elements of a head.
pub open spec fn inv_freq_of(head_dim: nat, theta: Scalar, scaling: Scalar) -> TensorView {
    if head_dim < 2 {
        model::zeros(seq![0], Dtype::F32)
    } else {
        model::stack(Seq::new(head_dim / 2, |i: int| inv_freq_at(head_dim, theta, scaling, i as nat)), 0)
    }
}

/// Computes the frequency of each pair of elements of a head.
pub fn compute_inv_freq(head_dim: usize, theta: Scalar, scaling_factor: Scalar, device: &candle_core::Device) -> (r:
    Result<Array, Failure>)
    ensures
        r matches Ok(t) ==> t@ == inv_freq_of(head_dim as nat, theta, scaling_factor),
        array::is_main_memory(*device) && model::fits(
            seq![head_dim as nat / 2],
        ) ==> (r matches Ok(t) && t.on_cpu() && t@.dims == seq![head_dim as nat / 2] && t@.dtype == Dtype::F32),
{
    let half: usize = head_dim / 2;
    if half == 0 {
        let dims: Vec<usize> = vec![0];
        assert(model::nats(dims@) =~= seq![0]);
        return Array::zeros(&dims, Dtype::F32, device);
    }
    let mut parts: Vec<Array> = Vec::new();
    let mut i: usize = 0;
    while i < half
        invariant
            i <= half,
            parts.len() == i,
            half == head_dim / 2,
            forall|k: int|
                0 <= k < i ==> (#[trigger] parts[k]).on_cpu() && parts[k]@.rank() == 0 && parts[k]@.dtype
                    == Dtype::F32,
            forall|k: int|
                0 <= k < i ==> (#[trigger] parts[k])@ == inv_freq_at(
                    head_dim as nat,
                    theta,
                    scaling_factor,
                    k as nat,
                ),
        decreases half - i,
    {
        let exponent = Array::count(i)?.scale(TWO)?.broadcast(BinOp::Over, &Array::count(head_dim)?)?;
        let freq = Array::number(theta)?.powf(&exponent)?.unary(UnOp::Recip)?;
        parts.push(freq.broadcast(BinOp::Over, &Array::number(scaling_factor)?)?.to_dtype(Dtype::F32)?);
        i = i + 1;
    }
    assert(array::views(parts@) =~= Seq::new(
        (head_dim / 2) as nat,
        |i: int| inv_freq_at(head_dim as nat, theta, scaling_factor, i as nat),
    ));
    proof {
        if half > 0 {
            assert forall|k: int| 0 <= k < parts.len() implies (#[trigger] parts[k])@.dims == parts[0]@.dims by {
                assert(parts[k]@.dims =~= Seq::<nat>::empty() && parts[0]@.dims =~= Seq::<nat>::empty());
            }
            assert(parts[0]@.dims.insert(0, half as nat) =~= seq![half as nat]);
        }
    }
    Array::stack(&parts, 0)?.to_device(device)
}

/// The angle of each position `0 .. len` at each frequency.
pub open spec fn angles_of(len: nat, inv_freq: TensorView) -> TensorView {
    model::binary(
        BinOp::Times,
        model::unsqueeze(model::cast(model::range(len), Dtype::F32), 1),
        model::unsqueeze(model::cast(inv_freq, Dtype::F32), 0),
    )
}

/// The cosines and sines of the positions `0 .. max_len`.
pub fn precompute_rope_tables(max_len: usize, inv_freq: &Array, device: &candle_core::Device) -> (r: Result<
    (Array, Array),
    Failure,
>)
    ensures
        r matches Ok(t) ==> t.0@ == model::unary(UnOp::Cos, angles_of(max_len as nat, inv_freq@)) && t.1@
            == model::unary(UnOp::Sin, angles_of(max_len as nat, inv_freq@)),
        array::is_main_memory(*device) && inv_freq.usable() && inv_freq@.rank() == 1 && model::fits(
            seq![max_len as nat],
        ) && model::fits(seq![max_len as nat, inv_freq@.dims[0]]) ==> r is Ok,
{
    let pos = Array::range(max_len, device)?.to_dtype(Dtype::F32)?.unsqueeze(1)?;
    let freq = inv_freq.to_dtype(Dtype::F32)?.unsqueeze(0)?;
    proof {
        assert(pos@.dims =~= seq![max_len as nat, 1]);
        if inv_freq@.rank() == 1 {
            assert(freq@.dims =~= seq![1, inv_freq@.dims[0]]);
            lemmas::lemma_table(max_len as nat, inv_freq@.dims[0]);
        }
    }
    let freqs = pos.broadcast(BinOp::Times, &freq)?;
    Ok((freqs.unary(UnOp::Cos)?, freqs.unary(UnOp::Sin)?))
}

/// Element `i` of the first half of each head and element `i` of the second, rotated
/// against each other.
pub open spec fn split_rope_of(x: TensorView, cos: TensorView, sin: TensorView) -> TensorView {
    let half = x.dims[3] / 2;
    let cos = model::cast(cos, x.dtype);
    let sin = model::cast(sin, x.dtype);
    let x1 = model::narrow(x, 3, 0, half);
    let x2 = model::narrow(x, 3, half, half);
    let out1 = model::binary(
        BinOp::Minus,
        model::binary(BinOp::Times, x1, cos),
        model::binary(BinOp::Times, x2, sin),
    );
    let out2 = model::binary(
        BinOp::Plus,
        model::binary(BinOp::Times, x2, cos),
        model::binary(BinOp::Times, x1, sin),
    );
    model::cat(seq![out1, out2], 3)
}

/// Whether `turn` can be repeated to the shape of one half of the last axis of `x`, in main
/// memory.
pub open spec fn half_spans(x: &Array, turn: &Array) -> bool {
    let half = x@.dims.update(3, x@.dims[3] / 2);
    &&& x.on_cpu() && x@.dtype.float() && turn.usable() && x@.dims[3] % 2 == 0
    &&& model::have_common_dims(half, turn@.dims) && model::common_dims(half, turn@.dims) == half
}

/// Rotates the halves of each head against each other.
pub fn apply_split_rope(x: &Array, cos: &Array, sin: &Array) -> (r: Result<Array, Failure>)
    ensures
        r matches Ok(t) ==> t@ == split_rope_of(x@, cos@, sin@),
        r is Ok ==> x@.rank() > 3,
        x@.rank() == 4 && model::fits(x@.dims) && half_spans(x, cos) && half_spans(x, sin) ==> (r matches Ok(t)
            && t.on_cpu() && t@.dims == x@.dims && t@.dtype == x@.dtype),
{
    let half: usize = x.dim(3)? / 2;
    let cos = cos.to_dtype(x.dtype())?;
    let sin = sin.to_dtype(x.dtype())?;
    let x1 = x.narrow(3, 0, half)?;
    let x2 = x.narrow(3, half, half)?;
    proof {
        lemmas::lemma_narrow_dims(x@, 3, 0, half as nat);
        lemmas::lemma_narrow_dims(x@, 3, half as nat, half as nat);
    }
    let out1 = x1.broadcast(BinOp::Times, &cos)?.pairwise(BinOp::Minus, &x2.broadcast(BinOp::Times, &sin)?)?;
    let out2 = x2.broadcast(BinOp::Times, &cos)?.pairwise(BinOp::Plus, &x1.broadcast(BinOp::Times, &sin)?)?;
    proof {
        if x@.rank() == 4 && x@.dims[3] % 2 == 0 && out1@.dims == x1@.dims && out2@.dims == x1@.dims {
            rope::lemma_half_join(out1@, out2@, x@.dims);
        }
    }
    Array::join(out1, out2, 3)
}

/// Each of the heads `n` times, one after the other.
pub open spec fn repeat_kv_of(x: TensorView, n: nat) -> TensorView {
    if n == 1 {
        x
    } else {
        let (b, h, t, d) = (x.dims[0], x.dims[1], x.dims[2], x.dims[3]);
        model::reshape(
            model::broadcast_to(model::unsqueeze(x, 2), seq![b, h, n, t, d]),
            seq![b, h * n, t, d],
        )
    }
}

/// The shape of heads that are repeated.
pub open spec fn repeated(d: Seq<nat>, n: nat) -> Seq<nat> {
    seq![d[0], d[1] * n, d[2], d[3]]
}

/// Repeated heads hold as many numbers side by side as one after the other.
proof fn lemma_repeated(b: nat, h: nat, n: nat, t: nat, d: nat)
    requires
        model::numel(seq![b, h * n, t, d]) > 0,
        model::fits(seq![b, h * n, t, d]),
    ensures
        model::numel(seq![b, h, n, t, d]) == model::numel(seq![b, h * n, t, d]),
        model::fits(seq![b, h, n, t, d]),
        h * n <= usize::MAX,
{
    let flat: Seq<nat> = seq![b, h * n, t, d];
    lemmas::lemma_numel5(b, h, n, t, d);
    lemmas::lemma_numel4(b, h * n, t, d);
    assert(b * h * n * t * d == b * (h * n) * t * d) by (nonlinear_arith);
    lemmas::lemma_room(seq![b, h, n, t, d], flat);
    lemmas::lemma_extent_is_numel(flat);
    lemmas::lemma_factors(b * (h * n), t, d);
    lemmas::lemma_factors(b, h * n, 1);
}

/// Tokens that are split into heads hold as many numbers as before.
proof fn lemma_heads(b: nat, t: nat, h: nat, d: nat)
    requires
        b > 0 && t > 0 && h > 0 && d > 0,
        model::fits(seq![b, t, h * d]),
    ensures
        model::numel(seq![b, t, h * d]) > 0,
        model::numel(seq![b, t, h, d]) == model::numel(seq![b, t, h * d]),
        model::numel(seq![b, h, t, d]) == model::numel(seq![b, t, h * d]),
        model::fits(seq![b, t, h, d]),
        model::fits(seq![b, h, t, d]),
        h * d <= usize::MAX,
{
    let flat: Seq<nat> = seq![b, t, h * d];
    lemmas::lemma_numel3(b, t, h * d);
    lemmas::lemma_numel4(b, t, h, d);
    lemmas::lemma_numel4(b, h, t, d);
    let bt = b * t;
    assert(bt * (h * d) == bt * h * d) by (nonlinear_arith);
    assert(b * h * t == b * t * h) by (nonlinear_arith);
    assert(bt > 0) by (nonlinear_arith)
        requires
            bt == b * t,
            b > 0,
            t > 0,
    ;
    assert(bt * (h * d) > 0) by (nonlinear_arith)
        requires
            bt > 0,
            h > 0,
            d > 0,
    ;
    lemmas::lemma_factors(b, t, h * d);
    lemmas::lemma_extent_is_numel(flat);
    lemmas::lemma_room(seq![b, t, h, d], flat);
    lemmas::lemma_room(seq![b, h, t, d], flat);
}

/// Repeats each of the heads.
pub fn repeat_kv(x: &Array, n_rep: usize) -> (r: Result<Array, Failure>)
    ensures
        r matches Ok(t) ==> t@ == repeat_kv_of(x@, n_rep as nat),
        n_rep == 1 ==> r is Ok,
        r is Ok && n_rep != 1 ==> x@.rank() == 4,
        x.usable() && x@.rank() == 4 && model::numel(repeated(x@.dims, n_rep as nat)) > 0 && model::fits(
            repeated(x@.dims, n_rep as nat),
        ) ==> (r matches Ok(t) && t.on_cpu() && t@.dtype == x@.dtype && t@.dims == repeated(x@.dims, n_rep as nat)),
{
    proof {
        reveal(model::broadcast_to);
        if x@.rank() == 4 {
            let d = x@.dims;
            assert(d[1] * 1 == d[1]) by (nonlinear_arith);
            if n_rep == 1 {
                assert(repeated(d, 1) =~= d);
            }
            if model::numel(repeated(d, n_rep as nat)) > 0 && model::fits(repeated(d, n_rep as nat)) {
                lemma_repeated(d[0], d[1], n_rep as nat, d[2], d[3]);
            }
        }
    }
    if n_rep == 1 {
        return Ok(x.clone());
    }
    let (b, kv_h, t, d) = x.dims4()?;
    assert(x@.dims.insert(2, 1) =~= seq![b as nat, kv_h as nat, 1, t as nat, d as nat]);
    let heads: usize = match kv_h.checked_mul(n_rep) {
        Some(h) => h,
        None => {
            return Err(Failure::Overflow);
        },
    };
    let dims: Vec<usize> = vec![b, kv_h, n_rep, t, d];
    assert(model::nats(dims@) =~= seq![b as nat, kv_h as nat, n_rep as nat, t as nat, d as nat]);
    x.unsqueeze(2)?.expand(&dims)?.reshape4(b, heads, t, d)
}

// Masks.

/// Zero where a position may attend to another, [`MASKED`] or twice that where not: to
/// later positions, and beyond the window to earlier ones.
pub open spec fn causal_mask_of(seq_len: nat, window: Option<nat>, dtype: Dtype) -> TensorView {
    let rows = model::unsqueeze(model::cast(model::range(seq_len), Dtype::F32), 1);
    let cols = model::unsqueeze(model::cast(model::range(seq_len), Dtype::F32), 0);
    let later = penalty_of(model::relation(RelOp::Gt, cols, rows));
    let mask = match window {
        Some(w) => {
            let distance = model::binary(BinOp::Minus, rows, cols);
            let far = model::relation(RelOp::Gt, distance, model::whole(w, Dtype::F32));
            model::binary(BinOp::Plus, later, penalty_of(far))
        },
        None => later,
    };
    model::cast(model::unsqueeze(model::unsqueeze(mask, 0), 0), dtype)
}

/// [`MASKED`] for each one, zero for each zero.
pub open spec fn penalty_of(flags: TensorView) -> TensorView {
    model::affine(model::cast(flags, Dtype::F32), model::number(MASKED), model::number(ZERO))
}

/// The mask that keeps positions from attending to later ones and, with a window, to
/// those too far back: `(1, 1, T, T)`.
pub fn build_causal_mask(
    seq_len: usize,
    sliding_window: Option<usize>,
    dtype: Dtype,
    device: &candle_core::Device,
) -> (r: Result<Array, Failure>)
    ensures
        r matches Ok(t) ==> t@ == causal_mask_of(
            seq_len as nat,
            (if sliding_window is Some { Some(sliding_window->0 as nat) } else { None }),
            dtype,
        ),
        array::is_main_memory(*device) && dtype.plain() && model::fits(seq![seq_len as nat]) && model::fits(
            seq![seq_len as nat, seq_len as nat],
        ) && (sliding_window is Some ==> sliding_window->0 <= i64::MAX) ==> (r matches Ok(t) && t.on_cpu()),
        r matches Ok(t) ==> t@.dims == seq![1, 1, seq_len as nat, seq_len as nat],
{
    let rows = Array::range(seq_len, device)?.to_dtype(Dtype::F32)?.unsqueeze(1)?;
    let cols = Array::range(seq_len, device)?.to_dtype(Dtype::F32)?.unsqueeze(0)?;
    proof {
        let n = seq_len as nat;
        assert(rows@.dims =~= seq![n, 1]);
        assert(cols@.dims =~= seq![1, n]);
        lemmas::lemma_table(n, n);
    }
    let later = cols.relate(RelOp::Gt, &rows)?.to_dtype(Dtype::F32)?.scale(MASKED)?;
    let mask = match sliding_window {
        Some(w) => {
            let distance = rows.broadcast(BinOp::Minus, &cols)?;
            let reach = Array::whole(w, Dtype::F32, device)?;
            proof {
                lemmas::lemma_with_single(BinOp::Minus, distance@, reach@);
            }
            let far = distance.relate(RelOp::Gt, &reach)?;
            later.pairwise(BinOp::Plus, &far.to_dtype(Dtype::F32)?.scale(MASKED)?)?
        },
        None => later,
    };
    proof {
        let n = seq_len as nat;
        assert(mask@.dims.insert(0, 1).insert(0, 1) =~= seq![1, 1, n, n]);
    }
    mask.unsqueeze(0)?.unsqueeze(0)?.to_dtype(dtype)
}

/// `(mask - 1) * 10000` for each token, `(B, 1, 1, T)`, in single precision.
pub open spec fn padding_penalty_of(attention_mask: TensorView) -> TensorView {
    let wide = model::cast(attention_mask, Dtype::F32);
    let less = model::affine(wide, model::number(ONE), model::number(MINUS_ONE));
    let penalty = model::affine(less, model::number(TEN_THOUSAND), model::number(ZERO));
    model::unsqueeze(model::unsqueeze(penalty, 1), 1)
}

/// A causal mask and a mask of padding in one.
pub open spec fn combined_mask_of(causal: TensorView, attention_mask: TensorView, dtype: Dtype) -> TensorView {
    model::cast(
        model::binary(
            BinOp::Plus,
            model::cast(causal, Dtype::F32),
            padding_penalty_of(attention_mask),
        ),
        dtype,
    )
}

/// The common shape of a mask of positions and one of the padding of each sample.
proof fn lemma_padded_square(b: nat, t: nat)
    ensures
        model::have_common_dims(seq![1, 1, t, t], seq![b, 1, 1, t]),
        model::common_dims(seq![1, 1, t, t], seq![b, 1, 1, t]) == seq![b, 1, t, t],
{
    let (x, y): (Seq<nat>, Seq<nat>) = (seq![1, 1, t, t], seq![b, 1, 1, t]);
    assert(model::size_from_last(x, 0) == t && model::size_from_last(x, 1) == t && model::size_from_last(x, 2) == 1
        && model::size_from_last(x, 3) == 1);
    assert(model::size_from_last(y, 0) == t && model::size_from_last(y, 1) == 1 && model::size_from_last(y, 2) == 1
        && model::size_from_last(y, 3) == b);
    assert(model::common_dims(x, y) =~= seq![b, 1, t, t]);
}

/// Adds to a causal mask that no position attends to padding.
pub fn combine_masks(causal_mask: &Array, attention_mask: &Array, dtype: Dtype) -> (r: Result<Array, Failure>)
    ensures
        r matches Ok(t) ==> t@ == combined_mask_of(causal_mask@, attention_mask@, dtype),
        causal_mask.usable() && attention_mask.usable() && dtype.plain() && attention_mask@.rank() == 2
            && causal_mask@.dims == seq![1, 1, attention_mask@.dims[1], attention_mask@.dims[1]] && model::fits(
            seq![attention_mask@.dims[0], 1, attention_mask@.dims[1], attention_mask@.dims[1]],
        ) ==> (r matches Ok(t) && t.on_cpu() && t@.dtype == dtype && t@.dims == seq![
            attention_mask@.dims[0],
            1,
            attention_mask@.dims[1],
            attention_mask@.dims[1],
        ]),
{
    let pad = attention_mask.to_dtype(Dtype::F32)?.shift(MINUS_ONE)?.scale(TEN_THOUSAND)?;
    let pad = pad.unsqueeze(1)?.unsqueeze(1)?;
    proof {
        if attention_mask@.rank() == 2 {
            let (b, t) = (attention_mask@.dims[0], attention_mask@.dims[1]);
            assert(pad@.dims =~= seq![b, 1, 1, t]);
            lemma_padded_square(b, t);
        }
    }
    causal_mask.to_dtype(Dtype::F32)?.broadcast(BinOp::Plus, &pad)?.to_dtype(dtype)
}

// Layers.

/// `x / sqrt(mean(x^2) + eps)` for each head, times one plus the weight.
pub open spec fn per_head_norm_of(x: TensorView, weight: TensorView, eps: Scalar) -> TensorView {
    let wide = model::cast(x, Dtype::F32);
    let mean_sq = model::mean_keepdim(model::unary(UnOp::Sqr, wide), 3);
    let rms = model::unary(
        UnOp::Sqrt,
        model::affine(mean_sq, model::number(ONE), model::number(eps)),
    );
    let w = model::affine(model::cast(weight, Dtype::F32), model::number(ONE), model::number(ONE));
    model::cast(model::binary(BinOp::Times, model::binary(BinOp::Over, wide, rms), w), x.dtype)
}

/// Normalises each head.
pub fn per_head_rms_norm(x: &Array, weight: &Array, eps: Scalar) -> (r: Result<Array, Failure>)
    ensures
        r matches Ok(t) ==> t@ == per_head_norm_of(x@, weight@, eps),
        r is Ok ==> x@.rank() > 3,
        x.usable() && x@.rank() > 3 && weight.usable() && model::have_common_dims(x@.dims, weight@.dims)
            && model::common_dims(x@.dims, weight@.dims) == x@.dims ==> (r matches Ok(t) && t.on_cpu() && t@.dims
            == x@.dims && t@.dtype == x@.dtype),
{
    proof {
        reveal(model::mean_keepdim);
    }
    let wide = x.to_dtype(Dtype::F32)?;
    let rms = wide.unary(UnOp::Sqr)?.mean_keepdim(3)?.shift(eps)?.unary(UnOp::Sqrt)?;
    let w = weight.to_dtype(Dtype::F32)?.shift(ONE)?;
    proof {
        lemmas::lemma_spread_common(rms@.dims, wide@.dims);
    }
    wide.broadcast(BinOp::Over, &rms)?.broadcast(BinOp::Times, &w)?.to_dtype(x.dtype())
}

/// `x * rsqrt(mean(x^2) + eps)` over the last axis, times one plus the weight.
pub open spec fn gemma_norm_of(x: TensorView, weight: TensorView, eps: Scalar) -> TensorView {
    let wide = model::cast(x, Dtype::F32);
    let variance = model::mean_keepdim(model::unary(UnOp::Sqr, wide), x.rank() - 1);
    let rsqrt = model::unary(
        UnOp::Recip,
        model::unary(
            UnOp::Sqrt,
            model::affine(variance, model::number(ONE), model::number(eps)),
        ),
    );
    let w = model::affine(model::cast(weight, Dtype::F32), model::number(ONE), model::number(ONE));
    model::cast(model::binary(BinOp::Times, model::binary(BinOp::Times, wide, rsqrt), w), x.dtype)
}

/// Normalises over the last axis.
pub fn gemma_rms_norm(x: &Array, weight: &Array, eps: Scalar) -> (r: Result<Array, Failure>)
    ensures
        r matches Ok(t) ==> t@ == gemma_norm_of(x@, weight@, eps),
        x@.rank() == 0 ==> r == Err::<Array, Failure>(Failure::Shape),
        x.usable() && x@.rank() > 0 && weight.usable() && model::have_common_dims(x@.dims, weight@.dims)
            && model::common_dims(x@.dims, weight@.dims) == x@.dims ==> (r matches Ok(t) && t.on_cpu() && t@.dims
            == x@.dims && t@.dtype == x@.dtype),
{
    proof {
        reveal(model::mean_keepdim);
    }
    let rank: usize = x.rank();
    if rank == 0 {
        return Err(Failure::Shape);
    }
    let wide = x.to_dtype(Dtype::F32)?;
    let variance = wide.unary(UnOp::Sqr)?.mean_keepdim(rank - 1)?;
    let rsqrt = variance.shift(eps)?.unary(UnOp::Sqrt)?.unary(UnOp::Recip)?;
    let w = weight.to_dtype(Dtype::F32)?.shift(ONE)?;
    proof {
        lemmas::lemma_spread_common(rsqrt@.dims, wide@.dims);
    }
    wide.broadcast(BinOp::Times, &rsqrt)?.broadcast(BinOp::Times, &w)?.to_dtype(x.dtype())
}

/// Attention in which several query heads share a key head.
pub struct Gemma3Attention {
    pub q_proj: Linear,
    pub k_proj: Linear,
    pub v_proj: Linear,
    pub o_proj: Linear,
    pub q_norm_weight: Array,
    pub k_norm_weight: Array,
    pub num_heads: usize,
    pub num_kv_heads: usize,
    pub num_kv_groups: usize,
    pub head_dim: usize,
    pub rms_norm_eps: Scalar,
}

impl Gemma3Attention {
    /// Whether this is the attention that a checkpoint holds.
    #[verifier::opaque]
    pub open spec fn loaded(&self, cfg: Gemma3Config, vb: WeightsView) -> bool {
        &&& self.q_proj@ == lora::linear_no_bias_of(vb.pp("q_proj"@), None)
        &&& self.k_proj@ == lora::linear_no_bias_of(vb.pp("k_proj"@), None)
        &&& self.v_proj@ == lora::linear_no_bias_of(vb.pp("v_proj"@), None)
        &&& self.o_proj@ == lora::linear_no_bias_of(vb.pp("o_proj"@), None)
        &&& self.q_norm_weight@ == vb.pp("q_norm"@).get("weight"@)
        &&& self.k_norm_weight@ == vb.pp("k_norm"@).get("weight"@)
        &&& self.num_heads == cfg.num_attention_heads
        &&& self.num_kv_heads == cfg.num_key_value_heads
        &&& cfg.num_key_value_heads > 0
        &&& self.num_kv_groups == cfg.num_attention_heads as nat / cfg.num_key_value_heads as nat
        &&& self.head_dim == cfg.head_dim
        &&& self.rms_norm_eps == cfg.rms_norm_eps
    }

    /// Whether a checkpoint holds an attention of these sizes.
    #[verifier::opaque]
    pub open spec fn present(cfg: Gemma3Config, vb: WeightsView) -> bool {
        let h_dim = cfg.num_attention_heads as nat * cfg.head_dim as nat;
        let kv_dim = cfg.num_key_value_heads as nat * cfg.head_dim as nat;
        let d = cfg.hidden_size as nat;
        &&& cfg.num_key_value_heads > 0
        &&& lora::has_linear(vb.pp("q_proj"@), None, d, h_dim, false)
        &&& lora::has_linear(vb.pp("k_proj"@), None, d, kv_dim, false)
        &&& lora::has_linear(vb.pp("v_proj"@), None, d, kv_dim, false)
        &&& lora::has_linear(vb.pp("o_proj"@), None, h_dim, d, false)
        &&& vb.pp("q_norm"@).holds("weight"@, seq![cfg.head_dim as nat])
        &&& vb.pp("k_norm"@).holds("weight"@, seq![cfg.head_dim as nat])
    }

    pub fn new(cfg: &Gemma3Config, vb: &Weights) -> (r: Result<Gemma3Attention, Failure>)
        ensures
            r matches Ok(a) ==> a.loaded(*cfg, vb@),
            r is Ok ==> Gemma3Attention::present(*cfg, vb@),
            vb@.sound() && Gemma3Attention::present(*cfg, vb@) ==> r is Ok,
    {
        proof {
            reveal(Gemma3Attention::loaded);
            reveal(Gemma3Attention::present);
        }
        if cfg.num_key_value_heads == 0 {
            return Err(Failure::Shape);
        }
        proof {
            let h = cfg.num_attention_heads as nat * cfg.head_dim as nat;
            let kv = cfg.num_key_value_heads as nat * cfg.head_dim as nat;
            let d = cfg.hidden_size as nat;
            if vb@.sound() && Gemma3Attention::present(*cfg, vb@) {
                weights::lemma_axis_counts(vb@.pp("q_proj"@), "weight"@, seq![h, d], 0);
                weights::lemma_axis_counts(vb@.pp("k_proj"@), "weight"@, seq![kv, d], 0);
            }
        }
        let (h_dim, kv_dim): (usize, usize) = match (
            cfg.num_attention_heads.checked_mul(cfg.head_dim),
            cfg.num_key_value_heads.checked_mul(cfg.head_dim),
        ) {
            (Some(h), Some(k)) => (h, k),
            _ => {
                return Err(Failure::Overflow);
            },
        };
        Ok(
            Gemma3Attention {
                q_proj: lora::linear_no_bias(cfg.hidden_size, h_dim, &vb.pp("q_proj"), None)?,
                k_proj: lora::linear_no_bias(cfg.hidden_size, kv_dim, &vb.pp("k_proj"), None)?,
                v_proj: lora::linear_no_bias(cfg.hidden_size, kv_dim, &vb.pp("v_proj"), None)?,
                o_proj: lora::linear_no_bias(h_dim, cfg.hidden_size, &vb.pp("o_proj"), None)?,
                q_norm_weight: vb.pp("q_norm").get1(cfg.head_dim, "weight")?,
                k_norm_weight: vb.pp("k_norm").get1(cfg.head_dim, "weight")?,
                num_heads: cfg.num_attention_heads,
                num_kv_heads: cfg.num_key_value_heads,
                num_kv_groups: cfg.num_attention_heads / cfg.num_key_value_heads,
                head_dim: cfg.head_dim,
                rms_norm_eps: cfg.rms_norm_eps,
            },
        )
    }

    /// Tokens split into heads: `(B, H, T, D)`.
    pub open spec fn heads_of(x: TensorView, b: nat, t: nat, heads: nat, dim: nat) -> TensorView {
        model::transpose(model::reshape(x, seq![b, t, heads, dim]), 1, 2)
    }

    /// The normalised and rotated queries.
    pub open spec fn queries(&self, x: TensorView, cos: TensorView, sin: TensorView) -> TensorView {
        let q = Gemma3Attention::heads_of(
            self.q_proj@.apply(x),
            x.dims[0],
            x.dims[1],
            self.num_heads as nat,
            self.head_dim as nat,
        );
        split_rope_of(
            per_head_norm_of(q, self.q_norm_weight@, self.rms_norm_eps),
            lifted(cos),
            lifted(sin),
        )
    }

    /// The normalised and rotated keys, one for each query head.
    pub open spec fn keys(&self, x: TensorView, cos: TensorView, sin: TensorView) -> TensorView {
        let k = Gemma3Attention::heads_of(
            self.k_proj@.apply(x),
            x.dims[0],
            x.dims[1],
            self.num_kv_heads as nat,
            self.head_dim as nat,
        );
        let k = split_rope_of(
            per_head_norm_of(k, self.k_norm_weight@, self.rms_norm_eps),
            lifted(cos),
            lifted(sin),
        );
        repeat_kv_of(k, self.num_kv_groups as nat)
    }

    /// The values, one for each query head.
    pub open spec fn values(&self, x: TensorView) -> TensorView {
        let v = Gemma3Attention::heads_of(
            self.v_proj@.apply(x),
            x.dims[0],
            x.dims[1],
            self.num_kv_heads as nat,
            self.head_dim as nat,
        );
        repeat_kv_of(v, self.num_kv_groups as nat)
    }

    /// How much each position takes of every other.
    pub open spec fn shares(&self, q: TensorView, k: TensorView, mask: TensorView) -> TensorView {
        let scale = model::powf(model::count(self.head_dim as nat), model::number(MINUS_HALF));
        let scores = model::affine(
            model::matmul(q, model::matrix_transpose(k)),
            scale,
            model::number(ZERO),
        );
        let masked = model::binary(
            BinOp::Plus,
            model::cast(scores, Dtype::F32),
            model::cast(mask, Dtype::F32),
        );
        model::cast(model::softmax_last_dim(masked), q.dtype)
    }

    /// What the attention computes from `x`.
    #[verifier::opaque]
    pub open spec fn apply(&self, x: TensorView, cos: TensorView, sin: TensorView, mask: TensorView) -> TensorView {
        let shares = self.shares(self.queries(x, cos, sin), self.keys(x, cos, sin), mask);
        let mixed = model::matmul(shares, self.values(x));
        let out = model::reshape(
            model::transpose(mixed, 1, 2),
            seq![x.dims[0], x.dims[1], self.num_heads as nat * self.head_dim as nat],
        );
        self.o_proj@.apply(out)
    }

    fn split_heads(x: &Array, b: usize, t: usize, heads: usize, dim: usize) -> (r: Result<Array, Failure>)
        ensures
            r matches Ok(y) ==> y@ == Gemma3Attention::heads_of(
                x@,
                b as nat,
                t as nat,
                heads as nat,
                dim as nat,
            ),
            b > 0 && t > 0 && heads > 0 && dim > 0 && x.usable() && x@.dims == seq![
                b as nat,
                t as nat,
                heads as nat * dim as nat,
            ] ==> (r matches Ok(y) && y.on_cpu() && y@.dtype == x@.dtype && y@.dims == seq![
                b as nat,
                heads as nat,
                t as nat,
                dim as nat,
            ] && model::fits(y@.dims) && model::numel(y@.dims) > 0),
    {
        let _dims = x.dims();
        proof {
            if b > 0 && t > 0 && heads > 0 && dim > 0 && x@.dims == seq![b as nat, t as nat, heads as nat * dim as nat] {
                lemma_heads(b as nat, t as nat, heads as nat, dim as nat);
            }
        }
        let split = x.reshape4(b, t, heads, dim)?;
        proof {
            lemmas::lemma_permute_dims(split@, model::swapped(4, 1, 2));
            assert(model::transpose(split@, 1, 2).dims =~= seq![b as nat, heads as nat, t as nat, dim as nat]);
        }
        split.transpose(1, 2)
    }

    /// Whether the attention can be computed, in main memory and in single precision.
    pub open spec fn attends(&self, x: &Array, cos: &Array, sin: &Array, mask: &Array) -> bool {
        let (b, t, width) = (x@.dims[0], x@.dims[1], x@.dims[2]);
        let (heads, kv, dim) = (self.num_heads as nat, self.num_kv_heads as nat, self.head_dim as nat);
        &&& x.on_cpu() && x@.dtype == Dtype::F32 && x@.rank() == 3 && model::numel(x@.dims) > 0
        &&& self.q_proj.maps(width, heads * dim) && self.o_proj.maps(heads * dim, width)
        &&& self.k_proj.maps(width, kv * dim) && self.v_proj.maps(width, kv * dim)
        &&& heads > 0 && kv > 0 && kv * self.num_kv_groups as nat == heads
        &&& dim > 0 && dim % 2 == 0
        &&& self.q_norm_weight.usable() && self.q_norm_weight@.dims == seq![dim]
        &&& self.k_norm_weight.usable() && self.k_norm_weight@.dims == seq![dim]
        &&& cos.usable() && cos@.dims == seq![t, dim / 2] && sin.usable() && sin@.dims == seq![t, dim / 2]
        &&& mask.usable() && lemmas::spreads(mask@.dims, seq![b, heads, t, t])
        &&& model::fits(x@.dims) && model::fits(seq![b, t, heads * dim]) && model::fits(seq![b, t, kv * dim])
        &&& model::fits(seq![b, heads, t, t])
    }

    fn compute_shares(&self, q: &Array, k: &Array, mask: &Array) -> (r: Result<Array, Failure>)
        ensures
            r matches Ok(t) ==> t@ == self.shares(q@, k@, mask@),
            ({
                let d = q@.dims;
                let square = seq![d[0], d[1], d[2], d[2]];
                q.on_cpu() && q@.dtype == Dtype::F32 && k.on_cpu() && k@.dtype == Dtype::F32 && q@.rank() == 4 && k@.dims
                    == d && d[2] > 0 && mask.usable() && lemmas::spreads(mask@.dims, square)
                    && model::fits(square) ==> (r matches Ok(t) && t.on_cpu() && t@.dtype == Dtype::F32 && t@.dims
                    == square)
            }),
    {
        proof {
            let d = q@.dims;
            if q@.rank() == 4 && k@.dims == d {
                let square = seq![d[0], d[1], d[2], d[2]];
                lemmas::lemma_permute_dims(k@, model::swapped(4, 2, 3));
                assert(model::matrix_transpose(k@).dims =~= seq![d[0], d[1], d[3], d[2]]);
                assert(d.drop_last().push(d[2]) =~= square);
                if lemmas::spreads(mask@.dims, square) {
                    lemmas::lemma_spread_common(mask@.dims, square);
                }
            }
            reveal(model::softmax_last_dim);
        }
        let scale = Array::count(self.head_dim)?.powf(&Array::number(MINUS_HALF)?)?;
        let scores = q.contiguous()?.matmul(&k.t()?.contiguous()?)?.scale_by(&scale)?;
        let masked = scores.to_dtype(Dtype::F32)?.broadcast(BinOp::Plus, &mask.to_dtype(Dtype::F32)?)?;
        masked.softmax_last_dim()?.to_dtype(q.dtype())
    }

    pub fn forward(&self, x: &Array, cos: &Array, sin: &Array, mask: &Array) -> (r: Result<Array, Failure>)
        ensures
            r matches Ok(t) ==> t@ == self.apply(x@, cos@, sin@, mask@),
            r is Ok ==> x@.rank() == 3,
            self.attends(x, cos, sin, mask) ==> (r matches Ok(t) && t.on_cpu() && t@.dtype == Dtype::F32 && t@.dims
                == x@.dims),
    {
        proof {
            reveal(Gemma3Attention::apply);
        }
        let ghost fine = self.attends(x, cos, sin, mask);
        let (b, t, _d) = x.dims3()?;
        let ghost (nb, nt, nd) = (b as nat, t as nat, _d as nat);
        let ghost (heads, kv, dim) = (self.num_heads as nat, self.num_kv_heads as nat, self.head_dim as nat);
        proof {
            if fine {
                lemmas::lemma_numel3(nb, nt, nd);
                lemmas::lemma_factors(nb, nt, nd);
                lemma_heads(nb, nt, heads, dim);
                lemma_heads(nb, nt, kv, dim);
                assert(linear::with_width(x@.dims, heads * dim) =~= seq![nb, nt, heads * dim]);
                assert(linear::with_width(x@.dims, kv * dim) =~= seq![nb, nt, kv * dim]);
                assert(linear::with_width(seq![nb, nt, heads * dim], nd) =~= x@.dims);
                lemmas::lemma_last_spreads(seq![nb, heads, nt, dim], dim);
                lemmas::lemma_last_spreads(seq![nb, kv, nt, dim], dim);
                lemmas::lemma_spread_common(seq![1, 1, nt, dim / 2], seq![nb, heads, nt, dim / 2]);
                lemmas::lemma_spread_common(seq![1, 1, nt, dim / 2], seq![nb, kv, nt, dim / 2]);
                assert(seq![nb, heads, nt, dim].update(3, dim / 2) =~= seq![nb, heads, nt, dim / 2]);
                assert(seq![nb, kv, nt, dim].update(3, dim / 2) =~= seq![nb, kv, nt, dim / 2]);
                assert(cos@.dims.insert(0, 1).insert(0, 1) =~= seq![1, 1, nt, dim / 2]);
                assert(repeated(seq![nb, kv, nt, dim], self.num_kv_groups as nat) =~= seq![nb, heads, nt, dim]);
                assert(seq![nb, heads, nt, nt].drop_last().push(dim) =~= seq![nb, heads, nt, dim]);
            }
        }
        let q = self.q_proj.forward(x)?;
        let k = self.k_proj.forward(x)?;
        let v = self.v_proj.forward(x)?;
        let q = Gemma3Attention::split_heads(&q, b, t, self.num_heads, self.head_dim)?;
        let k = Gemma3Attention::split_heads(&k, b, t, self.num_kv_heads, self.head_dim)?;
        let v = Gemma3Attention::split_heads(&v, b, t, self.num_kv_heads, self.head_dim)?;
        let q = per_head_rms_norm(&q, &self.q_norm_weight, self.rms_norm_eps)?;
        let k = per_head_rms_norm(&k, &self.k_norm_weight, self.rms_norm_eps)?;
        let cos = cos.unsqueeze(0)?.unsqueeze(0)?;
        let sin = sin.unsqueeze(0)?.unsqueeze(0)?;
        let q = apply_split_rope(&q, &cos, &sin)?;
        let k = apply_split_rope(&k, &cos, &sin)?;
        let k = repeat_kv(&k, self.num_kv_groups)?;
        let v = repeat_kv(&v, self.num_kv_groups)?;
        let shares = self.compute_shares(&q, &k, mask)?;
        let out = shares.contiguous()?.matmul(&v.contiguous()?)?;
        let width: usize = match self.num_heads.checked_mul(self.head_dim) {
            Some(w) => w,
            None => {
                return Err(Failure::Overflow);
            },
        };
        proof {
            if fine {
                lemmas::lemma_permute_dims(out@, model::swapped(4, 1, 2));
                assert(model::transpose(out@, 1, 2).dims =~= seq![nb, nt, heads, dim]);
            }
        }
        let out = out.transpose(1, 2)?.contiguous()?.reshape3(b, t, width)?;
        self.o_proj.forward(&out)
    }
}

/// A table of positions for each sample and head.
pub open spec fn lifted(table: TensorView) -> TensorView {
    model::unsqueeze(model::unsqueeze(table, 0), 0)
}

/// The gated network of a layer.
pub struct Gemma3MLP {
    pub gate_proj: Linear,
    pub up_proj: Linear,
    pub down_proj: Linear,
}

impl Gemma3MLP {
    /// Whether this is the network that a checkpoint holds.
    pub open spec fn loaded(&self, vb: WeightsView) -> bool {
        &&& self.gate_proj@ == lora::linear_no_bias_of(vb.pp("gate_proj"@), None)
        &&& self.up_proj@ == lora::linear_no_bias_of(vb.pp("up_proj"@), None)
        &&& self.down_proj@ == lora::linear_no_bias_of(vb.pp("down_proj"@), None)
    }

    /// Whether a checkpoint holds a network of these sizes.
    pub open spec fn present(cfg: Gemma3Config, vb: WeightsView) -> bool {
        let d = cfg.hidden_size as nat;
        let i = cfg.intermediate_size as nat;
        &&& lora::has_linear(vb.pp("gate_proj"@), None, d, i, false)
        &&& lora::has_linear(vb.pp("up_proj"@), None, d, i, false)
        &&& lora::has_linear(vb.pp("down_proj"@), None, i, d, false)
    }

    pub fn new(cfg: &Gemma3Config, vb: &Weights) -> (r: Result<Gemma3MLP, Failure>)
        ensures
            r matches Ok(m) ==> m.loaded(vb@),
            r is Ok ==> Gemma3MLP::present(*cfg, vb@),
            vb@.sound() && Gemma3MLP::present(*cfg, vb@) ==> r is Ok,
    {
        Ok(
            Gemma3MLP {
                gate_proj: lora::linear_no_bias(
                    cfg.hidden_size,
                    cfg.intermediate_size,
                    &vb.pp("gate_proj"),
                    None,
                )?,
                up_proj: lora::linear_no_bias(cfg.hidden_size, cfg.intermediate_size, &vb.pp("up_proj"), None)?,
                down_proj: lora::linear_no_bias(
                    cfg.intermediate_size,
                    cfg.hidden_size,
                    &vb.pp("down_proj"),
                    None,
                )?,
            },
        )
    }

    /// What the network computes from `x`.
    pub open spec fn apply(&self, x: TensorView) -> TensorView {
        let gate = gelu_tanh_of(self.gate_proj@.apply(x));
        self.down_proj@.apply(model::binary(BinOp::Times, gate, self.up_proj@.apply(x)))
    }

    /// Whether the network can be applied, in main memory and in single precision.
    pub open spec fn feeds(&self, x: &Array) -> bool {
        let width = x@.dims.last();
        let hidden = self.gate_proj.weight@.dims[0];
        &&& x@.dtype == Dtype::F32 && linear::are_rows(x, width) && model::fits(x@.dims)
        &&& self.gate_proj.maps(width, hidden) && self.up_proj.maps(width, hidden)
        &&& self.down_proj.maps(hidden, width)
        &&& model::fits(linear::with_width(x@.dims, hidden))
    }

    pub fn forward(&self, x: &Array) -> (r: Result<Array, Failure>)
        ensures
            r matches Ok(t) ==> t@ == self.apply(x@),
            self.feeds(x) ==> (r matches Ok(t) && t.on_cpu() && t@.dtype == Dtype::F32 && t@.dims == x@.dims),
    {
        proof {
            if self.feeds(x) {
                let hidden = self.gate_proj.weight@.dims[0];
                assert(linear::with_width(linear::with_width(x@.dims, hidden), x@.dims.last()) =~= x@.dims);
            }
        }
        let gate = gelu_pytorch_tanh(&self.gate_proj.forward(x)?)?;
        let up = self.up_proj.forward(x)?;
        self.down_proj.forward(&gate.pairwise(BinOp::Times, &up)?)
    }
}

/// `x / 2 * (1 + tanh(sqrt(2/pi) (x + 0.044715 x^3)))`, in single precision.
#[verifier::opaque]
pub open spec fn gelu_tanh_of(x: TensorView) -> TensorView {
    let wide = model::cast(x, Dtype::F32);
    let cube = model::binary(BinOp::Times, model::unary(UnOp::Sqr, wide), wide);
    let inner = model::binary(
        BinOp::Plus,
        wide,
        model::affine(cube, model::number(GELU_CUBIC), model::number(ZERO)),
    );
    let tanh = model::unary(
        UnOp::Tanh,
        model::affine(inner, model::number(GELU_SLOPE), model::number(ZERO)),
    );
    let half = model::affine(wide, model::number(HALF), model::number(ZERO));
    model::cast(
        model::binary(BinOp::Times, half, model::affine(tanh, model::number(ONE), model::number(ONE))),
        x.dtype,
    )
}

/// GELU in its tanh approximation, in single precision.
pub fn gelu_pytorch_tanh(x: &Array) -> (r: Result<Array, Failure>)
    ensures
        r matches Ok(t) ==> t@ == gelu_tanh_of(x@),
        x.usable() ==> (r matches Ok(t) && t.on_cpu() && t@.dims == x@.dims && t@.dtype == x@.dtype),
{
    proof {
        reveal(gelu_tanh_of);
        lemmas::lemma_common_dims(x@.dims);
    }
    let wide = x.to_dtype(Dtype::F32)?;
    let cube = wide.unary(UnOp::Sqr)?.broadcast(BinOp::Times, &wide)?;
    let inner = wide.pairwise(BinOp::Plus, &cube.scale(GELU_CUBIC)?)?;
    let tanh = inner.scale(GELU_SLOPE)?.unary(UnOp::Tanh)?;
    wide.scale(HALF)?.broadcast(BinOp::Times, &tanh.shift(ONE)?)?.to_dtype(x.dtype())
}

/// Whether the gated network can be applied to the rows of `x`, with up and down projections without
/// bias.
pub open spec fn gated(m: Gemma3MLP, x: TensorView) -> bool {
    let hidden = x.dims.drop_last().push(m.gate_proj@.weight.dims[0]);
    &&& reals::dense(x, m.gate_proj@.weight, m.gate_proj@.bias)
    &&& reals::dense(x, m.up_proj@.weight, m.up_proj@.bias) && m.up_proj@.bias is None
    &&& m.up_proj@.weight.dims == m.gate_proj@.weight.dims
    &&& m.down_proj@.bias is None && m.down_proj@.weight.wf()
    &&& m.down_proj@.weight.dims == seq![m.down_proj@.weight.dims[0], hidden.last()]
    &&& x.dtype.float()
}

/// An element of the hidden layer of the gated network.
spec fn hidden_value(m: Gemma3MLP, x: TensorView, idx: Seq<int>, f: Functions) -> real {
    reals::value(gelu_tanh_of(m.gate_proj@.apply(x)).at(idx), f) * reals::dot(x, m.up_proj@.weight, idx, f)
}

proof fn lemma_gated(m: Gemma3MLP, x: TensorView, idx: Seq<int>, f: Functions)
    requires
        gated(m, x),
        model::in_bounds(x.dims.drop_last().push(m.down_proj@.weight.dims[0]), idx),
    ensures
        reals::value(m.apply(x).at(idx), f) == reals::sum_to(
            m.gate_proj@.weight.dims[0] as int,
            |k: int|
                hidden_value(m, x, idx.drop_last().push(k), f) * reals::value(
                    m.down_proj@.weight.at(seq![idx.last(), k]),
                    f,
                ),
        ),
{
    broadcast use reals::group_reading;
    let (n, d) = (m.gate_proj@.weight.dims[0], x.dims.drop_last());
    let h = d.push(n);
    let (g, u) = (m.gate_proj@.apply(x), m.up_proj@.apply(x));
    let out = d.push(m.down_proj@.weight.dims[0]);
    reveal(model::linear);
    lemma_gelu_shape(g);
    let gate = gelu_tanh_of(g);
    let both = model::binary(BinOp::Times, gate, u);
    assert(both.dims.drop_last() =~= d && both.dims.last() == n);
    reals::lemma_linear_at(both, m.down_proj@.weight, None, idx, f);
    let a = |k: int|
        reals::value(both.at(idx.drop_last().push(k)), f) * reals::value(m.down_proj@.weight.at(seq![idx.last(), k]), f);
    let b = |k: int|
        hidden_value(m, x, idx.drop_last().push(k), f) * reals::value(m.down_proj@.weight.at(seq![idx.last(), k]), f);
    assert forall|k: int| 0 <= k < n implies #[trigger] a(k) == b(k) by {
        let p = idx.drop_last().push(k);
        assert forall|j: int| 0 <= j < h.len() implies 0 <= #[trigger] p[j] < h[j] by {
            if j < d.len() {
                assert(p[j] == idx[j] && h[j] == out[j]);
            }
        }
        reals::lemma_linear_at(x, m.up_proj@.weight, None, p, f);
        lemmas::lemma_ravel(h, p);
    }
    reals::lemma_sum_ext(n as int, a, b);
}

proof fn lemma_gelu_shape(x: TensorView)
    ensures
        gelu_tanh_of(x).dims == x.dims,
        x.wf() ==> gelu_tanh_of(x).wf(),
        gelu_tanh_of(x).dtype == x.dtype,
{
    broadcast use reals::group_reading;
    reveal(gelu_tanh_of);
}

/// Where the gating projection is zero the network gives zero, whatever the up projection holds.
pub proof fn law_closed_gate(m: Gemma3MLP, x: TensorView, idx: Seq<int>, f: Functions)
    requires
        gated(m, x),
        model::in_bounds(x.dims.drop_last().push(m.down_proj@.weight.dims[0]), idx),
        forall|k: int|
            0 <= k < m.gate_proj@.weight.dims[0] ==> reals::value(
                m.gate_proj@.apply(x).at(#[trigger] idx.drop_last().push(k)),
                f,
            ) == 0real,
    ensures
        reals::value(m.apply(x).at(idx), f) == 0real,
{
    lemma_gated(m, x, idx, f);
    let (n, d) = (m.gate_proj@.weight.dims[0], x.dims.drop_last());
    let (h, out) = (d.push(n), d.push(m.down_proj@.weight.dims[0]));
    let b = |k: int|
        hidden_value(m, x, idx.drop_last().push(k), f) * reals::value(m.down_proj@.weight.at(seq![idx.last(), k]), f);
    let g = m.gate_proj@.apply(x);
    reveal(model::linear);
    assert forall|k: int| 0 <= k < n implies #[trigger] b(k) == 0real by {
        let p = idx.drop_last().push(k);
        assert forall|j: int| 0 <= j < h.len() implies 0 <= #[trigger] p[j] < h[j] by {
            if j < d.len() {
                assert(p[j] == idx[j] && h[j] == out[j]);
            }
        }
        lemmas::lemma_ravel(h, p);
        lemma_gelu_shape(g);
        lemma_gelu(g, model::ravel(h, p), f);
        let (u, w) = (
            reals::dot(x, m.up_proj@.weight, p, f),
            reals::value(m.down_proj@.weight.at(seq![idx.last(), k]), f),
        );
        let t = (f.tanh)(gelu_argument(0real));
        assert(0real * (1real / 2real) * (t + 1real) * u * w == 0real) by (nonlinear_arith);
    }
    reals::lemma_sum_zero(n as int, b);
    reals::lemma_sum_ext(
        n as int,
        |k: int|
            hidden_value(m, x, idx.drop_last().push(k), f) * reals::value(
                m.down_proj@.weight.at(seq![idx.last(), k]),
                f,
            ),
        b,
    );
}

/// The network is linear in its up projection: `c` times its weight gives `c` times the output.
pub proof fn law_gate_scales(m: Gemma3MLP, n: Gemma3MLP, x: TensorView, c: real, idx: Seq<int>, f: Functions)
    requires
        gated(m, x) && gated(n, x),
        n.gate_proj@ == m.gate_proj@,
        n.down_proj@ == m.down_proj@,
        forall|j: int|
            0 <= j < m.up_proj@.weight.cells.len() ==> reals::value(#[trigger] n.up_proj@.weight.cells[j], f) == c
                * reals::value(m.up_proj@.weight.cells[j], f),
        model::in_bounds(x.dims.drop_last().push(m.down_proj@.weight.dims[0]), idx),
    ensures
        reals::value(n.apply(x).at(idx), f) == c * reals::value(m.apply(x).at(idx), f),
{
    lemma_gated(m, x, idx, f);
    lemma_gated(n, x, idx, f);
    let (size, d) = (m.gate_proj@.weight.dims[0], x.dims.drop_last());
    let w = |k: int| reals::value(m.down_proj@.weight.at(seq![idx.last(), k]), f);
    let a = |k: int|
        hidden_value(m, x, idx.drop_last().push(k), f) * reals::value(m.down_proj@.weight.at(seq![idx.last(), k]), f);
    let b = |k: int|
        hidden_value(n, x, idx.drop_last().push(k), f) * reals::value(n.down_proj@.weight.at(seq![idx.last(), k]), f);
    assert forall|k: int| 0 <= k < size implies #[trigger] b(k) == c * a(k) by {
        let p = idx.drop_last().push(k);
        let g = |j: int| reals::value(x.at(p.drop_last().push(j)), f) * reals::value(m.up_proj@.weight.at(seq![p.last(), j]), f);
        let h = |j: int| reals::value(x.at(p.drop_last().push(j)), f) * reals::value(n.up_proj@.weight.at(seq![p.last(), j]), f);
        assert forall|j: int| 0 <= j < x.dims.last() implies #[trigger] h(j) == c * g(j) by {
            let (y, u) = (reals::value(x.at(p.drop_last().push(j)), f), reals::value(m.up_proj@.weight.at(seq![k, j]), f));
            assert(model::in_bounds(m.up_proj@.weight.dims, seq![k, j]));
            lemmas::lemma_ravel(m.up_proj@.weight.dims, seq![k, j]);
            assert(reals::value(n.up_proj@.weight.at(seq![k, j]), f) == c * u);
            assert(y * (c * u) == c * (y * u)) by (nonlinear_arith);
        }
        reals::lemma_sum_scale(x.dims.last() as int, g, h, c);
        assert(reals::dot(x, m.up_proj@.weight, p, f) == reals::sum_to(x.dims.last() as int, g)) by {
            reals::lemma_sum_ext(
                x.dims.last() as int,
                |j: int| reals::value(x.at(p.drop_last().push(j)), f) * reals::value(m.up_proj@.weight.at(seq![p.last(), j]), f),
                g,
            );
        }
        assert(reals::dot(x, n.up_proj@.weight, p, f) == reals::sum_to(x.dims.last() as int, h)) by {
            reals::lemma_sum_ext(
                x.dims.last() as int,
                |j: int| reals::value(x.at(p.drop_last().push(j)), f) * reals::value(n.up_proj@.weight.at(seq![p.last(), j]), f),
                h,
            );
        }
        let (v, z, y) = (reals::value(gelu_tanh_of(m.gate_proj@.apply(x)).at(p), f), reals::dot(x, m.up_proj@.weight, p, f), w(k));
        assert(v * (c * z) * y == c * (v * z * y)) by (nonlinear_arith);
    }
    reals::lemma_sum_scale(size as int, a, b, c);
    reals::lemma_sum_ext(
        size as int,
        |k: int|
            hidden_value(m, x, idx.drop_last().push(k), f) * reals::value(
                m.down_proj@.weight.at(seq![idx.last(), k]),
                f,
            ),
        a,
    );
    reals::lemma_sum_ext(
        size as int,
        |k: int|
            hidden_value(n, x, idx.drop_last().push(k), f) * reals::value(
                n.down_proj@.weight.at(seq![idx.last(), k]),
                f,
            ),
        b,
    );
}

/// Of what the hyperbolic tangent is taken.
spec fn gelu_argument(x: real) -> real {
    (x + x * x * x * reals::of_bits(GELU_CUBIC)) * reals::of_bits(GELU_SLOPE)
}

proof fn lemma_gelu(x: TensorView, i: int, f: Functions)
    requires
        x.wf(),
        x.dtype.float(),
        0 <= i < x.cells.len(),
    ensures
        ({
            let v = reals::value(x.cells[i], f);
            reals::value(gelu_tanh_of(x).cells[i], f) == v * (1real / 2real) * ((f.tanh)(gelu_argument(v)) + 1real)
        }),
{
    broadcast use reals::group_reading;
    reveal(gelu_tanh_of);
    reals::lemma_constants();
    let v = reals::value(x.cells[i], f);
    let wide = model::cast(x, Dtype::F32);
    let square = model::unary(UnOp::Sqr, wide);
    let cube = model::binary(BinOp::Times, square, wide);
    assert(reals::value(cube.cells[i], f) == v * v * v);
    let small = model::affine(cube, model::number(GELU_CUBIC), model::number(ZERO));
    let inner = model::binary(BinOp::Plus, wide, small);
    assert(reals::value(inner.cells[i], f) == v + v * v * v * reals::of_bits(GELU_CUBIC));
    let scaled = model::affine(inner, model::number(GELU_SLOPE), model::number(ZERO));
    assert(reals::value(scaled.cells[i], f) == gelu_argument(v));
    let tanh = model::unary(UnOp::Tanh, scaled);
    let half = model::affine(wide, model::number(HALF), model::number(ZERO));
    let shifted = model::affine(tanh, model::number(ONE), model::number(ONE));
    assert(reals::value(half.cells[i], f) == v * (1real / 2real));
    let t = reals::value(tanh.cells[i], f);
    assert(t * 1real == t) by (nonlinear_arith);
    assert(reals::value(shifted.cells[i], f) == t + 1real);
}

/// What the unit lets through of a number and of its negative is the number in all.
pub proof fn law_gelu_parts(x: TensorView, y: TensorView, i: int, f: Functions)
    requires
        x.wf() && y.wf() && x.dtype.float() && y.dtype.float(),
        0 <= i < x.cells.len() && i < y.cells.len(),
        reals::value(y.cells[i], f) == -reals::value(x.cells[i], f),
        forall|v: real| (f.tanh)(-v) == -#[trigger] (f.tanh)(v),
    ensures
        reals::value(gelu_tanh_of(x).cells[i], f) - reals::value(gelu_tanh_of(y).cells[i], f) == reals::value(
            x.cells[i],
            f,
        ),
{
    lemma_gelu(x, i, f);
    lemma_gelu(y, i, f);
    let v = reals::value(x.cells[i], f);
    let (c, m) = (reals::of_bits(GELU_CUBIC), reals::of_bits(GELU_SLOPE));
    let n = -v;
    assert(gelu_argument(n) == -gelu_argument(v)) by {
        assert((n + n * n * n * c) * m == -((v + v * v * v * c) * m)) by (nonlinear_arith)
            requires
                n == -v,
        ;
    }
    let t = (f.tanh)(gelu_argument(v));
    assert((f.tanh)(-gelu_argument(v)) == -t);
    assert(v * (1real / 2real) * (t + 1real) - n * (1real / 2real) * (-t + 1real) == v) by (nonlinear_arith)
        requires
            n == -v,
    ;
}

/// Attention and a network, each normalised before and behind and added to its input.
pub struct Gemma3DecoderLayer {
    pub input_layernorm: Array,
    pub self_attn: Gemma3Attention,
    pub post_attention_layernorm: Array,
    pub pre_feedforward_layernorm: Array,
    pub mlp: Gemma3MLP,
    pub post_feedforward_layernorm: Array,
    pub eps: Scalar,
}

impl Gemma3DecoderLayer {
    /// Whether this is the layer that a checkpoint holds.
    pub open spec fn loaded(&self, cfg: Gemma3Config, vb: WeightsView) -> bool {
        &&& self.input_layernorm@ == vb.pp("input_layernorm"@).get("weight"@)
        &&& self.self_attn.loaded(cfg, vb.pp("self_attn"@))
        &&& self.post_attention_layernorm@ == vb.pp("post_attention_layernorm"@).get("weight"@)
        &&& self.pre_feedforward_layernorm@ == vb.pp("pre_feedforward_layernorm"@).get("weight"@)
        &&& self.mlp.loaded(vb.pp("mlp"@))
        &&& self.post_feedforward_layernorm@ == vb.pp("post_feedforward_layernorm"@).get("weight"@)
        &&& self.eps == cfg.rms_norm_eps
    }

    /// Whether a checkpoint holds a layer of these sizes.
    pub open spec fn present(cfg: Gemma3Config, vb: WeightsView) -> bool {
        let d = cfg.hidden_size as nat;
        &&& vb.pp("input_layernorm"@).holds("weight"@, seq![d])
        &&& Gemma3Attention::present(cfg, vb.pp("self_attn"@))
        &&& vb.pp("post_attention_layernorm"@).holds("weight"@, seq![d])
        &&& vb.pp("pre_feedforward_layernorm"@).holds("weight"@, seq![d])
        &&& Gemma3MLP::present(cfg, vb.pp("mlp"@))
        &&& vb.pp("post_feedforward_layernorm"@).holds("weight"@, seq![d])
    }

    pub fn new(cfg: &Gemma3Config, vb: &Weights) -> (r: Result<Gemma3DecoderLayer, Failure>)
        ensures
            r matches Ok(l) ==> l.loaded(*cfg, vb@),
            r is Ok ==> Gemma3DecoderLayer::present(*cfg, vb@),
            vb@.sound() && Gemma3DecoderLayer::present(*cfg, vb@) ==> r is Ok,
    {
        let d: usize = cfg.hidden_size;
        Ok(
            Gemma3DecoderLayer {
                input_layernorm: vb.pp("input_layernorm").get1(d, "weight")?,
                self_attn: Gemma3Attention::new(cfg, &vb.pp("self_attn"))?,
                post_attention_layernorm: vb.pp("post_attention_layernorm").get1(d, "weight")?,
                pre_feedforward_layernorm: vb.pp("pre_feedforward_layernorm").get1(d, "weight")?,
                mlp: Gemma3MLP::new(cfg, &vb.pp("mlp"))?,
                post_feedforward_layernorm: vb.pp("post_feedforward_layernorm").get1(d, "weight")?,
                eps: cfg.rms_norm_eps,
            },
        )
    }

    /// What the layer computes from `x`.
    #[verifier::opaque]
    pub open spec fn apply(&self, x: TensorView, cos: TensorView, sin: TensorView, mask: TensorView) -> TensorView {
        let h = self.self_attn.apply(gemma_norm_of(x, self.input_layernorm@, self.eps), cos, sin, mask);
        let x = model::binary(
            BinOp::Plus,
            x,
            gemma_norm_of(h, self.post_attention_layernorm@, self.eps),
        );
        let h = self.mlp.apply(gemma_norm_of(x, self.pre_feedforward_layernorm@, self.eps));
        model::binary(BinOp::Plus, x, gemma_norm_of(h, self.post_feedforward_layernorm@, self.eps))
    }

    /// Whether the layer can be applied, in main memory and in single precision.
    pub open spec fn takes(&self, x: &Array, cos: &Array, sin: &Array, mask: &Array) -> bool {
        let width = seq![x@.dims[2]];
        &&& self.self_attn.attends(x, cos, sin, mask) && self.mlp.feeds(x)
        &&& self.input_layernorm.usable() && self.input_layernorm@.dims == width
        &&& self.post_attention_layernorm.usable() && self.post_attention_layernorm@.dims == width
        &&& self.pre_feedforward_layernorm.usable() && self.pre_feedforward_layernorm@.dims == width
        &&& self.post_feedforward_layernorm.usable() && self.post_feedforward_layernorm@.dims == width
    }

    pub fn forward(&self, x: &Array, cos: &Array, sin: &Array, mask: &Array) -> (r: Result<Array, Failure>)
        ensures
            r matches Ok(t) ==> t@ == self.apply(x@, cos@, sin@, mask@),
            self.takes(x, cos, sin, mask) ==> (r matches Ok(t) && t.on_cpu() && t@.dtype == Dtype::F32 && t@.dims
                == x@.dims),
    {
        proof {
            reveal(Gemma3DecoderLayer::apply);
            if x@.rank() == 3 {
                lemmas::lemma_last_spreads(x@.dims, x@.dims[2]);
            }
        }
        let h = gemma_rms_norm(x, &self.input_layernorm, self.eps)?;
        let h = self.self_attn.forward(&h, cos, sin, mask)?;
        let h = gemma_rms_norm(&h, &self.post_attention_layernorm, self.eps)?;
        let x = x.pairwise(BinOp::Plus, &h)?;
        let h = gemma_rms_norm(&x, &self.pre_feedforward_layernorm, self.eps)?;
        let h = self.mlp.forward(&h)?;
        let h = gemma_rms_norm(&h, &self.post_feedforward_layernorm, self.eps)?;
        x.pairwise(BinOp::Plus, &h)
    }
}

/// The language model; it hands out what stands in front of each layer and the normalised
/// end.
pub struct Gemma3TextModel {
    pub embed_tokens: Array,
    pub layers: Vec<Gemma3DecoderLayer>,
    pub norm: Array,
    pub hidden_size: usize,
    pub global_cos: Array,
    pub global_sin: Array,
    pub local_cos: Array,
    pub local_sin: Array,
    pub sliding_window: usize,
    pub sliding_window_pattern: usize,
    pub rms_norm_eps: Scalar,
}

/// Whether this is a state of this shape, in main memory and in single precision.
pub open spec fn is_state(x: &Array, d: Seq<nat>) -> bool {
    x.on_cpu() && x@.dtype == Dtype::F32 && x@.dims == d
}

/// Whether these are states of this shape, in main memory and in single precision.
pub open spec fn are_states(v: Seq<Array>, d: Seq<nat>) -> bool {
    forall|i: int| 0 <= i < v.len() ==> #[trigger] is_state(&v[i], d)
}

/// Whether this holds a rotation for each position of a state of this shape.
pub open spec fn is_table(x: &Array, tables: Seq<nat>, d: Seq<nat>) -> bool {
    x.usable() && x@.dims == seq![d[1], tables[1]]
}

/// Whether layer `i` only attends to positions within the window: all but every
/// `pattern`-th.
pub open spec fn is_sliding(i: nat, pattern: nat) -> bool {
    (i + 1) % pattern > 0
}

/// Of `pattern` layers in a row, exactly the last attends to all positions.
pub proof fn law_one_global_layer(pattern: nat, group: nat, k: nat)
    requires
        k < pattern,
    ensures
        is_sliding(group * pattern + k, pattern) <==> k + 1 < pattern,
{
    let i = group * pattern + k;
    if k + 1 < pattern {
        vstd::arithmetic::div_mod::lemma_fundamental_div_mod_converse(
            i as int + 1,
            pattern as int,
            group as int,
            k as int + 1,
        );
    } else {
        assert((group + 1) * pattern == group * pattern + pattern) by (nonlinear_arith);
        vstd::arithmetic::div_mod::lemma_fundamental_div_mod_converse(
            i as int + 1,
            pattern as int,
            group as int + 1,
            0,
        );
    }
}

impl Gemma3TextModel {
    /// The tables of rotations that the global and the local layers use.
    pub open spec fn tables_of(&self, cfg: Gemma3Config, max_seq_len: nat) -> bool {
        let global = angles_of(
            max_seq_len,
            inv_freq_of(cfg.head_dim as nat, cfg.rope_theta, cfg.rope_scaling_factor),
        );
        let local = angles_of(
            max_seq_len,
            inv_freq_of(cfg.head_dim as nat, cfg.rope_local_base_freq, ONE),
        );
        &&& self.global_cos@ == model::unary(UnOp::Cos, global)
        &&& self.global_sin@ == model::unary(UnOp::Sin, global)
        &&& self.local_cos@ == model::unary(UnOp::Cos, local)
        &&& self.local_sin@ == model::unary(UnOp::Sin, local)
    }

    /// Whether this is the model that a checkpoint holds.
    pub open spec fn loaded(&self, cfg: Gemma3Config, max_seq_len: nat, vb: WeightsView) -> bool {
        &&& self.embed_tokens@ == vb.pp("embed_tokens"@).get("weight"@)
        &&& self.layers@.len() == cfg.num_hidden_layers
        &&& forall|i: int|
            0 <= i < cfg.num_hidden_layers ==> (#[trigger] self.layers@[i]).loaded(
                cfg,
                vb.pp("layers"@).at(i as nat),
            )
        &&& self.norm@ == vb.pp("norm"@).get("weight"@)
        &&& self.hidden_size == cfg.hidden_size
        &&& self.tables_of(cfg, max_seq_len)
        &&& self.sliding_window == cfg.sliding_window
        &&& self.sliding_window_pattern == cfg.sliding_window_pattern
        &&& self.rms_norm_eps == cfg.rms_norm_eps
    }

    /// Whether a checkpoint holds a model of these sizes.
    pub open spec fn present(cfg: Gemma3Config, vb: WeightsView) -> bool {
        &&& vb.pp("embed_tokens"@).holds("weight"@, seq![cfg.vocab_size as nat, cfg.hidden_size as nat])
        &&& forall|i: nat|
            i < cfg.num_hidden_layers ==> Gemma3DecoderLayer::present(
                cfg,
                #[trigger] vb.pp("layers"@).at(i),
            )
        &&& vb.pp("norm"@).holds("weight"@, seq![cfg.hidden_size as nat])
    }

    pub fn new(cfg: &Gemma3Config, max_seq_len: usize, vb: &Weights) -> (r: Result<Gemma3TextModel, Failure>)
        ensures
            r matches Ok(m) ==> m.loaded(*cfg, max_seq_len as nat, vb@),
            r is Ok ==> Gemma3TextModel::present(*cfg, vb@),
            vb@.sound() && Gemma3TextModel::present(*cfg, vb@) && model::fits(
                seq![cfg.head_dim as nat / 2],
            ) && model::fits(seq![max_seq_len as nat]) && model::fits(
                seq![max_seq_len as nat, cfg.head_dim as nat / 2],
            ) ==> r is Ok,
    {
        let embed_tokens = vb.pp("embed_tokens").get2(cfg.vocab_size, cfg.hidden_size, "weight")?;
        let layers_vb = vb.pp("layers");
        let mut layers: Vec<Gemma3DecoderLayer> = Vec::new();
        let mut i: usize = 0;
        while i < cfg.num_hidden_layers
            invariant
                i <= cfg.num_hidden_layers,
                layers_vb@ == vb@.pp("layers"@),
                layers@.len() == i,
                forall|k: int|
                    0 <= k < i ==> (#[trigger] layers@[k]).loaded(
                        *cfg,
                        vb@.pp("layers"@).at(k as nat),
                    ),
                forall|k: nat|
                    k < i ==> Gemma3DecoderLayer::present(*cfg, #[trigger] vb@.pp("layers"@).at(k)),
            decreases cfg.num_hidden_layers - i,
        {
            layers.push(Gemma3DecoderLayer::new(cfg, &layers_vb.at(i))?);
            i = i + 1;
        }
        let norm = vb.pp("norm").get1(cfg.hidden_size, "weight")?;
        let device = norm.device();
        let global_inv = compute_inv_freq(cfg.head_dim, cfg.rope_theta, cfg.rope_scaling_factor, &device)?;
        let local_inv = compute_inv_freq(cfg.head_dim, cfg.rope_local_base_freq, ONE, &device)?;
        let (global_cos, global_sin) = precompute_rope_tables(max_seq_len, &global_inv, &device)?;
        let (local_cos, local_sin) = precompute_rope_tables(max_seq_len, &local_inv, &device)?;
        Ok(
            Gemma3TextModel {
                embed_tokens,
                layers,
                norm,
                hidden_size: cfg.hidden_size,
                global_cos,
                global_sin,
                local_cos,
                local_sin,
                sliding_window: cfg.sliding_window,
                sliding_window_pattern: cfg.sliding_window_pattern,
                rms_norm_eps: cfg.rms_norm_eps,
            },
        )
    }

    /// Where the model is stored.
    pub fn device(&self) -> (r: candle_core::Device)
        ensures
            array::is_main_memory(r) == self.norm.on_cpu(),
    {
        self.norm.device()
    }

    /// The embedded tokens, scaled by the square root of their width.
    pub open spec fn embedded(&self, ids: TensorView) -> TensorView {
        model::affine(
            model::embedding(self.embed_tokens@, ids),
            model::unary(UnOp::Sqrt, model::count(self.hidden_size as nat)),
            model::number(ZERO),
        )
    }

    /// The mask of the layers that attend to all earlier positions, or only to a window.
    pub open spec fn mask_of(&self, t: nat, attention_mask: TensorView, sliding: bool) -> TensorView {
        let window = if sliding {
            Some(self.sliding_window as nat)
        } else {
            None
        };
        combined_mask_of(causal_mask_of(t, window, self.norm@.dtype), attention_mask, self.norm@.dtype)
    }

    /// What layer `i` computes from `x`.
    pub open spec fn layer(&self, i: nat, x: TensorView, t: nat, attention_mask: TensorView) -> TensorView {
        if is_sliding(i, self.sliding_window_pattern as nat) {
            self.layers@[i as int].apply(
                x,
                model::narrow(self.local_cos@, 0, 0, t),
                model::narrow(self.local_sin@, 0, 0, t),
                self.mask_of(t, attention_mask, true),
            )
        } else {
            self.layers@[i as int].apply(
                x,
                model::narrow(self.global_cos@, 0, 0, t),
                model::narrow(self.global_sin@, 0, 0, t),
                self.mask_of(t, attention_mask, false),
            )
        }
    }

    /// What stands in front of layer `n`.
    pub open spec fn before_layer(&self, ids: TensorView, attention_mask: TensorView, n: nat) -> TensorView
        decreases n,
    {
        if n == 0 {
            self.embedded(ids)
        } else {
            let i = (n - 1) as nat;
            self.layer(i, self.before_layer(ids, attention_mask, i), ids.dims[1], attention_mask)
        }
    }

    /// What stands in front of each layer, and the normalised end.
    pub open spec fn apply(&self, ids: TensorView, attention_mask: TensorView) -> Seq<TensorView> {
        let n = self.layers@.len();
        Seq::new(n, |i: int| self.before_layer(ids, attention_mask, i as nat)).push(
            gemma_norm_of(
                self.before_layer(ids, attention_mask, n),
                self.norm@,
                self.rms_norm_eps,
            ),
        )
    }

    /// Whether the masks of `t` positions can be computed, in main memory.
    pub open spec fn masks(&self, t: nat, attention_mask: &Array) -> bool {
        let b = attention_mask@.dims[0];
        &&& attention_mask.usable() && attention_mask@.dims == seq![b, t] && self.sliding_window <= i64::MAX
        &&& model::fits(seq![t]) && model::fits(seq![t, t]) && model::fits(seq![b, 1, t, t])
    }

    /// Whether layer `i` can be applied to every state of this shape, in main memory and in single
    /// precision.
    pub open spec fn layer_takes(&self, i: int, d: Seq<nat>) -> bool {
        let half = self.global_cos@.dims[1];
        forall|x: Array, cos: Array, sin: Array, mask: Array|
            x.on_cpu() && x@.dtype == Dtype::F32 && x@.dims == d && cos.usable() && cos@.dims == seq![d[1], half]
                && sin.usable() && sin@.dims == seq![d[1], half] && mask.usable() && mask@.dims == seq![
                d[0],
                1,
                d[1],
                d[1],
            ] ==> #[trigger] self.layers@[i].takes(&x, &cos, &sin, &mask)
    }

    /// Whether `b` texts of `t` tokens can be read, in main memory and in single precision.
    pub open spec fn reads(&self, b: nat, t: nat, attention_mask: &Array) -> bool {
        let d = seq![b, t, self.embed_tokens@.dims[1]];
        let tables = self.global_cos@.dims;
        &&& self.embed_tokens.on_cpu() && self.embed_tokens@.dtype == Dtype::F32 && self.embed_tokens@.rank() == 2
        &&& self.sliding_window_pattern > 0
        &&& self.masks(t, attention_mask) && attention_mask@.dims[0] == b
        &&& self.norm.usable() && self.norm@.dims == seq![d[2]]
        &&& tables.len() == 2 && t <= tables[0] && self.global_cos.usable()
        &&& self.global_sin.usable() && self.global_sin@.dims == tables
        &&& self.local_cos.usable() && self.local_cos@.dims == tables
        &&& self.local_sin.usable() && self.local_sin@.dims == tables
        &&& model::fits(d)
        &&& forall|i: int| 0 <= i < self.layers@.len() ==> #[trigger] self.layer_takes(i, d)
    }

    fn build_mask(&self, t: usize, attention_mask: &Array, sliding: bool) -> (r: Result<Array, Failure>)
        ensures
            r matches Ok(m) ==> m@ == self.mask_of(t as nat, attention_mask@, sliding),
            self.norm.usable() && self.masks(t as nat, attention_mask) ==> (r matches Ok(m) && m.usable() && m@.dims
                == seq![attention_mask@.dims[0], 1, t as nat, t as nat]),
    {
        let dtype = self.norm.dtype();
        let device = self.norm.device();
        let window = if sliding {
            Some(self.sliding_window)
        } else {
            None
        };
        let causal = build_causal_mask(t, window, dtype, &device)?;
        combine_masks(&causal, attention_mask, dtype)
    }

    /// Computes what stands in front of each layer, and the normalised end.
    ///
    /// `input_ids` and `attention_mask` have shape `(B, T)`.
    pub fn forward(&self, input_ids: &Array, attention_mask: &Array) -> (r: Result<Vec<Array>, Failure>)
        ensures
            r matches Ok(v) ==> array::views(v@) == self.apply(input_ids@, attention_mask@),
            r matches Ok(v) ==> v@.len() == self.layers@.len() + 1,
            r is Ok ==> input_ids@.rank() == 2,
            input_ids@.rank() != 2 ==> r == Err::<Vec<Array>, Failure>(
                Failure::Rank { expected: 2, got: input_ids@.rank() as usize },
            ),
            input_ids@.rank() == 2 && kernels::names_rows(input_ids, self.embed_tokens@.dims[0]) && self.reads(
                input_ids@.dims[0],
                input_ids@.dims[1],
                attention_mask,
            ) ==> (r matches Ok(v) && are_states(
                v@,
                seq![input_ids@.dims[0], input_ids@.dims[1], self.embed_tokens@.dims[1]],
            )),
    {
        let (_b, t) = input_ids.dims2()?;
        assert(input_ids@.dims.push(self.embed_tokens@.dims[1]) =~= seq![
            _b as nat,
            t as nat,
            self.embed_tokens@.dims[1],
        ]);
        let scale = Array::count(self.hidden_size)?.unary(UnOp::Sqrt)?;
        let xs = self.embed_tokens.embedding(input_ids)?.scale_by(&scale)?;
        let hidden_states = self.run_layers(xs, t, input_ids, attention_mask)?;
        Ok(hidden_states)
    }

    fn run_layers(&self, xs: Array, t: usize, input_ids: &Array, attention_mask: &Array) -> (r: Result<
        Vec<Array>,
        Failure,
    >)
        requires
            input_ids@.rank() == 2,
            t == input_ids@.dims[1],
            xs@ == self.embedded(input_ids@),
        ensures
            r matches Ok(v) ==> array::views(v@) == self.apply(input_ids@, attention_mask@),
            r matches Ok(v) ==> v@.len() == self.layers@.len() + 1,
            ({
                let d = seq![input_ids@.dims[0], input_ids@.dims[1], self.embed_tokens@.dims[1]];
                self.reads(input_ids@.dims[0], t as nat, attention_mask) && xs.on_cpu() && xs@.dtype == Dtype::F32 && xs@.dims
                    == d ==> (r matches Ok(v) && are_states(v@, d))
            }),
    {
        let ghost d = seq![input_ids@.dims[0], input_ids@.dims[1], self.embed_tokens@.dims[1]];
        let ghost fine = self.reads(input_ids@.dims[0], t as nat, attention_mask) && xs.on_cpu() && xs@.dtype
            == Dtype::F32 && xs@.dims == d;
        proof {
            lemmas::lemma_narrow_dims(self.global_cos@, 0, 0, t as nat);
            lemmas::lemma_narrow_dims(self.global_sin@, 0, 0, t as nat);
            lemmas::lemma_narrow_dims(self.local_cos@, 0, 0, t as nat);
            lemmas::lemma_narrow_dims(self.local_sin@, 0, 0, t as nat);
            if fine {
                let tables = self.global_cos@.dims;
                assert(tables.update(0, t as nat) =~= seq![t as nat, tables[1]]);
                lemmas::lemma_last_spreads(d, d[2]);
            }
        }
        if self.sliding_window_pattern == 0 {
            return Err(Failure::Shape);
        }
        let global_mask = self.build_mask(t, attention_mask, false)?;
        let sliding_mask = self.build_mask(t, attention_mask, true)?;
        let g_cos = self.global_cos.narrow(0, 0, t)?;
        let g_sin = self.global_sin.narrow(0, 0, t)?;
        let l_cos = self.local_cos.narrow(0, 0, t)?;
        let l_sin = self.local_sin.narrow(0, 0, t)?;
        let mut state = xs;
        let mut hidden_states: Vec<Array> = Vec::new();
        let mut idx: usize = 0;
        while idx < self.layers.len()
            invariant
                idx <= self.layers.len(),
                self.sliding_window_pattern > 0,
                t == input_ids@.dims[1],
                d == seq![input_ids@.dims[0], input_ids@.dims[1], self.embed_tokens@.dims[1]],
                fine == (self.reads(input_ids@.dims[0], t as nat, attention_mask) && xs.on_cpu() && xs@.dtype
                    == Dtype::F32 && xs@.dims == d),
                fine ==> is_state(&state, d) && are_states(hidden_states@, d),
                fine ==> global_mask.usable() && global_mask@.dims == seq![d[0], 1, d[1], d[1]],
                fine ==> sliding_mask.usable() && sliding_mask@.dims == seq![d[0], 1, d[1], d[1]],
                fine ==> is_table(&g_cos, self.global_cos@.dims, d) && is_table(&g_sin, self.global_cos@.dims, d),
                fine ==> is_table(&l_cos, self.global_cos@.dims, d) && is_table(&l_sin, self.global_cos@.dims, d),
                global_mask@ == self.mask_of(t as nat, attention_mask@, false),
                sliding_mask@ == self.mask_of(t as nat, attention_mask@, true),
                g_cos@ == model::narrow(self.global_cos@, 0, 0, t as nat),
                g_sin@ == model::narrow(self.global_sin@, 0, 0, t as nat),
                l_cos@ == model::narrow(self.local_cos@, 0, 0, t as nat),
                l_sin@ == model::narrow(self.local_sin@, 0, 0, t as nat),
                state@ == self.before_layer(input_ids@, attention_mask@, idx as nat),
                hidden_states@.len() == idx,
                forall|k: int|
                    0 <= k < idx ==> (#[trigger] hidden_states@[k])@ == self.before_layer(
                        input_ids@,
                        attention_mask@,
                        k as nat,
                    ),
            decreases self.layers.len() - idx,
        {
            assert(fine ==> self.layer_takes(idx as int, d));
            hidden_states.push(state.clone());
            let next: usize = idx + 1;
            let layer = &self.layers[idx];
            state = if next % self.sliding_window_pattern > 0 {
                layer.forward(&state, &l_cos, &l_sin, &sliding_mask)?
            } else {
                layer.forward(&state, &g_cos, &g_sin, &global_mask)?
            };
            idx = next;
        }
        let last = gemma_rms_norm(&state, &self.norm, self.rms_norm_eps)?;
        hidden_states.push(last);
        assert(array::views(hidden_states@) =~= self.apply(input_ids@, attention_mask@));
        Ok(hidden_states)
    }
}

} // verus!
