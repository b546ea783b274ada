//! Low-rank adapters, merged into the weights when a layer is loaded.
use vstd::prelude::*;

use crate::array::Array;
use crate::error::Failure;
use crate::model::{self, BinOp, Dtype, TensorView};
use crate::nn::linear::{Linear, LinearView};
use crate::scalar::{self, Scalar, ZERO};
use crate::weights::{Weights, WeightsView};

verus! {

/// An adapter, seen from one of its paths, and how strongly it is applied.
pub struct LoraConfig {
    pub vb: Weights,
    pub scale: Scalar,
}

/// The mathematical model of a [`LoraConfig`].
#[verifier::ext_equal]
pub struct LoraView {
    pub vb: WeightsView,
    pub scale: Scalar,
}

impl LoraView {
    pub open spec fn pp(self, name: Seq<char>) -> LoraView {
        LoraView { vb: self.vb.pp(name), ..self }
    }

    pub open spec fn at(self, i: nat) -> LoraView {
        LoraView { vb: self.vb.at(i), ..self }
    }
}

impl View for LoraConfig {
    type V = LoraView;

    open spec fn view(&self) -> LoraView {
        LoraView { vb: self.vb@, scale: self.scale }
    }
}

/// The model of an optional borrowed adapter.
pub open spec fn lora_view(lora: Option<&LoraConfig>) -> Option<LoraView> {
    match lora {
        Some(l) => Some(l@),
        None => None,
    }
}

/// The model of an optional adapter.
pub open spec fn owned_lora_view(lora: Option<LoraConfig>) -> Option<LoraView> {
    match lora {
        Some(l) => Some(l@),
        None => None,
    }
}

/// An optional adapter seen from below `name`.
pub open spec fn lora_pp(lora: Option<LoraView>, name: Seq<char>) -> Option<LoraView> {
    match lora {
        Some(l) => Some(l.pp(name)),
        None => None,
    }
}

/// An optional adapter seen from below the number `i`.
pub open spec fn lora_at(lora: Option<LoraView>, i: nat) -> Option<LoraView> {
    match lora {
        Some(l) => Some(l.at(i)),
        None => None,
    }
}

impl LoraConfig {
    pub fn new(vb: Weights, scale: Scalar) -> (r: LoraConfig)
        ensures
            r@ == (LoraView { vb: vb@, scale }),
    {
        LoraConfig { vb, scale }
    }

    /// The same adapter seen from below `name`.
    pub fn pp(&self, name: &str) -> (r: LoraConfig)
        ensures
            r@ == self@.pp(name@),
    {
        LoraConfig { vb: self.vb.pp(name), scale: self.scale }
    }

    /// The same adapter seen from below the number `i`.
    pub fn at(&self, i: usize) -> (r: LoraConfig)
        ensures
            r@ == self@.at(i as nat),
    {
        LoraConfig { vb: self.vb.at(i), scale: self.scale }
    }
}

/// An optional adapter seen from below `name`.
pub fn sub_lora(lora: Option<&LoraConfig>, name: &str) -> (r: Option<LoraConfig>)
    ensures
        owned_lora_view(r) == lora_pp(lora_view(lora), name@),
{
    match lora {
        Some(l) => Some(l.pp(name)),
        None => None,
    }
}

/// An optional adapter seen from below the number `i`.
pub fn nth_lora(lora: Option<&LoraConfig>, i: usize) -> (r: Option<LoraConfig>)
    ensures
        owned_lora_view(r) == lora_at(lora_view(lora), i as nat),
{
    match lora {
        Some(l) => Some(l.at(i)),
        None => None,
    }
}

/// Whether an adapter changes the layer that it stands for.
pub open spec fn adapts(lora: Option<LoraView>) -> bool {
    lora matches Some(l) && !scalar::zero(l.scale) && l.vb.has("lora_A.weight"@)
}

/// Whether the two factors of an adapter have the shape of a layer.
pub open spec fn adapter_matches(lora: LoraView, in_dim: nat, out_dim: nat) -> bool {
    let a = lora.vb.get("lora_A.weight"@);
    let b = lora.vb.get("lora_B.weight"@);
    &&& lora.vb.has("lora_B.weight"@)
    &&& a.rank() == 2
    &&& b.rank() == 2
    &&& a.dims[1] == in_dim
    &&& b.dims[0] == out_dim
    &&& b.dims[1] == a.dims[0]
}

/// Whether the tensors of an adapter, where there is one, stay in main memory.
pub open spec fn adapter_sound(lora: Option<LoraView>) -> bool {
    lora matches Some(l) ==> l.vb.sound()
}

/// The weight of a layer with its adapter merged in: `weight + scale * B A`.
pub open spec fn merged(weight: TensorView, lora: Option<LoraView>) -> TensorView {
    match lora {
        Some(l) if adapts(lora) => {
            let a = model::cast(l.vb.get("lora_A.weight"@), Dtype::F32);
            let b = model::cast(l.vb.get("lora_B.weight"@), Dtype::F32);
            let delta = model::affine(model::matmul(b, a), model::number(l.scale), model::number(ZERO));
            model::cast(
                model::binary(BinOp::Plus, model::cast(weight, Dtype::F32), delta),
                weight.dtype,
            )
        },
        _ => weight,
    }
}

/// The layer with a bias that a checkpoint and an adapter give.
pub open spec fn linear_of(vb: WeightsView, lora: Option<LoraView>) -> LinearView {
    LinearView { weight: merged(vb.get("weight"@), lora), bias: Some(vb.get("bias"@)) }
}

/// The layer without a bias that a checkpoint and an adapter give.
pub open spec fn linear_no_bias_of(vb: WeightsView, lora: Option<LoraView>) -> LinearView {
    LinearView { weight: merged(vb.get("weight"@), lora), bias: None }
}

/// Whether a checkpoint and an adapter hold a layer of these sizes.
pub open spec fn has_linear(
    vb: WeightsView,
    lora: Option<LoraView>,
    in_dim: nat,
    out_dim: nat,
    bias: bool,
) -> bool {
    &&& vb.holds("weight"@, seq![out_dim, in_dim])
    &&& bias ==> vb.holds("bias"@, seq![out_dim])
    &&& adapts(lora) ==> adapter_matches(lora->0, in_dim, out_dim)
}

/// Loads a layer with a bias and merges its adapter.
pub fn linear(in_dim: usize, out_dim: usize, vb: &Weights, lora: Option<&LoraConfig>) -> (r: Result<
    Linear,
    Failure,
>)
    ensures
        r matches Ok(l) ==> l@ == linear_of(vb@, lora_view(lora)),
        r matches Ok(l) ==> vb@.in_memory && vb@.dtype == Dtype::F32 && in_dim > 0 && out_dim > 0 ==> l.maps(
            in_dim as nat,
            out_dim as nat,
        ),
        r is Ok ==> has_linear(vb@, lora_view(lora), in_dim as nat, out_dim as nat, true),
        vb@.sound() && adapter_sound(lora_view(lora)) && has_linear(
            vb@,
            lora_view(lora),
            in_dim as nat,
            out_dim as nat,
            true,
        ) ==> r is Ok,
{
    let weight = vb.get2(out_dim, in_dim, "weight")?;
    let weight = merge_lora_weight(weight, in_dim, out_dim, lora)?;
    let bias = vb.get1(out_dim, "bias")?;
    Ok(Linear::new(weight, Some(bias)))
}

/// Loads a layer without a bias and merges its adapter.
pub fn linear_no_bias(
    in_dim: usize,
    out_dim: usize,
    vb: &Weights,
    lora: Option<&LoraConfig>,
) -> (r: Result<Linear, Failure>)
    ensures
        r matches Ok(l) ==> l@ == linear_no_bias_of(vb@, lora_view(lora)),
        r matches Ok(l) ==> vb@.in_memory && vb@.dtype == Dtype::F32 && in_dim > 0 && out_dim > 0 ==> l.maps(
            in_dim as nat,
            out_dim as nat,
        ),
        r is Ok ==> has_linear(vb@, lora_view(lora), in_dim as nat, out_dim as nat, false),
        vb@.sound() && adapter_sound(lora_view(lora)) && has_linear(
            vb@,
            lora_view(lora),
            in_dim as nat,
            out_dim as nat,
            false,
        ) ==> r is Ok,
{
    let weight = vb.get2(out_dim, in_dim, "weight")?;
    let weight = merge_lora_weight(weight, in_dim, out_dim, lora)?;
    Ok(Linear::new(weight, None))
}

/// Merges an adapter into a weight.
pub fn merge_lora_weight(
    weight: Array,
    in_dim: usize,
    out_dim: usize,
    lora: Option<&LoraConfig>,
) -> (r: Result<Array, Failure>)
    ensures
        r matches Ok(w) ==> w@ == merged(weight@, lora_view(lora)),
        r matches Ok(w) ==> w@.dims == weight@.dims && w@.dtype == weight@.dtype && w.on_cpu() == weight.on_cpu(),
        !adapts(lora_view(lora)) ==> r is Ok,
        weight.usable() && weight@.dims == seq![out_dim as nat, in_dim as nat] && model::fits(weight@.dims)
            && adapter_sound(lora_view(lora)) && (adapts(lora_view(lora)) ==> adapter_matches(
            lora->0@,
            in_dim as nat,
            out_dim as nat,
        )) ==> r is Ok,
        weight.usable() && adapts(lora_view(lora)) && adapter_sound(lora_view(lora)) && lora->0@.vb.has(
            "lora_B.weight"@,
        ) && lora->0@.vb.get("lora_A.weight"@).rank() == 2 && lora->0@.vb.get("lora_B.weight"@).rank() == 2
            && !adapter_matches(lora->0@, in_dim as nat, out_dim as nat) ==> r is Err && r->Err_0 is LoraShape,
        r is Ok && adapts(lora_view(lora)) ==> adapter_matches(
            lora->0@,
            in_dim as nat,
            out_dim as nat,
        ),
        r matches Err(Failure::LoraShape { .. }) ==> adapts(lora_view(lora)) && !adapter_matches(
            lora->0@,
            in_dim as nat,
            out_dim as nat,
        ),
{
    let lora = match lora {
        Some(l) => l,
        None => {
            return Ok(weight);
        },
    };
    if scalar::is_zero(lora.scale) || !lora.vb.contains_tensor("lora_A.weight") {
        return Ok(weight);
    }
    let a = lora.vb.get_unchecked("lora_A.weight")?;
    let b = lora.vb.get_unchecked("lora_B.weight")?;
    let (rank, lora_in) = a.dims2()?;
    let (lora_out, rank_b) = b.dims2()?;
    if lora_in != in_dim || lora_out != out_dim || rank_b != rank {
        return Err(Failure::LoraShape { rank, lora_in, lora_out, rank_b });
    }
    let dtype = weight.dtype();
    assert(b@.rank() == 2 && a@.rank() == 2 ==> b@.dims.drop_last().push(a@.dims.last()) =~= seq![
        b@.dims[0],
        a@.dims[1],
    ]);
    let delta = b.to_dtype(Dtype::F32)?.matmul(&a.to_dtype(Dtype::F32)?)?;
    let delta = delta.scale(lora.scale)?;
    weight.to_dtype(Dtype::F32)?.pairwise(BinOp::Plus, &delta)?.to_dtype(dtype)
}

} // verus!
