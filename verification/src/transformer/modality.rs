//! What goes into the transformer, and what passes between its blocks.
use vstd::prelude::*;

use crate::array::{self, Array};
use crate::model::TensorView;

verus! {

/// The inputs of one stream.
pub struct Modality {
    /// Tokens of the latent: `(B, T, D)`.
    pub latent: Array,
    /// The noise level of each token: `(B, T)`.
    pub timesteps: Array,
    /// Where each token lies: `(B, ndim, T, 2)`.
    pub positions: Array,
    /// The text: `(B, S, context_dim)`.
    pub context: Array,
    /// Whether the stream is computed.
    pub enabled: bool,
    /// Which positions of the text count.
    pub context_mask: Option<Array>,
    /// The noise level of each sample: `(B,)` or `(B, 1)`.
    pub sigma: Option<Array>,
}

/// The mathematical model of a [`Modality`].
#[verifier::ext_equal]
pub struct ModalityView {
    pub latent: TensorView,
    pub timesteps: TensorView,
    pub positions: TensorView,
    pub context: TensorView,
    pub enabled: bool,
    pub context_mask: Option<TensorView>,
    pub sigma: Option<TensorView>,
}

impl View for Modality {
    type V = ModalityView;

    open spec fn view(&self) -> ModalityView {
        ModalityView {
            latent: self.latent@,
            timesteps: self.timesteps@,
            positions: self.positions@,
            context: self.context@,
            enabled: self.enabled,
            context_mask: array::opt_view(self.context_mask),
            sigma: array::opt_view(self.sigma),
        }
    }
}

/// Whether an optional array, where there is one, is in main memory.
pub open spec fn opt_on_cpu(a: Option<Array>) -> bool {
    a matches Some(a) ==> a.on_cpu()
}

impl Modality {
    /// Whether all inputs are in main memory.
    pub open spec fn in_memory(&self) -> bool {
        &&& self.latent.on_cpu() && self.timesteps.on_cpu() && self.positions.on_cpu() && self.context.on_cpu()
        &&& opt_on_cpu(self.context_mask) && opt_on_cpu(self.sigma)
    }
}

/// The model of an optional borrowed modality.
pub open spec fn modality_view(m: Option<&Modality>) -> Option<ModalityView> {
    match m {
        Some(m) => Some(m@),
        None => None,
    }
}

/// Whether an optional modality, where there is one, is in main memory.
pub open spec fn opt_in_memory(m: Option<&Modality>) -> bool {
    m matches Some(m) ==> m.in_memory()
}

/// What the blocks of the transformer need of one stream.
pub struct TransformerArgs {
    /// The hidden state: `(B, T, inner_dim)`.
    pub x: Array,
    /// The projected text.
    pub context: Array,
    /// What is added to the scores of the text.
    pub context_mask: Option<Array>,
    /// Modulation of each token.
    pub timesteps: Array,
    /// Embedded noise level of each token.
    pub embedded_timestep: Array,
    /// Rotation for self-attention.
    pub positional_embeddings: (Array, Array),
    /// Rotation for attention between the streams.
    pub cross_positional_embeddings: Option<(Array, Array)>,
    /// Modulation for attention between the streams.
    pub cross_scale_shift_timestep: Option<Array>,
    /// Gates for attention between the streams.
    pub cross_gate_timestep: Option<Array>,
    /// Modulation of the text.
    pub prompt_timestep: Option<Array>,
    /// Whether the stream is computed.
    pub enabled: bool,
}

/// The mathematical model of [`TransformerArgs`].
#[verifier::ext_equal]
pub struct ArgsView {
    pub x: TensorView,
    pub context: TensorView,
    pub context_mask: Option<TensorView>,
    pub timesteps: TensorView,
    pub embedded_timestep: TensorView,
    pub positional_embeddings: (TensorView, TensorView),
    pub cross_positional_embeddings: Option<(TensorView, TensorView)>,
    pub cross_scale_shift_timestep: Option<TensorView>,
    pub cross_gate_timestep: Option<TensorView>,
    pub prompt_timestep: Option<TensorView>,
    pub enabled: bool,
}

/// The model of an optional pair of arrays.
pub open spec fn pair_view(p: Option<(Array, Array)>) -> Option<(TensorView, TensorView)> {
    match p {
        Some(p) => Some((p.0@, p.1@)),
        None => None,
    }
}

impl View for TransformerArgs {
    type V = ArgsView;

    open spec fn view(&self) -> ArgsView {
        ArgsView {
            x: self.x@,
            context: self.context@,
            context_mask: array::opt_view(self.context_mask),
            timesteps: self.timesteps@,
            embedded_timestep: self.embedded_timestep@,
            positional_embeddings: (self.positional_embeddings.0@, self.positional_embeddings.1@),
            cross_positional_embeddings: pair_view(self.cross_positional_embeddings),
            cross_scale_shift_timestep: array::opt_view(self.cross_scale_shift_timestep),
            cross_gate_timestep: array::opt_view(self.cross_gate_timestep),
            prompt_timestep: array::opt_view(self.prompt_timestep),
            enabled: self.enabled,
        }
    }
}

/// The model of optional borrowed arguments.
pub open spec fn args_view(a: Option<&TransformerArgs>) -> Option<ArgsView> {
    match a {
        Some(a) => Some(a@),
        None => None,
    }
}

/// The model of optional arguments.
pub open spec fn owned_args_view(a: Option<TransformerArgs>) -> Option<ArgsView> {
    match a {
        Some(a) => Some(a@),
        None => None,
    }
}

/// Whether two arrays are stored and shaped alike and hold elements of one type.
pub open spec fn alike(a: &Array, b: &Array) -> bool {
    a.on_cpu() == b.on_cpu() && a@.dims == b@.dims && a@.dtype == b@.dtype
}

/// Whether two optional arrays are alike.
pub open spec fn opt_alike(a: Option<Array>, b: Option<Array>) -> bool {
    match (a, b) {
        (Some(a), Some(b)) => alike(&a, &b),
        (None, None) => true,
        _ => false,
    }
}

/// Whether two optional pairs of arrays are alike.
pub open spec fn pair_alike(a: Option<(Array, Array)>, b: Option<(Array, Array)>) -> bool {
    match (a, b) {
        (Some(a), Some(b)) => alike(&a.0, &b.0) && alike(&a.1, &b.1),
        (None, None) => true,
        _ => false,
    }
}

/// Whether optional arguments are alike.
pub open spec fn args_alike(a: Option<TransformerArgs>, b: Option<&TransformerArgs>) -> bool {
    match (a, b) {
        (Some(a), Some(b)) => a.alike(b),
        (None, None) => true,
        _ => false,
    }
}

/// Whether optional arguments, where there are any, are in main memory.
pub open spec fn args_in_memory(a: Option<TransformerArgs>) -> bool {
    a matches Some(a) ==> a.in_memory()
}

/// What is alike to arguments that are alike to others is alike to those.
pub proof fn lemma_alike(a: Option<TransformerArgs>, b: Option<TransformerArgs>, c: Option<TransformerArgs>)
    requires
        args_alike(a, lent(&b)),
        args_alike(b, lent(&c)),
    ensures
        args_alike(a, lent(&c)),
{
}

/// Optional arguments, borrowed.
pub open spec fn lent(a: &Option<TransformerArgs>) -> Option<&TransformerArgs> {
    match a {
        Some(a) => Some(a),
        None => None,
    }
}

/// A copy of an optional array.
pub fn copy_opt(a: &Option<Array>) -> (r: Option<Array>)
    ensures
        array::opt_view(r) == array::opt_view(*a),
        opt_alike(r, *a),
{
    match a {
        Some(a) => Some(a.clone()),
        None => None,
    }
}

/// A copy of an optional pair of arrays.
fn copy_pair(p: &Option<(Array, Array)>) -> (r: Option<(Array, Array)>)
    ensures
        pair_view(r) == pair_view(*p),
        pair_alike(r, *p),
{
    match p {
        Some(p) => Some((p.0.clone(), p.1.clone())),
        None => None,
    }
}

impl TransformerArgs {
    /// Whether all arrays are in main memory.
    pub open spec fn in_memory(&self) -> bool {
        &&& self.x.on_cpu() && self.context.on_cpu() && self.timesteps.on_cpu() && self.embedded_timestep.on_cpu()
        &&& self.positional_embeddings.0.on_cpu() && self.positional_embeddings.1.on_cpu()
        &&& opt_on_cpu(self.context_mask) && opt_on_cpu(self.cross_scale_shift_timestep)
        &&& opt_on_cpu(self.cross_gate_timestep) && opt_on_cpu(self.prompt_timestep)
        &&& self.cross_positional_embeddings matches Some(p) ==> p.0.on_cpu() && p.1.on_cpu()
    }

    /// Whether each array is alike to the other's.
    pub open spec fn alike(&self, other: &TransformerArgs) -> bool {
        &&& alike(&self.x, &other.x) && alike(&self.context, &other.context)
        &&& opt_alike(self.context_mask, other.context_mask)
        &&& alike(&self.timesteps, &other.timesteps) && alike(&self.embedded_timestep, &other.embedded_timestep)
        &&& alike(&self.positional_embeddings.0, &other.positional_embeddings.0)
        &&& alike(&self.positional_embeddings.1, &other.positional_embeddings.1)
        &&& pair_alike(self.cross_positional_embeddings, other.cross_positional_embeddings)
        &&& opt_alike(self.cross_scale_shift_timestep, other.cross_scale_shift_timestep)
        &&& opt_alike(self.cross_gate_timestep, other.cross_gate_timestep)
        &&& opt_alike(self.prompt_timestep, other.prompt_timestep)
        &&& self.enabled == other.enabled
    }

    /// The same arguments with another hidden state.
    pub fn with_x(&self, x: Array) -> (r: TransformerArgs)
        ensures
            r@ == (ArgsView { x: x@, ..self@ }),
            alike(&x, &self.x) ==> r.alike(self),
    {
        TransformerArgs {
            x,
            context: self.context.clone(),
            context_mask: copy_opt(&self.context_mask),
            timesteps: self.timesteps.clone(),
            embedded_timestep: self.embedded_timestep.clone(),
            positional_embeddings: (
                self.positional_embeddings.0.clone(),
                self.positional_embeddings.1.clone(),
            ),
            cross_positional_embeddings: copy_pair(&self.cross_positional_embeddings),
            cross_scale_shift_timestep: copy_opt(&self.cross_scale_shift_timestep),
            cross_gate_timestep: copy_opt(&self.cross_gate_timestep),
            prompt_timestep: copy_opt(&self.prompt_timestep),
            enabled: self.enabled,
        }
    }
}

} // verus!
