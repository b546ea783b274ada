//! Embeddings connector: learned registers take the place of padding.
use vstd::prelude::*;

use crate::array::{self, kernels, Array};
use crate::base::config::{TransformerConfig, TEN_THOUSAND};
use crate::base::ops::{self, rms_norm};
use crate::error::Failure;
use crate::lemmas;
use crate::model::{self, BinOp, Dtype, RelOp, TensorView, UnOp};
use crate::nn::attention::Attention;
use crate::nn::feed_forward::FeedForward;
use crate::nn::linear;
use crate::nn::pixel_norm::PIXEL_NORM_EPS;
use crate::nn::rope::{self, precompute_freqs_cis, LTXRopeType};
use crate::scalar::{Scalar, MINUS_ONE, ONE};
use crate::text::same;
use crate::text_encoder::gemma3;
use crate::transformer::ltx::copy_sizes;
use crate::weights::{Weights, WeightsView};

verus! {

/// -9000: below it, an additive mask marks padding.
pub const PADDING_BOUND: Scalar = 0xC0C1_9400_0000_0000;

/// Attention and a feed-forward network, each normalised before and added to its input.
pub struct BasicTransformerBlock1D {
    pub attn: Attention,
    pub ff: FeedForward,
}

impl BasicTransformerBlock1D {
    /// Whether this is the block that a checkpoint holds.
    pub open spec fn loaded(
        &self,
        heads: nat,
        dim_head: nat,
        rope_type: LTXRopeType,
        gated: bool,
        vb: WeightsView,
    ) -> bool {
        &&& self.attn.loaded(vb.pp("attn1"@), None, gated)
        &&& self.attn.heads == heads
        &&& self.attn.dim_head == dim_head
        &&& self.attn.norm_eps == PIXEL_NORM_EPS
        &&& self.attn.rope_type == rope_type
        &&& self.ff.loaded(vb.pp("ff"@), None)
    }

    /// Whether a checkpoint holds a block of these sizes.
    pub open spec fn present(dim: nat, heads: nat, dim_head: nat, gated: bool, vb: WeightsView) -> bool {
        &&& Attention::present(vb.pp("attn1"@), None, dim, dim, heads, dim_head, gated)
        &&& FeedForward::present(vb.pp("ff"@), None, dim, dim, 4)
    }

    pub fn new(
        dim: usize,
        heads: usize,
        dim_head: usize,
        rope_type: LTXRopeType,
        apply_gated_attention: bool,
        vb: &Weights,
    ) -> (r: Result<BasicTransformerBlock1D, Failure>)
        ensures
            r matches Ok(b) ==> b.loaded(heads as nat, dim_head as nat, rope_type, apply_gated_attention, vb@),
            r is Ok ==> BasicTransformerBlock1D::present(
                dim as nat,
                heads as nat,
                dim_head as nat,
                apply_gated_attention,
                vb@,
            ),
            vb@.sound() && BasicTransformerBlock1D::present(
                dim as nat,
                heads as nat,
                dim_head as nat,
                apply_gated_attention,
                vb@,
            ) ==> r is Ok,
    {
        let attn = Attention::new(
            dim,
            None,
            heads,
            dim_head,
            PIXEL_NORM_EPS,
            rope_type,
            apply_gated_attention,
            &vb.pp("attn1"),
        )?;
        let ff = FeedForward::new(dim, dim, 4, &vb.pp("ff"))?;
        Ok(BasicTransformerBlock1D { attn, ff })
    }

    /// What the block computes from `x`.
    #[verifier::opaque]
    pub open spec fn apply(
        &self,
        x: TensorView,
        mask: Option<TensorView>,
        pe: Option<(TensorView, TensorView)>,
    ) -> TensorView {
        let attended = self.attn.apply(ops::rms_norm_of(x, None, PIXEL_NORM_EPS), None, mask, pe, None);
        let x = model::binary(BinOp::Plus, attended, x);
        model::binary(BinOp::Plus, self.ff.apply(ops::rms_norm_of(x, None, PIXEL_NORM_EPS)), x)
    }

    /// Whether the block can be applied, in main memory and in single precision, with rows of
    /// `hidden` numbers in its feed-forward network.
    pub open spec fn takes(
        &self,
        x: &Array,
        mask: Option<&Array>,
        pe: Option<(&Array, &Array)>,
        hidden: nat,
    ) -> bool {
        let inner = self.attn.heads as nat * self.attn.dim_head as nat;
        &&& x.on_cpu() && x@.dtype == Dtype::F32 && x@.rank() == 3 && model::numel(x@.dims) > 0
        &&& self.attn.attends(x, x, mask)
        &&& pe matches Some(p) ==> self.attn.turns(p, seq![x@.dims[0], x@.dims[1], inner])
        &&& self.ff.maps(x@.dims[2], hidden, x@.dims[2]) && model::fits(linear::with_width(x@.dims, hidden))
    }

    pub fn forward(&self, x: &Array, mask: Option<&Array>, pe: Option<(&Array, &Array)>) -> (r: Result<
        Array,
        Failure,
    >)
        ensures
            r matches Ok(t) ==> t@ == self.apply(
                x@,
                array::opt_ref_view(mask),
                crate::nn::attention::pe_view(pe),
            ),
            forall|hidden: nat| #[trigger]
                self.takes(x, mask, pe, hidden) ==> (r matches Ok(t) && t.on_cpu() && t@.dtype == Dtype::F32 && t@.dims
                    == x@.dims),
    {
        proof {
            reveal(BasicTransformerBlock1D::apply);
            if x@.rank() == 3 {
                assert(linear::with_width(x@.dims, x@.dims[2]) =~= x@.dims);
            }
        }
        let normed = rms_norm(x, None, PIXEL_NORM_EPS)?;
        let attended = self.attn.forward(&normed, None, mask, pe, None)?;
        let x = attended.pairwise(BinOp::Plus, x)?;
        let normed = rms_norm(&x, None, PIXEL_NORM_EPS)?;
        self.ff.forward(&normed)?.pairwise(BinOp::Plus, &x)
    }
}

/// Moves tokens to the front, puts learned registers behind them and runs transformer blocks.
pub struct Embeddings1DConnector {
    pub blocks: Vec<BasicTransformerBlock1D>,
    pub learnable_registers: Option<Array>,
    pub num_learnable_registers: usize,
    pub inner_dim: usize,
    pub num_heads: usize,
    pub theta: Scalar,
    pub max_pos: Vec<usize>,
    pub rope_type: LTXRopeType,
    pub double_precision_rope: bool,
}

/// What a connector computes on its way.
pub struct Embeddings1DConnectorTrace {
    pub after_registers: Array,
    pub block_outputs: Vec<Array>,
    pub output: Array,
    pub mask: Array,
}

/// The sizes of a connector.
pub ghost struct ConnectorPlan {
    pub head_dim: nat,
    pub heads: nat,
    pub layers: nat,
    pub theta: Scalar,
    pub max_pos: Seq<usize>,
    pub registers: nat,
    pub rope_type: LTXRopeType,
    pub double_precision: bool,
    pub gated: bool,
    pub blocks_key: Seq<char>,
}

/// A connector with 128 registers, two layers and 30 heads of 128 elements.
pub open spec fn default_plan() -> ConnectorPlan {
    ConnectorPlan {
        head_dim: 128,
        heads: 30,
        layers: 2,
        theta: TEN_THOUSAND,
        max_pos: seq![1usize],
        registers: 128,
        rope_type: LTXRopeType::Split,
        double_precision: false,
        gated: false,
        blocks_key: "transformer_1d_blocks"@,
    }
}

/// The video connector of a configuration.
pub open spec fn video_plan(cfg: TransformerConfig) -> ConnectorPlan {
    ConnectorPlan {
        head_dim: cfg.connector_attention_head_dim as nat,
        heads: cfg.connector_num_attention_heads as nat,
        layers: cfg.connector_num_layers as nat,
        theta: cfg.positional_embedding_theta,
        max_pos: cfg.connector_positional_embedding_max_pos@,
        registers: cfg.connector_num_learnable_registers as nat,
        rope_type: rope_type_of(cfg.rope_type@),
        double_precision: cfg.frequencies_precision matches Some(p) && p@ == "float64"@,
        gated: cfg.connector_apply_gated_attention,
        blocks_key: "transformer_1d_blocks"@,
    }
}

/// `n`, or the fallback where `n` is zero.
pub open spec fn or_else(n: usize, fallback: usize) -> nat {
    if n == 0 {
        fallback as nat
    } else {
        n as nat
    }
}

/// The audio connector of a configuration: where a size is not given, it is the video
/// connector's.
pub open spec fn audio_plan(cfg: TransformerConfig) -> ConnectorPlan {
    ConnectorPlan {
        head_dim: or_else(cfg.audio_connector_attention_head_dim, cfg.connector_attention_head_dim),
        heads: or_else(cfg.audio_connector_num_attention_heads, cfg.connector_num_attention_heads),
        layers: or_else(cfg.audio_connector_num_layers, cfg.connector_num_layers),
        ..video_plan(cfg)
    }
}

impl Embeddings1DConnector {
    /// Whether this is the connector that a checkpoint holds.
    pub open spec fn loaded(&self, plan: ConnectorPlan, vb: WeightsView) -> bool {
        &&& self.blocks@.len() == plan.layers
        &&& forall|i: int|
            0 <= i < plan.layers ==> (#[trigger] self.blocks@[i]).loaded(
                plan.heads,
                plan.head_dim,
                plan.rope_type,
                plan.gated,
                vb.pp(plan.blocks_key).at(i as nat),
            )
        &&& (self.learnable_registers is Some) == (plan.registers > 0)
        &&& self.learnable_registers matches Some(reg) ==> reg@ == vb.get("learnable_registers"@)
        &&& self.num_learnable_registers == plan.registers
        &&& self.inner_dim == plan.heads * plan.head_dim
        &&& self.num_heads == plan.heads
        &&& self.theta == plan.theta
        &&& self.max_pos@ == plan.max_pos
        &&& self.rope_type == plan.rope_type
        &&& self.double_precision_rope == plan.double_precision
    }

    /// Whether a checkpoint holds a connector of these sizes.
    pub open spec fn present(plan: ConnectorPlan, vb: WeightsView) -> bool {
        let dim = plan.heads * plan.head_dim;
        &&& forall|i: nat|
            i < plan.layers ==> BasicTransformerBlock1D::present(
                dim,
                plan.heads,
                plan.head_dim,
                plan.gated,
                #[trigger] vb.pp(plan.blocks_key).at(i),
            )
        &&& plan.registers > 0 ==> vb.holds("learnable_registers"@, seq![plan.registers, dim])
    }

    pub fn new(
        attention_head_dim: usize,
        num_attention_heads: usize,
        num_layers: usize,
        theta: Scalar,
        max_pos: Vec<usize>,
        num_learnable_registers: usize,
        rope_type: LTXRopeType,
        double_precision_rope: bool,
        apply_gated_attention: bool,
        blocks_key: &str,
        vb: &Weights,
    ) -> (r: Result<Embeddings1DConnector, Failure>)
        ensures
            ({
                let plan = ConnectorPlan {
                    head_dim: attention_head_dim as nat,
                    heads: num_attention_heads as nat,
                    layers: num_layers as nat,
                    theta,
                    max_pos: max_pos@,
                    registers: num_learnable_registers as nat,
                    rope_type,
                    double_precision: double_precision_rope,
                    gated: apply_gated_attention,
                    blocks_key: blocks_key@,
                };
                &&& r matches Ok(c) ==> c.loaded(plan, vb@)
                &&& r is Ok ==> Embeddings1DConnector::present(plan, vb@)
                &&& vb@.sound() && num_attention_heads * attention_head_dim <= usize::MAX
                    && Embeddings1DConnector::present(plan, vb@) ==> r is Ok
            }),
            num_attention_heads * attention_head_dim > usize::MAX ==> r == Err::<Embeddings1DConnector, Failure>(
                Failure::Overflow,
            ),
    {
        let inner_dim: usize = match num_attention_heads.checked_mul(attention_head_dim) {
            Some(d) => d,
            None => {
                return Err(Failure::Overflow);
            },
        };
        let mut blocks: Vec<BasicTransformerBlock1D> = Vec::new();
        let blocks_vb = vb.pp(blocks_key);
        let mut i: usize = 0;
        while i < num_layers
            invariant
                i <= num_layers,
                inner_dim == num_attention_heads * attention_head_dim,
                blocks_vb@ == vb@.pp(blocks_key@),
                blocks@.len() == i,
                forall|k: int|
                    0 <= k < i ==> (#[trigger] blocks@[k]).loaded(
                        num_attention_heads as nat,
                        attention_head_dim as nat,
                        rope_type,
                        apply_gated_attention,
                        vb@.pp(blocks_key@).at(k as nat),
                    ),
                forall|k: nat|
                    k < i ==> BasicTransformerBlock1D::present(
                        inner_dim as nat,
                        num_attention_heads as nat,
                        attention_head_dim as nat,
                        apply_gated_attention,
                        #[trigger] vb@.pp(blocks_key@).at(k),
                    ),
            decreases num_layers - i,
        {
            let block = BasicTransformerBlock1D::new(
                inner_dim,
                num_attention_heads,
                attention_head_dim,
                rope_type,
                apply_gated_attention,
                &blocks_vb.at(i),
            )?;
            blocks.push(block);
            i = i + 1;
        }
        let learnable_registers = if num_learnable_registers > 0 {
            Some(vb.get2(num_learnable_registers, inner_dim, "learnable_registers")?)
        } else {
            None
        };
        Ok(
            Embeddings1DConnector {
                blocks,
                learnable_registers,
                num_learnable_registers,
                inner_dim,
                num_heads: num_attention_heads,
                theta,
                max_pos,
                rope_type,
                double_precision_rope,
            },
        )
    }

    /// The connector with 128 registers, two layers and 30 heads of 128 elements.
    pub fn new_default(vb: &Weights) -> (r: Result<Embeddings1DConnector, Failure>)
        ensures
            r matches Ok(c) ==> c.loaded(default_plan(), vb@),
            r is Ok ==> Embeddings1DConnector::present(default_plan(), vb@),
            vb@.sound() && Embeddings1DConnector::present(default_plan(), vb@) ==> r is Ok,
    {
        let max_pos: Vec<usize> = vec![1];
        assert(max_pos@ =~= seq![1usize]);
        Embeddings1DConnector::new(
            128,
            30,
            2,
            TEN_THOUSAND,
            max_pos,
            128,
            LTXRopeType::Split,
            false,
            false,
            "transformer_1d_blocks",
            vb,
        )
    }

    /// The video connector of a configuration.
    pub fn new_video_from_config(cfg: &TransformerConfig, vb: &Weights) -> (r: Result<
        Embeddings1DConnector,
        Failure,
    >)
        ensures
            r matches Ok(c) ==> c.loaded(video_plan(*cfg), vb@),
            r is Ok ==> Embeddings1DConnector::present(video_plan(*cfg), vb@),
            vb@.sound() && video_plan(*cfg).heads * video_plan(*cfg).head_dim <= usize::MAX
                && Embeddings1DConnector::present(video_plan(*cfg), vb@) ==> r is Ok,
            cfg.connector_num_attention_heads * cfg.connector_attention_head_dim > usize::MAX ==> r == Err::<
                Embeddings1DConnector,
                Failure,
            >(Failure::Overflow),
    {
        Embeddings1DConnector::new(
            cfg.connector_attention_head_dim,
            cfg.connector_num_attention_heads,
            cfg.connector_num_layers,
            cfg.positional_embedding_theta,
            copy_sizes(&cfg.connector_positional_embedding_max_pos),
            cfg.connector_num_learnable_registers,
            parse_rope_type(cfg.rope_type.as_str()),
            cfg.double_precision_rope(),
            cfg.connector_apply_gated_attention,
            "transformer_1d_blocks",
            vb,
        )
    }

    /// The audio connector of a configuration.
    pub fn new_audio_from_config(cfg: &TransformerConfig, vb: &Weights) -> (r: Result<
        Embeddings1DConnector,
        Failure,
    >)
        ensures
            r matches Ok(c) ==> c.loaded(audio_plan(*cfg), vb@),
            r is Ok ==> Embeddings1DConnector::present(audio_plan(*cfg), vb@),
            vb@.sound() && audio_plan(*cfg).heads * audio_plan(*cfg).head_dim <= usize::MAX
                && Embeddings1DConnector::present(audio_plan(*cfg), vb@) ==> r is Ok,
            audio_plan(*cfg).heads * audio_plan(*cfg).head_dim > usize::MAX ==> r == Err::<
                Embeddings1DConnector,
                Failure,
            >(Failure::Overflow),
    {
        let attention_head_dim: usize = if cfg.audio_connector_attention_head_dim == 0 {
            cfg.connector_attention_head_dim
        } else {
            cfg.audio_connector_attention_head_dim
        };
        let num_attention_heads: usize = if cfg.audio_connector_num_attention_heads == 0 {
            cfg.connector_num_attention_heads
        } else {
            cfg.audio_connector_num_attention_heads
        };
        let num_layers: usize = if cfg.audio_connector_num_layers == 0 {
            cfg.connector_num_layers
        } else {
            cfg.audio_connector_num_layers
        };
        Embeddings1DConnector::new(
            attention_head_dim,
            num_attention_heads,
            num_layers,
            cfg.positional_embedding_theta,
            copy_sizes(&cfg.connector_positional_embedding_max_pos),
            cfg.connector_num_learnable_registers,
            parse_rope_type(cfg.rope_type.as_str()),
            cfg.double_precision_rope(),
            cfg.connector_apply_gated_attention,
            "transformer_1d_blocks",
            vb,
        )
    }

    /// Whether `flags` tell, for each sample, which positions the mask marks as tokens.
    pub open spec fn told(
        &self,
        hs: TensorView,
        attention_mask: TensorView,
        flags: Seq<Seq<i64>>,
    ) -> bool {
        self.learnable_registers is Some ==> flags.len() == hs.dims[0] && marks(
            additive_mask_of(attention_mask, hs.dtype),
            flags,
        )
    }

    /// The embeddings and the mask after the registers have taken the place of padding.
    pub open spec fn with_registers(&self, hs: TensorView, attention_mask: TensorView, flags: Seq<Seq<i64>>) -> (
        TensorView,
        TensorView,
    ) {
        let additive = additive_mask_of(attention_mask, hs.dtype);
        match self.learnable_registers {
            Some(reg) => registered_of(hs, flags, reg@, self.num_learnable_registers as nat),
            None => (hs, additive),
        }
    }

    /// The rotation of each position of `hs`.
    pub open spec fn rotation(&self, hs: TensorView, dtype: Dtype) -> (TensorView, TensorView) {
        let grid = gemma3::lifted(model::cast(model::range(hs.dims[1]), Dtype::F32));
        rope::freqs_cis_of(
            grid,
            self.inner_dim as nat,
            dtype,
            self.theta,
            self.max_pos@,
            self.double_precision_rope,
            self.num_heads as nat,
            self.rope_type,
        )
    }

    /// The output of block `n`; for `n == -1`, what goes into the first block.
    pub open spec fn after_block(&self, hs: TensorView, mask: TensorView, pe: (TensorView, TensorView), n: int) -> TensorView
        decreases n + 1,
    {
        if n < 0 {
            hs
        } else {
            self.blocks@[n].apply(self.after_block(hs, mask, pe, n - 1), Some(mask), Some(pe))
        }
    }

    /// The output of every block.
    pub open spec fn outputs(&self, hs: TensorView, attention_mask: TensorView, flags: Seq<Seq<i64>>) -> Seq<TensorView> {
        let (start, mask) = self.with_registers(hs, attention_mask, flags);
        let pe = self.rotation(start, hs.dtype);
        Seq::new(self.blocks@.len(), |i: int| self.after_block(start, mask, pe, i))
    }

    /// The context and the mask that goes with it.
    pub open spec fn apply(&self, hs: TensorView, attention_mask: TensorView, flags: Seq<Seq<i64>>) -> (
        TensorView,
        TensorView,
    ) {
        let (start, mask) = self.with_registers(hs, attention_mask, flags);
        let pe = self.rotation(start, hs.dtype);
        (
            ops::rms_norm_of(
                self.after_block(start, mask, pe, self.blocks@.len() - 1),
                None,
                PIXEL_NORM_EPS,
            ),
            mask,
        )
    }

    /// Whether the rotation of `t` positions can be computed.
    pub open spec fn plots(&self, t: nat) -> bool {
        &&& self.max_pos@.len() == 1
        &&& self.inner_dim >= 2 && model::fits(seq![1, t, self.inner_dim as nat])
        &&& self.rope_type == LTXRopeType::Split ==> self.num_heads != 0 && (self.inner_dim / 2) % self.num_heads == 0
    }

    /// The shape of the rotation of `t` positions.
    pub open spec fn rotation_dims(&self, t: nat) -> Seq<nat> {
        rope::freqs_dims(1, t, self.inner_dim as nat, self.num_heads as nat, self.rope_type)
    }

    /// Whether every block can be applied to embeddings of this shape, in main memory and in single
    /// precision, with rows of `hidden` numbers in its feed-forward network.
    pub open spec fn blocks_take(&self, dims: Seq<nat>, hidden: nat) -> bool {
        forall|i: int, x: Array, mask: Array, cos: Array, sin: Array|
            0 <= i < self.blocks@.len() && x.on_cpu() && x@.dtype == Dtype::F32 && x@.dims == dims && mask.on_cpu()
                && mask@.dtype == Dtype::F32 && mask@.dims == seq![dims[0], 1, 1, dims[1]] && cos.on_cpu()
                && sin.on_cpu() && cos@.dtype == Dtype::F32 && sin@.dtype == Dtype::F32 && cos@.dims
                == self.rotation_dims(dims[1]) && sin@.dims == self.rotation_dims(dims[1])
                ==> #[trigger] self.blocks@[i].takes(&x, Some(&mask), Some((&cos, &sin)), hidden)
    }

    /// Whether the connector can be applied to embeddings `(B, T, D)` and a mask `(B, T)`, in main
    /// memory.
    pub open spec fn connects(&self, hs: &Array, attention_mask: &Array, hidden: nat) -> bool {
        let d = hs@.dims;
        &&& hs.on_cpu() && hs@.dtype == Dtype::F32 && d.len() == 3 && model::numel(d) > 0 && model::fits(d)
        &&& attention_mask.usable() && attention_mask@.dims == seq![d[0], d[1]]
        &&& self.learnable_registers matches Some(reg) ==> reg.usable() && reg@.dims == seq![
            self.num_learnable_registers as nat,
            d[2],
        ] && self.num_learnable_registers > 0 && d[1] % self.num_learnable_registers as nat == 0
        &&& self.plots(d[1])
        &&& self.blocks_take(d, hidden)
    }

    /// Computes the context and the mask that goes with it.
    ///
    /// `hidden_states` has shape `(B, T, D)`, `attention_mask` shape `(B, T)` with one for a
    /// token and zero for padding.
    pub fn forward(&self, hidden_states: &Array, attention_mask: &Array) -> (r: Result<(Array, Array), Failure>)
        ensures
            r matches Ok(t) ==> exists|flags: Seq<Seq<i64>>| #[trigger]
                self.told(hidden_states@, attention_mask@, flags) && (t.0@, t.1@) == self.apply(
                    hidden_states@,
                    attention_mask@,
                    flags,
                ),
            forall|hidden: nat| #[trigger]
                self.connects(hidden_states, attention_mask, hidden) ==> (r matches Ok(t) && t.0.on_cpu()
                    && t.0@.dtype == Dtype::F32 && t.0@.dims == hidden_states@.dims && t.1.on_cpu()),
    {
        let trace = self.forward_trace(hidden_states, attention_mask)?;
        Ok((trace.output, trace.mask))
    }

    /// Computes the context and keeps what is computed on the way.
    pub fn forward_trace(&self, hidden_states: &Array, attention_mask: &Array) -> (r: Result<
        Embeddings1DConnectorTrace,
        Failure,
    >)
        ensures
            r matches Ok(t) ==> exists|flags: Seq<Seq<i64>>| #[trigger]
                self.told(hidden_states@, attention_mask@, flags) && self.traced(
                    hidden_states@,
                    attention_mask@,
                    flags,
                    t,
                ),
            forall|hidden: nat| #[trigger]
                self.connects(hidden_states, attention_mask, hidden) ==> (r matches Ok(t) && t.output.on_cpu()
                    && t.output@.dtype == Dtype::F32 && t.output@.dims == hidden_states@.dims && t.mask.on_cpu()
                    && t.mask@.dtype == Dtype::F32 && t.mask@.dims == seq![
                    hidden_states@.dims[0],
                    1,
                    1,
                    hidden_states@.dims[1],
                ]),
    {
        let ghost (hs0, mask0) = (hidden_states@, attention_mask@);
        proof {
            assert forall|hidden: nat| #[trigger]
                self.connects(hidden_states, attention_mask, hidden) implies self.plottable_shapes(hs0.dims) by {
                self.lemma_plots(hs0.dims);
            }
        }
        let dtype = hidden_states.dtype();
        let additive_mask = to_additive_mask(attention_mask, dtype)?;
        let ghost additive = additive_mask;
        proof {
            assert forall|hidden: nat| #[trigger] self.connects(hidden_states, attention_mask, hidden) implies (
            self.learnable_registers matches Some(reg) ==> registers_fit(
                hidden_states,
                &additive,
                &reg,
                self.num_learnable_registers as nat,
            )) && additive@.dims == seq![hs0.dims[0], 1, 1, hs0.dims[1]] by {
                let (b, t) = (hs0.dims[0], hs0.dims[1]);
                assert(seq![b, t].insert(1, 1).insert(1, 1) =~= seq![b, 1, 1, t]);
            }
        }
        let (hs, mask) = match &self.learnable_registers {
            Some(registers) => replace_padded_with_registers(
                hidden_states,
                &additive_mask,
                registers,
                self.num_learnable_registers,
            )?,
            None => (hidden_states.clone(), additive_mask),
        };
        proof {
            match &self.learnable_registers {
                Some(registers) => {
                    let flags = choose|flags: Seq<Seq<i64>>| #[trigger]
                        marks(additive@, flags) && flags.len() == hs0.dims[0] && (hs@, mask@)
                            == registered_of(hs0, flags, registers@, self.num_learnable_registers as nat);
                    assert(self.told(hs0, mask0, flags));
                },
                None => {
                    assert(self.told(hs0, mask0, Seq::empty()));
                },
            }
        }
        let ghost flags = choose|flags: Seq<Seq<i64>>| #[trigger]
            self.told(hs0, mask0, flags) && (hs@, mask@) == self.with_registers(hs0, mask0, flags);
        let after_registers = hs.clone();
        let ghost start = hs;
        let seq_len: usize = hs.dim(1)?;
        let device = hs.device();
        let indices = Array::range(seq_len, &device)?.to_dtype(Dtype::F32)?.unsqueeze(0)?.unsqueeze(0)?;
        proof {
            let t = hs@.dims[1];
            assert forall|hidden: nat| #[trigger]
                self.connects(hidden_states, attention_mask, hidden) implies rope::plottable(
                &indices,
                self.inner_dim as nat,
                dtype,
                self.max_pos@,
            ) && indices@.dims == seq![1, 1, t] by {
                assert(seq![t].insert(0, 1) =~= seq![1, t]);
                assert(seq![1, t].insert(0, 1) =~= seq![1, 1, t]);
            }
        }
        let pe = precompute_freqs_cis(
            &indices,
            self.inner_dim,
            dtype,
            self.theta,
            &self.max_pos,
            self.double_precision_rope,
            self.num_heads,
            self.rope_type,
            &device,
        )?;
        proof {
            assert forall|hidden: nat| #[trigger]
                self.connects(hidden_states, attention_mask, hidden) implies self.blocks_take(start@.dims, hidden) by {}
        }
        let (block_outputs, last) = self.run_blocks(hs, &mask, &pe)?;
        let output = rms_norm(&last, None, PIXEL_NORM_EPS)?;
        assert(array::views(block_outputs@) =~= self.outputs(hs0, mask0, flags));
        Ok(Embeddings1DConnectorTrace { after_registers, block_outputs, output, mask })
    }

    /// Whether a trace is what is computed on the way.
    pub open spec fn traced(
        &self,
        hs: TensorView,
        attention_mask: TensorView,
        flags: Seq<Seq<i64>>,
        trace: Embeddings1DConnectorTrace,
    ) -> bool {
        &&& trace.after_registers@ == self.with_registers(hs, attention_mask, flags).0
        &&& array::views(trace.block_outputs@) == self.outputs(hs, attention_mask, flags)
        &&& (trace.output@, trace.mask@) == self.apply(hs, attention_mask, flags)
    }

    /// Whether these arrays are embeddings, a mask and a rotation for the blocks, in main memory and
    /// in single precision.
    spec fn goes_in(&self, x: &Array, mask: &Array, pe: &(Array, Array)) -> bool {
        let dims = x@.dims;
        &&& x.on_cpu() && x@.dtype == Dtype::F32 && dims.len() == 3
        &&& mask.on_cpu() && mask@.dtype == Dtype::F32 && mask@.dims == seq![dims[0], 1, 1, dims[1]]
        &&& pe.0.on_cpu() && pe.0@.dtype == Dtype::F32 && pe.0@.dims == self.rotation_dims(dims[1])
        &&& pe.1.on_cpu() && pe.1@.dtype == Dtype::F32 && pe.1@.dims == self.rotation_dims(dims[1])
    }

    /// What is computed on the way has no empty axis and can be addressed.
    spec fn plottable_shapes(&self, d: Seq<nat>) -> bool {
        &&& d =~= seq![d[0], d[1], d[2]] && d[0] > 0 && d[1] > 0
        &&& model::fits(seq![d[1]])
    }

    proof fn lemma_plots(&self, d: Seq<nat>)
        requires
            d.len() == 3,
            model::numel(d) > 0,
            model::fits(d),
        ensures
            self.plottable_shapes(d),
    {
        assert(d =~= seq![d[0], d[1], d[2]]);
        lemmas::lemma_numel3(d[0], d[1], d[2]);
        lemmas::lemma_factors(d[0], d[1], d[2]);
        lemmas::lemma_numel1(d[1]);
        lemmas::lemma_extent_is_numel(d);
        let (a, b, c) = (d[0], d[1], d[2]);
        assert(0 < b <= a * b * c) by (nonlinear_arith)
            requires
                a > 0,
                b > 0,
                c > 0,
        ;
        lemmas::lemma_room(seq![d[1]], d);
    }

    fn run_blocks(&self, start: Array, mask: &Array, pe: &(Array, Array)) -> (r: Result<
        (Vec<Array>, Array),
        Failure,
    >)
        ensures
            r matches Ok(t) ==> {
                let p = (pe.0@, pe.1@);
                &&& t.0@.len() == self.blocks@.len()
                &&& forall|i: int|
                    0 <= i < t.0@.len() ==> (#[trigger] t.0@[i])@ == self.after_block(start@, mask@, p, i)
                &&& t.1@ == self.after_block(start@, mask@, p, self.blocks@.len() - 1)
            },
            forall|hidden: nat| #[trigger]
                self.blocks_take(start@.dims, hidden) && self.goes_in(&start, mask, pe) ==> (r matches Ok(t)
                    && t.1.on_cpu() && t.1@.dtype == Dtype::F32 && t.1@.dims == start@.dims),
    {
        let ghost p = (pe.0@, pe.1@);
        let ghost first = start@;
        let ghost given = start;
        let ghost fine = self.goes_in(&given, mask, pe) && exists|hidden: nat| #[trigger]
            self.blocks_take(first.dims, hidden);
        let ghost hidden = choose|hidden: nat| #[trigger] self.blocks_take(first.dims, hidden);
        let mut hs = start;
        let mut outputs: Vec<Array> = Vec::new();
        let mut i: usize = 0;
        while i < self.blocks.len()
            invariant
                i <= self.blocks.len(),
                p == (pe.0@, pe.1@),
                outputs@.len() == i,
                forall|k: int|
                    0 <= k < i ==> (#[trigger] outputs@[k])@ == self.after_block(first, mask@, p, k),
                hs@ == self.after_block(first, mask@, p, i - 1),
                given == start && first == given@,
                fine == (self.goes_in(&given, mask, pe) && exists|hidden: nat| #[trigger]
                    self.blocks_take(first.dims, hidden)),
                fine ==> self.blocks_take(first.dims, hidden) && self.goes_in(&hs, mask, pe) && hs@.dims == first.dims,
            decreases self.blocks.len() - i,
        {
            proof {
                if fine {
                    assert(self.blocks@[i as int].takes(&hs, Some(mask), Some((&pe.0, &pe.1)), hidden));
                }
            }
            hs = self.blocks[i].forward(&hs, Some(mask), Some((&pe.0, &pe.1)))?;
            outputs.push(hs.clone());
            i = i + 1;
        }
        Ok((outputs, hs))
    }
}

/// The rotation that a word stands for.
pub open spec fn rope_type_of(value: Seq<char>) -> LTXRopeType {
    if value == "interleaved"@ {
        LTXRopeType::Interleaved
    } else {
        LTXRopeType::Split
    }
}

/// `interleaved`; every other word means split.
pub fn parse_rope_type(value: &str) -> (r: LTXRopeType)
    ensures
        r == rope_type_of(value@),
{
    if same(value, "interleaved") {
        LTXRopeType::Interleaved
    } else {
        LTXRopeType::Split
    }
}

/// `(mask - 1) * 10000` for each token, `(B, 1, 1, T)`.
pub open spec fn additive_mask_of(attention_mask: TensorView, dtype: Dtype) -> TensorView {
    let wide = model::cast(attention_mask, Dtype::F32);
    let less = model::affine(wide, model::number(ONE), model::number(MINUS_ONE));
    let penalty = model::affine(less, model::number(TEN_THOUSAND), model::number(crate::scalar::ZERO));
    model::unsqueeze(model::unsqueeze(model::cast(penalty, dtype), 1), 1)
}

/// Turns a mask of ones and zeros into one that is added to scores.
pub fn to_additive_mask(attention_mask: &Array, dtype: Dtype) -> (r: Result<Array, Failure>)
    ensures
        r matches Ok(t) ==> t@ == additive_mask_of(attention_mask@, dtype),
        r is Ok ==> attention_mask@.rank() > 0,
        attention_mask.usable() && attention_mask@.rank() > 0 && dtype.plain() ==> (r matches Ok(t) && t.on_cpu()
            && t@.dtype == dtype && t@.dims == attention_mask@.dims.insert(1, 1).insert(1, 1)),
        r matches Ok(t) ==> t.on_cpu() == attention_mask.on_cpu(),
{
    let mask = attention_mask.to_dtype(Dtype::F32)?.shift(MINUS_ONE)?.scale(TEN_THOUSAND)?;
    mask.to_dtype(dtype)?.unsqueeze(1)?.unsqueeze(1)
}

// Registers in place of padding.

/// The positions among the first `n` whose flag is set, or is not, in ascending order.
pub open spec fn flagged(flags: Seq<i64>, n: nat, set: bool) -> Seq<int>
    decreases n,
{
    if n == 0 {
        Seq::empty()
    } else {
        let i = n - 1;
        let before = flagged(flags, i as nat, set);
        if (flags[i] > 0) == set {
            before.push(i)
        } else {
            before
        }
    }
}

/// The positions of tokens, then those of padding, each in ascending order.
pub open spec fn register_order(flags: Seq<i64>) -> Seq<int> {
    flagged(flags, flags.len(), true) + flagged(flags, flags.len(), false)
}

proof fn lemma_flagged(flags: Seq<i64>, n: nat, set: bool)
    requires
        n <= flags.len(),
    ensures
        forall|k: int|
            0 <= k < flagged(flags, n, set).len() ==> 0 <= #[trigger] flagged(flags, n, set)[k] < n && ((flags[flagged(
                flags,
                n,
                set,
            )[k]] > 0) == set),
        forall|j: int, k: int|
            0 <= j < k < flagged(flags, n, set).len() ==> #[trigger] flagged(flags, n, set)[j] < #[trigger] flagged(
                flags,
                n,
                set,
            )[k],
        forall|i: int|
            0 <= i < n && ((#[trigger] flags[i] > 0) == set) ==> flagged(flags, n, set).contains(i),
        flagged(flags, n, true).len() + flagged(flags, n, false).len() == n,
    decreases n,
{
    if n > 0 {
        let m = (n - 1) as nat;
        lemma_flagged(flags, m, set);
        lemma_flagged(flags, m, !set);
        let before = flagged(flags, m, set);
        assert forall|i: int| 0 <= i < n && ((#[trigger] flags[i] > 0) == set) implies flagged(
            flags,
            n,
            set,
        ).contains(i) by {
            let now = flagged(flags, n, set);
            if i < m {
                assert(before.contains(i));
                let k = choose|k: int| 0 <= k < before.len() && before[k] == i;
                assert(now[k] == i);
            } else {
                assert(now.last() == i);
            }
        }
    }
}

/// Every position occurs exactly once in the order of tokens and padding, tokens stand
/// before padding, and neither changes its own order.
pub proof fn law_register_order(flags: Seq<i64>)
    ensures
        register_order(flags).len() == flags.len(),
        forall|k: int|
            0 <= k < flags.len() ==> 0 <= #[trigger] register_order(flags)[k] < flags.len(),
        register_order(flags).no_duplicates(),
        forall|i: int| 0 <= i < flags.len() ==> #[trigger] register_order(flags).contains(i),
        forall|j: int, k: int|
            0 <= j < k < flags.len() ==> {
                let a = #[trigger] register_order(flags)[j];
                let b = #[trigger] register_order(flags)[k];
                &&& flags[b] > 0 ==> flags[a] > 0
                &&& (flags[a] > 0) == (flags[b] > 0) ==> a < b
            },
{
    let n = flags.len();
    lemma_flagged(flags, n, true);
    lemma_flagged(flags, n, false);
    let order = register_order(flags);
    let tokens = flagged(flags, n, true);
    let padding = flagged(flags, n, false);
    assert forall|i: int| 0 <= i < flags.len() implies #[trigger] order.contains(i) by {
        if flags[i] > 0 {
            let k = choose|k: int| 0 <= k < tokens.len() && tokens[k] == i;
            assert(order[k] == i);
        } else {
            let k = choose|k: int| 0 <= k < padding.len() && padding[k] == i;
            assert(order[tokens.len() + k] == i);
        }
    }
    assert forall|j: int, k: int| 0 <= j < k < order.len() implies order[j] != order[k] by {
        if k < tokens.len() {
        } else if j >= tokens.len() {
            assert(padding[j - tokens.len()] < padding[k - tokens.len()]);
        } else {
            assert(flags[tokens[j]] > 0);
            assert(!(flags[padding[k - tokens.len()]] > 0));
        }
    }
    assert forall|j: int, k: int| 0 <= j < k < flags.len() implies {
        let a = #[trigger] order[j];
        let b = #[trigger] order[k];
        &&& flags[b] > 0 ==> flags[a] > 0
        &&& (flags[a] > 0) == (flags[b] > 0) ==> a < b
    } by {
        if j < tokens.len() {
            assert(flags[tokens[j]] > 0);
            if k < tokens.len() {
            } else {
                assert(!(flags[padding[k - tokens.len()]] > 0));
            }
        } else {
            assert(padding[j - tokens.len()] < padding[k - tokens.len()]);
        }
    }
}

/// One for each of the first `n` of `t` positions, zero for the others.
pub open spec fn leading_ones(n: nat, t: nat) -> Seq<i64> {
    Seq::new(t, |i: int| if i < n { 1 } else { 0 })
}

/// The number of tokens.
pub open spec fn token_count(flags: Seq<i64>) -> nat {
    flagged(flags, flags.len(), true).len()
}

/// The tokens of a sample `(T, D)` in front, the rows of `tiled` behind them.
pub open spec fn filled_of(sample: TensorView, flags: Seq<i64>, tiled: TensorView) -> TensorView {
    let moved = model::index_select(sample, register_order(flags), 0);
    let blend = model::cast(
        model::integers(leading_ones(token_count(flags), flags.len()), seq![flags.len(), 1]),
        sample.dtype,
    );
    let rest = model::affine(model::unary(UnOp::Neg, blend), model::number(ONE), model::number(ONE));
    model::binary(
        BinOp::Plus,
        model::binary(BinOp::Times, moved, blend),
        model::binary(BinOp::Times, tiled, rest),
    )
}

/// For each position of sample `i` one where the additive mask marks a token, zero for
/// padding.
pub open spec fn flags_of(additive: TensorView, i: int) -> TensorView {
    let flat = model::squeeze(model::squeeze(additive, 1), 1);
    let bound = model::cast(model::number(PADDING_BOUND), additive.dtype);
    let flags = model::cast(model::relation(RelOp::Ge, flat, bound), Dtype::I64);
    model::squeeze(model::narrow(flags, 0, i as nat, 1), 0)
}

/// Whether `flags` tell, for each sample, which positions an additive mask marks as tokens.
pub open spec fn marks(additive: TensorView, flags: Seq<Seq<i64>>) -> bool {
    forall|i: int| 0 <= i < flags.len() ==> #[trigger] array::can_hold(flags_of(additive, i), flags[i])
}

/// Sample `i` with registers in place of padding: `(1, T, D)`.
pub open spec fn registered_sample(hs: TensorView, flags: Seq<i64>, tiled: TensorView, i: int) -> TensorView {
    let sample = model::squeeze(model::narrow(hs, 0, i as nat, 1), 0);
    model::unsqueeze(filled_of(sample, flags, tiled), 0)
}

/// Sample `i` with its tokens in front and registers in place of padding, without an axis for the
/// sample.
pub open spec fn registered_plain(hs: TensorView, flags: Seq<i64>, tiled: TensorView, i: int) -> TensorView {
    let sample = model::squeeze(model::narrow(hs, 0, i as nat, 1), 0);
    filled_of(sample, flags, tiled)
}

/// Whether an array in main memory is a sample of this shape with an axis for the sample.
pub open spec fn samples_fit(x: Array, plain: TensorView, dims: Seq<nat>, dtype: Dtype) -> bool {
    x.on_cpu() && x@.dtype == dtype && plain.dims == dims && plain.dtype == dtype
}

/// Whether registers can take the place of padding in all samples, in main memory.
pub open spec fn fillable(hs: &Array, binary: &Array, tiled: &Array, b: nat) -> bool {
    let d = hs@.dims;
    &&& hs.on_cpu() && hs@.dtype.float() && d.len() == 3 && d[0] == b
    &&& model::numel(seq![d[1], d[2]]) > 0 && model::fits(seq![d[1], d[2]])
    &&& binary.on_cpu() && binary@.dtype == Dtype::I64 && binary@.dims == seq![b, d[1]]
    &&& tiled.on_cpu() && tiled@.dtype == hs@.dtype && tiled@.dims == seq![d[1], d[2]]
}

/// Whether registers can take the place of padding in states `(B, T, D)`, in main memory.
pub open spec fn registers_fit(hs: &Array, additive: &Array, registers: &Array, num: nat) -> bool {
    let d = hs@.dims;
    &&& hs.on_cpu() && hs@.dtype.float() && d.len() == 3 && model::numel(d) > 0 && model::fits(d)
    &&& additive.on_cpu() && additive@.dtype.float() && additive@.dims == seq![d[0], 1, 1, d[1]]
    &&& registers.usable() && registers@.dims == seq![num, d[2]]
    &&& num > 0 && d[1] % num == 0
}

/// What is computed on the way has no empty axis and can be addressed.
proof fn lemma_registers(b: nat, t: nat, d: nat, n: nat)
    requires
        model::numel(seq![b, t, d]) > 0,
        model::fits(seq![b, t, d]),
        n > 0,
        t % n == 0,
    ensures
        b > 0 && t > 0 && d > 0,
        n * (t / n) == t && t / n > 0,
        model::numel(seq![t, d]) > 0,
        model::fits(seq![t, d]),
        model::fits(seq![b, t]),
        model::fits(seq![b, 1, 1, t]),
{
    let dims: Seq<nat> = seq![b, t, d];
    lemmas::lemma_numel3(b, t, d);
    lemmas::lemma_factors(b, t, d);
    lemmas::lemma_extent_is_numel(dims);
    vstd::arithmetic::div_mod::lemma_fundamental_div_mod(t as int, n as int);
    let q = t / n;
    assert(q > 0) by (nonlinear_arith)
        requires
            t == n * q,
            t > 0,
    ;
    lemmas::lemma_numel2(t, d);
    lemmas::lemma_numel2(b, t);
    lemmas::lemma_numel4(b, 1, 1, t);
    assert(b * 1 * 1 * t == b * t) by (nonlinear_arith);
    assert(0 < t * d <= b * t * d) by (nonlinear_arith)
        requires
            b > 0,
            t > 0,
            d > 0,
    ;
    lemmas::lemma_room(seq![t, d], dims);
    lemmas::lemma_room(seq![b, t], dims);
    lemmas::lemma_room(seq![b, 1, 1, t], dims);
}

/// Registers, repeated, in place of padding, and a mask that lets everything count.
#[verifier::opaque]
pub open spec fn registered_of(hs: TensorView, flags: Seq<Seq<i64>>, registers: TensorView, num: nat) -> (
    TensorView,
    TensorView,
) {
    let (b, t) = (hs.dims[0], hs.dims[1]);
    let tiled = model::repeat_axis(model::cast(registers, hs.dtype), 0, t / num);
    (
        model::cat(Seq::new(b, |i: int| registered_sample(hs, flags[i], tiled, i)), 0),
        model::zeros(seq![b, 1, 1, t], hs.dtype),
    )
}

/// The positions of tokens, then those of padding, and the number of tokens.
fn order_positions(flags: &Vec<i64>) -> (r: (Vec<i64>, usize))
    requires
        flags.len() <= i64::MAX,
    ensures
        array::positions(r.0@) == register_order(flags@),
        r.1 == token_count(flags@),
        r.0@.len() == flags@.len(),
        array::index_list(r.0@, flags@.len()),
        r.1 <= flags.len(),
{
    let t: usize = flags.len();
    let mut order: Vec<i64> = Vec::new();
    let mut j: usize = 0;
    while j < t
        invariant
            j <= t == flags.len() <= i64::MAX,
            array::positions(order@) == flagged(flags@, j as nat, true),
            array::index_list(order@, t as nat),
            order@.len() <= j,
        decreases t - j,
    {
        let ghost before = order@;
        if flags[j] > 0 {
            order.push(j as i64);
            assert(array::positions(order@) =~= array::positions(before).push(j as int));
        }
        j = j + 1;
    }
    let ghost tokens = flagged(flags@, t as nat, true);
    assert(array::positions(order@).len() == order@.len());
    let count: usize = order.len();
    let mut j: usize = 0;
    while j < t
        invariant
            j <= t == flags.len() <= i64::MAX,
            tokens == flagged(flags@, t as nat, true),
            array::positions(order@) =~= tokens + flagged(flags@, j as nat, false),
            array::index_list(order@, t as nat),
        decreases t - j,
    {
        let ghost before = order@;
        if flags[j] <= 0 {
            order.push(j as i64);
            assert(array::positions(order@) =~= array::positions(before).push(j as int));
        }
        j = j + 1;
    }
    proof {
        law_register_order(flags@);
        assert(array::positions(order@).len() == order@.len());
    }
    (order, count)
}

fn ones_then_zeros(n: usize, t: usize) -> (r: Vec<i64>)
    ensures
        r@ == leading_ones(n as nat, t as nat),
{
    let mut v: Vec<i64> = Vec::new();
    let mut i: usize = 0;
    while i < t
        invariant
            i <= t,
            v@.len() == i,
            forall|k: int| 0 <= k < i ==> #[trigger] v@[k] == (if k < n { 1i64 } else { 0 }),
        decreases t - i,
    {
        if i < n {
            v.push(1);
        } else {
            v.push(0);
        }
        i = i + 1;
    }
    assert(v@ =~= leading_ones(n as nat, t as nat));
    v
}

/// Whether this is a sample of `t` tokens, in main memory.
pub open spec fn is_sample(x: &Array, t: nat) -> bool {
    &&& x.on_cpu() && x@.dtype.float() && x@.rank() == 2 && x@.dims[0] == t
    &&& model::numel(x@.dims) > 0 && model::fits(x@.dims)
}

/// Fills in registers for the padding of a sample whose positions are marked by these flags.
pub fn fill_sample(sample: &Array, flags: &Vec<i64>, tiled: &Array) -> (r: Result<Array, Failure>)
    ensures
        r matches Ok(t) ==> t@ == filled_of(sample@, flags@, tiled@),
        is_sample(sample, flags@.len()) && tiled.on_cpu() && tiled@.dtype == sample@.dtype && tiled@.dims == sample@.dims
            ==> (r matches Ok(t) && t.on_cpu() && t@.dtype == sample@.dtype && t@.dims == sample@.dims),
{
    proof {
        if is_sample(sample, flags@.len()) {
            let (t, d) = (sample@.dims[0], sample@.dims[1]);
            assert(sample@.dims =~= seq![t, d]);
            assert(sample@.dims.update(0, t) =~= sample@.dims);
            lemmas::lemma_spread_common(seq![t, 1], seq![t, d]);
            lemmas::lemma_common_dims(seq![t, d]);
            lemmas::lemma_numel1(t);
            lemmas::lemma_numel2(t, 1);
            lemmas::lemma_numel2(t, d);
            lemmas::lemma_factors(t, d, 1);
            assert(t * 1 == t && t * d * 1 == t * d) by (nonlinear_arith);
            lemmas::lemma_extent_is_numel(sample@.dims);
            lemmas::lemma_room(seq![t], sample@.dims);
            lemmas::lemma_room(seq![t, 1], sample@.dims);
            reveal(model::index_select);
        }
    }
    let t: usize = flags.len();
    if t as u64 > i64::MAX as u64 {
        return Err(Failure::Overflow);
    }
    let (order, count) = order_positions(flags);
    let moved = sample.index_select(order, 0)?;
    let dims: Vec<usize> = vec![t, 1];
    assert(model::nats(dims@) =~= seq![t as nat, 1]);
    let blend = Array::integers(ones_then_zeros(count, t), &dims, &sample.device())?.to_dtype(sample.dtype())?;
    let rest = blend.unary(UnOp::Neg)?.shift(ONE)?;
    moved.broadcast(BinOp::Times, &blend)?.pairwise(BinOp::Plus, &tiled.broadcast(BinOp::Times, &rest)?)
}

/// Puts registers in place of padding.
///
/// Tokens move to the front and repeated registers fill the other positions. From then on
/// everything counts.
pub fn replace_padded_with_registers(
    hidden_states: &Array,
    additive_mask: &Array,
    registers: &Array,
    num_registers: usize,
) -> (r: Result<(Array, Array), Failure>)
    ensures
        r matches Ok(t) ==> exists|flags: Seq<Seq<i64>>| #[trigger]
            marks(additive_mask@, flags) && flags.len() == hidden_states@.dims[0] && (
            t.0@,
            t.1@,
        ) == registered_of(hidden_states@, flags, registers@, num_registers as nat),
        r is Ok ==> hidden_states@.rank() == 3 && num_registers > 0 && hidden_states@.dims[1]
            % num_registers as nat == 0,
        hidden_states@.rank() != 3 ==> r == Err::<(Array, Array), Failure>(
            Failure::Rank { expected: 3, got: hidden_states@.rank() as usize },
        ),
        hidden_states@.rank() == 3 && (num_registers == 0 || hidden_states@.dims[1] % num_registers as nat != 0)
            ==> r == Err::<(Array, Array), Failure>(
            Failure::NotDivisible { size: hidden_states@.dims[1] as usize, part: num_registers },
        ),
        registers_fit(hidden_states, additive_mask, registers, num_registers as nat) ==> (r matches Ok(t)
            && t.0.on_cpu() && t.0@.dtype == hidden_states@.dtype && t.0@.dims == hidden_states@.dims && t.1.on_cpu()
            && t.1@.dtype == hidden_states@.dtype && t.1@.dims == seq![
            hidden_states@.dims[0],
            1,
            1,
            hidden_states@.dims[1],
        ]),
{
    proof {
        reveal(registered_of);
    }
    let ghost fine = registers_fit(hidden_states, additive_mask, registers, num_registers as nat);
    let (b, t, _d) = hidden_states.dims3()?;
    proof {
        if fine {
            let (nb, nt, nd, n) = (b as nat, t as nat, _d as nat, num_registers as nat);
            lemma_registers(nb, nt, nd, n);
            assert(seq![n, nd].update(0, n * (nt / n)) =~= seq![nt, nd]);
            assert(additive_mask@.dims.remove(1) =~= seq![nb, 1, nt]);
            assert(seq![nb, 1, nt].remove(1) =~= seq![nb, nt]);
            lemmas::lemma_number_spreads(seq![nb, nt]);
        }
    }
    let dtype = hidden_states.dtype();
    if num_registers == 0 || t % num_registers != 0 {
        return Err(Failure::NotDivisible { size: t, part: num_registers });
    }
    let num_dup: usize = t / num_registers;
    let tiled = registers.to_dtype(dtype)?.repeat_axis(0, num_dup)?;
    let flat = additive_mask.squeeze(1)?.squeeze(1)?;
    let bound = Array::number(PADDING_BOUND)?.to_dtype(additive_mask.dtype())?.to_device(
        &additive_mask.device(),
    )?;
    let binary = flat.relate(RelOp::Ge, &bound)?.to_dtype(Dtype::I64)?;
    let slices = fill_samples(hidden_states, additive_mask, &binary, &tiled, b)?;
    let ghost flags = choose|flags: Seq<Seq<i64>>| #[trigger]
        marks(additive_mask@, flags) && filled_in(
            slices@,
            hidden_states,
            flags,
            &binary,
            &tiled,
            b as nat,
        );
    assert(array::views(slices@) =~= Seq::new(
        b as nat,
        |i: int| registered_sample(hidden_states@, flags[i], tiled@, i),
    ));
    proof {
        if fine {
            let (nb, nt, nd) = (b as nat, t as nat, _d as nat);
            let plain = Seq::new(nb, |i: int| registered_plain(hidden_states@, flags[i], tiled@, i));
            assert(array::views(slices@) =~= plain.map_values(|p: TensorView| model::unsqueeze(p, 0)));
            assert forall|i: int| 0 <= i < nb implies (#[trigger] plain[i]).dims == seq![nt, nd] && plain[i].dtype == dtype by {
                assert(samples_fit(slices@[i], plain[i], seq![nt, nd], dtype));
            }
            assert forall|i: int| 0 <= i < nb implies (#[trigger] slices@[i]).on_cpu() && slices@[i]@.dtype == dtype by {
                assert(samples_fit(slices@[i], plain[i], seq![nt, nd], dtype));
            }
            kernels::lemma_stack(plain, 0);
            assert(seq![nt, nd].insert(0, nb) =~= hidden_states@.dims);
        }
    }
    let result = Array::cat(&slices, 0)?;
    let dims: Vec<usize> = vec![b, 1, 1, t];
    assert(model::nats(dims@) =~= seq![b as nat, 1, 1, t as nat]);
    let mask = Array::zeros(&dims, dtype, &hidden_states.device())?;
    Ok((result, mask))
}

/// Whether all samples are filled in, and fit where they can be.
spec fn filled_in(
    v: Seq<Array>,
    hs: &Array,
    flags: Seq<Seq<i64>>,
    binary: &Array,
    tiled: &Array,
    b: nat,
) -> bool {
    &&& v.len() == b && flags.len() == b
    &&& forall|i: int| 0 <= i < b ==> (#[trigger] v[i])@ == registered_sample(hs@, flags[i], tiled@, i)
    &&& fillable(hs, binary, tiled, b) ==> forall|i: int|
        0 <= i < b ==> samples_fit(
            #[trigger] v[i],
            registered_plain(hs@, flags[i], tiled@, i),
            seq![hs@.dims[1], hs@.dims[2]],
            hs@.dtype,
        )
}

fn fill_samples(hs: &Array, additive: &Array, binary: &Array, tiled: &Array, b: usize) -> (r: Result<
    Vec<Array>,
    Failure,
>)
    requires
        binary@ == model::cast(
            model::relation(
                RelOp::Ge,
                model::squeeze(model::squeeze(additive@, 1), 1),
                model::cast(model::number(PADDING_BOUND), additive@.dtype),
            ),
            Dtype::I64,
        ),
        binary.on_cpu() == additive.on_cpu(),
    ensures
        r matches Ok(v) ==> exists|flags: Seq<Seq<i64>>| #[trigger]
            marks(additive@, flags) && filled_in(v@, hs, flags, binary, tiled, b as nat),
        fillable(hs, binary, tiled, b as nat) ==> r is Ok,
{
    let ghost mut all: Seq<Seq<i64>> = Seq::empty();
    let ghost fine = fillable(hs, binary, tiled, b as nat);
    let ghost d = hs@.dims;
    let mut slices: Vec<Array> = Vec::new();
    let mut i: usize = 0;
    while i < b
        invariant
            i <= b,
            binary@ == model::cast(
                model::relation(
                    RelOp::Ge,
                    model::squeeze(model::squeeze(additive@, 1), 1),
                    model::cast(model::number(PADDING_BOUND), additive@.dtype),
                ),
                Dtype::I64,
            ),
            d == hs@.dims,
            binary.on_cpu() == additive.on_cpu(),
            fine == fillable(hs, binary, tiled, b as nat),
            marks(additive@, all),
            slices@.len() == i && all.len() == i,
            forall|k: int| 0 <= k < i ==> (#[trigger] slices@[k])@ == registered_sample(hs@, all[k], tiled@, k),
            fine ==> forall|k: int|
                0 <= k < i ==> samples_fit(
                    #[trigger] slices@[k],
                    registered_plain(hs@, all[k], tiled@, k),
                    seq![d[1], d[2]],
                    hs@.dtype,
                ),
        decreases b - i,
    {
        proof {
            lemmas::lemma_narrow_dims(hs@, 0, i as nat, 1);
            lemmas::lemma_narrow_dims(binary@, 0, i as nat, 1);
            if fine {
                assert(d.update(0, 1).remove(0) =~= seq![d[1], d[2]]);
                assert(binary@.dims.update(0, 1).remove(0) =~= seq![d[1]]);
            }
        }
        let sample = hs.narrow(0, i, 1)?.squeeze(0)?;
        let row = binary.narrow(0, i, 1)?.squeeze(0)?;
        let flags = row.to_integers()?;
        proof {
            let before = all;
            assert(row.held_integers() == flags@);
            assert(array::can_hold(flags_of(additive@, i as int), flags@));
            all = before.push(flags@);
            assert forall|k: int| 0 <= k < all.len() implies #[trigger] array::can_hold(
                flags_of(additive@, k),
                all[k],
            ) by {
                if k < i {
                    assert(array::can_hold(flags_of(additive@, k), before[k]));
                }
            }
        }
        slices.push(fill_sample(&sample, &flags, tiled)?.unsqueeze(0)?);
        i = i + 1;
    }
    Ok(slices)
}

} // verus!
