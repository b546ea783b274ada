//! Multi-head attention.
use vstd::prelude::*;

use crate::array::{self, Array};
use crate::base::ops::{self, rms_norm};
use crate::error::Failure;
use crate::lemmas;
use crate::model::{self, BinOp, Dtype, TensorView, UnOp};
use crate::nn::linear::{self, Linear};
use crate::nn::lora::{self, nth_lora, sub_lora, LoraConfig, LoraView};
use crate::nn::rope::{self, apply_rotary_emb, LTXRopeType};
use crate::scalar::{Scalar, TWO, ZERO};
use crate::weights::{self, Weights, WeightsView};

verus! {

/// Multi-head attention with RMS-normalised queries and keys, optional rotation
/// and an optional gate for each head.
pub struct Attention {
    pub to_q: Linear,
    pub to_k: Linear,
    pub to_v: Linear,
    pub to_out: Linear,
    pub q_norm_weight: Array,
    pub k_norm_weight: Array,
    pub to_gate_logits: Option<Linear>,
    pub heads: usize,
    pub dim_head: usize,
    pub norm_eps: Scalar,
    pub rope_type: LTXRopeType,
}

/// The model of an optional pair of cosines and sines.
pub open spec fn pe_view(pe: Option<(&Array, &Array)>) -> Option<(TensorView, TensorView)> {
    match pe {
        Some(p) => Some((p.0@, p.1@)),
        None => None,
    }
}

/// The norm weight under the first of two names that a checkpoint uses.
pub open spec fn norm_weight_of(vb: WeightsView, first: Seq<char>, second: Seq<char>) -> TensorView {
    if vb.pp(first).has("weight"@) {
        vb.pp(first).get("weight"@)
    } else {
        vb.pp(second).get("weight"@)
    }
}

/// Whether that weight has the right size.
pub open spec fn has_norm_weight(vb: WeightsView, first: Seq<char>, second: Seq<char>, size: nat) -> bool {
    if vb.pp(first).has("weight"@) {
        vb.pp(first).holds("weight"@, seq![size])
    } else {
        vb.pp(second).holds("weight"@, seq![size])
    }
}

impl Attention {
    /// Whether this is the attention that a checkpoint and an adapter hold.
    pub open spec fn loaded(&self, vb: WeightsView, lora: Option<LoraView>, gated: bool) -> bool {
        &&& self.to_q@ == lora::linear_of(vb.pp("to_q"@), lora::lora_pp(lora, "to_q"@))
        &&& self.to_k@ == lora::linear_of(vb.pp("to_k"@), lora::lora_pp(lora, "to_k"@))
        &&& self.to_v@ == lora::linear_of(vb.pp("to_v"@), lora::lora_pp(lora, "to_v"@))
        &&& self.to_out@ == lora::linear_of(
            vb.pp("to_out.0"@),
            lora::lora_at(lora::lora_pp(lora, "to_out"@), 0),
        )
        &&& self.q_norm_weight@ == norm_weight_of(vb, "norm_q"@, "q_norm"@)
        &&& self.k_norm_weight@ == norm_weight_of(vb, "norm_k"@, "k_norm"@)
        &&& gated == self.to_gate_logits is Some
        &&& self.to_gate_logits matches Some(g) ==> g@ == lora::linear_of(
            vb.pp("to_gate_logits"@),
            lora::lora_pp(lora, "to_gate_logits"@),
        )
    }

    /// Whether a checkpoint and an adapter hold an attention of these sizes.
    pub open spec fn present(
        vb: WeightsView,
        lora: Option<LoraView>,
        query_dim: nat,
        context_dim: nat,
        heads: nat,
        dim_head: nat,
        gated: bool,
    ) -> bool {
        let inner = dim_head * heads;
        &&& lora::has_linear(vb.pp("to_q"@), lora::lora_pp(lora, "to_q"@), query_dim, inner, true)
        &&& lora::has_linear(vb.pp("to_k"@), lora::lora_pp(lora, "to_k"@), context_dim, inner, true)
        &&& lora::has_linear(vb.pp("to_v"@), lora::lora_pp(lora, "to_v"@), context_dim, inner, true)
        &&& lora::has_linear(
            vb.pp("to_out.0"@),
            lora::lora_at(lora::lora_pp(lora, "to_out"@), 0),
            inner,
            query_dim,
            true,
        )
        &&& has_norm_weight(vb, "norm_q"@, "q_norm"@, inner)
        &&& has_norm_weight(vb, "norm_k"@, "k_norm"@, inner)
        &&& gated ==> lora::has_linear(
            vb.pp("to_gate_logits"@),
            lora::lora_pp(lora, "to_gate_logits"@),
            query_dim,
            heads,
            true,
        )
    }

    pub fn new(
        query_dim: usize,
        context_dim: Option<usize>,
        heads: usize,
        dim_head: usize,
        norm_eps: Scalar,
        rope_type: LTXRopeType,
        apply_gated_attention: bool,
        vb: &Weights,
    ) -> (r: Result<Attention, Failure>)
        ensures
            r matches Ok(a) ==> a.loaded(vb@, None, apply_gated_attention) && a.heads == heads && a.dim_head
                == dim_head && a.norm_eps == norm_eps && a.rope_type == rope_type,
            r is Ok ==> Attention::present(
                vb@,
                None,
                query_dim as nat,
                (if context_dim is Some { context_dim->0 } else { query_dim }) as nat,
                heads as nat,
                dim_head as nat,
                apply_gated_attention,
            ),
            vb@.sound() && Attention::present(
                vb@,
                None,
                query_dim as nat,
                (if context_dim is Some { context_dim->0 } else { query_dim }) as nat,
                heads as nat,
                dim_head as nat,
                apply_gated_attention,
            ) ==> r is Ok,
            dim_head * heads > usize::MAX ==> r == Err::<Attention, Failure>(Failure::Overflow),
    {
        Attention::new_with_lora(
            query_dim,
            context_dim,
            heads,
            dim_head,
            norm_eps,
            rope_type,
            apply_gated_attention,
            vb,
            None,
        )
    }

    pub fn new_with_lora(
        query_dim: usize,
        context_dim: Option<usize>,
        heads: usize,
        dim_head: usize,
        norm_eps: Scalar,
        rope_type: LTXRopeType,
        apply_gated_attention: bool,
        vb: &Weights,
        lora: Option<&LoraConfig>,
    ) -> (r: Result<Attention, Failure>)
        ensures
            r matches Ok(a) ==> a.loaded(vb@, lora::lora_view(lora), apply_gated_attention) && a.heads == heads
                && a.dim_head == dim_head && a.norm_eps == norm_eps && a.rope_type == rope_type,
            r is Ok ==> Attention::present(
                vb@,
                lora::lora_view(lora),
                query_dim as nat,
                (if context_dim is Some { context_dim->0 } else { query_dim }) as nat,
                heads as nat,
                dim_head as nat,
                apply_gated_attention,
            ),
            vb@.sound() && lora::adapter_sound(lora::lora_view(lora)) && Attention::present(
                vb@,
                lora::lora_view(lora),
                query_dim as nat,
                (if context_dim is Some { context_dim->0 } else { query_dim }) as nat,
                heads as nat,
                dim_head as nat,
                apply_gated_attention,
            ) ==> r is Ok,
            dim_head * heads > usize::MAX ==> r == Err::<Attention, Failure>(Failure::Overflow),
    {
        proof {
            let q = vb@.pp("to_q"@);
            let dims: Seq<nat> = seq![dim_head as nat * heads as nat, query_dim as nat];
            if vb@.sound() && q.holds("weight"@, dims) {
                weights::lemma_axis_counts(q, "weight"@, dims, 0);
            }
        }
        let inner_dim: usize = match dim_head.checked_mul(heads) {
            Some(d) => d,
            None => {
                return Err(Failure::Overflow);
            },
        };
        let context_dim: usize = match context_dim {
            Some(d) => d,
            None => query_dim,
        };
        let to_q_lora = sub_lora(lora, "to_q");
        let to_k_lora = sub_lora(lora, "to_k");
        let to_v_lora = sub_lora(lora, "to_v");
        let to_out_lora = sub_lora(lora, "to_out");
        let to_out_lora = nth_lora(to_out_lora.as_ref(), 0);
        let gate_lora = sub_lora(lora, "to_gate_logits");
        let to_q = lora::linear(query_dim, inner_dim, &vb.pp("to_q"), to_q_lora.as_ref())?;
        let to_k = lora::linear(context_dim, inner_dim, &vb.pp("to_k"), to_k_lora.as_ref())?;
        let to_v = lora::linear(context_dim, inner_dim, &vb.pp("to_v"), to_v_lora.as_ref())?;
        let to_out = lora::linear(inner_dim, query_dim, &vb.pp("to_out.0"), to_out_lora.as_ref())?;
        let q_norm_weight = if vb.pp("norm_q").contains_tensor("weight") {
            vb.pp("norm_q").get1(inner_dim, "weight")?
        } else {
            vb.pp("q_norm").get1(inner_dim, "weight")?
        };
        let k_norm_weight = if vb.pp("norm_k").contains_tensor("weight") {
            vb.pp("norm_k").get1(inner_dim, "weight")?
        } else {
            vb.pp("k_norm").get1(inner_dim, "weight")?
        };
        let to_gate_logits = if apply_gated_attention {
            Some(lora::linear(query_dim, heads, &vb.pp("to_gate_logits"), gate_lora.as_ref())?)
        } else {
            None
        };
        Ok(
            Attention {
                to_q,
                to_k,
                to_v,
                to_out,
                q_norm_weight,
                k_norm_weight,
                to_gate_logits,
                heads,
                dim_head,
                norm_eps,
                rope_type,
            },
        )
    }

    /// The normalised and rotated queries.
    pub open spec fn queries(&self, x: TensorView, pe: Option<(TensorView, TensorView)>) -> TensorView {
        let q = ops::rms_norm_of(self.to_q@.apply(x), Some(self.q_norm_weight@), self.norm_eps);
        match pe {
            Some(p) => rope::rotary_of(q, p.0, p.1, self.rope_type),
            None => q,
        }
    }

    /// The normalised and rotated keys. Where queries are not rotated, keys are not.
    pub open spec fn keys(
        &self,
        ctx: TensorView,
        pe: Option<(TensorView, TensorView)>,
        k_pe: Option<(TensorView, TensorView)>,
    ) -> TensorView {
        let k = ops::rms_norm_of(self.to_k@.apply(ctx), Some(self.k_norm_weight@), self.norm_eps);
        match pe {
            Some(p) => {
                let kp = if k_pe is Some { k_pe->0 } else { p };
                rope::rotary_of(k, kp.0, kp.1, self.rope_type)
            },
            None => k,
        }
    }

    /// Each head of `out` times twice the sigmoid of its gate.
    pub open spec fn gated(&self, x: TensorView, out: TensorView) -> TensorView {
        match self.to_gate_logits {
            Some(g) => {
                let b = out.dims[0];
                let t = out.dims[1];
                let heads = model::reshape(out, seq![b, t, self.heads as nat, self.dim_head as nat]);
                let gates = model::affine(
                    model::unary(UnOp::Sigmoid, g@.apply(x)),
                    model::number(TWO),
                    model::number(ZERO),
                );
                let scaled = model::binary(BinOp::Times, heads, model::unsqueeze(gates, 3));
                model::reshape(scaled, seq![b, t, self.heads as nat * self.dim_head as nat])
            },
            None => out,
        }
    }

    /// What the attention computes.
    pub open spec fn apply(
        &self,
        x: TensorView,
        context: Option<TensorView>,
        mask: Option<TensorView>,
        pe: Option<(TensorView, TensorView)>,
        k_pe: Option<(TensorView, TensorView)>,
    ) -> TensorView {
        let ctx = if context is Some { context->0 } else { x };
        let out = sdpa_of(
            self.queries(x, pe),
            self.keys(ctx, pe, k_pe),
            self.to_v@.apply(ctx),
            self.heads as nat,
            self.dim_head as nat,
            mask,
        );
        self.to_out@.apply(self.gated(x, out))
    }

    /// Whether this attention maps rows of `n_query` numbers and, where they attend to others,
    /// rows of `n_context`, in main memory and in single precision.
    pub open spec fn maps(&self, n_query: nat, n_context: nat) -> bool {
        let inner = self.heads as nat * self.dim_head as nat;
        &&& self.to_q.maps(n_query, inner)
        &&& self.to_k.maps(n_context, inner)
        &&& self.to_v.maps(n_context, inner)
        &&& self.to_out.maps(inner, n_query)
        &&& self.q_norm_weight.on_cpu() && self.q_norm_weight@.dtype == Dtype::F32
        &&& self.q_norm_weight@.dims == seq![inner]
        &&& self.k_norm_weight.on_cpu() && self.k_norm_weight@.dtype == Dtype::F32
        &&& self.k_norm_weight@.dims == seq![inner]
        &&& self.to_gate_logits matches Some(g) ==> g.maps(n_query, self.heads as nat)
    }

    /// Whether rows, in main memory and in single precision, can be attended from and to: `x` is
    /// `(B, T, n_query)` and `ctx` is `(B, S, n_context)`, none of them empty, and what is
    /// computed from them can be addressed.
    pub open spec fn attends(&self, x: &Array, ctx: &Array, mask: Option<&Array>) -> bool {
        let (b, t, s) = (x@.dims[0], x@.dims[1], ctx@.dims[1]);
        let (heads, inner) = (self.heads as nat, self.heads as nat * self.dim_head as nat);
        &&& self.maps(x@.dims[2], ctx@.dims[2])
        &&& x@.rank() == 3 && x@.dtype == Dtype::F32 && linear::are_rows(x, x@.dims[2])
        &&& ctx@.rank() == 3 && ctx@.dtype == Dtype::F32 && linear::are_rows(ctx, ctx@.dims[2])
        &&& ctx@.dims[0] == b && model::fits(x@.dims)
        &&& model::fits(seq![b, t, inner]) && model::fits(seq![b, s, inner])
        &&& model::fits(seq![b, heads, t, s]) && model::fits(seq![b, t, heads])
        &&& mask matches Some(m) ==> m.usable() && mask_spreads(mask_of(m@, Dtype::F32).dims, b, heads, t, s)
    }

    /// Whether every array of this shape, in main memory and in single precision, can be rotated.
    pub open spec fn turns(&self, pe: (&Array, &Array), dims: Seq<nat>) -> bool {
        forall|a: Array|
            a.on_cpu() && a@.dtype == Dtype::F32 && a@.dims == dims ==> #[trigger] rope::rotates(
                &a,
                pe.0,
                pe.1,
                self.rope_type,
            )
    }

    /// Attends from `x` to `context`, or to `x` itself.
    ///
    /// `pe` holds the rotation of the queries, and of the keys unless `k_pe` does.
    #[verifier::spinoff_prover]
    #[verifier::rlimit(60)]
    pub fn forward(
        &self,
        x: &Array,
        context: Option<&Array>,
        mask: Option<&Array>,
        pe: Option<(&Array, &Array)>,
        k_pe: Option<(&Array, &Array)>,
    ) -> (r: Result<Array, Failure>)
        ensures
            r matches Ok(t) ==> t@ == self.apply(
                x@,
                array::opt_ref_view(context),
                array::opt_ref_view(mask),
                pe_view(pe),
                pe_view(k_pe),
            ),
            ({
                let ctx = if context is Some { context->0 } else { x };
                let inner = self.heads as nat * self.dim_head as nat;
                let q_dims: Seq<nat> = seq![x@.dims[0], x@.dims[1], inner];
                let k_dims: Seq<nat> = seq![x@.dims[0], ctx@.dims[1], inner];
                self.attends(x, ctx, mask) && (pe matches Some(p) ==> self.turns(p, q_dims) && self.turns(
                    if k_pe is Some { k_pe->0 } else { p },
                    k_dims,
                )) ==> (r matches Ok(t) && t.on_cpu() && t@.dims == x@.dims && t@.dtype == Dtype::F32)
            }),
    {
        let ctx = match context {
            Some(c) => c,
            None => x,
        };
        let ghost (nb, nt, ns) = (x@.dims[0], x@.dims[1], ctx@.dims[1]);
        let ghost (nh, nd) = (self.heads as nat, self.dim_head as nat);
        let ghost fine = self.attends(x, ctx, mask) && (pe matches Some(p) ==> self.turns(p, seq![nb, nt, nh * nd])
            && self.turns(if k_pe is Some { k_pe->0 } else { p }, seq![nb, ns, nh * nd]));
        proof {
            if fine {
                let inner = nh * nd;
                assert(linear::with_width(x@.dims, inner) =~= seq![nb, nt, inner]);
                assert(linear::with_width(ctx@.dims, inner) =~= seq![nb, ns, inner]);
                assert(linear::with_width(x@.dims, nh) =~= seq![nb, nt, nh]);
                assert(linear::with_width(seq![nb, nt, inner], x@.dims[2]) =~= x@.dims);
                lemmas::lemma_last_spreads(seq![nb, nt, inner], inner);
                lemmas::lemma_last_spreads(seq![nb, ns, inner], inner);
            }
        }
        let q = self.to_q.forward(x)?;
        let k = self.to_k.forward(ctx)?;
        let v = self.to_v.forward(ctx)?;
        let q = rms_norm(&q, Some(&self.q_norm_weight), self.norm_eps)?;
        let k = rms_norm(&k, Some(&self.k_norm_weight), self.norm_eps)?;
        let (q, k) = match pe {
            Some((cos, sin)) => {
                let q = apply_rotary_emb(&q, cos, sin, self.rope_type)?;
                let (k_cos, k_sin) = match k_pe {
                    Some(p) => p,
                    None => (cos, sin),
                };
                let k = apply_rotary_emb(&k, k_cos, k_sin, self.rope_type)?;
                (q, k)
            },
            None => (q, k),
        };
        proof {
            if fine {
                lemmas::lemma_width(x@.dims, nh * nd);
                lemmas::lemma_width(ctx@.dims, nh * nd);
                lemma_split_sizes(nb, nt, nh, nd);
            }
        }
        let out = sdpa(&q, &k, &v, self.heads, self.dim_head, mask)?;
        let out = match &self.to_gate_logits {
            Some(gate_linear) => {
                let gate_logits = gate_linear.forward(x)?;
                let (b, t, _width) = out.dims3()?;
                let width: usize = match self.heads.checked_mul(self.dim_head) {
                    Some(w) => w,
                    None => {
                        return Err(Failure::Overflow);
                    },
                };
                let out_4d = out.reshape4(b, t, self.heads, self.dim_head)?;
                let gates = gate_logits.unary(UnOp::Sigmoid)?.scale(TWO)?;
                let gates = gates.unsqueeze(3)?;
                proof {
                    if fine {
                        assert(gates@.dims =~= seq![nb, nt, nh, 1]);
                        lemmas::lemma_spread_common(gates@.dims, out_4d@.dims);
                    }
                }
                let gated = out_4d.broadcast(BinOp::Times, &gates)?;
                gated.reshape3(b, t, width)?
            },
            None => out,
        };
        assert(fine ==> out@.dims =~= seq![nb, nt, nh * nd] && linear::are_rows(&out, nh * nd));
        self.to_out.forward(&out)
    }
}

/// The most scores that are computed at once without need.
pub const DIRECT_SCORES: usize = 67_108_864;

/// The number of scores that a chunk of queries should have.
pub const CHUNK_SCORES: usize = 134_217_728;

/// The product, or the largest machine integer where it is larger.
pub open spec fn capped_product(a: nat, b: nat) -> nat {
    if a * b > usize::MAX {
        usize::MAX as nat
    } else {
        a * b
    }
}

fn capped_mul(a: usize, b: usize) -> (r: usize)
    ensures
        r == capped_product(a as nat, b as nat),
{
    match a.checked_mul(b) {
        Some(p) => p,
        None => usize::MAX,
    }
}

/// The number of queries in a chunk.
pub open spec fn chunk_len(b: nat, heads: nat, t_q: nat, t_k: nat) -> nat {
    let per_query = capped_product(capped_product(b, heads), t_k);
    let wanted = CHUNK_SCORES as nat / (if per_query == 0 { 1 } else { per_query });
    if wanted < 1 {
        1
    } else if wanted > t_q {
        t_q
    } else {
        wanted
    }
}

/// The chunks of queries from `start` on: where each begins and how long it is.
pub open spec fn chunk_plan(start: nat, t_q: nat, chunk: nat) -> Seq<(nat, nat)>
    decreases t_q - start,
{
    if start >= t_q || chunk == 0 {
        Seq::empty()
    } else {
        let len = if t_q - start < chunk { (t_q - start) as nat } else { chunk };
        seq![(start, len)] + chunk_plan(start + len, t_q, chunk)
    }
}

/// The chunks follow on each other: each begins where the one before ends, the
/// first at `start`, and the last ends at `t_q`. None is empty or longer than `chunk`.
pub proof fn lemma_chunk_plan_covers(start: nat, t_q: nat, chunk: nat)
    requires
        start < t_q,
        chunk >= 1,
    ensures
        chunk_plan(start, t_q, chunk).len() > 0,
        chunk_plan(start, t_q, chunk)[0].0 == start,
        chunk_plan(start, t_q, chunk).last().0 + chunk_plan(start, t_q, chunk).last().1 == t_q,
        forall|i: int|
            0 <= i < chunk_plan(start, t_q, chunk).len() - 1 ==> (#[trigger] chunk_plan(start, t_q, chunk)[i]).0
                + chunk_plan(start, t_q, chunk)[i].1 == chunk_plan(start, t_q, chunk)[i + 1].0,
        forall|i: int|
            0 <= i < chunk_plan(start, t_q, chunk).len() ==> 1 <= (#[trigger] chunk_plan(
                start,
                t_q,
                chunk,
            )[i]).1 <= chunk,
    decreases t_q - start,
{
    let len = if t_q - start < chunk { (t_q - start) as nat } else { chunk };
    let plan = chunk_plan(start, t_q, chunk);
    let rest = chunk_plan(start + len, t_q, chunk);
    assert(plan =~= seq![(start, len)] + rest);
    if start + len < t_q {
        lemma_chunk_plan_covers(start + len, t_q, chunk);
        assert forall|i: int| 0 <= i < plan.len() - 1 implies (#[trigger] plan[i]).0 + plan[i].1 == plan[i
            + 1].0 by {
            if i > 0 {
                assert(plan[i] == rest[i - 1]);
                assert(plan[i + 1] == rest[i]);
            } else {
                assert(plan[1] == rest[0]);
            }
        }
        assert forall|i: int| 0 <= i < plan.len() implies 1 <= (#[trigger] plan[i]).1 <= chunk by {
            if i > 0 {
                assert(plan[i] == rest[i - 1]);
            }
        }
    } else {
        assert(rest =~= Seq::empty());
    }
}

/// Heads split off: `(B, T, H * D)` to `(B, H, T, D)`, in single precision.
pub open spec fn heads_of(x: TensorView, b: nat, t: nat, heads: nat, dim_head: nat) -> TensorView {
    model::cast(
        model::transpose(model::reshape(x, seq![b, t, heads, dim_head]), 1, 2),
        Dtype::F32,
    )
}

/// `1 / sqrt(dim_head)`.
pub open spec fn score_scale_of(dim_head: nat) -> TensorView {
    model::unary(UnOp::Recip, model::unary(UnOp::Sqrt, model::count(dim_head)))
}

/// A mask with axes for the batch and the heads, in element type `dtype`.
pub open spec fn mask_of(mask: TensorView, dtype: Dtype) -> TensorView {
    let raised = if mask.rank() == 2 {
        model::unsqueeze(model::unsqueeze(mask, 0), 0)
    } else if mask.rank() == 3 {
        model::unsqueeze(mask, 1)
    } else {
        mask
    };
    model::cast(raised, dtype)
}

/// An optional mask with axes for the batch and the heads.
pub open spec fn opt_mask_of(mask: Option<TensorView>, dtype: Dtype) -> Option<TensorView> {
    match mask {
        Some(m) => Some(mask_of(m, dtype)),
        None => None,
    }
}

/// Attention of the queries `start .. start + len`.
pub open spec fn sdpa_chunk_of(
    q: TensorView,
    k_t: TensorView,
    v: TensorView,
    mask: Option<TensorView>,
    start: nat,
    len: nat,
    scale: TensorView,
) -> TensorView {
    let part = model::narrow(q, 2, start, len);
    let scores = model::affine(model::matmul(part, k_t), scale, model::number(ZERO));
    let masked = match mask {
        Some(m) => {
            let m = if m.rank() == 4 && m.dims[2] > 1 {
                model::narrow(m, 2, start, len)
            } else {
                m
            };
            model::binary(BinOp::Plus, scores, m)
        },
        None => scores,
    };
    model::matmul(model::softmax_last_dim(masked), v)
}

/// The chunks of queries from `start` on.
pub open spec fn sdpa_parts_of(
    q: TensorView,
    k_t: TensorView,
    v: TensorView,
    mask: Option<TensorView>,
    scale: TensorView,
    plan: Seq<(nat, nat)>,
) -> Seq<TensorView> {
    plan.map_values(|p: (nat, nat)| sdpa_chunk_of(q, k_t, v, mask, p.0, p.1, scale))
}

/// `softmax(q k^T / sqrt(dim_head) + mask) v` for each head, in single precision.
pub open spec fn sdpa_of(
    q: TensorView,
    k: TensorView,
    v: TensorView,
    heads: nat,
    dim_head: nat,
    mask: Option<TensorView>,
) -> TensorView {
    let b = q.dims[0];
    let t_q = q.dims[1];
    let t_k = k.dims[1];
    let qh = heads_of(q, b, t_q, heads, dim_head);
    let k_t = model::matrix_transpose(heads_of(k, b, t_k, heads, dim_head));
    let vh = heads_of(v, b, t_k, heads, dim_head);
    let scale = score_scale_of(dim_head);
    let m = opt_mask_of(mask, Dtype::F32);
    let scores = capped_product(capped_product(capped_product(b, heads), t_q), t_k);
    let out = if scores <= DIRECT_SCORES {
        sdpa_chunk_of(qh, k_t, vh, m, 0, t_q, scale)
    } else {
        model::cat(
            sdpa_parts_of(
                qh,
                k_t,
                vh,
                m,
                scale,
                chunk_plan(0, t_q, chunk_len(b, heads, t_q, t_k)),
            ),
            2,
        )
    };
    model::cast(
        model::reshape(model::transpose(out, 1, 2), seq![b, t_q, heads * dim_head]),
        q.dtype,
    )
}

/// Whether these are `t` rows of `width` numbers for each of `heads` heads of `b` samples, in
/// main memory and in single precision.
pub open spec fn is_heads(x: &Array, b: nat, heads: nat, t: nat, width: nat) -> bool {
    &&& x.on_cpu() && x@.dtype == Dtype::F32
    &&& x@.dims == seq![b, heads, t, width]
}

/// Whether a mask of this shape can be added to the scores of `t` queries and `s` keys for
/// each of `heads` heads of `b` samples: along each of its axes it has their size, or one.
pub open spec fn mask_spreads(dims: Seq<nat>, b: nat, heads: nat, t: nat, s: nat) -> bool {
    &&& dims.len() == 4
    &&& dims[0] == b || dims[0] == 1
    &&& dims[1] == heads || dims[1] == 1
    &&& dims[2] == t || dims[2] == 1
    &&& dims[3] == s || dims[3] == 1
}

/// Whether this is such a mask, in main memory and in single precision.
pub open spec fn masks(mask: &Array, b: nat, heads: nat, t: nat, s: nat) -> bool {
    mask.on_cpu() && mask@.dtype == Dtype::F32 && mask_spreads(mask@.dims, b, heads, t, s)
}

/// Whether queries, keys, values and a mask go together, in main memory: `(B, T, H * D)` and
/// `(B, S, H * D)`, none of them empty, with scores that can be addressed.
pub open spec fn go_together(
    q: &Array,
    k: &Array,
    v: &Array,
    heads: nat,
    dim_head: nat,
    mask: Option<&Array>,
) -> bool {
    let (b, t, s) = (q@.dims[0], q@.dims[1], k@.dims[1]);
    &&& q.usable() && k.usable() && v.usable()
    &&& q@.dims == seq![b, t, heads * dim_head]
    &&& k@.dims == seq![b, s, heads * dim_head]
    &&& v@.dims == k@.dims
    &&& model::numel(q@.dims) > 0 && model::numel(k@.dims) > 0
    &&& model::fits(q@.dims) && model::fits(k@.dims) && model::fits(seq![b, heads, t, s])
    &&& mask matches Some(m) ==> m.usable() && mask_spreads(mask_of(m@, Dtype::F32).dims, b, heads, t, s)
}

/// Splitting heads off keeps the number of elements.
proof fn lemma_split_sizes(b: nat, t: nat, heads: nat, dim_head: nat)
    requires
        model::numel(seq![b, t, heads * dim_head]) > 0,
        model::fits(seq![b, t, heads * dim_head]),
    ensures
        b > 0 && t > 0 && heads > 0 && dim_head > 0,
        heads * dim_head <= usize::MAX,
        dim_head <= i64::MAX,
        model::numel(seq![b, t, heads, dim_head]) == model::numel(seq![b, t, heads * dim_head]),
        model::numel(seq![b, heads, t, dim_head]) == model::numel(seq![b, t, heads * dim_head]),
        model::fits(seq![b, t, heads, dim_head]),
        model::fits(seq![b, heads, t, dim_head]),
{
    let joined: Seq<nat> = seq![b, t, heads * dim_head];
    lemmas::lemma_numel3(b, t, heads * dim_head);
    lemmas::lemma_numel4(b, t, heads, dim_head);
    lemmas::lemma_numel4(b, heads, t, dim_head);
    assert(b * t * (heads * dim_head) == b * t * heads * dim_head) by (nonlinear_arith);
    assert(b * heads * t * dim_head == b * t * heads * dim_head) by (nonlinear_arith);
    lemmas::lemma_factors(b, t, heads * dim_head);
    lemmas::lemma_factors(b * t, heads, dim_head);
    lemmas::lemma_extent_is_numel(joined);
    lemmas::lemma_room(seq![b, t, heads, dim_head], joined);
    lemmas::lemma_room(seq![b, heads, t, dim_head], joined);
}

/// Where all scores can be addressed, so can those of some of the queries.
proof fn lemma_part_fits(b: nat, heads: nat, t: nat, s: nat, len: nat)
    requires
        b > 0 && heads > 0 && s > 0 && 0 < len <= t,
        model::fits(seq![b, heads, t, s]),
    ensures
        model::fits(seq![b, heads, len, s]),
        model::numel(seq![b, heads, len, s]) > 0,
{
    lemmas::lemma_numel4(b, heads, t, s);
    lemmas::lemma_numel4(b, heads, len, s);
    let bh = b * heads;
    assert(bh > 0) by (nonlinear_arith)
        requires
            bh == b * heads,
            b > 0,
            heads > 0,
    ;
    assert(0 < bh * len <= bh * t) by (nonlinear_arith)
        requires
            bh > 0,
            0 < len <= t,
    ;
    let (few, all) = (bh * len, bh * t);
    assert(0 < few * s <= all * s) by (nonlinear_arith)
        requires
            0 < few <= all,
            s > 0,
    ;
    lemmas::lemma_room(seq![b, heads, len, s], seq![b, heads, t, s]);
}

/// Heads split off, in single precision.
fn split_heads(x: &Array, b: usize, t: usize, heads: usize, dim_head: usize) -> (r: Result<Array, Failure>)
    ensures
        r matches Err(e) ==> e.basic(),
        r matches Ok(h) ==> h@ == heads_of(x@, b as nat, t as nat, heads as nat, dim_head as nat),
        x.usable() && x@.dims == seq![b as nat, t as nat, heads as nat * dim_head as nat] && model::numel(x@.dims) > 0
            && model::fits(x@.dims) ==> (r matches Ok(h) && is_heads(&h, b as nat, heads as nat, t as nat, dim_head as nat)),
{
    proof {
        let width = heads as nat * dim_head as nat;
        if x@.dims == seq![b as nat, t as nat, width] && model::numel(x@.dims) > 0 && model::fits(x@.dims) {
            lemma_split_sizes(b as nat, t as nat, heads as nat, dim_head as nat);
        }
        let split = model::reshape(x@, seq![b as nat, t as nat, heads as nat, dim_head as nat]);
        lemmas::lemma_permute_dims(split, model::swapped(4, 1, 2));
        assert(model::transpose(split, 1, 2).dims =~= seq![b as nat, heads as nat, t as nat, dim_head as nat]);
    }
    x.reshape4(b, t, heads, dim_head)?.transpose(1, 2)?.contiguous()?.to_dtype(Dtype::F32)
}

/// Whether parts along the third axis, one after the other, have `t` rows in all for each head.
spec fn parts_cover(parts: Seq<Array>, b: nat, heads: nat, width: nat, t: nat) -> bool {
    &&& forall|i: int| 0 <= i < parts.len() ==> is_part(#[trigger] parts[i], b, heads, width)
    &&& model::joined_size(array::views(parts), 2) == t
}

spec fn is_part(part: Array, b: nat, heads: nat, width: nat) -> bool {
    is_heads(&part, b, heads, part@.dims[2], width)
}

proof fn lemma_parts_cover(parts: Seq<Array>, part: Array, b: nat, heads: nat, width: nat, t: nat, len: nat)
    requires
        parts_cover(parts, b, heads, width, t),
        is_heads(&part, b, heads, len, width),
    ensures
        parts_cover(parts.push(part), b, heads, width, t + len),
{
    let all = parts.push(part);
    assert forall|i: int| 0 <= i < all.len() implies is_part(#[trigger] all[i], b, heads, width) by {
        if i < parts.len() {
            assert(is_part(parts[i], b, heads, width));
        }
    }
    assert(array::views(all).drop_last() =~= array::views(parts));
    assert(array::views(all).last() == part@);
}

proof fn lemma_covered(parts: Seq<Array>, b: nat, heads: nat, width: nat, t: nat)
    requires
        parts.len() > 0,
        parts_cover(parts, b, heads, width, t),
    ensures
        array::kernels::alike(parts),
        model::joinable(array::views(parts), 2),
        model::cat(array::views(parts), 2).dims == seq![b, heads, t, width],
        model::cat(array::views(parts), 2).dtype == Dtype::F32,
        parts[0].on_cpu(),
{
    let vs = array::views(parts);
    assert(is_part(parts[0], b, heads, width));
    assert forall|i: int| 0 <= i < parts.len() implies (#[trigger] parts[i]).on_cpu() && parts[i]@.dtype
        == parts[0]@.dtype && parts[0]@.dtype.plain() by {
        assert(is_part(parts[i], b, heads, width));
    }
    assert forall|i: int| 0 <= i < vs.len() implies (#[trigger] vs[i]).rank() == vs[0].rank() by {
        assert(is_part(parts[i], b, heads, width));
    }
    assert forall|i: int, k: int| 0 <= i < vs.len() && 0 <= k < vs[0].rank() && k != 2 implies (
    #[trigger] vs[i].dims[k]) == vs[0].dims[k] by {
        assert(is_part(parts[i], b, heads, width));
    }
    model::lemma_cat_dims(vs, 2);
    assert(vs[0].dims.update(2, t) =~= seq![b, heads, t, width]);
    array::kernels::lemma_cat_dtype(vs, 2);
}

/// Scaled dot-product attention of `(B, T, H * D)` arrays.
pub fn sdpa(q: &Array, k: &Array, v: &Array, heads: usize, dim_head: usize, mask: Option<&Array>) -> (r: Result<
    Array,
    Failure,
>)
    ensures
        r matches Err(e) ==> e.basic(),
        r matches Ok(t) ==> t@ == sdpa_of(
            q@,
            k@,
            v@,
            heads as nat,
            dim_head as nat,
            array::opt_ref_view(mask),
        ),
        r is Ok ==> q@.rank() == 3 && k@.rank() == 3,
        go_together(q, k, v, heads as nat, dim_head as nat, mask) ==> (r matches Ok(t) && t.on_cpu() && t@.dims == q@.dims && t@.dtype == q@.dtype),
{
    let ghost fine = go_together(q, k, v, heads as nat, dim_head as nat, mask);
    let ghost (nb, nt, ns, nh, nd) = (q@.dims[0], q@.dims[1], k@.dims[1], heads as nat, dim_head as nat);
    proof {
        if fine {
            lemma_split_sizes(nb, nt, nh, nd);
            lemma_split_sizes(nb, ns, nh, nd);
            lemma_part_fits(nb, nh, nt, ns, nt);
        }
    }
    let (b, t_q, _wq) = q.dims3()?;
    let (_b, t_k, _wk) = k.dims3()?;
    let out_dtype = q.dtype();
    let qh = split_heads(q, b, t_q, heads, dim_head)?;
    let kh = split_heads(k, b, t_k, heads, dim_head)?;
    let vh = split_heads(v, b, t_k, heads, dim_head)?;
    let scale = Array::count(dim_head)?.unary(UnOp::Sqrt)?.unary(UnOp::Recip)?;
    proof {
        lemmas::lemma_permute_dims(kh@, model::swapped(4, 2, 3));
    }
    let k_t = kh.t()?.contiguous()?;
    assert(fine ==> k_t@.dims =~= seq![nb, nh, nd, ns]);
    let prepared = prepare_sdpa_mask(mask, Dtype::F32)?;
    let score_elems: usize = capped_mul(capped_mul(capped_mul(b, heads), t_q), t_k);
    let out = if score_elems <= DIRECT_SCORES {
        sdpa_chunk(&qh, &k_t, &vh, prepared.as_ref(), 0, t_q, &scale)?
    } else {
        let per_query: usize = capped_mul(capped_mul(b, heads), t_k);
        let denom: usize = if per_query == 0 {
            1
        } else {
            per_query
        };
        let wanted: usize = CHUNK_SCORES / denom;
        let chunk: usize = if wanted < 1 {
            1
        } else if wanted > t_q {
            t_q
        } else {
            wanted
        };
        proof {
            assert(t_q > 0) by {
                if t_q == 0 {
                    assert(capped_product(b as nat, heads as nat) * 0 == 0) by (nonlinear_arith);
                    assert(0 * t_k == 0) by (nonlinear_arith);
                }
            }
        }
        let ghost full = sdpa_parts_of(
            qh@,
            k_t@,
            vh@,
            array::opt_view(prepared),
            scale@,
            chunk_plan(0, t_q as nat, chunk as nat),
        );
        let mut chunks: Vec<Array> = Vec::new();
        let mut start: usize = 0;
        assert(array::views(chunks@) =~= Seq::empty());
        assert(array::views(chunks@) + full =~= full);
        while start < t_q
            invariant
                start <= t_q,
                chunk >= 1,
                fine ==> is_heads(&qh, nb, nh, nt, nd) && is_heads(&k_t, nb, nh, nd, ns) && is_heads(&vh, nb, nh, ns, nd),
                fine == go_together(q, k, v, heads as nat, dim_head as nat, mask),
                fine ==> nb > 0 && nh > 0 && nd > 0 && ns > 0 && t_q == nt && scale.single(),
                fine ==> model::fits(seq![nb, nh, nt, ns]) && model::fits(seq![nb, nh, nt, nd]),
                fine ==> (prepared matches Some(m) ==> masks(&m, nb, nh, nt, ns)),
                fine ==> parts_cover(chunks@, nb, nh, nd, start as nat),
                array::views(chunks@) + sdpa_parts_of(
                    qh@,
                    k_t@,
                    vh@,
                    array::opt_view(prepared),
                    scale@,
                    chunk_plan(start as nat, t_q as nat, chunk as nat),
                ) == full,
            decreases t_q - start,
        {
            let len: usize = if t_q - start < chunk {
                t_q - start
            } else {
                chunk
            };
            let ghost before = array::views(chunks@);
            let ghost done = chunks@;
            proof {
                if fine {
                    lemma_part_fits(nb, nh, nt, ns, len as nat);
                    lemma_part_fits(nb, nh, nt, nd, len as nat);
                }
            }
            let part = sdpa_chunk(&qh, &k_t, &vh, prepared.as_ref(), start, len, &scale)?;
            let ghost rest = sdpa_parts_of(
                qh@,
                k_t@,
                vh@,
                array::opt_view(prepared),
                scale@,
                chunk_plan((start + len) as nat, t_q as nat, chunk as nat),
            );
            proof {
                assert(sdpa_parts_of(
                    qh@,
                    k_t@,
                    vh@,
                    array::opt_view(prepared),
                    scale@,
                    chunk_plan(start as nat, t_q as nat, chunk as nat),
                ) =~= seq![part@] + rest);
            }
            chunks.push(part);
            proof {
                if fine {
                    lemma_parts_cover(done, part, nb, nh, nd, start as nat, len as nat);
                    assert(chunks@ =~= done.push(part));
                }
                assert(array::views(chunks@) =~= before.push(part@));
                assert(before + (seq![part@] + rest) =~= before.push(part@) + rest);
            }
            start = start + len;
        }
        proof {
            assert(chunk_plan(start as nat, t_q as nat, chunk as nat) =~= Seq::empty());
            assert(array::views(chunks@) =~= full);
            if fine {
                lemma_covered(chunks@, nb, nh, nd, nt);
            }
        }
        Array::cat(&chunks, 2)?
    };
    proof {
        if fine {
            assert(is_heads(&out, nb, nh, nt, nd));
            lemmas::lemma_permute_dims(out@, model::swapped(4, 1, 2));
            assert(model::transpose(out@, 1, 2).dims =~= seq![nb, nt, nh, nd]);
        }
    }
    let width: usize = match heads.checked_mul(dim_head) {
        Some(w) => w,
        None => {
            return Err(Failure::Overflow);
        },
    };
    let out = out.transpose(1, 2)?.contiguous()?;
    out.reshape3(b, t_q, width)?.to_dtype(out_dtype)
}

/// Gives a mask axes for the batch and the heads.
pub fn prepare_sdpa_mask(mask: Option<&Array>, dtype: Dtype) -> (r: Result<Option<Array>, Failure>)
    ensures
        r matches Err(e) ==> e.basic(),
        r matches Ok(m) ==> array::opt_view(m) == opt_mask_of(array::opt_ref_view(mask), dtype),
        mask is None ==> r is Ok,
        r matches Ok(m) ==> mask is Some == m is Some && (mask matches Some(a) ==> m->0.on_cpu() == a.on_cpu()),
        mask matches Some(m) ==> m.usable() && dtype.plain() ==> r is Ok,
{
    let mask = match mask {
        Some(m) => m,
        None => {
            return Ok(None);
        },
    };
    let rank: usize = mask.rank();
    let mask = if rank == 2 {
        mask.unsqueeze(0)?.unsqueeze(0)?
    } else if rank == 3 {
        mask.unsqueeze(1)?
    } else {
        mask.clone()
    };
    Ok(Some(mask.to_dtype(dtype)?))
}

/// Attention of the queries `q_start .. q_start + q_len`.
pub fn sdpa_chunk(
    q: &Array,
    k_t: &Array,
    v: &Array,
    mask: Option<&Array>,
    q_start: usize,
    q_len: usize,
    scale: &Array,
) -> (r: Result<Array, Failure>)
    ensures
        r matches Err(e) ==> e.basic(),
        r matches Ok(t) ==> t@ == sdpa_chunk_of(
            q@,
            k_t@,
            v@,
            array::opt_ref_view(mask),
            q_start as nat,
            q_len as nat,
            scale@,
        ),
        forall|b: nat, heads: nat, t: nat, s: nat, width: nat|
            #![trigger is_heads(q, b, heads, t, width), is_heads(v, b, heads, s, width)]
            is_heads(q, b, heads, t, width) && is_heads(k_t, b, heads, width, s) && is_heads(v, b, heads, s, width)
                && scale.single() && s > 0 && q_len > 0 && q_start + q_len <= t && model::fits(
                seq![b, heads, q_len as nat, s],
            ) && model::fits(seq![b, heads, q_len as nat, width]) && (mask matches Some(m) ==> masks(
                m,
                b,
                heads,
                t,
                s,
            )) ==> (r matches Ok(o) && is_heads(&o, b, heads, q_len as nat, width)),
{
    let ghost (nb, nh, nt, nw, ns) = (q@.dims[0], q@.dims[1], q@.dims[2], q@.dims[3], v@.dims[2]);
    let ghost fine = is_heads(q, nb, nh, nt, nw) && is_heads(k_t, nb, nh, nw, ns) && is_heads(v, nb, nh, ns, nw)
        && scale.single() && ns > 0 && q_len > 0 && q_start + q_len <= nt && model::fits(
        seq![nb, nh, q_len as nat, ns],
    ) && model::fits(seq![nb, nh, q_len as nat, nw]) && (mask matches Some(m) ==> masks(m, nb, nh, nt, ns));
    proof {
        lemmas::lemma_narrow_dims(q@, 2, q_start as nat, q_len as nat);
        if fine {
            assert(q@.dims.update(2, q_len as nat) =~= seq![nb, nh, q_len as nat, nw]);
            assert(seq![nb, nh, q_len as nat, nw].drop_last().push(ns) =~= seq![nb, nh, q_len as nat, ns]);
            assert(seq![nb, nh, q_len as nat, ns].drop_last().push(nw) =~= seq![nb, nh, q_len as nat, nw]);
            assert(k_t@.dims.last() == ns && v@.dims.last() == nw);
        }
    }
    let q = q.narrow(2, q_start, q_len)?;
    let scores = q.matmul(k_t)?.scale_by(scale)?;
    let scores = match mask {
        Some(mask) => {
            proof {
                lemmas::lemma_narrow_dims(mask@, 2, q_start as nat, q_len as nat);
            }
            let mask = if mask.rank() == 4 && mask.dim(2)? > 1 {
                mask.narrow(2, q_start, q_len)?
            } else {
                mask.clone()
            };
            proof {
                if fine {
                    assert(lemmas::spreads(mask@.dims, scores@.dims));
                    lemmas::lemma_spread_common(mask@.dims, scores@.dims);
                }
            }
            scores.broadcast(BinOp::Plus, &mask)?
        },
        None => scores,
    };
    proof {
        reveal(model::softmax_last_dim);
    }
    let weights = scores.softmax_last_dim()?;
    weights.contiguous()?.matmul(v)
}

} // verus!
