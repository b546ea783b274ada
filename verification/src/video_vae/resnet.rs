//! Residual blocks over time, height and width.
use vstd::prelude::*;

use crate::array::{self, Array};
use crate::error::Failure;
use crate::lemmas;
use crate::model::{self, BinOp, Dtype, TensorView};
use crate::nn::activation::{self, silu};
use crate::nn::conv3d::{CausalConv3d, Conv3d, SpatialPaddingMode};
use crate::nn::group_norm::GroupNorm;
use crate::nn::pixel_norm::{PixelNorm, PIXEL_NORM_EPS};
use crate::nn::timestep_embedding::PixArtAlphaCombinedTimestepSizeEmbeddings;
use crate::scalar::{Scalar, ONE};
use crate::weights::{self, Weights, WeightsView};

verus! {

/// How the channels of a decoder are normalised.
pub enum NormLayer {
    PixelNorm(PixelNorm),
    GroupNorm(GroupNorm),
    Identity,
}

impl NormLayer {
    /// Whether this is the normalisation of `channels` channels that a decoder uses.
    pub open spec fn loaded(
        &self,
        use_pixel_norm: bool,
        groups: nat,
        channels: nat,
        eps: Scalar,
        vb: WeightsView,
    ) -> bool {
        if use_pixel_norm {
            *self == NormLayer::PixelNorm(PixelNorm { dim: 1, eps: PIXEL_NORM_EPS })
        } else {
            self matches NormLayer::GroupNorm(n) && n.loaded(vb, groups, channels, eps)
        }
    }

    /// What the normalisation computes from `x`.
    pub open spec fn apply(&self, x: TensorView) -> TensorView {
        match self {
            NormLayer::PixelNorm(n) => n.apply(x),
            NormLayer::GroupNorm(n) => n.apply(x),
            NormLayer::Identity => x,
        }
    }

    /// Whether an array of this shape can be normalised, in main memory and in single precision.
    pub open spec fn accepts_shape(&self, d: Seq<nat>) -> bool {
        match self {
            NormLayer::PixelNorm(n) => n.dim < d.len(),
            NormLayer::GroupNorm(n) => n.normalises_shape(d),
            NormLayer::Identity => true,
        }
    }

    pub fn new_pixel_norm() -> (r: NormLayer)
        ensures
            r == NormLayer::PixelNorm(PixelNorm { dim: 1, eps: PIXEL_NORM_EPS }),
    {
        NormLayer::PixelNorm(PixelNorm::default())
    }

    pub fn new_group_norm(num_groups: usize, num_channels: usize, eps: Scalar, vb: &Weights) -> (r: Result<
        NormLayer,
        Failure,
    >)
        ensures
            r matches Ok(n) ==> n.loaded(false, num_groups as nat, num_channels as nat, eps, vb@),
            r is Ok ==> GroupNorm::present(vb@, num_groups as nat, num_channels as nat),
            vb@.sound() && GroupNorm::present(vb@, num_groups as nat, num_channels as nat) ==> r is Ok,
    {
        Ok(NormLayer::GroupNorm(GroupNorm::new(num_groups, num_channels, eps, vb)?))
    }

    /// The normalisation of `channels` channels that a decoder uses.
    pub fn choose_norm(use_pixel_norm: bool, groups: usize, channels: usize, eps: Scalar, vb: &Weights) -> (r:
        Result<NormLayer, Failure>)
        ensures
            r matches Ok(n) ==> n.loaded(use_pixel_norm, groups as nat, channels as nat, eps, vb@),
            r is Ok && !use_pixel_norm ==> GroupNorm::present(vb@, groups as nat, channels as nat),
            use_pixel_norm || (vb@.sound() && GroupNorm::present(vb@, groups as nat, channels as nat)) ==> r is Ok,
    {
        if use_pixel_norm {
            Ok(NormLayer::new_pixel_norm())
        } else {
            NormLayer::new_group_norm(groups, channels, eps, vb)
        }
    }

    pub fn forward(&self, x: &Array) -> (r: Result<Array, Failure>)
        ensures
            r matches Ok(t) ==> t@ == self.apply(x@),
            *self is Identity ==> r is Ok,
            x.on_cpu() && x@.dtype == Dtype::F32 && self.accepts_shape(x@.dims) ==> (r matches Ok(t) && t.on_cpu()
                && t@.dims == x@.dims && t@.dtype == x@.dtype),
    {
        match self {
            NormLayer::PixelNorm(n) => n.forward(x),
            NormLayer::GroupNorm(n) => n.forward(x),
            NormLayer::Identity => Ok(x.clone()),
        }
    }
}

/// A table of `rows` rows for each channel plus an embedded timestep for each sample:
/// `(B, rows, C, 1, 1, 1)`.
pub open spec fn ada_values_of(table: TensorView, ts: TensorView, rows: nat, batch: nat, dtype: Dtype) -> TensorView {
    let c = table.dims[1];
    let wide = model::cast(
        model::reshape(model::unsqueeze(table, 0), seq![1, rows, c, 1, 1, 1]),
        dtype,
    );
    model::binary(
        BinOp::Plus,
        wide,
        model::reshape(ts, seq![batch, rows, c, ts.dims[2], ts.dims[3], ts.dims[4]]),
    )
}

/// Row `i` of a modulation table.
pub open spec fn ada_row(values: TensorView, i: nat) -> TensorView {
    model::squeeze(model::narrow(values, 1, i, 1), 1)
}

/// `h * (scale + 1) + shift`.
pub open spec fn modulated(h: TensorView, shift: TensorView, scale: TensorView) -> TensorView {
    model::binary(
        BinOp::Plus,
        model::binary(
            BinOp::Times,
            h,
            model::affine(scale, model::number(ONE), model::number(ONE)),
        ),
        shift,
    )
}

/// Whether a table of `rows` rows for `c` channels and an embedded timestep for each of `batch`
/// samples go together, in main memory.
pub open spec fn ada_fits(table: &Array, ts: &Array, rows: nat, batch: nat, c: nat) -> bool {
    &&& table.usable() && table@.dims == seq![rows, c]
    &&& ts.on_cpu() && ts@.dtype == Dtype::F32 && ts@.dims == seq![batch, rows * c, 1, 1, 1]
    &&& rows > 0 && batch > 0 && c > 0 && model::fits(ts@.dims)
}

/// The shapes on the way can be addressed and have the elements that they come from.
proof fn lemma_ada(rows: nat, batch: nat, c: nat)
    requires
        rows > 0 && batch > 0 && c > 0,
        model::fits(seq![batch, rows * c, 1, 1, 1]),
    ensures
        model::numel(seq![1, rows, c]) == model::numel(seq![1, rows, c, 1, 1, 1]),
        model::numel(seq![batch, rows * c, 1, 1, 1]) == model::numel(seq![batch, rows, c, 1, 1, 1]),
        model::fits(seq![1, rows, c, 1, 1, 1]),
        model::fits(seq![batch, rows, c, 1, 1, 1]),
        model::have_common_dims(seq![1, rows, c, 1, 1, 1], seq![batch, rows, c, 1, 1, 1]),
        model::common_dims(seq![1, rows, c, 1, 1, 1], seq![batch, rows, c, 1, 1, 1]) == seq![batch, rows, c, 1, 1, 1],
{
    let (one, all): (Seq<nat>, Seq<nat>) = (seq![1, rows, c, 1, 1, 1], seq![batch, rows, c, 1, 1, 1]);
    lemmas::lemma_numel3(1, rows, c);
    lemmas::lemma_numel5(1, rows, c, 1, 1);
    lemmas::lemma_numel_push(seq![1, rows, c, 1, 1], 1);
    assert(seq![1, rows, c, 1, 1].push(1) =~= one);
    lemmas::lemma_numel5(batch, rows, c, 1, 1);
    lemmas::lemma_numel_push(seq![batch, rows, c, 1, 1], 1);
    assert(seq![batch, rows, c, 1, 1].push(1) =~= all);
    lemmas::lemma_numel5(batch, rows * c, 1, 1, 1);
    assert(1 * rows * c * 1 * 1 * 1 == 1 * rows * c && batch * rows * c * 1 * 1 * 1 == batch * (rows * c) * 1 * 1 * 1
        && 0 < 1 * rows * c <= batch * rows * c * 1 * 1 * 1) by (nonlinear_arith)
        requires
            rows > 0 && batch > 0 && c > 0,
    ;
    lemmas::lemma_room(one, seq![batch, rows * c, 1, 1, 1]);
    lemmas::lemma_room(all, seq![batch, rows * c, 1, 1, 1]);
    assert forall|k: int| 0 <= k < 6 implies (#[trigger] model::size_from_last(one, k)) == model::size_from_last(all, k)
        || model::size_from_last(one, k) == 1 by {
        assert(one[5 - k] == all[5 - k] || one[5 - k] == 1);
    }
    assert(model::common_dims(one, all) =~= all);
}

/// A table of `rows` rows for each channel plus an embedded timestep for each sample.
pub fn ada_values(table: &Array, ts: &Array, rows: usize, batch: usize, dtype: Dtype) -> (r: Result<
    Array,
    Failure,
>)
    ensures
        r matches Ok(t) ==> t@ == ada_values_of(table@, ts@, rows as nat, batch as nat, dtype),
        r is Ok ==> table@.rank() > 1 && ts@.rank() > 4,
        forall|c: nat| #[trigger]
            ada_fits(table, ts, rows as nat, batch as nat, c) && dtype == Dtype::F32 ==> (r matches Ok(t) && t.on_cpu()
                && t@.dtype == Dtype::F32 && t@.dims == seq![batch as nat, rows as nat, c, 1, 1, 1]),
{
    proof {
        assert forall|c: nat| #[trigger] ada_fits(table, ts, rows as nat, batch as nat, c) implies table@.dims[1] == c
            && table@.dims.insert(0, 1) == seq![1, rows as nat, c] by {
            assert(table@.dims.insert(0, 1) =~= seq![1, rows as nat, c]);
        }
        let c = table@.dims[1];
        if ada_fits(table, ts, rows as nat, batch as nat, c) {
            lemma_ada(rows as nat, batch as nat, c);
        }
    }
    let c: usize = table.dim(1)?;
    let dims: Vec<usize> = vec![1, rows, c, 1, 1, 1];
    assert(model::nats(dims@) =~= seq![1, rows as nat, c as nat, 1, 1, 1]);
    let wide = table.unsqueeze(0)?.reshape(&dims)?.to_dtype(dtype)?;
    let dims: Vec<usize> = vec![batch, rows, c, ts.dim(2)?, ts.dim(3)?, ts.dim(4)?];
    assert(model::nats(dims@) =~= seq![
        batch as nat,
        rows as nat,
        c as nat,
        ts@.dims[2],
        ts@.dims[3],
        ts@.dims[4],
    ]);
    let ts = ts.reshape(&dims)?;
    wide.broadcast(BinOp::Plus, &ts)
}

/// `h * (scale + 1) + shift`, with rows `shift` and `scale` of a modulation table.
pub fn modulate(h: &Array, values: &Array, shift: usize, scale: usize) -> (r: Result<Array, Failure>)
    ensures
        r matches Ok(t) ==> t@ == modulated(
            h@,
            ada_row(values@, shift as nat),
            ada_row(values@, scale as nat),
        ),
        ({
            let row = values@.dims.update(1, 1).remove(1);
            h.on_cpu() && h@.dtype.float() && values.on_cpu() && values@.dtype == h@.dtype && values@.rank() > 1 && shift
                < values@.dims[1] && scale < values@.dims[1] && model::have_common_dims(h@.dims, row)
                && model::common_dims(h@.dims, row) == h@.dims
        }) ==> (r matches Ok(t) && t.on_cpu() && t@.dtype == h@.dtype && t@.dims == h@.dims),
{
    proof {
        lemmas::lemma_narrow_dims(values@, 1, shift as nat, 1);
        lemmas::lemma_narrow_dims(values@, 1, scale as nat, 1);
    }
    let shift = values.narrow(1, shift, 1)?.squeeze(1)?;
    let scale = values.narrow(1, scale, 1)?.squeeze(1)?;
    h.broadcast(BinOp::Times, &scale.shift(ONE)?)?.broadcast(BinOp::Plus, &shift)
}

/// Two normalised, activated convolutions added to their input. A timestep scales and
/// shifts what was normalised.
pub struct ResnetBlock3D {
    pub norm1: NormLayer,
    pub conv1: CausalConv3d,
    pub norm2: NormLayer,
    pub conv2: CausalConv3d,
    /// Changes the number of channels of the input, where it has to change.
    pub conv_shortcut: Option<Conv3d>,
    pub norm3: NormLayer,
    /// Four rows for each channel: shift and scale of the first and of the second
    /// normalisation.
    pub scale_shift_table: Option<Array>,
}

impl ResnetBlock3D {
    /// Whether this is the block that a checkpoint holds.
    #[verifier::opaque]
    pub open spec fn loaded(
        &self,
        in_channels: nat,
        out_channels: nat,
        use_pixel_norm: bool,
        timestep_conditioning: bool,
        groups: nat,
        eps: Scalar,
        mode: SpatialPaddingMode,
        vb: WeightsView,
    ) -> bool {
        &&& self.norm1.loaded(use_pixel_norm, groups, in_channels, eps, vb.pp("norm1"@))
        &&& self.conv1.loaded(vb.pp("conv1"@), 3, (1, 1, 1), 1, true, mode)
        &&& self.norm2.loaded(use_pixel_norm, groups, out_channels, eps, vb.pp("norm2"@))
        &&& self.conv2.loaded(vb.pp("conv2"@), 3, (1, 1, 1), 1, true, mode)
        &&& if in_channels != out_channels {
            &&& self.conv_shortcut matches Some(c)
            &&& c.loaded(vb.pp("conv_shortcut"@), true)
            &&& c.stride == (1usize, 1usize, 1usize)
            &&& c.padding == (0usize, 0usize, 0usize)
            &&& c.groups == 1
            &&& c.spatial_padding_mode == SpatialPaddingMode::Zeros
            &&& self.norm3.loaded(false, 1, in_channels, eps, vb.pp("norm3"@))
        } else {
            self.conv_shortcut is None && self.norm3 is Identity
        }
        &&& timestep_conditioning == self.scale_shift_table is Some
        &&& self.scale_shift_table matches Some(t) ==> t@ == vb.get("scale_shift_table"@)
    }

    /// Whether a checkpoint holds a block of these sizes.
    #[verifier::opaque]
    pub open spec fn present(
        in_channels: nat,
        out_channels: nat,
        use_pixel_norm: bool,
        timestep_conditioning: bool,
        groups: nat,
        vb: WeightsView,
    ) -> bool {
        &&& !use_pixel_norm ==> GroupNorm::present(vb.pp("norm1"@), groups, in_channels)
        &&& !use_pixel_norm ==> GroupNorm::present(vb.pp("norm2"@), groups, out_channels)
        &&& Conv3d::present(vb.pp("conv1"@).pp("conv"@), in_channels, out_channels, 3, 1, true)
        &&& Conv3d::present(vb.pp("conv2"@).pp("conv"@), out_channels, out_channels, 3, 1, true)
        &&& in_channels != out_channels ==> Conv3d::present(
            vb.pp("conv_shortcut"@),
            in_channels,
            out_channels,
            1,
            1,
            true,
        ) && GroupNorm::present(vb.pp("norm3"@), 1, in_channels)
        &&& timestep_conditioning ==> vb.holds("scale_shift_table"@, seq![4, in_channels])
    }

    pub fn new(
        in_channels: usize,
        out_channels: usize,
        use_pixel_norm: bool,
        timestep_conditioning: bool,
        groups: usize,
        eps: Scalar,
        spatial_padding_mode: SpatialPaddingMode,
        vb: &Weights,
    ) -> (r: Result<ResnetBlock3D, Failure>)
        ensures
            r matches Ok(b) ==> b.loaded(
                in_channels as nat,
                out_channels as nat,
                use_pixel_norm,
                timestep_conditioning,
                groups as nat,
                eps,
                spatial_padding_mode,
                vb@,
            ),
            r is Ok ==> ResnetBlock3D::present(
                in_channels as nat,
                out_channels as nat,
                use_pixel_norm,
                timestep_conditioning,
                groups as nat,
                vb@,
            ),
            vb@.sound() && ResnetBlock3D::present(
                in_channels as nat,
                out_channels as nat,
                use_pixel_norm,
                timestep_conditioning,
                groups as nat,
                vb@,
            ) ==> r is Ok,
    {
        proof {
            reveal(ResnetBlock3D::loaded);
            reveal(ResnetBlock3D::present);
        }
        let norm1 = NormLayer::choose_norm(use_pixel_norm, groups, in_channels, eps, &vb.pp("norm1"))?;
        let conv1 = CausalConv3d::new_with_padding_mode(
            in_channels,
            out_channels,
            3,
            (1, 1, 1),
            1,
            true,
            spatial_padding_mode,
            &vb.pp("conv1"),
        )?;
        let norm2 = NormLayer::choose_norm(use_pixel_norm, groups, out_channels, eps, &vb.pp("norm2"))?;
        let conv2 = CausalConv3d::new_with_padding_mode(
            out_channels,
            out_channels,
            3,
            (1, 1, 1),
            1,
            true,
            spatial_padding_mode,
            &vb.pp("conv2"),
        )?;
        let (conv_shortcut, norm3) = if in_channels != out_channels {
            let shortcut = Conv3d::new(
                in_channels,
                out_channels,
                1,
                (1, 1, 1),
                (0, 0, 0),
                1,
                true,
                &vb.pp("conv_shortcut"),
            )?;
            let norm = NormLayer::new_group_norm(1, in_channels, eps, &vb.pp("norm3"))?;
            (Some(shortcut), norm)
        } else {
            (None, NormLayer::Identity)
        };
        let scale_shift_table = if timestep_conditioning {
            Some(vb.get2(4, in_channels, "scale_shift_table")?)
        } else {
            None
        };
        Ok(ResnetBlock3D { norm1, conv1, norm2, conv2, conv_shortcut, norm3, scale_shift_table })
    }

    /// The modulation of the block at a timestep.
    pub open spec fn values(&self, x: TensorView, timestep: Option<TensorView>) -> Option<TensorView> {
        if self.scale_shift_table is Some && timestep is Some {
            Some(
                ada_values_of(
                    self.scale_shift_table->0@,
                    timestep->0,
                    4,
                    x.dims[0],
                    self.norm1.apply(x).dtype,
                ),
            )
        } else {
            None
        }
    }

    /// `h`, scaled and shifted by two rows of a modulation where there is one.
    pub open spec fn maybe_modulated(h: TensorView, values: Option<TensorView>, first: nat) -> TensorView {
        match values {
            Some(v) => modulated(h, ada_row(v, first), ada_row(v, first + 1)),
            None => h,
        }
    }

    /// The input, with the number of channels of the output.
    pub open spec fn skip(&self, x: TensorView) -> TensorView {
        match self.conv_shortcut {
            Some(c) => c.apply(self.norm3.apply(x)),
            None => self.norm3.apply(x),
        }
    }

    /// What the block computes from `x`.
    #[verifier::opaque]
    pub open spec fn apply(&self, x: TensorView, causal: bool, timestep: Option<TensorView>) -> TensorView {
        let values = self.values(x, timestep);
        let h1 = ResnetBlock3D::maybe_modulated(self.norm1.apply(x), values, 0);
        let c1 = self.conv1.apply(activation::silu_of(h1), causal);
        let h2 = ResnetBlock3D::maybe_modulated(self.norm2.apply(c1), values, 2);
        let c2 = self.conv2.apply(activation::silu_of(h2), causal);
        model::binary(BinOp::Plus, self.skip(x), c2)
    }

    /// The shape of what the block computes.
    pub open spec fn dims_out(&self, d: Seq<nat>, causal: bool) -> Seq<nat> {
        self.conv2.dims_out(self.conv1.dims_out(d, causal), causal)
    }

    /// Whether the block can be computed from an array of this shape, in main memory and in
    /// single precision.
    pub open spec fn accepts_shape(&self, d: Seq<nat>, causal: bool) -> bool {
        let inner = self.conv1.dims_out(d, causal);
        &&& self.norm1.accepts_shape(d) && self.conv1.accepts_shape(d, causal)
        &&& self.norm2.accepts_shape(inner) && self.conv2.accepts_shape(inner, causal)
        &&& self.norm3.accepts_shape(d)
        &&& match self.conv_shortcut {
            Some(c) => c.accepts_shape(d) && c.dims_out(d) == self.dims_out(d, causal),
            None => d == self.dims_out(d, causal),
        }
    }

    /// Whether an embedded timestep can scale and shift what is normalised of an array of this
    /// shape, where both are there.
    pub open spec fn accepts_time(&self, d: Seq<nat>, causal: bool, timestep: Option<&Array>) -> bool {
        let inner = self.conv1.dims_out(d, causal);
        (self.scale_shift_table is Some && timestep is Some) ==> {
            &&& d.len() == 5 && ada_fits(&self.scale_shift_table->0, timestep->0, 4, d[0], d[1])
            &&& inner.len() == 5 && inner[0] == d[0] && inner[1] == d[1]
        }
    }

    /// `timestep` is an embedded timestep of shape `(B, 4 C, 1, 1, 1)`.
    pub fn forward(&self, x: &Array, causal: bool, timestep: Option<&Array>) -> (r: Result<Array, Failure>)
        ensures
            r matches Ok(t) ==> t@ == self.apply(x@, causal, array::opt_ref_view(timestep)),
            r is Ok ==> x@.rank() > 0,
            self.accepts_time(x@.dims, causal, timestep) && x.on_cpu() && x@.dtype == Dtype::F32 && self.accepts_shape(
                x@.dims,
                causal,
            ) ==> (r matches Ok(t) && t.on_cpu() && t@.dtype == Dtype::F32 && t@.dims == self.dims_out(
                x@.dims,
                causal,
            )),
    {
        proof {
            reveal(ResnetBlock3D::apply);
            let (d, inner) = (x@.dims, self.conv1.dims_out(x@.dims, causal));
            if self.scale_shift_table is Some && timestep is Some && self.accepts_time(d, causal, timestep) {
                let row: Seq<nat> = seq![d[0], d[1], 1, 1, 1];
                assert(seq![d[0], 4, d[1], 1, 1, 1].update(1, 1).remove(1) =~= row);
                lemmas::lemma_spread_common(row, d);
                lemmas::lemma_spread_common(row, inner);
            }
        }
        let batch_size: usize = x.dim(0)?;
        let h = self.norm1.forward(x)?;
        let values = match (&self.scale_shift_table, timestep) {
            (Some(table), Some(ts)) => Some(ada_values(table, ts, 4, batch_size, h.dtype())?),
            _ => None,
        };
        let h = match &values {
            Some(v) => modulate(&h, v, 0, 1)?,
            None => h,
        };
        let h = silu(&h)?;
        let h = self.conv1.forward(&h, causal)?;
        let h = self.norm2.forward(&h)?;
        let h = match &values {
            Some(v) => modulate(&h, v, 2, 3)?,
            None => h,
        };
        let h = silu(&h)?;
        let h = self.conv2.forward(&h, causal)?;
        let skip = self.norm3.forward(x)?;
        let skip = match &self.conv_shortcut {
            Some(c) => c.forward(&skip)?,
            None => skip,
        };
        skip.pairwise(BinOp::Plus, &h)
    }
}

/// Residual blocks one after another.
pub struct UNetMidBlock3D {
    pub res_blocks: Vec<ResnetBlock3D>,
    pub time_embedder: Option<PixArtAlphaCombinedTimestepSizeEmbeddings>,
}

/// The embedding of a timestep for each sample: `(B, D, 1, 1, 1)`.
pub open spec fn time_embedding_of(
    embedder: PixArtAlphaCombinedTimestepSizeEmbeddings,
    timestep: TensorView,
    batch: nat,
) -> TensorView {
    let emb = embedder.apply(model::flatten(timestep));
    model::reshape(emb, seq![batch, emb.dims.last(), 1, 1, 1])
}

/// Whether a timestep for each of `batch` samples can be embedded through rows of `hidden` numbers
/// as rows of `n_out`, in main memory.
pub open spec fn embeds_time(
    embedder: &PixArtAlphaCombinedTimestepSizeEmbeddings,
    timestep: &Array,
    batch: nat,
    hidden: nat,
    n_out: nat,
) -> bool {
    let width = embedder.time_proj.num_channels as nat;
    &&& timestep.usable() && model::numel(timestep@.dims) == batch && batch > 0 && width >= 2 && n_out > 0
    &&& embedder.timestep_embedder.maps(width, hidden, n_out)
    &&& model::fits(seq![batch, width]) && model::fits(seq![batch, hidden]) && model::fits(seq![batch, n_out])
}

/// The embedding of a timestep for each sample.
pub fn time_embedding(
    embedder: &PixArtAlphaCombinedTimestepSizeEmbeddings,
    timestep: &Array,
    batch: usize,
) -> (r: Result<Array, Failure>)
    ensures
        r matches Ok(t) ==> t@ == time_embedding_of(*embedder, timestep@, batch as nat),
        r matches Ok(t) ==> t@.rank() == 5,
        forall|hidden: nat, n_out: nat| #[trigger]
            embeds_time(embedder, timestep, batch as nat, hidden, n_out) ==> (r matches Ok(t) && t.on_cpu()
                && t@.dtype == Dtype::F32 && t@.dims == seq![batch as nat, n_out, 1, 1, 1] && model::fits(t@.dims)),
{
    proof {
        let b = batch as nat;
        assert forall|hidden: nat, n_out: nat| #[trigger]
            embeds_time(embedder, timestep, b, hidden, n_out) implies model::numel(seq![b, n_out]) == model::numel(
            seq![b, n_out, 1, 1, 1],
        ) && model::fits(seq![b, n_out, 1, 1, 1]) && seq![b, n_out].last() == n_out by {
            lemmas::lemma_numel2(b, n_out);
            lemmas::lemma_numel5(b, n_out, 1, 1, 1);
            assert(b * n_out * 1 * 1 * 1 == b * n_out && b * n_out > 0) by (nonlinear_arith)
                requires
                    b > 0,
                    n_out > 0,
            ;
            lemmas::lemma_room(seq![b, n_out, 1, 1, 1], seq![b, n_out]);
        }
    }
    let emb = embedder.forward(&timestep.flatten_all()?)?;
    let dims = emb.dims();
    if dims.len() == 0 {
        return Err(Failure::Shape);
    }
    let last: usize = dims[dims.len() - 1];
    assert(emb@.dims.last() == last);
    emb.reshape5(batch, last, 1, 1, 1)
}

impl UNetMidBlock3D {
    /// Whether block `i` is the one that a checkpoint holds.
    pub open spec fn block_loaded(
        b: ResnetBlock3D,
        i: nat,
        in_channels: nat,
        use_pixel_norm: bool,
        timestep_conditioning: bool,
        groups: nat,
        eps: Scalar,
        mode: SpatialPaddingMode,
        vb: WeightsView,
    ) -> bool {
        b.loaded(
            in_channels,
            in_channels,
            use_pixel_norm,
            timestep_conditioning,
            groups,
            eps,
            mode,
            vb.pp("res_blocks"@).at(i),
        )
    }

    /// Whether these are the blocks that a checkpoint holds.
    pub open spec fn loaded(
        &self,
        in_channels: nat,
        num_layers: nat,
        use_pixel_norm: bool,
        timestep_conditioning: bool,
        groups: nat,
        eps: Scalar,
        mode: SpatialPaddingMode,
        vb: WeightsView,
    ) -> bool {
        &&& timestep_conditioning == self.time_embedder is Some
        &&& self.time_embedder matches Some(e) ==> e.loaded(vb.pp("time_embedder"@), None)
        &&& self.res_blocks@.len() == num_layers
        &&& forall|i: int|
            0 <= i < num_layers ==> UNetMidBlock3D::block_loaded(
                #[trigger] self.res_blocks@[i],
                i as nat,
                in_channels,
                use_pixel_norm,
                timestep_conditioning,
                groups,
                eps,
                mode,
                vb,
            )
    }

    /// Whether a checkpoint holds blocks of these sizes.
    pub open spec fn present(
        in_channels: nat,
        num_layers: nat,
        use_pixel_norm: bool,
        timestep_conditioning: bool,
        groups: nat,
        vb: WeightsView,
    ) -> bool {
        &&& timestep_conditioning ==> PixArtAlphaCombinedTimestepSizeEmbeddings::present(
            vb.pp("time_embedder"@),
            None,
            in_channels * 4,
        )
        &&& forall|i: nat|
            i < num_layers ==> ResnetBlock3D::present(
                in_channels,
                in_channels,
                use_pixel_norm,
                timestep_conditioning,
                groups,
                #[trigger] vb.pp("res_blocks"@).at(i),
            )
    }

    pub fn new(
        in_channels: usize,
        num_layers: usize,
        use_pixel_norm: bool,
        timestep_conditioning: bool,
        groups: usize,
        eps: Scalar,
        spatial_padding_mode: SpatialPaddingMode,
        vb: &Weights,
    ) -> (r: Result<UNetMidBlock3D, Failure>)
        ensures
            r matches Ok(b) ==> b.loaded(
                in_channels as nat,
                num_layers as nat,
                use_pixel_norm,
                timestep_conditioning,
                groups as nat,
                eps,
                spatial_padding_mode,
                vb@,
            ),
            r is Ok ==> UNetMidBlock3D::present(
                in_channels as nat,
                num_layers as nat,
                use_pixel_norm,
                timestep_conditioning,
                groups as nat,
                vb@,
            ),
            vb@.sound() && UNetMidBlock3D::present(
                in_channels as nat,
                num_layers as nat,
                use_pixel_norm,
                timestep_conditioning,
                groups as nat,
                vb@,
            ) ==> r is Ok,
    {
        let time_embedder = if timestep_conditioning {
            proof {
                let first = vb@.pp("time_embedder"@).pp("timestep_embedder"@).pp("linear_1"@);
                let dims: Seq<nat> = seq![in_channels as nat * 4, 256];
                if vb@.sound() && first.holds("weight"@, dims) {
                    weights::lemma_axis_counts(first, "weight"@, dims, 0);
                }
            }
            let width: usize = match in_channels.checked_mul(4) {
                Some(w) => w,
                None => {
                    return Err(Failure::Overflow);
                },
            };
            Some(PixArtAlphaCombinedTimestepSizeEmbeddings::new(width, &vb.pp("time_embedder"))?)
        } else {
            None
        };
        let mut res_blocks: Vec<ResnetBlock3D> = Vec::new();
        let blocks_vb = vb.pp("res_blocks");
        let mut i: usize = 0;
        while i < num_layers
            invariant
                i <= num_layers,
                blocks_vb@ == vb@.pp("res_blocks"@),
                res_blocks@.len() == i,
                forall|k: int|
                    0 <= k < i ==> UNetMidBlock3D::block_loaded(
                        #[trigger] res_blocks@[k],
                        k as nat,
                        in_channels as nat,
                        use_pixel_norm,
                        timestep_conditioning,
                        groups as nat,
                        eps,
                        spatial_padding_mode,
                        vb@,
                    ),
                forall|k: nat|
                    k < i ==> ResnetBlock3D::present(
                        in_channels as nat,
                        in_channels as nat,
                        use_pixel_norm,
                        timestep_conditioning,
                        groups as nat,
                        #[trigger] vb@.pp("res_blocks"@).at(k),
                    ),
            decreases num_layers - i,
        {
            let b = ResnetBlock3D::new(
                in_channels,
                in_channels,
                use_pixel_norm,
                timestep_conditioning,
                groups,
                eps,
                spatial_padding_mode,
                &blocks_vb.at(i),
            )?;
            res_blocks.push(b);
            i = i + 1;
        }
        Ok(UNetMidBlock3D { res_blocks, time_embedder })
    }

    /// The embedding that the blocks get.
    pub open spec fn embedding(&self, x: TensorView, timestep: Option<TensorView>) -> Option<TensorView> {
        if self.time_embedder is Some && timestep is Some {
            Some(time_embedding_of(self.time_embedder->0, timestep->0, x.dims[0]))
        } else {
            None
        }
    }

    /// `x` after the first `n` blocks.
    pub open spec fn after_blocks(
        &self,
        x: TensorView,
        causal: bool,
        embedding: Option<TensorView>,
        n: nat,
    ) -> TensorView
        decreases n,
    {
        if n == 0 {
            x
        } else {
            self.res_blocks@[n - 1].apply(
                self.after_blocks(x, causal, embedding, (n - 1) as nat),
                causal,
                embedding,
            )
        }
    }

    /// What the blocks compute from `x`.
    pub open spec fn apply(&self, x: TensorView, causal: bool, timestep: Option<TensorView>) -> TensorView {
        self.after_blocks(x, causal, self.embedding(x, timestep), self.res_blocks@.len())
    }

    /// Whether the blocks can be computed from an array of this shape, which they keep, in main
    /// memory and in single precision.
    pub open spec fn accepts_shape(&self, d: Seq<nat>, causal: bool) -> bool {
        forall|i: int|
            0 <= i < self.res_blocks@.len() ==> (#[trigger] self.res_blocks@[i]).accepts_shape(d, causal)
                && self.res_blocks@[i].dims_out(d, causal) == d
    }

    /// Whether a raw timestep for each sample can be embedded and handed to the blocks, where it is
    /// asked for.
    pub open spec fn accepts_time(&self, d: Seq<nat>, causal: bool, timestep: Option<&Array>) -> bool {
        (self.time_embedder is Some && timestep is Some) ==> exists|hidden: nat, n_out: nat| #[trigger]
            embeds_time(&self.time_embedder->0, timestep->0, d[0], hidden, n_out) && self.blocks_accept(d, causal, n_out)
    }

    /// Whether all blocks can use an embedded timestep of this width.
    pub open spec fn blocks_accept(&self, d: Seq<nat>, causal: bool, width: nat) -> bool {
        d.len() > 0 && forall|i: int, ts: Array|
            0 <= i < self.res_blocks@.len() && ts.on_cpu() && ts@.dtype == Dtype::F32 && ts@.dims == seq![
                d[0],
                width,
                1,
                1,
                1,
            ] && model::fits(ts@.dims) ==> #[trigger] self.res_blocks@[i].accepts_time(d, causal, Some(&ts))
    }

    /// `timestep` is a raw timestep for each sample.
    pub fn forward(&self, x: &Array, causal: bool, timestep: Option<&Array>) -> (r: Result<Array, Failure>)
        ensures
            r matches Ok(t) ==> t@ == self.apply(x@, causal, array::opt_ref_view(timestep)),
            self.accepts_time(x@.dims, causal, timestep) && x.on_cpu() && x@.dtype == Dtype::F32 && self.accepts_shape(
                x@.dims,
                causal,
            ) ==> (r matches Ok(t) && t.on_cpu() && t@.dtype == Dtype::F32 && t@.dims == x@.dims),
    {
        let ghost fine = self.accepts_time(x@.dims, causal, timestep) && x.on_cpu() && x@.dtype == Dtype::F32
            && self.accepts_shape(x@.dims, causal);
        let ghost asked = self.time_embedder is Some && timestep is Some;
        let ghost sizes = choose|s: (nat, nat)| #[trigger]
            embeds_time(&self.time_embedder->0, timestep->0, x@.dims[0], s.0, s.1) && self.blocks_accept(
                x@.dims,
                causal,
                s.1,
            );
        proof {
            if fine && asked {
                let (hidden, n_out): (nat, nat) = choose|hidden: nat, n_out: nat| #[trigger]
                    embeds_time(&self.time_embedder->0, timestep->0, x@.dims[0], hidden, n_out) && self.blocks_accept(
                        x@.dims,
                        causal,
                        n_out,
                    );
                let s = (hidden, n_out);
                assert(embeds_time(&self.time_embedder->0, timestep->0, x@.dims[0], s.0, s.1));
            }
        }
        let embedding = match (&self.time_embedder, timestep) {
            (Some(embedder), Some(ts)) => {
                let batch_size: usize = x.dim(0)?;
                Some(time_embedding(embedder, ts, batch_size)?)
            },
            _ => None,
        };
        let mut h = x.clone();
        let mut i: usize = 0;
        while i < self.res_blocks.len()
            invariant
                i <= self.res_blocks.len(),
                h@ == self.after_blocks(x@, causal, array::opt_view(embedding), i as nat),
                fine == (self.accepts_time(x@.dims, causal, timestep) && x.on_cpu() && x@.dtype == Dtype::F32
                    && self.accepts_shape(x@.dims, causal)),
                embedding is Some ==> asked,
                fine && asked ==> self.blocks_accept(x@.dims, causal, sizes.1),
                fine ==> (embedding matches Some(e) ==> e.on_cpu() && e@.dtype == Dtype::F32 && e@.dims == seq![
                    x@.dims[0],
                    sizes.1,
                    1,
                    1,
                    1,
                ] && model::fits(e@.dims)),
                fine ==> h.on_cpu() && h@.dtype == Dtype::F32 && h@.dims == x@.dims,
            decreases self.res_blocks.len() - i,
        {
            proof {
                if fine {
                    assert(self.res_blocks@[i as int].accepts_shape(x@.dims, causal));
                    if embedding is Some {
                        assert(self.res_blocks@[i as int].accepts_time(x@.dims, causal, Some(&embedding->0)));
                    }
                }
            }
            h = self.res_blocks[i].forward(&h, causal, embedding.as_ref())?;
            i = i + 1;
        }
        Ok(h)
    }
}

} // verus!
