//! Doubling the height and width of video latents.
use vstd::prelude::*;

use crate::array::{self, Array};
use crate::base::patchify::product3;
use crate::error::Failure;
use crate::lemmas;
use crate::model::{self, BinOp, Dtype, TensorView};
use crate::nn::activation::{self, silu};
use crate::nn::conv3d::{Conv3d, SpatialPaddingMode};
use crate::nn::group_norm::GroupNorm;
use crate::scalar::Scalar;
use crate::weights::{self, Weights, WeightsView};

verus! {

/// 1e-5
pub const UPSAMPLER_EPS: Scalar = 0x3EE4_F8B5_88E3_68F1;

/// Whether this is the convolution with a kernel of three in each direction and zeros
/// around the video that a checkpoint holds.
pub open spec fn conv_loaded(c: Conv3d, vb: WeightsView) -> bool {
    &&& c.loaded(vb, true)
    &&& c.stride == (1usize, 1usize, 1usize)
    &&& c.padding == (1usize, 1usize, 1usize)
    &&& c.groups == 1
    &&& c.spatial_padding_mode == SpatialPaddingMode::Zeros
}

/// Loads a convolution with a kernel of three in each direction.
fn load_conv(in_channels: usize, out_channels: usize, vb: &Weights) -> (r: Result<Conv3d, Failure>)
    ensures
        r matches Ok(c) ==> conv_loaded(c, vb@),
        r is Ok ==> Conv3d::present(vb@, in_channels as nat, out_channels as nat, 3, 1, true),
        vb@.sound() && Conv3d::present(vb@, in_channels as nat, out_channels as nat, 3, 1, true) ==> r is Ok,
{
    Conv3d::new(in_channels, out_channels, 3, (1, 1, 1), (1, 1, 1), 1, true, vb)
}

/// Two normalised convolutions added to their input.
pub struct UpsamplerResBlock {
    pub conv1: Conv3d,
    pub norm1: GroupNorm,
    pub conv2: Conv3d,
    pub norm2: GroupNorm,
}

impl UpsamplerResBlock {
    /// Whether this is the block that a checkpoint holds.
    pub open spec fn loaded(&self, channels: nat, vb: WeightsView) -> bool {
        &&& conv_loaded(self.conv1, vb.pp("conv1"@))
        &&& self.norm1.loaded(vb.pp("norm1"@), 32, channels, UPSAMPLER_EPS)
        &&& conv_loaded(self.conv2, vb.pp("conv2"@))
        &&& self.norm2.loaded(vb.pp("norm2"@), 32, channels, UPSAMPLER_EPS)
    }

    /// Whether a checkpoint holds a block of this size.
    pub open spec fn present(channels: nat, vb: WeightsView) -> bool {
        &&& Conv3d::present(vb.pp("conv1"@), channels, channels, 3, 1, true)
        &&& GroupNorm::present(vb.pp("norm1"@), 32, channels)
        &&& Conv3d::present(vb.pp("conv2"@), channels, channels, 3, 1, true)
        &&& GroupNorm::present(vb.pp("norm2"@), 32, channels)
    }

    pub fn new(channels: usize, vb: &Weights) -> (r: Result<UpsamplerResBlock, Failure>)
        ensures
            r matches Ok(b) ==> b.loaded(channels as nat, vb@),
            r is Ok ==> UpsamplerResBlock::present(channels as nat, vb@),
            vb@.sound() && UpsamplerResBlock::present(channels as nat, vb@) ==> r is Ok,
    {
        let conv1 = load_conv(channels, channels, &vb.pp("conv1"))?;
        let norm1 = GroupNorm::new(32, channels, UPSAMPLER_EPS, &vb.pp("norm1"))?;
        let conv2 = load_conv(channels, channels, &vb.pp("conv2"))?;
        let norm2 = GroupNorm::new(32, channels, UPSAMPLER_EPS, &vb.pp("norm2"))?;
        Ok(UpsamplerResBlock { conv1, norm1, conv2, norm2 })
    }

    /// What the block computes from `x`.
    #[verifier::opaque]
    pub open spec fn apply(&self, x: TensorView) -> TensorView {
        let h = activation::silu_of(self.norm1.apply(self.conv1.apply(x)));
        let h = self.norm2.apply(self.conv2.apply(h));
        activation::silu_of(model::binary(BinOp::Plus, h, x))
    }

    /// Whether the block can be computed from an array of this shape, in main memory and in single
    /// precision, and keeps the shape.
    pub open spec fn keeps_shape(&self, d: Seq<nat>) -> bool {
        let h = self.conv1.dims_out(d);
        &&& self.conv1.accepts_shape(d) && self.norm1.normalises_shape(h)
        &&& self.conv2.accepts_shape(h) && self.conv2.dims_out(h) == d && self.norm2.normalises_shape(d)
    }

    pub fn forward(&self, x: &Array) -> (r: Result<Array, Failure>)
        ensures
            r matches Ok(t) ==> t@ == self.apply(x@),
            x.on_cpu() && x@.dtype == Dtype::F32 && self.keeps_shape(x@.dims) ==> (r matches Ok(t) && t.on_cpu()
                && t@.dtype == Dtype::F32 && t@.dims == x@.dims),
    {
        proof {
            reveal(UpsamplerResBlock::apply);
        }
        let h = self.conv1.forward(x)?;
        let h = self.norm1.forward(&h)?;
        let h = silu(&h)?;
        let h = self.conv2.forward(&h)?;
        let h = self.norm2.forward(&h)?;
        silu(&h.pairwise(BinOp::Plus, x)?)
    }
}

/// A convolution over height and width whose channels are then moved into height and
/// width.
pub struct SpatialX2 {
    pub weight: Array,
    pub bias: Array,
    pub channels: usize,
}

impl SpatialX2 {
    /// Whether this is the layer that a checkpoint holds.
    pub open spec fn loaded(&self, channels: nat, vb: WeightsView) -> bool {
        &&& self.weight@ == vb.get("weight"@)
        &&& self.bias@ == vb.get("bias"@)
        &&& self.channels == channels
    }

    /// Whether a checkpoint holds a layer of this size.
    pub open spec fn present(channels: nat, vb: WeightsView) -> bool {
        &&& vb.holds("weight"@, seq![4 * channels, channels, 3, 3])
        &&& vb.holds("bias"@, seq![4 * channels])
    }

    pub fn new(channels: usize, vb: &Weights) -> (r: Result<SpatialX2, Failure>)
        ensures
            r matches Ok(l) ==> l.loaded(channels as nat, vb@),
            r is Ok ==> SpatialX2::present(channels as nat, vb@),
            vb@.sound() && SpatialX2::present(channels as nat, vb@) ==> r is Ok,
    {
        proof {
            let dims: Seq<nat> = seq![4 * channels as nat, channels as nat, 3, 3];
            if vb@.sound() && vb@.holds("weight"@, dims) {
                weights::lemma_axis_counts(vb@, "weight"@, dims, 0);
            }
        }
        let out_channels: usize = match channels.checked_mul(4) {
            Some(n) => n,
            None => {
                return Err(Failure::Overflow);
            },
        };
        let weight = vb.get4(out_channels, channels, 3, 3, "weight")?;
        let bias = vb.get1(out_channels, "bias")?;
        Ok(SpatialX2 { weight, bias, channels })
    }

    /// What the layer computes from `x`.
    #[verifier::opaque]
    pub open spec fn apply(&self, x: TensorView) -> TensorView {
        let (b, c, f, h, w) = (x.dims[0], x.dims[1], x.dims[2], x.dims[3], x.dims[4]);
        let images = model::reshape(model::transpose(x, 1, 2), seq![b * f, c, h, w]);
        let wide = model::conv2d(images, self.weight@, Some(self.bias@), 1, 1, 1, 1);
        let large = pixel_shuffle_of(wide, self.channels as nat, 2);
        model::transpose(
            model::reshape(large, seq![b, f, self.channels as nat, large.dims[2], large.dims[3]]),
            1,
            2,
        )
    }

    /// The shape of the images of a video of this shape behind the convolution.
    pub open spec fn wide_dims(&self, d: Seq<nat>) -> Seq<nat> {
        let k = self.weight@.dims;
        seq![
            d[0] * d[2],
            k[0],
            model::windows(d[3], k[2], 1, 1, 1),
            model::windows(d[4], k[3], 1, 1, 1),
        ]
    }

    /// The shape of what the layer computes from a video of this shape.
    pub open spec fn dims_out(&self, d: Seq<nat>) -> Seq<nat> {
        let wide = self.wide_dims(d);
        seq![d[0], self.channels as nat, d[2], wide[2] * 2, wide[3] * 2]
    }

    /// Whether the layer can be computed from a video of this shape, in main memory and in single
    /// precision.
    pub open spec fn accepts_shape(&self, d: Seq<nat>) -> bool {
        let k = self.weight@.dims;
        &&& d.len() == 5 && model::numel(d) > 0
        &&& self.weight.on_cpu() && self.weight@.dtype == Dtype::F32 && k.len() == 4 && model::numel(k) > 0
        &&& self.bias.on_cpu() && self.bias@.dtype == Dtype::F32 && self.bias@.dims == seq![k[0]]
        &&& k[1] == d[1] && k[0] == self.channels * 2 * 2
        &&& model::has_window(d[3], k[2], 1, 1, 1) && model::has_window(d[4], k[3], 1, 1, 1)
        &&& d[3] + 2 <= usize::MAX && d[4] + 2 <= usize::MAX
        &&& model::fits(self.wide_dims(d))
    }

    pub fn forward(&self, x: &Array) -> (r: Result<Array, Failure>)
        ensures
            r matches Ok(t) ==> t@ == self.apply(x@),
            r is Ok ==> x@.rank() == 5,
            x.on_cpu() && x@.dtype == Dtype::F32 && self.accepts_shape(x@.dims) ==> (r matches Ok(t) && t.on_cpu()
                && t@.dtype == Dtype::F32 && t@.dims == self.dims_out(x@.dims)),
    {
        proof {
            reveal(SpatialX2::apply);
            reveal(model::conv2d);
        }
        let ghost fine = x.on_cpu() && x@.dtype == Dtype::F32 && self.accepts_shape(x@.dims);
        let (b, c, f, h, w) = x.dims5()?;
        let ghost wide = self.wide_dims(x@.dims);
        proof {
            lemmas::lemma_permute_dims(x@, model::swapped(5, 1, 2));
            assert(model::transpose(x@, 1, 2).dims =~= seq![b as nat, f as nat, c as nat, h as nat, w as nat]);
            lemma_images(b as nat, c as nat, f as nat, h as nat, w as nat);
            if fine {
                self.lemma_wide(x@.dims);
            }
        }
        let count: usize = match b.checked_mul(f) {
            Some(n) => n,
            None => {
                return Err(Failure::Overflow);
            },
        };
        let x_2d = x.transpose(1, 2)?.contiguous()?.reshape4(count, c, h, w)?;
        let bias = Some(self.bias.clone());
        let x_2d = x_2d.conv2d(&self.weight, &bias, 1, 1, 1, 1)?;
        let x_2d = pixel_shuffle_2d(&x_2d, self.channels, 2)?;
        let (_n, _c, h2, w2) = x_2d.dims4()?;
        proof {
            if fine {
                assert(x_2d@.dims =~= seq![wide[0], self.channels as nat, wide[2] * 2, wide[3] * 2]);
            }
        }
        let large = x_2d.reshape5(b, f, self.channels, h2, w2)?;
        proof {
            lemmas::lemma_permute_dims(large@, model::swapped(5, 1, 2));
            if fine {
                assert(model::transpose(large@, 1, 2).dims =~= self.dims_out(x@.dims));
            }
        }
        large.transpose(1, 2)?.contiguous()
    }

    /// What is computed on the way has no empty axis and can be addressed.
    proof fn lemma_wide(&self, d: Seq<nat>)
        requires
            self.accepts_shape(d),
            model::fits(d),
        ensures
            ({
                let (wide, c) = (self.wide_dims(d), self.channels as nat);
                let (h, w) = (wide[2] * 2, wide[3] * 2);
                &&& 0 < d[0] * d[2] <= usize::MAX
                &&& model::numel(wide) > 0
                &&& model::fits(seq![d[0] * d[2], d[1], d[3], d[4]])
                &&& model::numel(seq![d[0], d[2], c, h, w]) == model::numel(seq![wide[0], c, h, w])
                &&& model::fits(seq![d[0], d[2], c, h, w])
            }),
    {
        let (b, ch, f, h, w) = (d[0], d[1], d[2], d[3], d[4]);
        let k = self.weight@.dims;
        let wide = self.wide_dims(d);
        let c = self.channels as nat;
        assert(d =~= seq![b, ch, f, h, w]);
        lemma_images(b, ch, f, h, w);
        lemmas::lemma_extent_is_numel(d);
        lemmas::lemma_axis_positive(d, 0);
        lemmas::lemma_axis_positive(d, 2);
        lemmas::lemma_axis_positive(k, 0);
        lemmas::lemma_numel4(b * f, ch, h, w);
        lemmas::lemma_factors(b * f * ch, h, w);
        lemmas::lemma_factors(b * f, ch, 1);
        assert(b * f > 0) by (nonlinear_arith)
            requires
                b > 0,
                f > 0,
        ;
        lemmas::lemma_numel4(wide[0], wide[1], wide[2], wide[3]);
        let area = wide[0] * wide[1];
        assert(area > 0) by (nonlinear_arith)
            requires
                area == wide[0] * wide[1],
                wide[0] > 0,
                wide[1] > 0,
        ;
        assert(area * wide[2] * wide[3] > 0) by (nonlinear_arith)
            requires
                area > 0,
                wide[2] > 0,
                wide[3] > 0,
        ;
        lemmas::lemma_factors(area, wide[2], wide[3]);
        lemmas::lemma_extent_is_numel(wide);
        lemma_shuffled_counts(wide[0], c, 2, wide[2], wide[3]);
        lemma_images(b, c, f, wide[2] * 2, wide[3] * 2);
        lemmas::lemma_room(seq![b * f, ch, h, w], d);
        lemmas::lemma_room(seq![b, f, c, wide[2] * 2, wide[3] * 2], wide);
    }
}

/// The frames of a video hold as many numbers as the video.
proof fn lemma_images(b: nat, c: nat, f: nat, h: nat, w: nat)
    ensures
        model::numel(seq![b * f, c, h, w]) == model::numel(seq![b, c, f, h, w]),
        model::numel(seq![b, f, c, h, w]) == model::numel(seq![b, c, f, h, w]),
{
    lemmas::lemma_numel4(b * f, c, h, w);
    lemmas::lemma_numel5(b, c, f, h, w);
    lemmas::lemma_numel5(b, f, c, h, w);
    assert(b * c * f == b * f * c) by (nonlinear_arith);
}

/// The axes of channels split two ways in the order of the enlarged images.
pub open spec fn shuffle_order() -> Seq<int> {
    seq![0, 1, 4, 2, 5, 3]
}

/// `b (c p q) h w -> b c (h p) (w q)`.
pub open spec fn pixel_shuffle_of(x: TensorView, channels: nat, scale: nat) -> TensorView {
    let (b, h, w) = (x.dims[0], x.dims[2], x.dims[3]);
    let grid = model::reshape(x, seq![b, channels, scale, scale, h, w]);
    model::reshape(
        model::permute(grid, shuffle_order()),
        seq![b, channels, h * scale, w * scale],
    )
}

/// `b (c p q) h w -> b c (h p) (w q)`.
pub fn pixel_shuffle_2d(x: &Array, out_channels: usize, scale: usize) -> (r: Result<Array, Failure>)
    ensures
        r matches Ok(t) ==> t@ == pixel_shuffle_of(x@, out_channels as nat, scale as nat),
        r matches Ok(t) ==> t.on_cpu() == x.on_cpu() && t@.dtype == x@.dtype,
        r is Ok ==> x@.rank() == 4 && x@.dims[1] == out_channels * scale * scale,
        x@.rank() == 4 && out_channels * scale * scale <= usize::MAX && out_channels * scale <= usize::MAX
            && x@.dims[1] != out_channels * scale * scale ==> r == Err::<Array, Failure>(
            Failure::PixelShuffle {
                expected: (out_channels * scale * scale) as usize,
                got: x@.dims[1] as usize,
            },
        ),
        x@.rank() != 4 ==> r == Err::<Array, Failure>(
            Failure::Rank { expected: 4, got: x@.rank() as usize },
        ),
        x.usable() && x@.rank() == 4 && x@.dims[1] == out_channels * scale * scale && model::numel(x@.dims) > 0
            && model::fits(x@.dims) ==> r is Ok,
{
    let (b, c_total, h, w) = x.dims4()?;
    let ghost fine = c_total == out_channels * scale * scale && model::numel(x@.dims) > 0 && model::fits(x@.dims);
    proof {
        assert(x@.dims =~= seq![b as nat, c_total as nat, h as nat, w as nat]);
        if fine {
            lemma_shuffled_counts(b as nat, out_channels as nat, scale as nat, h as nat, w as nat);
        }
    }
    let expected: usize = product3(out_channels, scale, scale)?;
    if c_total != expected {
        return Err(Failure::PixelShuffle { expected, got: c_total });
    }
    let dims: Vec<usize> = vec![b, out_channels, scale, scale, h, w];
    assert(model::nats(dims@) =~= seq![
        b as nat,
        out_channels as nat,
        scale as nat,
        scale as nat,
        h as nat,
        w as nat,
    ]);
    let order: Vec<usize> = vec![0, 1, 4, 2, 5, 3];
    assert(array::axes(order@) =~= shuffle_order());
    let x = x.reshape(&dims)?;
    proof {
        lemmas::lemma_permute_dims(x@, shuffle_order());
    }
    let x = x.permute(&order)?.contiguous()?;
    assert(x@.dims =~= seq![b as nat, out_channels as nat, h as nat, scale as nat, w as nat, scale as nat]);
    match (h.checked_mul(scale), w.checked_mul(scale)) {
        (Some(h), Some(w)) => x.reshape4(b, out_channels, h, w),
        _ => Err(Failure::Overflow),
    }
}

/// Shuffling keeps the number of elements.
proof fn lemma_shuffled_counts(b: nat, c: nat, s: nat, h: nat, w: nat)
    requires
        model::numel(seq![b, c * s * s, h, w]) > 0,
        model::fits(seq![b, c * s * s, h, w]),
    ensures
        model::numel(seq![b, c, s, s, h, w]) == model::numel(seq![b, c * s * s, h, w]),
        model::numel(seq![b, c, h, s, w, s]) == model::numel(seq![b, c * s * s, h, w]),
        model::numel(seq![b, c, h * s, w * s]) == model::numel(seq![b, c * s * s, h, w]),
        model::fits(seq![b, c, s, s, h, w]),
        model::fits(seq![b, c, h * s, w * s]),
        c * s <= usize::MAX && c * s * s <= usize::MAX && h * s <= usize::MAX && w * s <= usize::MAX,
{
    let packed: Seq<nat> = seq![b, c * s * s, h, w];
    let n = model::numel(packed);
    lemmas::lemma_numel4(b, c * s * s, h, w);
    lemmas::lemma_numel5(b, c, s, s, h);
    lemmas::lemma_numel_push(seq![b, c, s, s, h], w);
    assert(seq![b, c, s, s, h].push(w) =~= seq![b, c, s, s, h, w]);
    lemmas::lemma_numel5(b, c, h, s, w);
    lemmas::lemma_numel_push(seq![b, c, h, s, w], s);
    assert(seq![b, c, h, s, w].push(s) =~= seq![b, c, h, s, w, s]);
    lemmas::lemma_numel4(b, c, h * s, w * s);
    let (cs, hs, ws) = (c * s, h * s, w * s);
    assert(b * (c * s * s) * h * w == b * c * s * s * h * w) by (nonlinear_arith);
    assert(b * c * h * s * w * s == b * (c * s * s) * h * w) by (nonlinear_arith);
    assert(b * c * (h * s) * (w * s) == b * (c * s * s) * h * w) by (nonlinear_arith);
    assert(b * cs * (s * h * w) == b * (c * s * s) * h * w) by (nonlinear_arith)
        requires
            cs == c * s,
    ;
    lemmas::lemma_factors(b, cs, s * h * w);
    lemmas::lemma_factors(b * (c * s * s), h, w);
    lemmas::lemma_factors(b, c * s * s, 1);
    lemmas::lemma_factors(b * c, hs, ws);
    lemmas::lemma_extent_is_numel(packed);
    lemmas::lemma_room(seq![b, c, s, s, h, w], packed);
    lemmas::lemma_room(seq![b, c, hs, ws], packed);
}

/// Shuffling puts the element of channel `(c s + i) s + j` at `(h, w)` into channel `c` at
/// `(h s + i, w s + j)`.
pub proof fn law_pixel_shuffle(
    x: TensorView,
    channels: nat,
    s: nat,
    b: int,
    c: int,
    i: int,
    j: int,
    h: int,
    w: int,
)
    requires
        x.wf(),
        x.rank() == 4,
        x.dims[1] == channels * s * s,
        0 <= b < x.dims[0],
        0 <= c < channels,
        0 <= i < s,
        0 <= j < s,
        0 <= h < x.dims[2],
        0 <= w < x.dims[3],
    ensures
        pixel_shuffle_of(x, channels, s).at(seq![b, c, h * s + i, w * s + j]) == x.at(
            seq![b, (c * s + i) * s + j, h, w],
        ),
{
    let (nb, nh, nw) = (x.dims[0], x.dims[2], x.dims[3]);
    let grid_dims: Seq<nat> = seq![nb, channels, s, s, nh, nw];
    let grid = model::reshape(x, grid_dims);
    assert(grid.wf()) by {
        lemmas::lemma_numel4(nb, x.dims[1], nh, nw);
        assert(x.dims =~= seq![nb, x.dims[1], nh, nw]);
        lemmas::lemma_numel5(nb, channels, s, s, nh);
        lemmas::lemma_numel_push(seq![nb, channels, s, s, nh], nw);
        assert(seq![nb, channels, s, s, nh].push(nw) =~= grid_dims);
        assert(nb * (channels * s * s) == nb * channels * s * s) by (nonlinear_arith);
    }
    let idx = seq![b, c, i, j, h, w];
    let moved = model::permute(grid, shuffle_order());
    lemmas::lemma_permute_at(grid, shuffle_order(), idx);
    let moved_dims: Seq<nat> = seq![nb, channels, nh, s, nw, s];
    assert(moved.dims =~= moved_dims);
    let o = seq![b, c, h, i, w, j];
    assert(Seq::new(6, |q: int| idx[shuffle_order()[q]]) =~= o);
    assert(grid.at(idx) == x.at(seq![b, (c * s + i) * s + j, h, w])) by {
        lemmas::lemma_ravel6(grid_dims, idx);
        lemmas::lemma_ravel4(x.dims, seq![b, (c * s + i) * s + j, h, w]);
        lemmas::lemma_merge_axes(b, channels as int, c, s as int, i);
        lemmas::lemma_merge_axes(b, (channels * s) as int, c * s + i, s as int, j);
    }
    assert(model::ravel(moved_dims, o) == model::ravel(
        seq![nb, channels, nh * s, nw * s],
        seq![b, c, h * s + i, w * s + j],
    )) by {
        lemmas::lemma_ravel6(moved_dims, o);
        lemmas::lemma_ravel4(
            seq![nb, channels, nh * s, nw * s],
            seq![b, c, h * s + i, w * s + j],
        );
        let r0 = b * channels + c;
        lemmas::lemma_merge_axes(r0, nh as int, h, s as int, i);
        let r1 = (r0 * nh + h) * s + i;
        lemmas::lemma_merge_axes(r1, nw as int, w, s as int, j);
    }
}

/// Doubles the height and width of video latents.
pub struct LatentUpsampler {
    pub initial_conv: Conv3d,
    pub initial_norm: GroupNorm,
    pub res_blocks: Vec<UpsamplerResBlock>,
    pub upsampler: SpatialX2,
    pub post_upsample_res_blocks: Vec<UpsamplerResBlock>,
    pub final_conv: Conv3d,
}

/// Whether these are the blocks that a checkpoint holds.
pub open spec fn blocks_loaded(blocks: Seq<UpsamplerResBlock>, channels: nat, count: nat, vb: WeightsView) -> bool {
    &&& blocks.len() == count
    &&& forall|i: int| 0 <= i < count ==> (#[trigger] blocks[i]).loaded(channels, vb.at(i as nat))
}

/// Whether a checkpoint holds blocks of this size.
pub open spec fn blocks_present(channels: nat, count: nat, vb: WeightsView) -> bool {
    forall|i: nat| i < count ==> UpsamplerResBlock::present(channels, #[trigger] vb.at(i))
}

/// Loads blocks.
fn load_blocks(channels: usize, count: usize, vb: &Weights) -> (r: Result<Vec<UpsamplerResBlock>, Failure>)
    ensures
        r matches Ok(v) ==> blocks_loaded(v@, channels as nat, count as nat, vb@),
        r is Ok ==> blocks_present(channels as nat, count as nat, vb@),
        vb@.sound() && blocks_present(channels as nat, count as nat, vb@) ==> r is Ok,
{
    let mut blocks: Vec<UpsamplerResBlock> = Vec::new();
    let mut idx: usize = 0;
    while idx < count
        invariant
            idx <= count,
            blocks_loaded(blocks@, channels as nat, idx as nat, vb@),
            blocks_present(channels as nat, idx as nat, vb@),
        decreases count - idx,
    {
        blocks.push(UpsamplerResBlock::new(channels, &vb.at(idx))?);
        idx = idx + 1;
    }
    Ok(blocks)
}

/// `x` after the first `n` blocks.
pub open spec fn after_blocks(blocks: Seq<UpsamplerResBlock>, x: TensorView, n: nat) -> TensorView
    decreases n,
{
    if n == 0 {
        x
    } else {
        blocks[n - 1].apply(after_blocks(blocks, x, (n - 1) as nat))
    }
}

/// Whether blocks can be computed from an array of this shape, in main memory and in single
/// precision, and keep the shape.
pub open spec fn blocks_keep(blocks: Seq<UpsamplerResBlock>, d: Seq<nat>) -> bool {
    forall|i: int| 0 <= i < blocks.len() ==> (#[trigger] blocks[i]).keeps_shape(d)
}

/// Runs blocks one after another.
fn run_blocks(blocks: &Vec<UpsamplerResBlock>, x: &Array) -> (r: Result<Array, Failure>)
    ensures
        r matches Ok(t) ==> t@ == after_blocks(blocks@, x@, blocks@.len()),
        x.on_cpu() && x@.dtype == Dtype::F32 && blocks_keep(blocks@, x@.dims) ==> (r matches Ok(t) && t.on_cpu()
            && t@.dtype == Dtype::F32 && t@.dims == x@.dims),
{
    let ghost fine = x.on_cpu() && x@.dtype == Dtype::F32 && blocks_keep(blocks@, x@.dims);
    let mut h = x.clone();
    let mut i: usize = 0;
    while i < blocks.len()
        invariant
            i <= blocks.len(),
            h@ == after_blocks(blocks@, x@, i as nat),
            fine == (x.on_cpu() && x@.dtype == Dtype::F32 && blocks_keep(blocks@, x@.dims)),
            fine ==> h.on_cpu() && h@.dtype == Dtype::F32 && h@.dims == x@.dims,
        decreases blocks.len() - i,
    {
        assert(fine ==> blocks@[i as int].keeps_shape(x@.dims));
        h = blocks[i].forward(&h)?;
        i = i + 1;
    }
    Ok(h)
}

impl LatentUpsampler {
    /// Whether this is the upsampler that a checkpoint holds.
    pub open spec fn loaded(&self, mid_channels: nat, blocks: nat, vb: WeightsView) -> bool {
        &&& conv_loaded(self.initial_conv, vb.pp("initial_conv"@))
        &&& self.initial_norm.loaded(vb.pp("initial_norm"@), 32, mid_channels, UPSAMPLER_EPS)
        &&& blocks_loaded(self.res_blocks@, mid_channels, blocks, vb.pp("res_blocks"@))
        &&& self.upsampler.loaded(mid_channels, vb.pp("upsampler"@).at(0))
        &&& blocks_loaded(
            self.post_upsample_res_blocks@,
            mid_channels,
            blocks,
            vb.pp("post_upsample_res_blocks"@),
        )
        &&& conv_loaded(self.final_conv, vb.pp("final_conv"@))
    }

    /// Whether a checkpoint holds an upsampler of these sizes.
    pub open spec fn present(in_channels: nat, mid_channels: nat, blocks: nat, vb: WeightsView) -> bool {
        &&& Conv3d::present(vb.pp("initial_conv"@), in_channels, mid_channels, 3, 1, true)
        &&& GroupNorm::present(vb.pp("initial_norm"@), 32, mid_channels)
        &&& blocks_present(mid_channels, blocks, vb.pp("res_blocks"@))
        &&& SpatialX2::present(mid_channels, vb.pp("upsampler"@).at(0))
        &&& blocks_present(mid_channels, blocks, vb.pp("post_upsample_res_blocks"@))
        &&& Conv3d::present(vb.pp("final_conv"@), mid_channels, in_channels, 3, 1, true)
    }

    pub fn new_x2(in_channels: usize, mid_channels: usize, blocks: usize, vb: &Weights) -> (r: Result<
        LatentUpsampler,
        Failure,
    >)
        ensures
            r matches Ok(u) ==> u.loaded(mid_channels as nat, blocks as nat, vb@),
            r is Ok ==> LatentUpsampler::present(
                in_channels as nat,
                mid_channels as nat,
                blocks as nat,
                vb@,
            ),
            vb@.sound() && LatentUpsampler::present(
                in_channels as nat,
                mid_channels as nat,
                blocks as nat,
                vb@,
            ) ==> r is Ok,
    {
        let initial_conv = load_conv(in_channels, mid_channels, &vb.pp("initial_conv"))?;
        let initial_norm = GroupNorm::new(32, mid_channels, UPSAMPLER_EPS, &vb.pp("initial_norm"))?;
        let res_blocks = load_blocks(mid_channels, blocks, &vb.pp("res_blocks"))?;
        let upsampler = SpatialX2::new(mid_channels, &vb.pp("upsampler").at(0))?;
        let post_upsample_res_blocks = load_blocks(
            mid_channels,
            blocks,
            &vb.pp("post_upsample_res_blocks"),
        )?;
        let final_conv = load_conv(mid_channels, in_channels, &vb.pp("final_conv"))?;
        Ok(
            LatentUpsampler {
                initial_conv,
                initial_norm,
                res_blocks,
                upsampler,
                post_upsample_res_blocks,
                final_conv,
            },
        )
    }

    /// What the upsampler computes from `latent`.
    pub open spec fn apply(&self, latent: TensorView) -> TensorView {
        let x = activation::silu_of(self.initial_norm.apply(self.initial_conv.apply(latent)));
        let x = after_blocks(self.res_blocks@, x, self.res_blocks@.len());
        let x = self.upsampler.apply(x);
        let x = after_blocks(
            self.post_upsample_res_blocks@,
            x,
            self.post_upsample_res_blocks@.len(),
        );
        self.final_conv.apply(x)
    }

    /// The shape of what the upsampler makes of latents of this shape.
    pub open spec fn dims_out(&self, d: Seq<nat>) -> Seq<nat> {
        self.final_conv.dims_out(self.upsampler.dims_out(self.initial_conv.dims_out(d)))
    }

    /// Whether the upsampler can be computed from latents of this shape, in main memory and in
    /// single precision.
    pub open spec fn accepts_shape(&self, d: Seq<nat>) -> bool {
        let x = self.initial_conv.dims_out(d);
        let large = self.upsampler.dims_out(x);
        &&& self.initial_conv.accepts_shape(d) && self.initial_norm.normalises_shape(x)
        &&& blocks_keep(self.res_blocks@, x) && self.upsampler.accepts_shape(x)
        &&& blocks_keep(self.post_upsample_res_blocks@, large) && self.final_conv.accepts_shape(large)
    }

    pub fn forward(&self, latent: &Array) -> (r: Result<Array, Failure>)
        ensures
            r matches Ok(t) ==> t@ == self.apply(latent@),
            r is Ok ==> latent@.rank() == 5,
            latent.on_cpu() && latent@.dtype == Dtype::F32 && self.accepts_shape(latent@.dims) ==> (r matches Ok(t)
                && t.on_cpu() && t@.dtype == Dtype::F32 && t@.dims == self.dims_out(latent@.dims)),
    {
        let x = self.initial_conv.forward(latent)?;
        let x = self.initial_norm.forward(&x)?;
        let x = silu(&x)?;
        let x = run_blocks(&self.res_blocks, &x)?;
        let x = self.upsampler.forward(&x)?;
        let x = run_blocks(&self.post_upsample_res_blocks, &x)?;
        self.final_conv.forward(&x)
    }
}

} // verus!
