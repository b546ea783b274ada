//! Moving channels into time and space.
use vstd::prelude::*;

use crate::array::{self, Array};
use crate::base::patchify::product3;
use crate::error::Failure;
use crate::lemmas;
use crate::model::{self, Dtype, TensorView};
use crate::nn::conv3d::{CausalConv3d, Conv3d, SpatialPaddingMode};
use crate::weights::{self, Weights, WeightsView};

verus! {

/// A convolution whose channels are then moved into time, height and width. Where time
/// doubles, the first frame is dropped: it is the padding in front of the video.
pub struct DepthToSpaceUpsample {
    pub conv: CausalConv3d,
    pub stride: (usize, usize, usize),
}

impl DepthToSpaceUpsample {
    /// Whether this is the block that a checkpoint holds.
    pub open spec fn loaded(
        &self,
        stride: (usize, usize, usize),
        mode: SpatialPaddingMode,
        vb: WeightsView,
    ) -> bool {
        &&& self.conv.loaded(vb.pp("conv"@), 3, (1, 1, 1), 1, true, mode)
        &&& self.stride == stride
    }

    /// Whether a checkpoint holds a block of these sizes.
    pub open spec fn present(
        in_channels: nat,
        stride: (usize, usize, usize),
        factor: nat,
        vb: WeightsView,
    ) -> bool {
        &&& factor > 0
        &&& Conv3d::present(
            vb.pp("conv"@).pp("conv"@),
            in_channels,
            ((stride.0 * stride.1 * stride.2) as nat * in_channels) / factor,
            3,
            1,
            true,
        )
    }

    pub fn new(
        in_channels: usize,
        stride: (usize, usize, usize),
        out_channels_reduction_factor: usize,
        spatial_padding_mode: SpatialPaddingMode,
        vb: &Weights,
    ) -> (r: Result<DepthToSpaceUpsample, Failure>)
        ensures
            r matches Ok(b) ==> b.loaded(stride, spatial_padding_mode, vb@),
            r is Ok ==> DepthToSpaceUpsample::present(
                in_channels as nat,
                stride,
                out_channels_reduction_factor as nat,
                vb@,
            ),
            vb@.sound() && DepthToSpaceUpsample::present(
                in_channels as nat,
                stride,
                out_channels_reduction_factor as nat,
                vb@,
            ) && stride.0 <= 2 && stride.1 <= 2 && stride.2 <= 2 ==> r is Ok,
    {
        proof {
            let conv = vb@.pp("conv"@).pp("conv"@);
            let block = (stride.0 * stride.1 * stride.2) as nat;
            if vb@.sound() && stride.0 <= 2 && stride.1 <= 2 && stride.2 <= 2 && out_channels_reduction_factor > 0 {
                let out = (block * in_channels as nat) / out_channels_reduction_factor as nat;
                let dims: Seq<nat> = seq![out, in_channels as nat, 3, 3, 3];
                if conv.holds("weight"@, dims) {
                    weights::lemma_axis_counts(conv, "weight"@, dims, 1);
                }
                let (a, b, c) = (stride.0 as int, stride.1 as int, stride.2 as int);
                let n = in_channels as int;
                assert(a * b <= 4 && a * b * c <= 8 && a * b * c * n <= 8 * n) by (nonlinear_arith)
                    requires
                        0 <= a <= 2,
                        0 <= b <= 2,
                        0 <= c <= 2,
                        n >= 0,
                ;
            }
        }
        if out_channels_reduction_factor == 0 {
            return Err(Failure::Shape);
        }
        let block: usize = product3(stride.0, stride.1, stride.2)?;
        let out_channels: usize = match block.checked_mul(in_channels) {
            Some(n) => n / out_channels_reduction_factor,
            None => {
                return Err(Failure::Overflow);
            },
        };
        let conv = CausalConv3d::new_with_padding_mode(
            in_channels,
            out_channels,
            3,
            (1, 1, 1),
            1,
            true,
            spatial_padding_mode,
            &vb.pp("conv"),
        )?;
        Ok(DepthToSpaceUpsample { conv, stride })
    }

    /// What the block computes from `x`.
    pub open spec fn apply(&self, x: TensorView, causal: bool) -> TensorView {
        let y = depth_to_space_of(
            self.conv.apply(x, causal),
            self.stride.0 as nat,
            self.stride.1 as nat,
            self.stride.2 as nat,
        );
        if self.stride.0 == 2 {
            model::narrow(y, 2, 1, (y.dims[2] - 1) as nat)
        } else {
            y
        }
    }

    /// The shape of what the block computes.
    pub open spec fn dims_out(&self, d: Seq<nat>, causal: bool) -> Seq<nat> {
        let c = self.conv.dims_out(d, causal);
        let (p1, p2, p3) = (self.stride.0 as nat, self.stride.1 as nat, self.stride.2 as nat);
        seq![
            c[0],
            c[1] / (p1 * p2 * p3),
            if p1 == 2 { (c[2] * p1 - 1) as nat } else { c[2] * p1 },
            c[3] * p2,
            c[4] * p3,
        ]
    }

    /// Whether the block can be computed from an array of this shape, in main memory and in
    /// single precision.
    pub open spec fn accepts_shape(&self, d: Seq<nat>, causal: bool) -> bool {
        let c = self.conv.dims_out(d, causal);
        let block = (self.stride.0 * self.stride.1 * self.stride.2) as nat;
        &&& self.conv.accepts_shape(d, causal)
        &&& block > 0 && c[1] % block == 0
        &&& model::numel(c) > 0 && model::fits(c)
    }

    pub fn forward(&self, x: &Array, causal: bool) -> (r: Result<Array, Failure>)
        ensures
            r matches Ok(t) ==> t@ == self.apply(x@, causal),
            x.on_cpu() && x@.dtype == Dtype::F32 && self.accepts_shape(x@.dims, causal) ==> (r matches Ok(t) && t.on_cpu()
                && t@.dtype == Dtype::F32 && t@.dims == self.dims_out(x@.dims, causal)),
    {
        let ghost fine = x.on_cpu() && x@.dtype == Dtype::F32 && self.accepts_shape(x@.dims, causal);
        let ghost d1 = self.conv.dims_out(x@.dims, causal);
        let ghost old_dims = x@.dims;
        let x = self.conv.forward(x, causal)?;
        let x = depth_to_space_3d(&x, self.stride)?;
        proof {
            lemmas::lemma_narrow_dims(x@, 2, 1, (x@.dims[2] - 1) as nat);
            if fine {
                lemmas::lemma_axis_positive(d1, 2);
            }
        }
        if self.stride.0 == 2 {
            let d: usize = x.dim(2)?;
            if d == 0 {
                return Err(Failure::Shape);
            }
            proof {
                if fine {
                    assert(x@.dims.update(2, (d - 1) as nat) =~= self.dims_out(old_dims, causal));
                }
            }
            x.narrow(2, 1, d - 1)
        } else {
            assert(fine ==> x@.dims =~= self.dims_out(old_dims, causal));
            Ok(x)
        }
    }
}

/// The axes of channels split three ways in the order of the enlarged video.
pub open spec fn space_order() -> Seq<int> {
    seq![0, 1, 5, 2, 6, 3, 7, 4]
}

/// `b (c p1 p2 p3) d h w -> b c (d p1) (h p2) (w p3)`.
pub open spec fn depth_to_space_of(x: TensorView, p1: nat, p2: nat, p3: nat) -> TensorView {
    let (b, d, h, w) = (x.dims[0], x.dims[2], x.dims[3], x.dims[4]);
    let c = x.dims[1] / (p1 * p2 * p3);
    let grid = model::reshape(x, seq![b, c, p1, p2, p3, d, h, w]);
    model::reshape(model::permute(grid, space_order()), seq![b, c, d * p1, h * p2, w * p3])
}

/// `b (c p1 p2 p3) d h w -> b c (d p1) (h p2) (w p3)`.
pub fn depth_to_space_3d(x: &Array, stride: (usize, usize, usize)) -> (r: Result<Array, Failure>)
    ensures
        r matches Ok(t) ==> t@ == depth_to_space_of(
            x@,
            stride.0 as nat,
            stride.1 as nat,
            stride.2 as nat,
        ),
        r is Ok ==> x@.rank() == 5 && stride.0 * stride.1 * stride.2 > 0,
        x@.rank() != 5 ==> r == Err::<Array, Failure>(
            Failure::Rank { expected: 5, got: x@.rank() as usize },
        ),
        r matches Err(e) ==> e.basic(),
        r matches Ok(t) ==> t.on_cpu() == x.on_cpu(),
        r matches Ok(t) ==> t@.dtype == x@.dtype,
        x.usable() && x@.rank() == 5 && stride.0 * stride.1 * stride.2 > 0 && x@.dims[1] % (stride.0 * stride.1
            * stride.2) as nat == 0 && model::numel(x@.dims) > 0 && model::fits(x@.dims) ==> r is Ok,
{
    let (b, c_total, d, h, w) = x.dims5()?;
    let (p1, p2, p3) = stride;
    let ghost fine = p1 * p2 * p3 > 0 && c_total as nat % (p1 * p2 * p3) as nat == 0 && model::numel(x@.dims) > 0
        && model::fits(x@.dims);
    proof {
        assert(x@.dims =~= seq![b as nat, c_total as nat, d as nat, h as nat, w as nat]);
        if fine {
            lemma_spread_counts(
                b as nat,
                c_total as nat,
                p1 as nat,
                p2 as nat,
                p3 as nat,
                d as nat,
                h as nat,
                w as nat,
            );
        }
    }
    let block: usize = product3(p1, p2, p3)?;
    if block == 0 {
        return Err(Failure::Shape);
    }
    let c: usize = c_total / block;
    let dims: Vec<usize> = vec![b, c, p1, p2, p3, d, h, w];
    assert(model::nats(dims@) =~= seq![
        b as nat,
        c as nat,
        p1 as nat,
        p2 as nat,
        p3 as nat,
        d as nat,
        h as nat,
        w as nat,
    ]);
    let x = x.reshape(&dims)?;
    let order: Vec<usize> = vec![0, 1, 5, 2, 6, 3, 7, 4];
    assert(array::axes(order@) =~= space_order());
    proof {
        lemmas::lemma_permute_dims(x@, space_order());
    }
    let x = x.permute(&order)?;
    assert(x@.dims =~= seq![
        b as nat,
        c as nat,
        d as nat,
        p1 as nat,
        h as nat,
        p2 as nat,
        w as nat,
        p3 as nat,
    ]);
    match (d.checked_mul(p1), h.checked_mul(p2), w.checked_mul(p3)) {
        (Some(d), Some(h), Some(w)) => x.contiguous()?.reshape5(b, c, d, h, w),
        _ => Err(Failure::Overflow),
    }
}

/// Moving channels into space keeps the number of elements.
proof fn lemma_spread_counts(b: nat, total: nat, p1: nat, p2: nat, p3: nat, d: nat, h: nat, w: nat)
    requires
        p1 * p2 * p3 > 0,
        total % (p1 * p2 * p3) == 0,
        model::numel(seq![b, total, d, h, w]) > 0,
        model::fits(seq![b, total, d, h, w]),
    ensures
        ({
            let c = total / (p1 * p2 * p3);
            let n = model::numel(seq![b, total, d, h, w]);
            &&& model::numel(seq![b, c, p1, p2, p3, d, h, w]) == n
            &&& model::numel(seq![b, c, d, p1, h, p2, w, p3]) == n
            &&& model::numel(seq![b, c, d * p1, h * p2, w * p3]) == n
            &&& model::fits(seq![b, c, p1, p2, p3, d, h, w])
            &&& model::fits(seq![b, c, d * p1, h * p2, w * p3])
        }),
        p1 * p2 <= usize::MAX && p1 * p2 * p3 <= usize::MAX,
        d * p1 <= usize::MAX && h * p2 <= usize::MAX && w * p3 <= usize::MAX,
{
    let block = p1 * p2 * p3;
    let c = total / block;
    let packed: Seq<nat> = seq![b, total, d, h, w];
    vstd::arithmetic::div_mod::lemma_fundamental_div_mod(total as int, block as int);
    assert(total == block * c);
    lemmas::lemma_numel5(b, total, d, h, w);
    lemmas::lemma_numel7(b, c, p1, p2, p3, d, h);
    lemmas::lemma_numel_push(seq![b, c, p1, p2, p3, d, h], w);
    assert(seq![b, c, p1, p2, p3, d, h].push(w) =~= seq![b, c, p1, p2, p3, d, h, w]);
    lemmas::lemma_numel7(b, c, d, p1, h, p2, w);
    lemmas::lemma_numel_push(seq![b, c, d, p1, h, p2, w], p3);
    assert(seq![b, c, d, p1, h, p2, w].push(p3) =~= seq![b, c, d, p1, h, p2, w, p3]);
    lemmas::lemma_numel5(b, c, d * p1, h * p2, w * p3);
    assert(b * (p1 * p2 * p3 * c) == b * c * p1 * p2 * p3) by (nonlinear_arith);
    let a = b * c;
    let m1 = a * d * p1;
    let m2 = m1 * h * p2;
    assert(m1 == a * (d * p1) && a * p1 * d == m1 && a * p1 * p2 * p3 * d == a * p1 * d * p2 * p3)
        by (nonlinear_arith)
        requires
            m1 == a * d * p1,
    ;
    assert(m2 == m1 * (h * p2) && m1 * p2 * p3 * h == m2 * p3) by (nonlinear_arith)
        requires
            m2 == m1 * h * p2,
    ;
    assert(m2 * w * p3 == m2 * (w * p3) && m2 * p3 * w == m2 * w * p3) by (nonlinear_arith);
    let (dp, hp, wp) = (d * p1, h * p2, w * p3);
    lemmas::lemma_factors(b * c * dp, hp, wp);
    lemmas::lemma_factors(b * c, dp, 1);
    lemmas::lemma_factors(b * total * d, h, w);
    lemmas::lemma_factors(b, total, d);
    lemmas::lemma_factors(block, c, 1);
    lemmas::lemma_factors(p1, p2, p3);
    lemmas::lemma_extent_is_numel(packed);
    lemmas::lemma_room(seq![b, c, p1, p2, p3, d, h, w], packed);
    lemmas::lemma_room(seq![b, c, dp, hp, wp], packed);
}

/// Moving channels into space puts the element of channel `((c p1 + i) p2 + j) p3 + k` at
/// `(d, h, w)` into channel `c` at `(d p1 + i, h p2 + j, w p3 + k)`.
pub proof fn law_depth_to_space(
    x: TensorView,
    p: (nat, nat, nat),
    b: int,
    c: int,
    i: int,
    j: int,
    k: int,
    d: int,
    h: int,
    w: int,
)
    requires
        x.wf(),
        x.rank() == 5,
        p.0 > 0 && p.1 > 0 && p.2 > 0,
        x.dims[1] % (p.0 * p.1 * p.2) == 0,
        0 <= b < x.dims[0],
        0 <= c < x.dims[1] / (p.0 * p.1 * p.2),
        0 <= i < p.0,
        0 <= j < p.1,
        0 <= k < p.2,
        0 <= d < x.dims[2],
        0 <= h < x.dims[3],
        0 <= w < x.dims[4],
    ensures
        depth_to_space_of(x, p.0, p.1, p.2).at(
            seq![b, c, d * p.0 + i, h * p.1 + j, w * p.2 + k],
        ) == x.at(seq![b, ((c * p.0 + i) * p.1 + j) * p.2 + k, d, h, w]),
{
    let (p1, p2, p3) = p;
    let block = p1 * p2 * p3;
    let (nb, nd, nh, nw) = (x.dims[0], x.dims[2], x.dims[3], x.dims[4]);
    let n = x.dims[1] / block;
    assert(block > 0) by (nonlinear_arith)
        requires
            block == p1 * p2 * p3,
            p1 > 0,
            p2 > 0,
            p3 > 0,
    ;
    assert(x.dims[1] == n * p1 * p2 * p3) by {
        vstd::arithmetic::div_mod::lemma_fundamental_div_mod(x.dims[1] as int, block as int);
        assert(block * n == n * p1 * p2 * p3) by (nonlinear_arith)
            requires
                block == p1 * p2 * p3,
        ;
    }
    let grid_dims: Seq<nat> = seq![nb, n, p1, p2, p3, nd, nh, nw];
    let grid = model::reshape(x, grid_dims);
    assert(grid.wf()) by {
        lemmas::lemma_numel5(nb, x.dims[1], nd, nh, nw);
        assert(x.dims =~= seq![nb, x.dims[1], nd, nh, nw]);
        lemmas::lemma_numel7(nb, n, p1, p2, p3, nd, nh);
        lemmas::lemma_numel_push(seq![nb, n, p1, p2, p3, nd, nh], nw);
        assert(seq![nb, n, p1, p2, p3, nd, nh].push(nw) =~= grid_dims);
        assert(nb * (n * p1 * p2 * p3) == nb * n * p1 * p2 * p3) by (nonlinear_arith);
    }
    let idx = seq![b, c, i, j, k, d, h, w];
    let moved = model::permute(grid, space_order());
    lemmas::lemma_permute_at(grid, space_order(), idx);
    let moved_dims: Seq<nat> = seq![nb, n, nd, p1, nh, p2, nw, p3];
    assert(moved.dims =~= moved_dims);
    let o = seq![b, c, d, i, h, j, w, k];
    assert(Seq::new(8, |q: int| idx[space_order()[q]]) =~= o);
    assert(grid.at(idx) == x.at(seq![b, ((c * p1 + i) * p2 + j) * p3 + k, d, h, w])) by {
        lemmas::lemma_ravel8(grid_dims, idx);
        lemmas::lemma_ravel5(x.dims, seq![b, ((c * p1 + i) * p2 + j) * p3 + k, d, h, w]);
        lemmas::lemma_merge_axes(b, n as int, c, p1 as int, i);
        lemmas::lemma_merge_axes(b, (n * p1) as int, c * p1 + i, p2 as int, j);
        lemmas::lemma_merge_axes(b, (n * p1 * p2) as int, (c * p1 + i) * p2 + j, p3 as int, k);
    }
    assert(model::ravel(moved_dims, o) == model::ravel(
        seq![nb, n, nd * p1, nh * p2, nw * p3],
        seq![b, c, d * p1 + i, h * p2 + j, w * p3 + k],
    )) by {
        lemmas::lemma_ravel8(moved_dims, o);
        lemmas::lemma_ravel5(
            seq![nb, n, nd * p1, nh * p2, nw * p3],
            seq![b, c, d * p1 + i, h * p2 + j, w * p3 + k],
        );
        let r0 = b * n + c;
        lemmas::lemma_merge_axes(r0, nd as int, d, p1 as int, i);
        let r1 = (r0 * nd + d) * p1 + i;
        lemmas::lemma_merge_axes(r1, nh as int, h, p2 as int, j);
        let r2 = (r1 * nh + h) * p2 + j;
        lemmas::lemma_merge_axes(r2, nw as int, w, p3 as int, k);
    }
}

} // verus!
