//! What normalising by the root of a mean square does to numbers.
use vstd::prelude::*;

use crate::lemmas;
use crate::model::{self, BinOp, Dtype, TensorView, UnOp};
use crate::nn::pixel_norm::PixelNorm;
use crate::reals::{self, Functions};
use crate::scalar::{Scalar, ONE};
use crate::text_encoder::gemma3::{gemma_norm_of, per_head_norm_of};

verus! {

/// The root of the mean square along an axis, with `eps` added to the mean.
pub open spec fn root_mean(x: TensorView, dim: int, eps: Scalar, idx: Seq<int>, f: Functions) -> real {
    (f.sqrt)(
        reals::sum_to(
            x.dims[dim] as int,
            |k: int|
                reals::value(x.at(idx.update(dim, k)), f) * reals::value(x.at(idx.update(dim, k)), f),
        ) / x.dims[dim] as int as real + reals::of_bits(eps),
    )
}

/// That root as a tensor.
spec fn root_of(x: TensorView, dim: int, eps: Scalar) -> TensorView {
    let wide = model::cast(x, Dtype::F32);
    let mean_sq = model::mean_keepdim(model::unary(UnOp::Sqr, wide), dim);
    model::unary(UnOp::Sqrt, model::affine(mean_sq, model::number(ONE), model::number(eps)))
}

proof fn lemma_root(x: TensorView, dim: int, eps: Scalar, idx: Seq<int>, f: Functions)
    requires
        x.wf() && x.dtype.float(),
        0 <= dim < x.rank(),
        model::in_bounds(x.dims, idx),
    ensures
        root_of(x, dim, eps).dims == x.dims.update(dim, 1),
        root_of(x, dim, eps).wf(),
        model::common_dims(x.dims, x.dims.update(dim, 1)) == x.dims,
        lemmas::repeated(x.dims, x.dims, idx) == idx,
        lemmas::repeated(x.dims.update(dim, 1), x.dims, idx) == idx.update(dim, 0),
        model::in_bounds(x.dims.update(dim, 1), idx.update(dim, 0)),
        reals::value(root_of(x, dim, eps).at(idx.update(dim, 0)), f) == root_mean(x, dim, eps, idx, f),
{
    broadcast use reals::group_reading;
    reals::lemma_constants();
    let d = x.dims;
    let wide = model::cast(x, Dtype::F32);
    let square = model::unary(UnOp::Sqr, wide);
    let mean = model::mean_keepdim(square, dim);
    let (e, p) = (d.update(dim, 1), idx.update(dim, 0));
    assert forall|k: int| 0 <= k < d.len() implies 0 <= #[trigger] p[k] < e[k] by {
        assert(0 <= idx[k] < d[k]);
    }
    assert(0 <= idx[dim] < d[dim]);
    reals::lemma_mean_at(square, dim, p, f);
    let g = |k: int| reals::value(square.at(p.update(dim, k)), f);
    let h = |k: int| reals::value(x.at(idx.update(dim, k)), f) * reals::value(x.at(idx.update(dim, k)), f);
    assert forall|k: int| 0 <= k < d[dim] implies #[trigger] g(k) == h(k) by {
        let q = idx.update(dim, k);
        assert(p.update(dim, k) =~= q);
        assert forall|j: int| 0 <= j < d.len() implies 0 <= #[trigger] q[j] < d[j] by {
            assert(0 <= idx[j] < d[j]);
        }
        lemmas::lemma_ravel(d, q);
    }
    reals::lemma_sum_ext(d[dim] as int, g, h);
    reals::lemma_sum_ext(d[dim] as int, |k: int| reals::value(square.at(p.update(dim, k)), f), g);
    reals::lemma_sum_ext(
        d[dim] as int,
        |k: int| reals::value(x.at(idx.update(dim, k)), f) * reals::value(x.at(idx.update(dim, k)), f),
        h,
    );
    lemmas::lemma_ravel(e, p);
    let padded = model::affine(mean, model::number(ONE), model::number(eps));
    let m = reals::value(mean.at(p), f);
    assert(m * 1real == m) by (nonlinear_arith);
    assert(reals::value(padded.at(p), f) == m + reals::of_bits(eps));
    lemmas::lemma_spread_common(e, d);
    assert(lemmas::repeated(d, d, idx) =~= idx);
    assert(lemmas::repeated(e, d, idx) =~= p);
}

/// A number is its normalised version times the root of the mean square along the axis.
pub proof fn law_pixel_norm(n: PixelNorm, x: TensorView, idx: Seq<int>, f: Functions)
    requires
        x.wf() && x.dtype.float(),
        n.dim < x.rank(),
        model::in_bounds(x.dims, idx),
        root_mean(x, n.dim as int, n.eps, idx, f) != 0real,
    ensures
        n.apply(x).dims == x.dims,
        reals::value(n.apply(x).at(idx), f) * root_mean(x, n.dim as int, n.eps, idx, f) == reals::value(x.at(idx), f),
{
    broadcast use reals::group_reading;
    let dim = n.dim as int;
    lemma_root(x, dim, n.eps, idx, f);
    let wide = model::cast(x, Dtype::F32);
    let root = root_of(x, dim, n.eps);
    lemmas::lemma_ravel(x.dims, idx);
    reals::lemma_binary_at(BinOp::Over, wide, root, idx, f);
    let (v, r) = (reals::value(x.at(idx), f), root_mean(x, dim, n.eps, idx, f));
    assert(v / r * r == v) by (nonlinear_arith)
        requires
            r != 0real,
    ;
}

/// A normalised number times the root of the mean square of its row is the number times one more than
/// its weight: weights of zero only normalise.
pub proof fn law_gemma_norm(x: TensorView, weight: TensorView, eps: Scalar, idx: Seq<int>, f: Functions)
    requires
        x.wf() && x.dtype.float() && x.rank() > 1,
        weight.wf() && weight.dims == seq![x.dims.last()],
        model::in_bounds(x.dims, idx),
        root_mean(x, x.rank() - 1, eps, idx, f) != 0real,
    ensures
        reals::value(gemma_norm_of(x, weight, eps).at(idx), f) * root_mean(x, x.rank() - 1, eps, idx, f)
            == reals::value(x.at(idx), f) * (1real + reals::value(weight.at(seq![idx.last()]), f)),
{
    broadcast use reals::group_reading;
    reals::lemma_constants();
    let (d, dim) = (x.dims, x.rank() - 1);
    lemma_root(x, dim, eps, idx, f);
    let wide = model::cast(x, Dtype::F32);
    let root = root_of(x, dim, eps);
    let inverse = model::unary(UnOp::Recip, root);
    let p = idx.update(dim, 0);
    lemmas::lemma_ravel(d.update(dim, 1), p);
    lemmas::lemma_ravel(d, idx);
    let normed = model::binary(BinOp::Times, wide, inverse);
    reals::lemma_binary_at(BinOp::Times, wide, inverse, idx, f);
    lemma_weighted(normed, weight, idx, f);
    let (v, r) = (reals::value(x.at(idx), f), root_mean(x, dim, eps, idx, f));
    let (s, u) = (1real / r, 1real + reals::value(weight.at(seq![idx.last()]), f));
    assert(s * r == 1real) by (nonlinear_arith)
        requires
            r != 0real,
            s == 1real / r,
    ;
    assert(((v * s) * u) * r == (v * u) * (s * r)) by (nonlinear_arith);
    let z = v * u;
    assert(z * 1real == z) by (nonlinear_arith);
}

/// The same of a state of several heads, each normalised by itself.
pub proof fn law_per_head_norm(x: TensorView, weight: TensorView, eps: Scalar, idx: Seq<int>, f: Functions)
    requires
        x.wf() && x.dtype.float() && x.rank() == 4,
        weight.wf() && weight.dims == seq![x.dims.last()],
        model::in_bounds(x.dims, idx),
        root_mean(x, 3, eps, idx, f) != 0real,
    ensures
        reals::value(per_head_norm_of(x, weight, eps).at(idx), f) * root_mean(x, 3, eps, idx, f) == reals::value(
            x.at(idx),
            f,
        ) * (1real + reals::value(weight.at(seq![idx.last()]), f)),
{
    broadcast use reals::group_reading;
    reals::lemma_constants();
    lemma_root(x, 3, eps, idx, f);
    let wide = model::cast(x, Dtype::F32);
    let root = root_of(x, 3, eps);
    lemmas::lemma_ravel(x.dims, idx);
    let normed = model::binary(BinOp::Over, wide, root);
    reals::lemma_binary_at(BinOp::Over, wide, root, idx, f);
    lemma_weighted(normed, weight, idx, f);
    let (v, r) = (reals::value(x.at(idx), f), root_mean(x, 3, eps, idx, f));
    let (s, u) = (v / r, 1real + reals::value(weight.at(seq![idx.last()]), f));
    assert(s * r == v) by (nonlinear_arith)
        requires
            r != 0real,
            s == v / r,
    ;
    assert((s * u) * r == (s * r) * u) by (nonlinear_arith);
}

proof fn lemma_weighted(normed: TensorView, weight: TensorView, idx: Seq<int>, f: Functions)
    requires
        normed.wf() && normed.rank() > 1,
        weight.wf() && weight.dims == seq![normed.dims.last()],
        model::in_bounds(normed.dims, idx),
    ensures
        ({
            let w = model::affine(model::cast(weight, Dtype::F32), model::number(ONE), model::number(ONE));
            let y = model::binary(BinOp::Times, normed, w);
            &&& y.dims == normed.dims && y.wf()
            &&& reals::value(y.at(idx), f) == reals::value(normed.at(idx), f) * (1real + reals::value(
                weight.at(seq![idx.last()]),
                f,
            ))
        }),
{
    broadcast use reals::group_reading;
    reals::lemma_constants();
    let d = normed.dims;
    let w = model::affine(model::cast(weight, Dtype::F32), model::number(ONE), model::number(ONE));
    assert forall|k: int| 0 <= k < d.len() implies #[trigger] model::common_dims(d, w.dims)[k] == d[k] by {
        assert(model::size_from_last(d, d.len() - 1 - k) == d[k]);
    }
    assert(model::common_dims(d, w.dims) =~= d);
    reals::lemma_binary_at(BinOp::Times, normed, w, idx, f);
    assert(lemmas::repeated(d, d, idx) =~= idx);
    let o = seq![idx.last()];
    assert(lemmas::repeated(w.dims, d, idx) =~= o);
    assert(0 <= idx[d.len() - 1] < d[d.len() - 1]);
    assert(model::in_bounds(w.dims, o));
    lemmas::lemma_ravel(w.dims, o);
    let a = reals::value(weight.at(o), f);
    assert(a * 1real == a) by (nonlinear_arith);
    assert(reals::value(w.at(o), f) == a + 1real);
}

} // verus!
