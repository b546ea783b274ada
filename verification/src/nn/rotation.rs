//! How pairs of numbers are rotated.
use vstd::prelude::*;

use crate::base::ops;
use crate::lemmas;
use crate::model::{self, BinOp, TensorView};
use crate::nn::rope::{interleaved_of, law_turned_pairs, split_halves_of, turned};
use crate::reals::{self, Functions};
use crate::text_encoder::gemma3::split_rope_of;

verus! {

/// Whether `(p, q)` is `(a, b)` turned by the angle with this cosine and sine.
pub open spec fn turned_pair(a: real, b: real, c: real, s: real, p: real, q: real) -> bool {
    p == a * c - b * s && q == b * c + a * s
}

/// Number `k` of the first half of a row and number `k` of the second are turned as a pair.
pub proof fn law_split_halves(x: TensorView, cos: TensorView, sin: TensorView, idx: Seq<int>, k: int, f: Functions)
    requires
        x.wf() && x.rank() > 0,
        x.dims.last() % 2 == 0,
        cos.wf() && sin.wf() && cos.dims == sin.dims,
        lemmas::spreads(cos.dims, x.dims.drop_last().push(x.dims.last() / 2)),
        model::in_bounds(x.dims.drop_last(), idx),
        0 <= k < x.dims.last() / 2,
    ensures
        ({
            let half = x.dims.last() / 2;
            let at = lemmas::repeated(cos.dims, x.dims.drop_last().push(half), idx.push(k));
            let out = split_halves_of(x, cos, sin);
            turned_pair(
                reals::value(x.at(idx.push(k)), f),
                reals::value(x.at(idx.push(half + k)), f),
                reals::value(cos.at(at), f),
                reals::value(sin.at(at), f),
                reals::value(out.at(idx.push(k)), f),
                reals::value(out.at(idx.push(half + k)), f),
            )
        }),
{
    broadcast use reals::group_reading;
    let n = x.rank() - 1;
    let half = x.dims.last() / 2;
    let front = x.dims.drop_last();
    let d = front.push(half);
    let p = idx.push(k);
    assert(x.dims.update(n, half) =~= d);
    assert forall|j: int| 0 <= j < d.len() implies 0 <= #[trigger] p[j] < d[j] by {
        if j < n {
            assert(p[j] == idx[j] && d[j] == front[j]);
        }
    }
    let (a, b) = (model::narrow(x, n, 0, half), model::narrow(x, n, half, half));
    lemmas::lemma_narrow_dims(x, n, 0, half);
    lemmas::lemma_narrow_dims(x, n, half, half);
    lemmas::lemma_narrow_at(x, n, 0, half, p);
    lemmas::lemma_narrow_at(x, n, half, half, p);
    assert(p.update(n, p[n] + 0) =~= idx.push(k));
    assert(p.update(n, p[n] + half) =~= idx.push(half + k));
    assert(a.wf() && b.wf()) by {
        reveal(model::narrow);
    }
    lemmas::lemma_spread_common(cos.dims, d);
    lemmas::lemma_ravel(d, p);
    reals::lemma_binary_at(BinOp::Times, a, cos, p, f);
    reals::lemma_binary_at(BinOp::Times, b, sin, p, f);
    reals::lemma_binary_at(BinOp::Times, a, sin, p, f);
    reals::lemma_binary_at(BinOp::Times, b, cos, p, f);
    assert(lemmas::repeated(d, d, p) =~= p);
    let (ac, bs) = (model::binary(BinOp::Times, a, cos), model::binary(BinOp::Times, b, sin));
    let (as_, bc) = (model::binary(BinOp::Times, a, sin), model::binary(BinOp::Times, b, cos));
    let first = model::binary(BinOp::Minus, ac, bs);
    let second = model::binary(BinOp::Plus, as_, bc);
    let parts = seq![first, second];
    assert(parts.drop_last() =~= seq![first]);
    reveal_with_fuel(model::cat, 3);
    assert(model::cat(parts, n) == model::cat2(first, second, n));
    assert(d.drop_last() =~= front);
    lemmas::lemma_cat2_at(first, second, front, idx, k);
    lemmas::lemma_cat2_at(first, second, front, idx, half + k);
}

/// Numbers `2 k` and `2 k + 1` of a row are turned as a pair, where both have the same cosine and
/// sine.
pub proof fn law_interleaved(x: TensorView, cos: TensorView, sin: TensorView, idx: Seq<int>, k: int, f: Functions)
    requires
        x.wf() && x.rank() > 0,
        x.dims.last() % 2 == 0,
        cos.wf() && sin.wf() && cos.dims == x.dims && sin.dims == x.dims,
        model::in_bounds(x.dims.drop_last(), idx),
        0 <= 2 * k < x.dims.last(),
        reals::value(cos.at(idx.push(2 * k)), f) == reals::value(cos.at(idx.push(2 * k + 1)), f),
        reals::value(sin.at(idx.push(2 * k)), f) == reals::value(sin.at(idx.push(2 * k + 1)), f),
    ensures
        ({
            let (p, q) = (idx.push(2 * k), idx.push(2 * k + 1));
            turned_pair(
                reals::value(x.at(p), f),
                reals::value(x.at(q), f),
                reals::value(cos.at(p), f),
                reals::value(sin.at(p), f),
                reals::value(interleaved_of(x, cos, sin).at(p), f),
                reals::value(interleaved_of(x, cos, sin).at(q), f),
            )
        }),
{
    broadcast use reals::group_reading;
    law_turned_pairs(x, idx, k);
    let (p, q) = (idx.push(2 * k), idx.push(2 * k + 1));
    let (d, front) = (x.dims, x.dims.drop_last());
    assert forall|j: int| 0 <= j < d.len() implies 0 <= #[trigger] p[j] < d[j] by {
        if j < d.len() - 1 {
            assert(p[j] == idx[j] && d[j] == front[j]);
        }
    }
    assert forall|j: int| 0 <= j < d.len() implies 0 <= #[trigger] q[j] < d[j] by {
        if j < d.len() - 1 {
            assert(q[j] == idx[j] && d[j] == front[j]);
        }
    }
    lemmas::lemma_ravel(d, p);
    lemmas::lemma_ravel(d, q);
    assert(lemmas::repeated(d, d, p) =~= p && lemmas::repeated(d, d, q) =~= q);
    let t = turned(x);
    let (l, r) = (model::binary(BinOp::Times, x, cos), model::binary(BinOp::Times, t, sin));
    reals::lemma_binary_at(BinOp::Times, x, cos, p, f);
    reals::lemma_binary_at(BinOp::Times, x, cos, q, f);
    reals::lemma_binary_at(BinOp::Times, t, sin, p, f);
    reals::lemma_binary_at(BinOp::Times, t, sin, q, f);
    reals::lemma_binary_at(BinOp::Plus, l, r, p, f);
    reals::lemma_binary_at(BinOp::Plus, l, r, q, f);
    let (a, b) = (reals::value(x.at(p), f), reals::value(x.at(q), f));
    let (c, s) = (reals::value(cos.at(p), f), reals::value(sin.at(p), f));
    assert(reals::value(t.at(p), f) == -b);
    assert((-b) * s == -(b * s)) by (nonlinear_arith);
    assert(reals::value(interleaved_of(x, cos, sin).at(p), f) == a * c - b * s);
    assert(reals::value(interleaved_of(x, cos, sin).at(q), f) == b * c + a * s);
}

/// Number `k` of the first half of a head of the text model and number `k` of the second are turned as
/// a pair.
pub proof fn law_text_head(x: TensorView, cos: TensorView, sin: TensorView, idx: Seq<int>, k: int, f: Functions)
    requires
        x.wf() && x.rank() == 4 && x.dtype.float(),
        x.dims[3] % 2 == 0,
        cos.wf() && sin.wf() && cos.dims == sin.dims,
        lemmas::spreads(cos.dims, x.dims.drop_last().push(x.dims[3] / 2)),
        model::in_bounds(x.dims.drop_last(), idx),
        0 <= k < x.dims[3] / 2,
    ensures
        ({
            let half = x.dims[3] / 2;
            let at = lemmas::repeated(cos.dims, x.dims.drop_last().push(half), idx.push(k));
            let out = split_rope_of(x, cos, sin);
            turned_pair(
                reals::value(x.at(idx.push(k)), f),
                reals::value(x.at(idx.push(half + k)), f),
                reals::value(cos.at(at), f),
                reals::value(sin.at(at), f),
                reals::value(out.at(idx.push(k)), f),
                reals::value(out.at(idx.push(half + k)), f),
            )
        }),
{
    broadcast use reals::group_reading;
    let half = x.dims[3] / 2;
    let front = x.dims.drop_last();
    let d = front.push(half);
    let p = idx.push(k);
    assert(x.dims.update(3, half) =~= d);
    assert forall|j: int| 0 <= j < d.len() implies 0 <= #[trigger] p[j] < d[j] by {
        if j < 3 {
            assert(p[j] == idx[j] && d[j] == front[j]);
        }
    }
    let (c, s) = (model::cast(cos, x.dtype), model::cast(sin, x.dtype));
    let (a, b) = (model::narrow(x, 3, 0, half), model::narrow(x, 3, half, half));
    lemmas::lemma_narrow_dims(x, 3, 0, half);
    lemmas::lemma_narrow_dims(x, 3, half, half);
    lemmas::lemma_narrow_at(x, 3, 0, half, p);
    lemmas::lemma_narrow_at(x, 3, half, half, p);
    assert(p.update(3, p[3] + 0) =~= idx.push(k));
    assert(p.update(3, p[3] + half) =~= idx.push(half + k));
    assert(a.wf() && b.wf()) by {
        reveal(model::narrow);
    }
    lemmas::lemma_spread_common(cos.dims, d);
    ops::lemma_repeated_place(cos.dims, d, p);
    lemmas::lemma_ravel(d, p);
    reals::lemma_binary_at(BinOp::Times, a, c, p, f);
    reals::lemma_binary_at(BinOp::Times, b, s, p, f);
    reals::lemma_binary_at(BinOp::Times, a, s, p, f);
    reals::lemma_binary_at(BinOp::Times, b, c, p, f);
    assert(lemmas::repeated(d, d, p) =~= p);
    let first = model::binary(BinOp::Minus, model::binary(BinOp::Times, a, c), model::binary(BinOp::Times, b, s));
    let second = model::binary(BinOp::Plus, model::binary(BinOp::Times, b, c), model::binary(BinOp::Times, a, s));
    let parts = seq![first, second];
    assert(parts.drop_last() =~= seq![first]);
    reveal_with_fuel(model::cat, 3);
    assert(model::cat(parts, 3) == model::cat2(first, second, 3));
    assert(d.drop_last() =~= front);
    lemmas::lemma_cat2_at(first, second, front, idx, k);
    lemmas::lemma_cat2_at(first, second, front, idx, half + k);
}

} // verus!
