//! What an adapter adds to a layer.
use vstd::prelude::*;

use crate::lemmas;
use crate::model::{self, BinOp, Dtype, TensorView};
use crate::nn::lora::{adapts, merged, LoraView};
use crate::reals::{self, Functions};
use crate::scalar::ZERO;

verus! {

/// An adapter adds to a weight the product of its two factors, times its scale.
pub proof fn law_merged(weight: TensorView, lora: LoraView, i: int, j: int, f: Functions)
    requires
        adapts(Some(lora)),
        weight.wf() && weight.rank() == 2 && weight.dtype.float(),
        ({
            let (a, b) = (lora.vb.get("lora_A.weight"@), lora.vb.get("lora_B.weight"@));
            &&& a.wf() && a.rank() == 2 && a.dims == seq![a.dims[0], weight.dims[1]]
            &&& b.wf() && b.rank() == 2 && b.dims == seq![weight.dims[0], a.dims[0]]
        }),
        0 <= i < weight.dims[0] && 0 <= j < weight.dims[1],
    ensures
        ({
            let (a, b) = (lora.vb.get("lora_A.weight"@), lora.vb.get("lora_B.weight"@));
            &&& merged(weight, Some(lora)).dims == weight.dims
            &&& reals::value(merged(weight, Some(lora)).at(seq![i, j]), f) - reals::value(weight.at(seq![i, j]), f)
                == reals::sum_to(
                a.dims[0] as int,
                |k: int| reals::value(b.at(seq![i, k]), f) * reals::value(a.at(seq![k, j]), f),
            ) * reals::of_bits(lora.scale)
        }),
{
    broadcast use reals::group_reading;
    reals::lemma_constants();
    let (ra, rb) = (lora.vb.get("lora_A.weight"@), lora.vb.get("lora_B.weight"@));
    let (a, b) = (model::cast(ra, Dtype::F32), model::cast(rb, Dtype::F32));
    let d = weight.dims;
    let at = seq![i, j];
    assert(d =~= seq![d[0], d[1]]);
    let none = Seq::<int>::empty();
    assert(a.dims.drop_last().drop_last() =~= Seq::<nat>::empty());
    assert(b.dims.drop_last().drop_last() =~= Seq::<nat>::empty());
    reals::lemma_matmul_at(b, a, none, i, j, f);
    assert(none.push(i).push(j) =~= at);
    let product = model::matmul(b, a);
    assert(b.dims.drop_last().push(a.dims.last()) =~= d);
    assert(model::in_bounds(d, at));
    lemmas::lemma_ravel(d, at);
    let n = ra.dims[0] as int;
    let g = |k: int| reals::value(b.at(none.push(i).push(k)), f) * reals::value(a.at(none.push(k).push(j)), f);
    let h = |k: int| reals::value(rb.at(seq![i, k]), f) * reals::value(ra.at(seq![k, j]), f);
    assert forall|k: int| 0 <= k < n implies #[trigger] g(k) == h(k) by {
        assert(none.push(i).push(k) =~= seq![i, k]);
        assert(none.push(k).push(j) =~= seq![k, j]);
        assert(model::in_bounds(rb.dims, seq![i, k]));
        assert(model::in_bounds(ra.dims, seq![k, j]));
        lemmas::lemma_ravel(rb.dims, seq![i, k]);
        lemmas::lemma_ravel(ra.dims, seq![k, j]);
    }
    reals::lemma_sum_ext(n, g, h);
    reals::lemma_sum_ext(
        n,
        |k: int| reals::value(b.at(none.push(i).push(k)), f) * reals::value(a.at(none.push(k).push(j)), f),
        g,
    );
    reals::lemma_sum_ext(n, |k: int| reals::value(rb.at(seq![i, k]), f) * reals::value(ra.at(seq![k, j]), f), h);
    let delta = model::affine(product, model::number(lora.scale), model::number(ZERO));
    assert(reals::value(delta.at(at), f) == reals::value(product.at(at), f) * reals::of_bits(lora.scale));
    let sum = model::binary(BinOp::Plus, model::cast(weight, Dtype::F32), delta);
    assert(reals::value(sum.at(at), f) == reals::value(weight.at(at), f) + reals::value(delta.at(at), f));
}

} // verus!
