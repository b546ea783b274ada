//! What attention makes of the values that it reads.
use vstd::prelude::*;

use crate::lemmas;
use crate::model::{self, BinOp, TensorView, UnOp};
use crate::nn::attention::{sdpa_chunk_of, Attention};
use crate::reals::{self, Functions};
use crate::scalar::{TWO, ZERO};

verus! {

/// How well query `i` matches key `j`: their scalar product, scaled, plus what the mask says of the key.
pub open spec fn score(
    q: TensorView,
    k_t: TensorView,
    mask: Option<TensorView>,
    scale: TensorView,
    b: int,
    h: int,
    i: int,
    j: int,
    f: Functions,
) -> real {
    reals::sum_to(
        q.dims[3] as int,
        |c: int| reals::value(q.at(seq![b, h, i, c]), f) * reals::value(k_t.at(seq![b, h, c, j]), f),
    ) * reals::value(scale.cells[0], f) + match mask {
        Some(m) => reals::value(m.at(seq![if m.dims[0] == 1 { 0 } else { b }, 0, 0, j]), f),
        None => 0real,
    }
}

/// Whether queries, keys and values go together, with a mask that is the same for all queries.
pub open spec fn attendable(
    q: TensorView,
    k_t: TensorView,
    v: TensorView,
    mask: Option<TensorView>,
    scale: TensorView,
) -> bool {
    &&& q.wf() && k_t.wf() && v.wf() && q.dtype.float() && scale.wf() && scale.rank() == 0
    &&& q.rank() == 4 && k_t.rank() == 4 && v.rank() == 4
    &&& k_t.dims == seq![q.dims[0], q.dims[1], q.dims[3], k_t.dims[3]]
    &&& v.dims == seq![q.dims[0], q.dims[1], k_t.dims[3], v.dims[3]]
    &&& mask matches Some(m) ==> {
        &&& m.wf() && m.rank() == 4
        &&& m.dims[0] == q.dims[0] || m.dims[0] == 1
        &&& m.dims == seq![m.dims[0], 1, 1, k_t.dims[3]]
    }
}

/// The scores of the queries from `start` on.
spec fn masked_of(
    q: TensorView,
    k_t: TensorView,
    mask: Option<TensorView>,
    start: nat,
    len: nat,
    scale: TensorView,
) -> TensorView {
    let scores = model::affine(model::matmul(model::narrow(q, 2, start, len), k_t), scale, model::number(ZERO));
    match mask {
        Some(m) => model::binary(BinOp::Plus, scores, m),
        None => scores,
    }
}

proof fn lemma_masked(
    q: TensorView,
    k_t: TensorView,
    v: TensorView,
    mask: Option<TensorView>,
    start: nat,
    len: nat,
    scale: TensorView,
    b: int,
    h: int,
    i: int,
    j: int,
    f: Functions,
)
    requires
        attendable(q, k_t, v, mask, scale),
        start + len <= q.dims[2],
        0 <= b < q.dims[0] && 0 <= h < q.dims[1] && 0 <= i < len && 0 <= j < k_t.dims[3],
    ensures
        ({
            let s = masked_of(q, k_t, mask, start, len, scale);
            &&& s.wf() && s.dims == seq![q.dims[0], q.dims[1], len, k_t.dims[3]]
            &&& reals::value(s.at(seq![b, h, i, j]), f) == score(q, k_t, mask, scale, b, h, start + i, j, f)
        }),
{
    broadcast use reals::group_reading;
    reals::lemma_constants();
    let part = model::narrow(q, 2, start, len);
    lemmas::lemma_narrow_dims(q, 2, start, len);
    let d: Seq<nat> = seq![q.dims[0], q.dims[1], len, q.dims[3]];
    assert(q.dims.update(2, len) =~= d);
    assert(part.wf()) by {
        reveal(model::narrow);
    }
    let batch = seq![b, h];
    assert(d.drop_last().drop_last() =~= seq![q.dims[0], q.dims[1]]);
    assert(k_t.dims.drop_last().drop_last() =~= seq![q.dims[0], q.dims[1]]);
    reals::lemma_matmul_at(part, k_t, batch, i, j, f);
    let product = model::matmul(part, k_t);
    let all: Seq<nat> = seq![q.dims[0], q.dims[1], len, k_t.dims[3]];
    assert(d.drop_last().push(k_t.dims[3]) =~= all);
    let at = seq![b, h, i, j];
    assert(batch.push(i).push(j) =~= at);
    assert(model::in_bounds(all, at));
    lemmas::lemma_ravel(all, at);
    let g = |c: int| reals::value(part.at(batch.push(i).push(c)), f) * reals::value(k_t.at(batch.push(c).push(j)), f);
    let e = |c: int| reals::value(q.at(seq![b, h, start + i, c]), f) * reals::value(k_t.at(seq![b, h, c, j]), f);
    assert forall|c: int| 0 <= c < q.dims[3] implies #[trigger] g(c) == e(c) by {
        let o = seq![b, h, i, c];
        assert(batch.push(i).push(c) =~= o);
        assert(batch.push(c).push(j) =~= seq![b, h, c, j]);
        assert(model::in_bounds(d, o));
        lemmas::lemma_narrow_at(q, 2, start, len, o);
        assert(o.update(2, o[2] + start) =~= seq![b, h, start + i, c]);
    }
    reals::lemma_sum_ext(q.dims[3] as int, g, e);
    reals::lemma_sum_ext(
        q.dims[3] as int,
        |c: int| reals::value(part.at(batch.push(i).push(c)), f) * reals::value(k_t.at(batch.push(c).push(j)), f),
        g,
    );
    reals::lemma_sum_ext(
        q.dims[3] as int,
        |c: int| reals::value(q.at(seq![b, h, start + i, c]), f) * reals::value(k_t.at(seq![b, h, c, j]), f),
        e,
    );
    lemmas::lemma_single();
    assert(scale.dims =~= Seq::<nat>::empty());
    let scores = model::affine(product, scale, model::number(ZERO));
    assert(reals::value(scores.at(at), f) == reals::value(product.at(at), f) * reals::value(scale.cells[0], f));
    if let Some(m) = mask {
        lemmas::lemma_spread_common(m.dims, all);
        reals::lemma_binary_at(BinOp::Plus, scores, m, at, f);
        assert(lemmas::repeated(all, all, at) =~= at);
        let p = lemmas::repeated(m.dims, all, at);
        let o = seq![if m.dims[0] == 1 { 0 } else { b }, 0, 0, j];
        assert(p.len() == 4 && p[3] == j);
        assert(p =~= o);
    }
}

/// Attention gives each query a weighted mean of the values: a value weighs as much as the exponential
/// of how well its key matches the query.
pub proof fn law_weighted_mean(
    q: TensorView,
    k_t: TensorView,
    v: TensorView,
    mask: Option<TensorView>,
    start: nat,
    len: nat,
    scale: TensorView,
    b: int,
    h: int,
    i: int,
    c: int,
    f: Functions,
)
    requires
        attendable(q, k_t, v, mask, scale),
        start + len <= q.dims[2],
        0 <= b < q.dims[0] && 0 <= h < q.dims[1] && 0 <= i < len && 0 <= c < v.dims[3],
        reals::sum_to(
            k_t.dims[3] as int,
            |j: int| (f.exp)(score(q, k_t, mask, scale, b, h, start + i, j, f)),
        ) != 0real,
    ensures
        reals::sum_to(
            k_t.dims[3] as int,
            |j: int| (f.exp)(score(q, k_t, mask, scale, b, h, start + i, j, f)),
        ) * reals::value(sdpa_chunk_of(q, k_t, v, mask, start, len, scale).at(seq![b, h, i, c]), f)
            == reals::sum_to(
            k_t.dims[3] as int,
            |j: int|
                (f.exp)(score(q, k_t, mask, scale, b, h, start + i, j, f)) * reals::value(v.at(seq![b, h, j, c]), f),
        ),
{
    let keys = k_t.dims[3] as int;
    let all: Seq<nat> = seq![q.dims[0], q.dims[1], len, k_t.dims[3]];
    let masked = masked_of(q, k_t, mask, start, len, scale);
    let e = |j: int| (f.exp)(score(q, k_t, mask, scale, b, h, start + i, j, f));
    let total = reals::sum_to(keys, e);
    assert(keys > 0) by {
        if keys <= 0 {
            assert(total == 0real);
        }
    }
    lemma_masked(q, k_t, v, mask, start, len, scale, b, h, i, 0, f);
    let w = model::softmax_last_dim(masked);
    let at0 = seq![b, h, i, 0];
    assert(model::in_bounds(all, at0));
    reals::lemma_softmax_at(masked, at0, f);
    let batch = seq![b, h];
    assert(all.drop_last().drop_last() =~= seq![q.dims[0], q.dims[1]]);
    assert(v.dims.drop_last().drop_last() =~= seq![q.dims[0], q.dims[1]]);
    reals::lemma_matmul_at(w, v, batch, i, c, f);
    assert(batch.push(i).push(c) =~= seq![b, h, i, c]);
    let out = reals::value(model::matmul(w, v).at(seq![b, h, i, c]), f);
    let g = |j: int| reals::value(w.at(batch.push(i).push(j)), f) * reals::value(v.at(batch.push(j).push(c)), f);
    let wanted = |j: int|
        (f.exp)(score(q, k_t, mask, scale, b, h, start + i, j, f)) * reals::value(v.at(seq![b, h, j, c]), f);
    assert forall|j: int| 0 <= j < keys implies #[trigger] wanted(j) == total * g(j) by {
        let at = seq![b, h, i, j];
        assert(batch.push(i).push(j) =~= at);
        assert(batch.push(j).push(c) =~= seq![b, h, j, c]);
        assert(model::in_bounds(all, at));
        lemma_masked(q, k_t, v, mask, start, len, scale, b, h, i, j, f);
        reals::lemma_softmax_at(masked, at, f);
        let x = |k: int| (f.exp)(reals::value(masked.at(at.update(3, k)), f));
        assert forall|k: int| 0 <= k < keys implies #[trigger] x(k) == e(k) by {
            assert(at.update(3, k) =~= seq![b, h, i, k]);
            lemma_masked(q, k_t, v, mask, start, len, scale, b, h, i, k, f);
        }
        reals::lemma_sum_ext(keys, x, e);
        reals::lemma_sum_ext(
            keys,
            |k: int| (f.exp)(reals::value(masked.at(at.update(masked.dims.len() - 1, k)), f)),
            x,
        );
        let (weight, y) = (reals::value(w.at(at), f), reals::value(v.at(seq![b, h, j, c]), f));
        let z = (f.exp)(score(q, k_t, mask, scale, b, h, start + i, j, f));
        assert(weight == z / total);
        assert(z / total * total == z) by (nonlinear_arith)
            requires
                total != 0real,
        ;
        assert(total * (weight * y) == (weight * total) * y) by (nonlinear_arith);
    }
    reals::lemma_sum_scale(keys, g, wanted, total);
    reals::lemma_sum_ext(
        w.dims.last() as int,
        |k: int| reals::value(w.at(batch.push(i).push(k)), f) * reals::value(v.at(batch.push(k).push(c)), f),
        g,
    );
    reals::lemma_sum_ext(keys, |j: int| (f.exp)(score(q, k_t, mask, scale, b, h, start + i, j, f)), e);
    reals::lemma_sum_ext(
        keys,
        |j: int|
            (f.exp)(score(q, k_t, mask, scale, b, h, start + i, j, f)) * reals::value(v.at(seq![b, h, j, c]), f),
        wanted,
    );
}

/// A gated head gives twice the sigmoid of its logit times what it gave.
pub proof fn law_gated_head(
    a: Attention,
    x: TensorView,
    out: TensorView,
    b: int,
    t: int,
    h: int,
    c: int,
    f: Functions,
)
    requires
        a.to_gate_logits is Some,
        out.wf() && out.rank() == 3 && out.dtype.float(),
        out.dims == seq![out.dims[0], out.dims[1], a.heads as nat * a.dim_head as nat],
        ({
            let logits = a.to_gate_logits->0@.apply(x);
            logits.wf() && logits.dtype.float() && logits.dims == seq![out.dims[0], out.dims[1], a.heads as nat]
        }),
        0 <= b < out.dims[0] && 0 <= t < out.dims[1] && 0 <= h < a.heads && 0 <= c < a.dim_head,
        1real + (f.exp)(-reals::value(a.to_gate_logits->0@.apply(x).at(seq![b, t, h]), f)) != 0real,
    ensures
        reals::value(a.gated(x, out).at(seq![b, t, h * a.dim_head + c]), f) * (1real + (f.exp)(
            -reals::value(a.to_gate_logits->0@.apply(x).at(seq![b, t, h]), f),
        )) == 2real * reals::value(out.at(seq![b, t, h * a.dim_head + c]), f),
{
    broadcast use reals::group_reading;
    reals::lemma_constants();
    let (n, m) = (a.heads as nat, a.dim_head as nat);
    let (four, three): (Seq<nat>, Seq<nat>) = (
        seq![out.dims[0], out.dims[1], n, m],
        seq![out.dims[0], out.dims[1], n * m],
    );
    let (i4, i3) = (seq![b, t, h, c], seq![b, t, h * m + c]);
    assert(four.drop_last() =~= seq![out.dims[0], out.dims[1], n]);
    assert(four.drop_last().drop_last() =~= seq![out.dims[0], out.dims[1]]);
    assert(three.drop_last() =~= seq![out.dims[0], out.dims[1]]);
    assert(i4.drop_last() =~= seq![b, t, h]);
    assert(i4.drop_last().drop_last() =~= seq![b, t]);
    assert(i3.drop_last() =~= seq![b, t]);
    let r = model::ravel(seq![out.dims[0], out.dims[1]], seq![b, t]);
    assert(model::ravel(four.drop_last(), i4.drop_last()) == r * n + h);
    assert(model::ravel(four, i4) == (r * n + h) * m + c);
    assert(model::ravel(three, i3) == r * (n * m) + (h * m + c));
    assert((r * n + h) * m + c == r * (n * m) + (h * m + c)) by (nonlinear_arith);
    let z = model::numel(seq![out.dims[0], out.dims[1]]) as int;
    assert(model::numel(four.drop_last()) == z * n);
    assert(model::numel(four) == z * n * m);
    assert(model::numel(three) == z * (n * m));
    assert(z * n * m == z * (n * m)) by (nonlinear_arith);
    let heads = model::reshape(out, four);
    let logits = a.to_gate_logits->0@.apply(x);
    let open = model::unary(UnOp::Sigmoid, logits);
    let gates = model::affine(open, model::number(TWO), model::number(ZERO));
    let at = seq![b, t, h];
    assert(model::in_bounds(logits.dims, at));
    lemmas::lemma_ravel(logits.dims, at);
    let e = 1real + (f.exp)(-reals::value(logits.at(at), f));
    let s = 1real / e;
    assert(reals::value(open.at(at), f) == s);
    assert(reals::value(gates.at(at), f) == s * 2real);
    let wide = model::unsqueeze(gates, 3);
    reals::lemma_unsqueeze_at(gates, 3, at);
    assert(at.insert(3, 0) =~= seq![b, t, h, 0]);
    assert(wide.dims =~= seq![out.dims[0], out.dims[1], n, 1]);
    lemmas::lemma_spread_common(wide.dims, four);
    assert(model::in_bounds(four, i4));
    reals::lemma_binary_at(BinOp::Times, heads, wide, i4, f);
    assert(lemmas::repeated(four, four, i4) =~= i4);
    assert(lemmas::repeated(wide.dims, four, i4) =~= seq![b, t, h, 0]);
    let y = reals::value(out.at(i3), f);
    assert(s * e == 1real) by (nonlinear_arith)
        requires
            e != 0real,
            s == 1real / e,
    ;
    assert((y * (s * 2real)) * e == 2real * y * (s * e)) by (nonlinear_arith);
    assert(2real * y * 1real == 2real * y) by (nonlinear_arith);
}

} // verus!
