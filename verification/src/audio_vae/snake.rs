//! What the periodic activation adds to a sound.
use vstd::prelude::*;

use crate::audio_vae::resample::{SnakeBeta, SNAKE_EPS};
use crate::lemmas;
use crate::model::{self, BinOp, Dtype, TensorView, UnOp};
use crate::reals::{self, Functions};
use crate::scalar::ONE;

verus! {

proof fn lemma_per_channel(p: TensorView, c: int, f: Functions)
    requires
        p.wf() && p.rank() == 1,
        0 <= c < p.dims[0],
    ensures
        SnakeBeta::per_channel(p).dims == seq![1, p.dims[0], 1],
        SnakeBeta::per_channel(p).wf(),
        model::in_bounds(seq![1, p.dims[0], 1], seq![0, c, 0]),
        model::ravel(seq![1, p.dims[0], 1], seq![0, c, 0]) == c,
        reals::value(SnakeBeta::per_channel(p).at(seq![0, c, 0]), f) == (f.exp)(reals::value(p.at(seq![c]), f)),
{
    broadcast use reals::group_reading;
    let n = p.dims[0];
    assert(p.dims =~= seq![n]);
    reals::lemma_ravel1(n, c);
    let (d, o): (Seq<nat>, Seq<int>) = (seq![1, n, 1], seq![0, c, 0]);
    reals::lemma_unit_axis(seq![n], seq![c], 1);
    assert(seq![n].insert(1, 1) =~= seq![n, 1] && seq![c].insert(1, 0) =~= seq![c, 0]);
    reals::lemma_unit_axis(seq![n, 1], seq![c, 0], 0);
    assert(seq![n, 1].insert(0, 1) =~= d && seq![c, 0].insert(0, 0) =~= o);
    assert(model::in_bounds(p.dims, seq![c]));
    lemmas::lemma_ravel(p.dims, seq![c]);
    assert(seq![n].drop_last() =~= Seq::<nat>::empty());
    let one = model::numel(Seq::<nat>::empty());
    assert(one == 1 && seq![n].last() == n);
    assert(one * n == n) by (nonlinear_arith)
        requires
            one == 1,
    ;
}

/// The activation adds to a sound the squared sine of `exp(alpha)` times it, divided by `exp(beta)`
/// and a little more.
pub proof fn law_snake(a: SnakeBeta, x: TensorView, b: int, c: int, s: int, f: Functions)
    requires
        x.wf() && x.rank() == 3 && x.dtype.float(),
        a.alpha@.wf() && a.alpha@.dims == seq![x.dims[1]],
        a.beta@.wf() && a.beta@.dims == seq![x.dims[1]],
        0 <= b < x.dims[0] && 0 <= c < x.dims[1] && 0 <= s < x.dims[2],
        (f.exp)(reals::value(a.beta@.at(seq![c]), f)) + reals::of_bits(SNAKE_EPS) != 0real,
    ensures
        ({
            let v = reals::value(x.at(seq![b, c, s]), f);
            let wave = (f.sin)(v * (f.exp)(reals::value(a.alpha@.at(seq![c]), f)));
            (reals::value(a.apply(x).at(seq![b, c, s]), f) - v) * ((f.exp)(reals::value(a.beta@.at(seq![c]), f))
                + reals::of_bits(SNAKE_EPS)) == wave * wave
        }),
{
    broadcast use reals::group_reading;
    reals::lemma_constants();
    reveal(SnakeBeta::apply);
    let (d, at) = (x.dims, seq![b, c, s]);
    assert(model::in_bounds(d, at));
    lemmas::lemma_ravel(d, at);
    lemma_per_channel(a.alpha@, c, f);
    lemma_per_channel(a.beta@, c, f);
    let e: Seq<nat> = seq![1, d[1], 1];
    let p = seq![0, c, 0];
    lemmas::lemma_spread_common(e, d);
    assert(lemmas::repeated(d, d, at) =~= at);
    assert(lemmas::repeated(e, d, at) =~= p);
    lemmas::lemma_ravel(e, p);
    let wide = model::cast(x, Dtype::F32);
    let angle = model::binary(BinOp::Times, wide, SnakeBeta::per_channel(a.alpha@));
    reals::lemma_binary_at(BinOp::Times, wide, SnakeBeta::per_channel(a.alpha@), at, f);
    let periodic = model::unary(UnOp::Sqr, model::unary(UnOp::Sin, angle));
    let divisor = model::affine(SnakeBeta::per_channel(a.beta@), model::number(ONE), model::number(SNAKE_EPS));
    let y = (f.exp)(reals::value(a.beta@.at(seq![c]), f));
    assert(y * 1real == y) by (nonlinear_arith);
    assert(reals::value(divisor.at(p), f) == y + reals::of_bits(SNAKE_EPS));
    reals::lemma_binary_at(BinOp::Over, periodic, divisor, at, f);
    let (w, z) = (reals::value(periodic.at(at), f), y + reals::of_bits(SNAKE_EPS));
    assert(w / z * z == w) by (nonlinear_arith)
        requires
            z != 0real,
    ;
}

} // verus!
