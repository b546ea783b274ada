//! How numbers become bytes of pixels and samples of sound.
use vstd::prelude::*;

use crate::lemmas;
use crate::model::{self, BinOp, Dtype, TensorView};
use crate::pipeline::output::{rgb_of, samples_of, FULL, LOUDEST};
use crate::reals::{self, Functions};
use crate::scalar::{HALF, MINUS_ONE, ONE, ZERO};

verus! {

/// The nearest number from `low` to `high`.
pub open spec fn limited(x: real, low: real, high: real) -> real {
    if x < low {
        low
    } else if x > high {
        high
    } else {
        x
    }
}

proof fn lemma_clamp(x: TensorView, lo: u64, hi: u64, i: int, f: Functions)
    requires
        x.wf() && x.dtype.float(),
        0 <= i < x.cells.len(),
        reals::of_bits(lo) <= reals::of_bits(hi),
    ensures
        model::clamp(x, lo, hi).dims == x.dims,
        model::clamp(x, lo, hi).wf(),
        model::clamp(x, lo, hi).dtype == x.dtype,
        reals::value(model::clamp(x, lo, hi).cells[i], f) == limited(
            reals::value(x.cells[i], f),
            reals::of_bits(lo),
            reals::of_bits(hi),
        ),
{
    broadcast use reals::group_reading;
    lemmas::lemma_single();
    let (low, high) = (model::cast(model::number(lo), x.dtype), model::cast(model::number(hi), x.dtype));
    assert(low.dims =~= Seq::<nat>::empty() && high.dims =~= Seq::<nat>::empty());
    let raised = model::binary(BinOp::Maximum, x, low);
    let (a, v) = (reals::of_bits(lo), reals::value(x.cells[i], f));
    assert(reals::value(raised.cells[i], f) == reals::binary_value(BinOp::Maximum, v, a));
}

/// A colour from -1 to 1 becomes a byte in proportion, 0 at -1 and 255 at 1, and what lies outside
/// becomes the nearest of the two. Pixel `(y, x)` of a frame holds its channels side by side.
pub proof fn law_colours(video: TensorView, c: int, i: int, y: int, x: int, f: Functions)
    requires
        video.wf() && video.dtype.float() && video.rank() == 5 && video.dims[0] == 1,
        0 <= c < video.dims[1] && 0 <= i < video.dims[2] && 0 <= y < video.dims[3] && 0 <= x < video.dims[4],
    ensures
        rgb_of(video).dims == seq![video.dims[2], video.dims[3], video.dims[4], video.dims[1]],
        reals::value(rgb_of(video).at(seq![i, y, x, c]), f) == (f.whole)(
            (limited(reals::value(video.at(seq![0, c, i, y, x]), f), -1real, 1real) + 1real) * (255real / 2real),
        ),
{
    broadcast use reals::group_reading;
    reals::lemma_constants();
    let at = seq![c, i, y, x];
    let d: Seq<nat> = seq![video.dims[1], video.dims[2], video.dims[3], video.dims[4]];
    let one = model::squeeze(video, 0);
    reals::lemma_squeeze_at(video, 0, at);
    assert(at.insert(0, 0) =~= seq![0, c, i, y, x]);
    assert(video.dims.remove(0) =~= d);
    assert(model::in_bounds(d, at));
    lemmas::lemma_ravel(d, at);
    let k = model::ravel(d, at);
    let v = reals::value(video.at(seq![0, c, i, y, x]), f);
    let raised = model::affine(one, model::number(ONE), model::number(ONE));
    assert(v * 1real == v) by (nonlinear_arith);
    assert(reals::value(raised.cells[k], f) == v + 1real);
    let halved = model::affine(raised, model::number(HALF), model::number(ZERO));
    assert(reals::value(halved.cells[k], f) == (v + 1real) * (1real / 2real));
    let inside = model::clamp(halved, ZERO, ONE);
    lemma_clamp(halved, ZERO, ONE, k, f);
    let full = model::affine(inside, model::number(FULL), model::number(ZERO));
    assert(reals::value(full.cells[k], f) == reals::value(inside.cells[k], f) * 255real);
    let bytes = model::cast(full, Dtype::U8);
    assert(bytes.cells[k] == model::Cell::Cast(Dtype::U8, Box::new(full.cells[k])));
    let p: Seq<int> = seq![1, 2, 3, 0];
    assert(model::is_permutation(p, 4)) by {
        assert(p[0] == 1 && p[1] == 2 && p[2] == 3 && p[3] == 0);
    }
    lemmas::lemma_permute_at(bytes, p, at);
    assert(Seq::new(4, |j: int| at[p[j]]) =~= seq![i, y, x, c]);
    assert(Seq::new(4, |j: int| d[p[j]]) =~= seq![video.dims[2], video.dims[3], video.dims[4], video.dims[1]]);
}

/// A loudness from -1 to 1 becomes a sample in proportion, 32767 at 1, and what lies outside becomes
/// the nearest of the two ends. The channels of a moment stand side by side.
pub proof fn law_samples(audio: TensorView, c: int, s: int, f: Functions)
    requires
        audio.wf() && audio.dtype.float() && audio.rank() == 2,
        0 <= c < audio.dims[0] && 0 <= s < audio.dims[1],
    ensures
        0 <= s * audio.dims[0] + c < samples_of(audio).cells.len(),
        reals::value(samples_of(audio).cells[s * audio.dims[0] + c], f) == (f.whole)(
            limited(reals::value(audio.at(seq![c, s]), f), -1real, 1real) * 32767real,
        ),
{
    broadcast use reals::group_reading;
    reals::lemma_constants();
    let at = seq![c, s];
    let d = audio.dims;
    assert(d =~= seq![d[0], d[1]]);
    assert(model::in_bounds(d, at));
    lemmas::lemma_ravel(d, at);
    let k = model::ravel(d, at);
    let wide = model::cast(audio, Dtype::F32);
    let inside = model::clamp(wide, MINUS_ONE, ONE);
    lemma_clamp(wide, MINUS_ONE, ONE, k, f);
    let loud = model::affine(inside, model::number(LOUDEST), model::number(ZERO));
    assert(reals::value(loud.cells[k], f) == reals::value(inside.cells[k], f) * 32767real);
    let p = model::swapped(2, 0, 1);
    assert(p =~= seq![1, 0]);
    assert(model::is_permutation(p, 2));
    lemmas::lemma_permute_at(loud, p, at);
    lemmas::lemma_permute_dims(loud, p);
    let turned = model::transpose(loud, 0, 1);
    assert(loud.rank() == 2 && turned == model::permute(loud, p));
    let (e, o): (Seq<nat>, Seq<int>) = (seq![d[1], d[0]], seq![s, c]);
    assert(Seq::new(2, |j: int| at[p[j]]) =~= o);
    assert(Seq::new(2, |j: int| d[p[j]]) =~= e);
    assert(model::in_bounds(e, o));
    lemmas::lemma_ravel(e, o);
    assert(e.drop_last() =~= seq![d[1]] && o.drop_last() =~= seq![s]);
    reals::lemma_ravel1(d[1], s);
    assert(model::ravel(e, o) == s * d[0] + c);
    let flat = model::flatten(turned);
    let i = s * d[0] + c;
    assert(turned.dims == e && flat.cells == turned.cells && 0 <= i < flat.cells.len());
    assert(samples_of(audio) == model::cast(flat, Dtype::I64));
    assert(model::cast(flat, Dtype::I64).cells[i] == model::Cell::Cast(Dtype::I64, Box::new(flat.cells[i])));
}

} // verus!
