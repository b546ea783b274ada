//! Statistics of latent channels.
use vstd::prelude::*;

use crate::array::Array;
use crate::error::Failure;
use crate::lemmas;
use crate::model::{self, BinOp, TensorView};
use crate::reals::{self, Functions};
use crate::weights::{Weights, WeightsView};

verus! {

/// Mean and standard deviation of each channel.
pub struct PerChannelStatistics {
    pub mean: Array,
    pub std: Array,
}

impl PerChannelStatistics {
    /// Loads the statistics of video latents, with shape `(1, C, 1, 1, 1)`.
    pub fn from_vb(latent_channels: usize, vb: &Weights) -> (r: Result<PerChannelStatistics, Failure>)
        ensures
            r matches Ok(s) ==> s.mean@ == model::reshape(
                vb@.get("mean-of-means"@),
                seq![1, latent_channels as nat, 1, 1, 1],
            ) && s.std@ == model::reshape(
                vb@.get("std-of-means"@),
                seq![1, latent_channels as nat, 1, 1, 1],
            ),
            r is Ok ==> vb@.holds("mean-of-means"@, seq![latent_channels as nat]) && vb@.holds(
                "std-of-means"@,
                seq![latent_channels as nat],
            ),
            vb@.sound() && vb@.holds("mean-of-means"@, seq![latent_channels as nat]) && vb@.holds(
                "std-of-means"@,
                seq![latent_channels as nat],
            ) ==> r is Ok,
    {
        proof {
            lemma_channel_shapes(latent_channels as nat);
        }
        let mean = vb.get1(latent_channels, "mean-of-means")?;
        let std = vb.get1(latent_channels, "std-of-means")?;
        let mean = mean.reshape5(1, latent_channels, 1, 1, 1)?;
        let std = std.reshape5(1, latent_channels, 1, 1, 1)?;
        Ok(PerChannelStatistics { mean, std })
    }

    /// Statistics of video latents from one number for each channel.
    pub fn new_video(mean: &Array, std: &Array) -> (r: Result<PerChannelStatistics, Failure>)
        ensures
            r matches Ok(s) ==> s.mean@ == model::reshape(mean@, seq![1, mean@.dims[0], 1, 1, 1]) && s.std@
                == model::reshape(std@, seq![1, mean@.dims[0], 1, 1, 1]),
            r is Ok ==> mean@.rank() == 1 && std@.dims == mean@.dims,
            mean.usable() && std.usable() && mean@.rank() == 1 && std@.dims == mean@.dims ==> r is Ok,
            mean@.rank() == 1 && std@.rank() == 1 && mean@.dims[0] != std@.dims[0] ==> (r matches Err(
                Failure::ChannelCount { mean: m, std: s },
            ) && m == mean@.dims[0] && s == std@.dims[0]),
    {
        let c: usize = matching_length(mean, std)?;
        proof {
            lemma_channel_shapes(c as nat);
        }
        let mean = mean.reshape5(1, c, 1, 1, 1)?;
        let std = std.reshape5(1, c, 1, 1, 1)?;
        Ok(PerChannelStatistics { mean, std })
    }

    /// Statistics of audio latents from one number for each channel.
    pub fn new_audio(mean: &Array, std: &Array) -> (r: Result<PerChannelStatistics, Failure>)
        ensures
            r matches Ok(s) ==> s.mean@ == model::reshape(mean@, seq![1, mean@.dims[0], 1, 1]) && s.std@
                == model::reshape(std@, seq![1, mean@.dims[0], 1, 1]),
            r is Ok ==> mean@.rank() == 1 && std@.dims == mean@.dims,
            mean.usable() && std.usable() && mean@.rank() == 1 && std@.dims == mean@.dims ==> r is Ok,
            mean@.rank() == 1 && std@.rank() == 1 && mean@.dims[0] != std@.dims[0] ==> (r matches Err(
                Failure::ChannelCount { mean: m, std: s },
            ) && m == mean@.dims[0] && s == std@.dims[0]),
    {
        let c: usize = matching_length(mean, std)?;
        proof {
            lemma_channel_shapes(c as nat);
        }
        let mean = mean.reshape4(1, c, 1, 1)?;
        let std = std.reshape4(1, c, 1, 1)?;
        Ok(PerChannelStatistics { mean, std })
    }

    /// `(x - mean) / std`.
    pub open spec fn normalized(&self, x: TensorView) -> TensorView {
        let centered = model::binary(BinOp::Minus, x, model::cast(self.mean@, x.dtype));
        model::binary(BinOp::Over, centered, model::cast(self.std@, x.dtype))
    }

    /// `x * std + mean`.
    pub open spec fn denormalized(&self, x: TensorView) -> TensorView {
        let scaled = model::binary(BinOp::Times, x, model::cast(self.std@, x.dtype));
        model::binary(BinOp::Plus, scaled, model::cast(self.mean@, x.dtype))
    }

    /// Whether `x` is in main memory, with floating-point elements and as many channels as
    /// there are statistics of.
    pub open spec fn covers(&self, x: &Array) -> bool {
        x.on_cpu() && x@.dtype.float() && self.covers_shape(x@.dims)
    }

    /// Whether there are statistics of as many channels as an array of this shape has, in main
    /// memory.
    pub open spec fn covers_shape(&self, d: Seq<nat>) -> bool {
        &&& self.mean.usable() && lemmas::spreads(self.mean@.dims, d)
        &&& self.std.usable() && lemmas::spreads(self.std@.dims, d)
    }

    /// Normalises latents.
    pub fn normalize(&self, x: &Array) -> (r: Result<Array, Failure>)
        ensures
            r matches Ok(t) ==> t@ == self.normalized(x@),
            self.covers(x) ==> (r matches Ok(t) && t.on_cpu() && t@.dims == x@.dims && t@.dtype == x@.dtype),
    {
        proof {
            if self.covers(x) {
                lemmas::lemma_spread_common(self.mean@.dims, x@.dims);
                lemmas::lemma_spread_common(self.std@.dims, x@.dims);
            }
        }
        let mean = self.mean.to_dtype(x.dtype())?.to_device(&x.device())?;
        let std = self.std.to_dtype(x.dtype())?.to_device(&x.device())?;
        x.broadcast(BinOp::Minus, &mean)?.broadcast(BinOp::Over, &std)
    }

    /// Undoes the normalisation of latents.
    pub fn denormalize(&self, x: &Array) -> (r: Result<Array, Failure>)
        ensures
            r matches Ok(t) ==> t@ == self.denormalized(x@),
            self.covers(x) ==> (r matches Ok(t) && t.on_cpu() && t@.dims == x@.dims && t@.dtype == x@.dtype),
    {
        proof {
            if self.covers(x) {
                lemmas::lemma_spread_common(self.mean@.dims, x@.dims);
                lemmas::lemma_spread_common(self.std@.dims, x@.dims);
            }
        }
        let mean = self.mean.to_dtype(x.dtype())?.to_device(&x.device())?;
        let std = self.std.to_dtype(x.dtype())?.to_device(&x.device())?;
        x.broadcast(BinOp::Times, &std)?.broadcast(BinOp::Plus, &mean)
    }
}

/// A list of channels has the elements and the room of the same numbers under more axes.
proof fn lemma_channel_shapes(c: nat)
    ensures
        model::numel(seq![c]) == c,
        model::numel(seq![1, c, 1, 1]) == c,
        model::numel(seq![1, c, 1, 1, 1]) == c,
        model::fits(seq![c]) ==> model::fits(seq![1, c, 1, 1]) && model::fits(seq![1, c, 1, 1, 1]),
{
    lemmas::lemma_numel1(c);
    lemmas::lemma_extent1(c);
    lemmas::lemma_extent1(1);
    lemmas::lemma_numel1(1);
    let m: nat = if c == 0 { 1 } else { c };
    let d2: Seq<nat> = seq![1, c];
    let d3: Seq<nat> = seq![1, c, 1];
    let d4: Seq<nat> = seq![1, c, 1, 1];
    let d5: Seq<nat> = seq![1, c, 1, 1, 1];
    assert(d5.drop_last() =~= d4 && d4.drop_last() =~= d3 && d3.drop_last() =~= d2 && d2.drop_last() =~= seq![
        1nat,
    ]);
    let (e1, n1) = (model::extent(d2.drop_last()), model::numel(d2.drop_last()));
    assert(e1 * m == m && n1 * c == c) by (nonlinear_arith)
        requires
            e1 == 1,
            n1 == 1,
    ;
    assert(d2.last() == c && d3.last() == 1 && d4.last() == 1 && d5.last() == 1);
    assert(model::extent(d2) == m && model::numel(d2) == c);
    assert(model::extent(d3) == m && model::numel(d3) == c);
    assert(model::extent(d4) == m && model::numel(d4) == c);
}

/// The common length of two lists.
fn matching_length(mean: &Array, std: &Array) -> (r: Result<usize, Failure>)
    ensures
        r matches Ok(c) ==> mean@.dims == seq![c as nat] && std@.dims == seq![c as nat],
        r is Ok ==> model::fits(mean@.dims),
        mean@.rank() == 1 && std@.rank() == 1 && mean@.dims[0] == std@.dims[0] ==> r is Ok,
        mean@.rank() == 1 && std@.rank() == 1 && mean@.dims[0] != std@.dims[0] ==> (r matches Err(
            Failure::ChannelCount { mean: m, std: s },
        ) && m == mean@.dims[0] && s == std@.dims[0]),
        r matches Err(Failure::ChannelCount { .. }) ==> mean@.rank() == 1 && std@.rank() == 1 && mean@.dims[0]
            != std@.dims[0],
{
    let m = mean.dims();
    let s = std.dims();
    if m.len() != 1 {
        return Err(Failure::Rank { expected: 1, got: m.len() });
    }
    if s.len() != 1 {
        return Err(Failure::Rank { expected: 1, got: s.len() });
    }
    assert(mean@.dims =~= seq![m[0] as nat]);
    assert(std@.dims =~= seq![s[0] as nat]);
    if m[0] != s[0] {
        return Err(Failure::ChannelCount { mean: m[0], std: s[0] });
    }
    Ok(m[0])
}

/// A latent that is brought back from its normalised form is itself.
pub proof fn law_denormalize_undoes_normalize(s: PerChannelStatistics, x: TensorView, idx: Seq<int>, f: Functions)
    requires
        x.wf() && x.dtype.float() && s.mean@.wf() && s.std@.wf(),
        lemmas::spreads(s.mean@.dims, x.dims) && lemmas::spreads(s.std@.dims, x.dims),
        model::in_bounds(x.dims, idx),
        reals::value(s.std@.at(lemmas::repeated(s.std@.dims, x.dims, idx)), f) != 0real,
    ensures
        reals::value(s.denormalized(s.normalized(x)).at(idx), f) == reals::value(x.at(idx), f),
{
    broadcast use reals::group_reading;
    lemmas::lemma_spread_common(s.mean@.dims, x.dims);
    lemmas::lemma_spread_common(s.std@.dims, x.dims);
    let y = s.normalized(x);
    law_denormalized(s, y, idx, f);
    let (m, v) = (model::cast(s.mean@, x.dtype), model::cast(s.std@, x.dtype));
    let centred = model::binary(BinOp::Minus, x, m);
    reals::lemma_binary_at(BinOp::Minus, x, m, idx, f);
    reals::lemma_binary_at(BinOp::Over, centred, v, idx, f);
    assert(lemmas::repeated(x.dims, x.dims, idx) =~= idx);
    crate::base::ops::lemma_repeated_place(s.mean@.dims, x.dims, idx);
    crate::base::ops::lemma_repeated_place(s.std@.dims, x.dims, idx);
    let a = reals::value(x.at(idx), f) - reals::value(s.mean@.at(lemmas::repeated(s.mean@.dims, x.dims, idx)), f);
    let b = reals::value(s.std@.at(lemmas::repeated(s.std@.dims, x.dims, idx)), f);
    assert(a / b * b == a) by (nonlinear_arith)
        requires
            b != 0real,
    ;
}

/// How far a latent is from the mean of its channel is its normalised form times the deviation of
/// its channel.
pub proof fn law_denormalized(s: PerChannelStatistics, x: TensorView, idx: Seq<int>, f: Functions)
    requires
        x.wf() && x.dtype.float() && s.mean@.wf() && s.std@.wf(),
        lemmas::spreads(s.mean@.dims, x.dims) && lemmas::spreads(s.std@.dims, x.dims),
        model::in_bounds(x.dims, idx),
    ensures
        reals::value(s.denormalized(x).at(idx), f) - reals::value(
            s.mean@.at(lemmas::repeated(s.mean@.dims, x.dims, idx)),
            f,
        ) == reals::value(x.at(idx), f) * reals::value(s.std@.at(lemmas::repeated(s.std@.dims, x.dims, idx)), f),
{
    broadcast use reals::group_reading;
    lemmas::lemma_spread_common(s.mean@.dims, x.dims);
    lemmas::lemma_spread_common(s.std@.dims, x.dims);
    let (m, v) = (model::cast(s.mean@, x.dtype), model::cast(s.std@, x.dtype));
    let scaled = model::binary(BinOp::Times, x, v);
    reals::lemma_binary_at(BinOp::Times, x, v, idx, f);
    reals::lemma_binary_at(BinOp::Plus, scaled, m, idx, f);
    assert(lemmas::repeated(x.dims, x.dims, idx) =~= idx);
    crate::base::ops::lemma_repeated_place(s.mean@.dims, x.dims, idx);
    crate::base::ops::lemma_repeated_place(s.std@.dims, x.dims, idx);
}

} // verus!
