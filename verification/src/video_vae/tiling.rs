//! Decoding long videos in tiles that overlap in time.
use vstd::prelude::*;

use crate::array::{self, Array};
use crate::error::Failure;
use crate::lemmas;
use crate::model::{self, Dtype, TensorView};
use crate::video_vae::decoder::VideoDecoder;

verus! {

/// How many tiles of `max` frames, each `step` behind the one before, cover `total` frames.
pub open spec fn tile_count(total: nat, max: nat, step: nat) -> nat {
    if total <= max {
        1
    } else {
        ((total - max + step - 1) / (step as int) + 1) as nat
    }
}

/// The number of frames of tile `i`.
pub open spec fn tile_len(total: nat, max: nat, step: nat, i: nat) -> int {
    if total - i * step < max {
        total - i * step
    } else {
        max as int
    }
}

/// Tile `i` is the last one exactly where it reaches the last frame.
proof fn lemma_last_tile(total: nat, max: nat, step: nat, i: nat)
    requires
        step > 0,
        total > max,
        i > 0 ==> (i - 1) * step + max < total,
    ensures
        i * step + max >= total ==> tile_count(total, max, step) == i + 1,
        i * step + max < total ==> tile_count(total, max, step) > i + 1,
{
    let d = total - max;
    let n = (d + step - 1) / (step as int);
    vstd::arithmetic::div_mod::lemma_fundamental_div_mod(d + step - 1, step as int);
    assert(step * n == n * step) by (nonlinear_arith);
    let r = (d + step - 1) % (step as int);
    assert(0 <= r < step);
    assert(d + step - 1 == n * step + r);
    if i * step + max >= total {
        if i == 0 {
            assert(i * step == 0) by (nonlinear_arith)
                requires
                    i == 0,
            ;
        } else {
            assert(n == i) by (nonlinear_arith)
                requires
                    d + step - 1 == n * step + r,
                    0 <= r < step,
                    i * step >= d,
                    (i - 1) * step < d,
                    step > 0,
            ;
        }
    } else {
        assert(n > i) by (nonlinear_arith)
            requires
                d + step - 1 == n * step + r,
                0 <= r < step,
                i * step < d,
                step > 0,
        ;
    }
}

/// The tiles follow one another without a gap and end with the last frame: each begins
/// `max - step` frames before the end of the one before, none but the last is shorter than
/// `max`, and the last ends where the video ends.
pub proof fn law_tiles_cover(total: nat, max: nat, step: nat, i: nat)
    requires
        0 < step < max < total,
        i < tile_count(total, max, step),
    ensures
        i + 1 < tile_count(total, max, step) ==> tile_len(total, max, step, i) == max && (i + 1) * step
            < i * step + max < total,
        i + 1 == tile_count(total, max, step) ==> i * step + tile_len(total, max, step, i) == total,
        i > 0 ==> tile_len(total, max, step, i) > max - step,
        i == 0 ==> tile_len(total, max, step, i) == max,
    decreases i,
{
    let n = tile_count(total, max, step);
    if i == 0 {
        assert(i * step == 0) by (nonlinear_arith)
            requires
                i == 0,
        ;
        lemma_last_tile(total, max, step, 0);
        assert((i + 1) * step == step) by (nonlinear_arith)
            requires
                i == 0,
        ;
    } else {
        let j = (i - 1) as nat;
        law_tiles_cover(total, max, step, j);
        assert((j + 1) * step == j * step + step) by (nonlinear_arith);
        assert((i + 1) * step == i * step + step) by (nonlinear_arith);
        assert(j + 1 == i);
        lemma_last_tile(total, max, step, i);
    }
}

/// How many frames of a decoded tile lie in its overlap with the tile before, where `len`
/// latent frames were decoded into `frames`.
pub open spec fn frames_to_skip(len: int, frames: int, overlap: int) -> int {
    let scale = if len > 1 {
        (frames - 1) / (len - 1)
    } else {
        1
    };
    (overlap - 1) * scale + 1
}

impl VideoDecoder {
    /// The latents of tile `i`.
    pub open spec fn tile(&self, sample: TensorView, max: nat, overlap: nat, i: nat) -> TensorView {
        let step = (max - overlap) as nat;
        model::narrow(sample, 2, i * step, tile_len(sample.dims[2], max, step, i) as nat)
    }

    /// What is kept of the frames that were decoded from tile `i`.
    pub open spec fn kept(
        &self,
        sample: TensorView,
        timestep: Option<TensorView>,
        max: nat,
        overlap: nat,
        noises: Seq<TensorView>,
        i: nat,
    ) -> TensorView {
        let decoded = self.apply(self.tile(sample, max, overlap, i), timestep, noises[i as int]);
        if i == 0 {
            decoded
        } else {
            let frames = decoded.dims[2];
            let len = tile_len(sample.dims[2], max, (max - overlap) as nat, i);
            let skip = frames_to_skip(len, frames as int, overlap as int);
            model::narrow(decoded, 2, skip as nat, (frames - skip) as nat)
        }
    }

    /// What is kept of each of the first `n` tiles.
    pub open spec fn kept_tiles(
        &self,
        sample: TensorView,
        timestep: Option<TensorView>,
        max: nat,
        overlap: nat,
        noises: Seq<TensorView>,
        n: nat,
    ) -> Seq<TensorView> {
        Seq::new(n, |i: int| self.kept(sample, timestep, max, overlap, noises, i as nat))
    }

    /// The frames that are decoded tile by tile.
    pub open spec fn tiled(
        &self,
        sample: TensorView,
        timestep: Option<TensorView>,
        max: nat,
        overlap: nat,
        noises: Seq<TensorView>,
    ) -> TensorView {
        if sample.dims[2] <= max {
            self.apply(sample, timestep, noises[0])
        } else {
            let n = tile_count(sample.dims[2], max, (max - overlap) as nat);
            model::cat(self.kept_tiles(sample, timestep, max, overlap, noises, n), 2)
        }
    }

    /// Whether there is noise for each tile.
    pub open spec fn fit_as_noises(&self, noises: Seq<TensorView>, sample: TensorView, max: nat, overlap: nat) -> bool {
        if sample.dims[2] <= max {
            noises.len() == 1 && self.fits_as_noise(noises[0], sample)
        } else {
            &&& noises.len() == tile_count(sample.dims[2], max, (max - overlap) as nat)
            &&& forall|i: nat|
                i < noises.len() ==> self.fits_as_noise(
                    #[trigger] noises[i as int],
                    self.tile(sample, max, overlap, i),
                )
        }
    }

    /// Whether tile `i` can be decoded in main memory, with frames of the shape of the first tile,
    /// of which some lie behind the overlap.
    pub open spec fn tile_decodes(&self, sample: &Array, timestep: Option<&Array>, max: nat, overlap: nat, i: nat) -> bool {
        let d = sample@.dims;
        let len = tile_len(d[2], max, (max - overlap) as nat, i);
        let out = self.decoded_dims(d.update(2, len as nat));
        &&& forall|x: Array|
            x.on_cpu() && x@ == self.tile(sample@, max, overlap, i) ==> #[trigger] self.decodes_at(&x, timestep)
        &&& self.decoded_dims(d.update(2, max)).len() == 5
        &&& out == self.decoded_dims(d.update(2, max)).update(2, out[2])
        &&& i > 0 ==> 0 < out[2] && frames_to_skip(len, out[2] as int, overlap as int) < out[2]
    }

    /// Whether latents can be decoded tile by tile in main memory, and the frames can be addressed.
    pub open spec fn decodes_tiled(&self, sample: &Array, timestep: Option<&Array>, max: nat, overlap: nat) -> bool {
        let d = sample@.dims;
        if d[2] <= max {
            self.decodes_at(sample, timestep)
        } else {
            &&& 0 < overlap < max && sample.on_cpu()
            &&& forall|i: nat|
                i < tile_count(d[2], max, (max - overlap) as nat) ==> #[trigger] self.tile_decodes(
                    sample,
                    timestep,
                    max,
                    overlap,
                    i,
                )
            &&& forall|noises: Seq<TensorView>|
                model::fits(
                    (#[trigger] self.tiled(sample@, array::opt_ref_view(timestep), max, overlap, noises)).dims,
                )
        }
    }

    /// Whether this is a part of the frames that are decoded tile by tile, in main memory.
    pub open spec fn is_part(&self, part: Array, d: Seq<nat>, max: nat) -> bool {
        let out = self.decoded_dims(d.update(2, max));
        &&& part.on_cpu() && part@.dtype == Dtype::F32 && out.len() == 5
        &&& part@.dims == out.update(2, part@.dims[2])
    }

    /// Decodes tile `i` and drops the overlap.
    fn decode_tile(
        &self,
        sample: &Array,
        timestep: Option<&Array>,
        max: usize,
        overlap: usize,
        i: Ghost<nat>,
        start: usize,
        len: usize,
    ) -> (r: Result<Array, Failure>)
        requires
            sample@.rank() == 5,
            0 < overlap < max < sample@.dims[2],
            start == i@ * (max - overlap),
            len == tile_len(sample@.dims[2], max as nat, (max - overlap) as nat, i@),
            len > 0,
            i@ > 0 <==> start > 0,
        ensures
            r matches Ok(t) ==> exists|noise: TensorView| #[trigger]
                self.is_kept(
                    sample@,
                    array::opt_ref_view(timestep),
                    max as nat,
                    overlap as nat,
                    i@,
                    noise,
                    t@,
                ),
            sample.on_cpu() && self.tile_decodes(sample, timestep, max as nat, overlap as nat, i@) ==> (r matches Ok(t)
                && self.is_part(t, sample@.dims, max as nat)),
    {
        let ghost fine = sample.on_cpu() && self.tile_decodes(sample, timestep, max as nat, overlap as nat, i@);
        proof {
            lemmas::lemma_narrow_dims(sample@, 2, start as nat, len as nat);
        }
        let chunk = sample.narrow(2, start, len)?;
        assert(fine ==> self.decodes_at(&chunk, timestep));
        let decoded = self.forward(&chunk, timestep)?;
        let ghost noise = choose|noise: TensorView| #[trigger]
            self.fits_as_noise(noise, chunk@) && decoded@ == self.apply(
                chunk@,
                array::opt_ref_view(timestep),
                noise,
            );
        let kept = if start == 0 {
            decoded
        } else {
            let frames: usize = decoded.dim(2)?;
            if frames == 0 {
                return Err(Failure::Shape);
            }
            let scale: usize = if len > 1 {
                (frames - 1) / (len - 1)
            } else {
                1
            };
            let skip: usize = match (overlap - 1).checked_mul(scale) {
                Some(n) => match n.checked_add(1) {
                    Some(m) => m,
                    None => {
                        return Err(Failure::Overflow);
                    },
                },
                None => {
                    return Err(Failure::Overflow);
                },
            };
            if skip >= frames {
                return Err(Failure::TileConsumed { skip, frames });
            }
            proof {
                lemmas::lemma_narrow_dims(decoded@, 2, skip as nat, (frames - skip) as nat);
                if fine {
                    let out = self.decoded_dims(sample@.dims.update(2, max as nat));
                    assert(decoded@.dims.update(2, (frames - skip) as nat) =~= out.update(2, (frames - skip) as nat));
                }
            }
            decoded.narrow(2, skip, frames - skip)?
        };
        assert(self.is_kept(
            sample@,
            array::opt_ref_view(timestep),
            max as nat,
            overlap as nat,
            i@,
            noise,
            kept@,
        ));
        Ok(kept)
    }

    /// Whether this is what is kept of tile `i` with this noise.
    pub open spec fn is_kept(
        &self,
        sample: TensorView,
        timestep: Option<TensorView>,
        max: nat,
        overlap: nat,
        i: nat,
        noise: TensorView,
        kept: TensorView,
    ) -> bool {
        &&& kept == self.kept(sample, timestep, max, overlap, Seq::new(i + 1, |j: int| noise), i)
        &&& self.fits_as_noise(noise, self.tile(sample, max, overlap, i))
    }

    /// Decodes the tiles one after another.
    fn decode_tiles(&self, sample: &Array, timestep: Option<&Array>, max: usize, overlap: usize) -> (r: Result<
        (Vec<Array>, Ghost<Seq<TensorView>>),
        Failure,
    >)
        requires
            sample@.rank() == 5,
            0 < overlap < max < sample@.dims[2],
        ensures
            r matches Ok(o) ==> {
                let n = tile_count(sample@.dims[2], max as nat, (max - overlap) as nat);
                &&& self.fit_as_noises(o.1@, sample@, max as nat, overlap as nat)
                &&& array::views(o.0@) == self.kept_tiles(
                    sample@,
                    array::opt_ref_view(timestep),
                    max as nat,
                    overlap as nat,
                    o.1@,
                    n,
                )
            },
            self.decodes_tiled(sample, timestep, max as nat, overlap as nat) ==> (r matches Ok(o) && forall|k: int|
                0 <= k < o.0@.len() ==> self.is_part(#[trigger] o.0@[k], sample@.dims, max as nat)),
    {
        let total: usize = sample.dim(2)?;
        let step: usize = max - overlap;
        let ghost fine = self.decodes_tiled(sample, timestep, max as nat, overlap as nat);
        let ghost ts = array::opt_ref_view(timestep);
        let ghost count = tile_count(total as nat, max as nat, step as nat);
        let ghost mut noises: Seq<TensorView> = Seq::empty();
        let ghost mut i: nat = 0;
        let mut start: usize = 0;
        let mut chunks: Vec<Array> = Vec::new();
        let mut done = false;
        assert(0 * step == 0) by (nonlinear_arith);
        assert(self.kept_tiles(sample@, ts, max as nat, overlap as nat, noises, 0) =~= array::views(chunks@));
        while !done
            invariant
                sample@.rank() == 5,
                total == sample@.dims[2],
                0 < overlap < max < total,
                step == max - overlap,
                ts == array::opt_ref_view(timestep),
                count == tile_count(total as nat, max as nat, step as nat),
                noises.len() == i,
                forall|j: nat|
                    j < i ==> self.fits_as_noise(
                        #[trigger] noises[j as int],
                        self.tile(sample@, max as nat, overlap as nat, j),
                    ),
                array::views(chunks@) == self.kept_tiles(sample@, ts, max as nat, overlap as nat, noises, i),
                fine == self.decodes_tiled(sample, timestep, max as nat, overlap as nat),
                fine ==> forall|k: int|
                    0 <= k < chunks@.len() ==> self.is_part(#[trigger] chunks@[k], sample@.dims, max as nat),
                !done ==> start == i * step && start < total && i < count,
                !done && i > 0 ==> (i - 1) * step + max < total,
                done ==> i == count,
            decreases (if done { 0 } else { 1 + total - start }),
        {
            let len: usize = if total - start < max {
                total - start
            } else {
                max
            };
            proof {
                if i == 0 {
                    assert(i * step == 0) by (nonlinear_arith)
                        requires
                            i == 0,
                    ;
                } else {
                    assert(i * step > 0) by (nonlinear_arith)
                        requires
                            i > 0,
                            step > 0,
                    ;
                }
            }
            assert(fine ==> self.tile_decodes(sample, timestep, max as nat, overlap as nat, i));
            let chunk = self.decode_tile(sample, timestep, max, overlap, Ghost(i), start, len)?;
            let ghost before = noises;
            let ghost old_chunks = chunks@;
            chunks.push(chunk);
            proof {
                let noise = choose|noise: TensorView| #[trigger]
                    self.is_kept(sample@, ts, max as nat, overlap as nat, i, noise, chunk@);
                noises = noises.push(noise);
                assert(array::views(old_chunks).len() == old_chunks.len());
                assert(old_chunks.len() == i);
                assert forall|j: int| 0 <= j <= i implies #[trigger] array::views(chunks@)[j] == self.kept(
                    sample@,
                    ts,
                    max as nat,
                    overlap as nat,
                    noises,
                    j as nat,
                ) by {
                    if j < i {
                        assert(array::views(old_chunks)[j] == array::views(chunks@)[j]);
                        assert(self.kept_tiles(sample@, ts, max as nat, overlap as nat, before, i)[j]
                            == array::views(old_chunks)[j]);
                        assert(noises[j] == before[j]);
                    } else {
                        assert(noises[j] == noise);
                    }
                }
                assert(array::views(chunks@) =~= self.kept_tiles(
                    sample@,
                    ts,
                    max as nat,
                    overlap as nat,
                    noises,
                    i + 1,
                ));
                lemma_last_tile(total as nat, max as nat, step as nat, i);
                assert((i + 1) * step == i * step + step) by (nonlinear_arith);
                i = i + 1;
            }
            if start + len >= total {
                done = true;
            } else {
                start = start + step;
            }
        }
        Ok((chunks, Ghost(noises)))
    }

    /// Decodes latents tile by tile: at most `max_latent_frames` at a time, of which
    /// `overlap_latent_frames` were already in the tile before.
    pub fn forward_temporal_tiled(
        &self,
        sample: &Array,
        timestep: Option<&Array>,
        max_latent_frames: usize,
        overlap_latent_frames: usize,
    ) -> (r: Result<Array, Failure>)
        ensures
            r matches Ok(t) ==> exists|noises: Seq<TensorView>| #[trigger]
                self.fit_as_noises(
                    noises,
                    sample@,
                    max_latent_frames as nat,
                    overlap_latent_frames as nat,
                ) && t@ == self.tiled(
                    sample@,
                    array::opt_ref_view(timestep),
                    max_latent_frames as nat,
                    overlap_latent_frames as nat,
                    noises,
                ),
            r is Ok ==> sample@.rank() == 5,
            sample@.rank() != 5 ==> r == Err::<Array, Failure>(
                Failure::Rank { expected: 5, got: sample@.rank() as usize },
            ),
            sample@.rank() == 5 && sample@.dims[2] > max_latent_frames && max_latent_frames < 2 ==> r == Err::<
                Array,
                Failure,
            >(Failure::TileLength { frames: max_latent_frames }),
            sample@.rank() == 5 && sample@.dims[2] > max_latent_frames && max_latent_frames >= 2 && (
            overlap_latent_frames == 0 || overlap_latent_frames >= max_latent_frames) ==> r == Err::<
                Array,
                Failure,
            >(Failure::TileOverlap { overlap: overlap_latent_frames }),
            sample@.rank() == 5 && self.decodes_tiled(
                sample,
                timestep,
                max_latent_frames as nat,
                overlap_latent_frames as nat,
            ) ==> (r matches Ok(t) && t.on_cpu()),
    {
        let (_b, _c, total, _h, _w) = sample.dims5()?;
        let max: usize = max_latent_frames;
        let overlap: usize = overlap_latent_frames;
        if total <= max {
            let t = self.forward(sample, timestep)?;
            proof {
                let noise = choose|noise: TensorView| #[trigger]
                    self.fits_as_noise(noise, sample@) && t@ == self.apply(
                        sample@,
                        array::opt_ref_view(timestep),
                        noise,
                    );
                let noises = seq![noise];
                assert(self.fit_as_noises(
                    noises,
                    sample@,
                    max_latent_frames as nat,
                    overlap_latent_frames as nat,
                ));
            }
            return Ok(t);
        }
        if max < 2 {
            return Err(Failure::TileLength { frames: max });
        }
        if overlap == 0 || overlap >= max {
            return Err(Failure::TileOverlap { overlap });
        }
        let (chunks, noises) = self.decode_tiles(sample, timestep, max, overlap)?;
        assert(self.fit_as_noises(noises@, sample@, max as nat, overlap as nat));
        proof {
            let vs = array::views(chunks@);
            assert(chunks@.len() == vs.len());
            lemma_last_tile(total as nat, max as nat, (max - overlap) as nat, 0);
            assert(0 * (max - overlap) == 0) by (nonlinear_arith);
            if self.decodes_tiled(sample, timestep, max as nat, overlap as nat) {
                let out = self.decoded_dims(sample@.dims.update(2, max as nat));
                assert forall|k: int| 0 <= k < vs.len() implies (#[trigger] vs[k]).dims == out.update(2, vs[k].dims[2]) by {
                    assert(self.is_part(chunks@[k], sample@.dims, max as nat));
                }
                assert(self.is_part(chunks@[0], sample@.dims, max as nat));
                assert(array::kernels::alike(chunks@)) by {
                    assert forall|k: int| 0 <= k < chunks@.len() implies (#[trigger] chunks@[k]).on_cpu()
                        && chunks@[k]@.dtype == Dtype::F32 by {
                        assert(self.is_part(chunks@[k], sample@.dims, max as nat));
                    }
                }
                assert(model::joinable(vs, 2));
                assert(model::cat(vs, 2) == self.tiled(
                    sample@,
                    array::opt_ref_view(timestep),
                    max as nat,
                    overlap as nat,
                    noises@,
                ));
            }
        }
        Array::cat(&chunks, 2)
    }
}

/// The frames that are kept of the first `n` tiles, where `scale` frames are decoded for
/// each latent frame but the first of a tile, which gives one.
proof fn lemma_kept_frames(
    decoder: VideoDecoder,
    sample: TensorView,
    timestep: Option<TensorView>,
    max: nat,
    overlap: nat,
    noises: Seq<TensorView>,
    scale: nat,
    n: nat,
)
    requires
        sample.rank() == 5,
        0 < overlap < max < sample.dims[2],
        0 < n <= tile_count(sample.dims[2], max, (max - overlap) as nat),
        scale >= 1,
        forall|i: nat|
            i < tile_count(sample.dims[2], max, (max - overlap) as nat) ==> {
                let d = #[trigger] decoder.apply(
                    decoder.tile(sample, max, overlap, i),
                    timestep,
                    noises[i as int],
                );
                d.rank() == 5 && d.dims[2] == scale * (tile_len(
                    sample.dims[2],
                    max,
                    (max - overlap) as nat,
                    i,
                ) - 1) + 1
            },
    ensures
        n < tile_count(sample.dims[2], max, (max - overlap) as nat) ==> model::joined_size(
            decoder.kept_tiles(sample, timestep, max, overlap, noises, n),
            2,
        ) == scale * ((n - 1) * (max - overlap) + max - 1) + 1,
        n == tile_count(sample.dims[2], max, (max - overlap) as nat) ==> model::joined_size(
            decoder.kept_tiles(sample, timestep, max, overlap, noises, n),
            2,
        ) == scale * (sample.dims[2] - 1) + 1,
    decreases n,
{
    let total = sample.dims[2];
    let step = (max - overlap) as nat;
    let count = tile_count(total, max, step);
    let all = decoder.kept_tiles(sample, timestep, max, overlap, noises, n);
    let i = (n - 1) as nat;
    law_tiles_cover(total, max, step, i);
    let decoded = decoder.apply(decoder.tile(sample, max, overlap, i), timestep, noises[i as int]);
    let len = tile_len(total, max, step, i);
    assert(decoded.dims[2] == scale * (len - 1) + 1);
    let front = decoder.kept_tiles(sample, timestep, max, overlap, noises, i);
    assert(all.drop_last() =~= front);
    assert(all.last() == decoder.kept(sample, timestep, max, overlap, noises, i));
    if i == 0 {
        assert(front =~= Seq::empty());
        assert(i * step == 0) by (nonlinear_arith)
            requires
                i == 0,
        ;
        assert((n - 1) * (max - overlap) == 0) by (nonlinear_arith)
            requires
                n == 1,
        ;
        assert(model::joined_size(front, 2) == 0);
        lemma_last_tile(total, max, step, 0);
    } else {
        lemma_kept_frames(decoder, sample, timestep, max, overlap, noises, scale, i);
        assert(len >= 2);
        let frames = decoded.dims[2] as int;
        vstd::arithmetic::div_mod::lemma_div_multiples_vanish(scale as int, len - 1);
        assert((len - 1) * scale == scale * (len - 1)) by (nonlinear_arith);
        assert((frames - 1) / (len - 1) == scale);
        let skip = frames_to_skip(len, frames, overlap as int);
        assert(skip == (overlap - 1) * scale + 1);
        assert(0 <= skip <= frames) by (nonlinear_arith)
            requires
                skip == (overlap - 1) * scale + 1,
                frames == scale * (len - 1) + 1,
                len >= overlap,
                overlap >= 1,
                scale >= 1,
        ;
        reveal(model::narrow);
        assert(all.last().dims[2] == frames - skip);
        assert((i - 1) * step + step == i * step) by (nonlinear_arith);
        if n < count {
            assert(scale * ((i - 1) * step + max - 1) + 1 + (scale * (max - 1) + 1 - ((overlap - 1) * scale + 1))
                == scale * (i * step + max - 1) + 1) by (nonlinear_arith)
                requires
                    (i - 1) * step + step == i * step,
                    step == max - overlap,
            ;
        } else {
            assert(scale * ((i - 1) * step + max - 1) + 1 + (scale * (len - 1) + 1 - ((overlap - 1) * scale + 1))
                == scale * (total - 1) + 1) by (nonlinear_arith)
                requires
                    (i - 1) * step + step == i * step,
                    step == max - overlap,
                    i * step + len == total,
            ;
        }
    }
}

/// Decoding in tiles gives as many frames as decoding at once: where every tile of `l`
/// latent frames is decoded into `scale (l - 1) + 1` frames, the `total` latent frames give
/// `scale (total - 1) + 1`.
pub proof fn law_tiled_frame_count(
    decoder: VideoDecoder,
    sample: TensorView,
    timestep: Option<TensorView>,
    max: nat,
    overlap: nat,
    noises: Seq<TensorView>,
    scale: nat,
)
    requires
        sample.rank() == 5,
        0 < overlap < max < sample.dims[2],
        scale >= 1,
        forall|i: nat|
            i < tile_count(sample.dims[2], max, (max - overlap) as nat) ==> {
                let d = #[trigger] decoder.apply(
                    decoder.tile(sample, max, overlap, i),
                    timestep,
                    noises[i as int],
                );
                d.rank() == 5 && d.dims[2] == scale * (tile_len(
                    sample.dims[2],
                    max,
                    (max - overlap) as nat,
                    i,
                ) - 1) + 1
            },
        model::joinable(
            decoder.kept_tiles(
                sample,
                timestep,
                max,
                overlap,
                noises,
                tile_count(sample.dims[2], max, (max - overlap) as nat),
            ),
            2,
        ),
    ensures
        decoder.tiled(sample, timestep, max, overlap, noises).dims[2] == scale * (sample.dims[2] - 1) + 1,
{
    let total = sample.dims[2];
    let step = (max - overlap) as nat;
    let n = tile_count(total, max, step);
    let all = decoder.kept_tiles(sample, timestep, max, overlap, noises, n);
    assert(n >= 1) by {
        lemma_last_tile(total, max, step, 0);
    }
    lemma_kept_frames(decoder, sample, timestep, max, overlap, noises, scale, n);
    assert(all[0].rank() == 5) by {
        assert(all[0] == decoder.kept(sample, timestep, max, overlap, noises, 0));
    }
    model::lemma_cat_dims(all, 2);
}

} // verus!
