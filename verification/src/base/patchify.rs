//! Latents as sequences of tokens, and where each token lies.
use vstd::prelude::*;

use crate::array::Array;
use crate::base::types::{AudioLatentShape, SpatioTemporalScaleFactors, VideoLatentShape};
use crate::error::Failure;
use crate::lemmas;
use crate::model::{self, BinOp, Dtype, TensorView};
use crate::scalar::{INFINITY, ONE, ZERO};

verus! {

/// Cuts video latents into tokens of one frame and `patch_size` rows and columns.
#[derive(Clone, Copy, Debug)]
pub struct VideoLatentPatchifier {
    pub patch_size: usize,
}

/// `b c f (h p) (w q) -> b (f h w) (c p q)`.
pub open spec fn patchify_of(x: TensorView, p: nat) -> TensorView {
    let (b, c, f) = (x.dims[0], x.dims[1], x.dims[2]);
    let (h, w) = (x.dims[3] / p, x.dims[4] / p);
    let grid = model::reshape(x, seq![b, c, f, h, p, w, p]);
    model::reshape(
        model::permute(grid, token_order()),
        seq![b, f * h * w, c * p * p],
    )
}

/// `b (f h w) (c p q) -> b c f (h p) (w q)`.
pub open spec fn unpatchify_of(x: TensorView, p: nat, shape: VideoLatentShape) -> TensorView {
    let b = x.dims[0];
    let (c, f) = (shape.channels as nat, shape.frames as nat);
    let (h, w) = (shape.height as nat / p, shape.width as nat / p);
    let grid = model::reshape(x, seq![b, f, h, w, c, p, p]);
    model::reshape(
        model::permute(grid, latent_order()),
        seq![b, c, f, shape.height as nat, shape.width as nat],
    )
}

/// Coordinate `k` (0 where it begins, 1 where it ends) of token `n` along axis `d`
/// (time, height, width), for tokens of `p` rows and columns in a grid of `h` rows
/// and `w` columns.
pub open spec fn token_bound(p: int, h: int, w: int, d: int, n: int, k: int) -> int {
    if d == 0 {
        n / w / h + k
    } else if d == 1 {
        (n / w % h + k) * p
    } else {
        (n % w + k) * p
    }
}

/// The tokens of a grid lie side by side: each takes one step in time and `p` rows and columns, ends
/// where the next one along an axis begins, and stays within the grid.
pub proof fn law_token_intervals(p: int, h: int, w: int, n: int)
    requires
        p > 0,
        h > 0,
        w > 0,
        n >= 0,
    ensures
        token_bound(p, h, w, 0, n, 1) == token_bound(p, h, w, 0, n, 0) + 1,
        token_bound(p, h, w, 1, n, 1) == token_bound(p, h, w, 1, n, 0) + p,
        token_bound(p, h, w, 2, n, 1) == token_bound(p, h, w, 2, n, 0) + p,
        0 <= token_bound(p, h, w, 1, n, 0) && token_bound(p, h, w, 1, n, 1) <= h * p,
        0 <= token_bound(p, h, w, 2, n, 0) && token_bound(p, h, w, 2, n, 1) <= w * p,
        n % w + 1 < w ==> token_bound(p, h, w, 2, n + 1, 0) == token_bound(p, h, w, 2, n, 1),
        n / w % h + 1 < h ==> token_bound(p, h, w, 1, n + w, 0) == token_bound(p, h, w, 1, n, 1),
        token_bound(p, h, w, 0, n + h * w, 0) == token_bound(p, h, w, 0, n, 1),
{
    let (q, r) = (n / w, n % w);
    let (f, y) = (q / h, q % h);
    vstd::arithmetic::div_mod::lemma_fundamental_div_mod(n, w);
    assert(q >= 0) by (nonlinear_arith)
        requires
            n >= 0,
            w > 0,
            q == n / w,
    ;
    vstd::arithmetic::div_mod::lemma_fundamental_div_mod(q, h);
    assert((y + 1) * p == y * p + p && (r + 1) * p == r * p + p && (y + 0) * p == y * p && (r + 0) * p == r * p)
        by (nonlinear_arith);
    assert(0 <= y * p && y * p + p <= h * p && 0 <= r * p && r * p + p <= w * p) by (nonlinear_arith)
        requires
            0 <= y < h,
            0 <= r < w,
            p > 0,
    ;
    if r + 1 < w {
        vstd::arithmetic::div_mod::lemma_fundamental_div_mod_converse(n + 1, w, q, r + 1);
    }
    assert(n + w == (q + 1) * w + r && n + h * w == (q + h) * w + r) by (nonlinear_arith)
        requires
            n == w * q + r,
    ;
    vstd::arithmetic::div_mod::lemma_fundamental_div_mod_converse(n + w, w, q + 1, r);
    if y + 1 < h {
        vstd::arithmetic::div_mod::lemma_fundamental_div_mod_converse(q + 1, h, f, y + 1);
    }
    vstd::arithmetic::div_mod::lemma_fundamental_div_mod_converse(n + h * w, w, q + h, r);
    assert(q + h == (f + 1) * h + y) by (nonlinear_arith)
        requires
            q == h * f + y,
    ;
    vstd::arithmetic::div_mod::lemma_fundamental_div_mod_converse(q + h, h, f + 1, y);
}

/// Where each token begins and ends along each axis.
pub open spec fn video_bounds_of(p: nat, shape: VideoLatentShape) -> TensorView {
    let h = shape.height as nat / p;
    let w = shape.width as nat / p;
    let n = shape.frames as nat * h * w;
    let dims = seq![shape.batch as nat, 3, n, 2];
    TensorView {
        dims,
        dtype: Dtype::F32,
        cells: Seq::new(
            model::numel(dims),
            |j: int|
                {
                    let o = model::unravel(dims, j);
                    model::Cell::Cast(
                        Dtype::F32,
                        Box::new(
                            model::Cell::Int(token_bound(p as int, h as int, w as int, o[1], o[2], o[3])),
                        ),
                    )
                },
        ),
    }
}

proof fn lemma_unravel4(a: nat, b: nat, c: nat, d: nat, j: int)
    ensures
        model::unravel(seq![a, b, c, d], j) == seq![
            j / (d as int) / (c as int) / (b as int) % (a as int),
            j / (d as int) / (c as int) % (b as int),
            j / (d as int) % (c as int),
            j % (d as int),
        ],
{
    reveal_with_fuel(model::unravel, 5);
    assert(seq![a, b, c, d].drop_last() =~= seq![a, b, c]);
    assert(seq![a, b, c].drop_last() =~= seq![a, b]);
    assert(seq![a, b].drop_last() =~= seq![a]);
    assert(seq![a].drop_last() =~= Seq::<nat>::empty());
    assert(model::unravel(seq![a, b, c, d], j) =~= seq![
        j / (d as int) / (c as int) / (b as int) % (a as int),
        j / (d as int) / (c as int) % (b as int),
        j / (d as int) % (c as int),
        j % (d as int),
    ]);
}

/// The axes of a cut latent in the order of tokens.
pub open spec fn token_order() -> Seq<int> {
    seq![0, 2, 3, 5, 1, 4, 6]
}

/// The axes of tokens in the order of a cut latent.
pub open spec fn latent_order() -> Seq<int> {
    seq![0, 4, 1, 2, 5, 3, 6]
}

proof fn lemma_patch_axes()
    ensures
        model::is_permutation(token_order(), 7),
        model::is_permutation(latent_order(), 7),
        forall|j: int| 0 <= j < 7 ==> token_order()[#[trigger] latent_order()[j]] == j,
        forall|j: int| 0 <= j < 7 ==> latent_order()[#[trigger] token_order()[j]] == j,
{
}

proof fn lemma_exchange(a: int, b: int, c: int)
    ensures
        a * b * c == a * c * b,
{
    assert(a * b * c == a * c * b) by (nonlinear_arith);
}

/// The sizes of patches and tokens multiply to the same number.
proof fn lemma_regroup(b: int, c: int, f: int, h: int, w: int, p: int)
    ensures
        b * c * f * h * p * w * p == b * c * f * (h * p) * (w * p),
        b * f * h * w * c * p * p == b * c * f * (h * p) * (w * p),
        b * (f * h * w) * (c * p * p) == b * c * f * (h * p) * (w * p),
{
    vstd::arithmetic::mul::lemma_mul_is_associative(b * c * f, h, p);
    vstd::arithmetic::mul::lemma_mul_is_associative(b * c * f * h * p, w, p);
    lemma_exchange(b * f * h, w, c);
    lemma_exchange(b * f, h, c);
    lemma_exchange(b, f, c);
    lemma_exchange(b * c * f * h, w, p);
    vstd::arithmetic::mul::lemma_mul_is_associative(b, f * h, w);
    vstd::arithmetic::mul::lemma_mul_is_associative(b, f, h);
    vstd::arithmetic::mul::lemma_mul_is_associative(b * f * h * w, c * p, p);
    vstd::arithmetic::mul::lemma_mul_is_associative(b * f * h * w, c, p);
}

/// Cutting into patches does not change the number of elements.
proof fn lemma_patch_counts(b: nat, c: nat, f: nat, h: nat, w: nat, p: nat)
    ensures
        model::numel(seq![b, c, f, h, p, w, p]) == model::numel(seq![b, c, f, h * p, w * p]),
        model::numel(seq![b, f, h, w, c, p, p]) == model::numel(seq![b, c, f, h * p, w * p]),
        model::numel(seq![b, f * h * w, c * p * p]) == model::numel(seq![b, c, f, h * p, w * p]),
{
    lemmas::lemma_numel7(b, c, f, h, p, w, p);
    lemmas::lemma_numel7(b, f, h, w, c, p, p);
    lemmas::lemma_numel5(b, c, f, h * p, w * p);
    lemmas::lemma_numel3(b, f * h * w, c * p * p);
    lemma_regroup(b as int, c as int, f as int, h as int, w as int, p as int);
}

/// A video latent with an axis for each side of a patch: `(B, C, F, H/p, p, W/p, p)`.
pub open spec fn grid_dims(d: Seq<nat>, p: nat) -> Seq<nat> {
    seq![d[0], d[1], d[2], d[3] / p, p, d[4] / p, p]
}

impl VideoLatentPatchifier {
    pub fn new(patch_size: usize) -> (r: VideoLatentPatchifier)
        ensures
            r.patch_size == patch_size,
    {
        VideoLatentPatchifier { patch_size }
    }

    /// The number of tokens of a latent.
    pub open spec fn token_count(&self, shape: VideoLatentShape) -> int {
        shape.frames * (shape.height as int / self.patch_size as int) * (shape.width as int
            / self.patch_size as int)
    }

    /// The number of tokens of a latent.
    pub fn get_token_count(&self, shape: &VideoLatentShape) -> (r: usize)
        requires
            self.patch_size > 0,
            shape.frames * (shape.height as int / self.patch_size as int) <= usize::MAX,
            self.token_count(*shape) <= usize::MAX,
        ensures
            r == self.token_count(*shape),
    {
        let p: usize = self.patch_size;
        shape.frames * (shape.height / p) * (shape.width / p)
    }

    /// `(B, C, F, H, W)` to `(B, F * H/p * W/p, C * p * p)`.
    ///
    /// Fails where a patch does not fit in evenly. In main memory it fails on nothing else, but where
    /// the latents are empty and the patches could not be addressed.
    pub fn patchify(&self, latents: &Array) -> (r: Result<Array, Failure>)
        requires
            self.patch_size > 0,
        ensures
            r matches Ok(t) ==> t@ == patchify_of(latents@, self.patch_size as nat),
            r matches Ok(t) ==> t.on_cpu() == latents.on_cpu(),
            r is Ok ==> latents@.rank() == 5 && latents@.dims[3] % (self.patch_size as nat) == 0
                && latents@.dims[4] % (self.patch_size as nat) == 0,
            latents@.rank() != 5 ==> r == Err::<Array, Failure>(
                Failure::Rank { expected: 5, got: latents@.rank() as usize },
            ),
            latents@.rank() == 5 && latents@.dims[3] % (self.patch_size as nat) != 0 ==> r == Err::<
                Array,
                Failure,
            >(Failure::NotDivisible { size: latents@.dims[3] as usize, part: self.patch_size }),
            latents@.rank() == 5 && latents@.dims[3] % (self.patch_size as nat) == 0 && latents@.dims[4] % (
            self.patch_size as nat) != 0 ==> r == Err::<Array, Failure>(
                Failure::NotDivisible { size: latents@.dims[4] as usize, part: self.patch_size },
            ),
            latents.usable() && latents@.rank() == 5 && latents@.dims[3] % (self.patch_size as nat) == 0
                && latents@.dims[4] % (self.patch_size as nat) == 0 && (model::numel(latents@.dims) > 0
                || model::fits(grid_dims(latents@.dims, self.patch_size as nat))) ==> r is Ok,
    {
        let (b, c, f, h, w) = latents.dims5()?;
        let p: usize = self.patch_size;
        if h % p != 0 {
            return Err(Failure::NotDivisible { size: h, part: p });
        }
        if w % p != 0 {
            return Err(Failure::NotDivisible { size: w, part: p });
        }
        let hp: usize = h / p;
        let wp: usize = w / p;
        let ghost grid: Seq<nat> = seq![
            b as nat,
            c as nat,
            f as nat,
            hp as nat,
            p as nat,
            wp as nat,
            p as nat,
        ];
        proof {
            vstd::arithmetic::div_mod::lemma_fundamental_div_mod(h as int, p as int);
            vstd::arithmetic::div_mod::lemma_fundamental_div_mod(w as int, p as int);
            vstd::arithmetic::mul::lemma_mul_is_commutative(p as int, hp as int);
            vstd::arithmetic::mul::lemma_mul_is_commutative(p as int, wp as int);
            lemma_patch_counts(b as nat, c as nat, f as nat, hp as nat, wp as nat, p as nat);
            lemma_patch_axes();
            if model::numel(latents@.dims) > 0 {
                lemmas::lemma_extent_is_numel(latents@.dims);
                lemmas::lemma_extent_is_numel(grid);
                let tokens: Seq<nat> = seq![b as nat, (f * hp * wp) as nat, (c * p * p) as nat];
                lemmas::lemma_extent_is_numel(tokens);
                lemmas::lemma_numel3(b as nat, (f * hp * wp) as nat, (c * p * p) as nat);
                lemma_products_fit(b as nat, f as nat, hp as nat, wp as nat, c as nat, p as nat);
            }
            assert(grid_dims(latents@.dims, p as nat) =~= grid);
            if model::fits(grid) {
                lemma_patches_fit(b as nat, c as nat, f as nat, hp as nat, wp as nat, p as nat);
            }
        }
        let shape: Vec<usize> = vec![b, c, f, hp, p, wp, p];
        assert(model::nats(shape@) =~= grid);
        let x = latents.reshape(&shape)?;
        let order: Vec<usize> = vec![0, 2, 3, 5, 1, 4, 6];
        assert(crate::array::axes(order@) =~= token_order());
        let x = x.permute(&order)?;
        proof {
            reveal(model::permute);
            assert(x@.dims =~= seq![
                b as nat,
                f as nat,
                hp as nat,
                wp as nat,
                c as nat,
                p as nat,
                p as nat,
            ]);
        }
        let num_tokens: usize = product3(f, hp, wp)?;
        let patch_dim: usize = product3(c, p, p)?;
        x.reshape3(b, num_tokens, patch_dim)
    }

    /// Whether these are the tokens of a latent of this shape, whose height and width can be cut
    /// into patches. Where there are none, the patches could be addressed all the same.
    pub open spec fn are_tokens(&self, x: TensorView, shape: VideoLatentShape) -> bool {
        let p = self.patch_size as nat;
        &&& shape.height as nat % p == 0 && shape.width as nat % p == 0
        &&& x.rank() == 3
        &&& model::numel(x.dims) > 0 || model::fits(grid_dims(shape.dims().update(0, x.dims[0]), p))
        &&& x.dims[1] == shape.frames as nat * (shape.height as nat / p) * (shape.width as nat / p)
        &&& x.dims[2] == shape.channels as nat * p * p
    }

    /// `(B, F * H/p * W/p, C * p * p)` to `(B, C, F, H, W)`. In main memory it does not fail on
    /// the tokens of a latent of this shape.
    pub fn unpatchify(&self, latents: &Array, output_shape: &VideoLatentShape) -> (r: Result<Array, Failure>)
        requires
            self.patch_size > 0,
        ensures
            r matches Ok(t) ==> t@ == unpatchify_of(latents@, self.patch_size as nat, *output_shape),
            r matches Ok(t) ==> t.on_cpu() == latents.on_cpu() && t@.dtype == latents@.dtype,
            r is Ok ==> latents@.rank() == 3,
            latents@.rank() != 3 ==> r == Err::<Array, Failure>(
                Failure::Rank { expected: 3, got: latents@.rank() as usize },
            ),
            r matches Err(e) ==> e.basic(),
            latents.usable() && self.are_tokens(latents@, *output_shape) ==> r is Ok,
    {
        let (b, _num_tokens, _patch_dim) = latents.dims3()?;
        let p: usize = self.patch_size;
        let c: usize = output_shape.channels;
        let f: usize = output_shape.frames;
        let hp: usize = output_shape.height / p;
        let wp: usize = output_shape.width / p;
        proof {
            if self.are_tokens(latents@, *output_shape) {
                let d = output_shape.dims().update(0, b as nat);
                assert(grid_dims(d, p as nat) =~= seq![
                    b as nat,
                    c as nat,
                    f as nat,
                    hp as nat,
                    p as nat,
                    wp as nat,
                    p as nat,
                ]);
                lemma_tokens_fit(
                    latents@.dims,
                    b as nat,
                    c as nat,
                    f as nat,
                    output_shape.height as nat,
                    output_shape.width as nat,
                    p as nat,
                );
            }
            lemma_patch_axes();
        }
        let shape: Vec<usize> = vec![b, f, hp, wp, c, p, p];
        assert(model::nats(shape@) =~= seq![
            b as nat,
            f as nat,
            hp as nat,
            wp as nat,
            c as nat,
            p as nat,
            p as nat,
        ]);
        let x = latents.reshape(&shape)?;
        let order: Vec<usize> = vec![0, 4, 1, 2, 5, 3, 6];
        assert(crate::array::axes(order@) =~= latent_order());
        let x = x.permute(&order)?;
        proof {
            reveal(model::permute);
            assert(x@.dims =~= seq![
                b as nat,
                c as nat,
                f as nat,
                hp as nat,
                p as nat,
                wp as nat,
                p as nat,
            ]);
        }
        x.reshape5(b, c, f, output_shape.height, output_shape.width)
    }

    /// Whether a latent of this shape has tokens, and their bounds can be counted and addressed.
    pub open spec fn has_grid(&self, shape: VideoLatentShape) -> bool {
        let (h, w) = (shape.height as nat / self.patch_size as nat, shape.width as nat / self.patch_size as nat);
        &&& shape.batch > 0 && shape.frames > 0 && h > 0 && w > 0
        &&& shape.frames < i64::MAX && shape.height < i64::MAX && shape.width < i64::MAX
        &&& model::fits(seq![shape.batch as nat, 3, shape.frames as nat * h * w, 2])
    }

    /// Where each token begins and ends: `(B, 3, T, 2)`, along time, height and width.
    pub fn get_patch_grid_bounds(&self, output_shape: &VideoLatentShape, device: &candle_core::Device) -> (r:
        Result<Array, Failure>)
        requires
            self.patch_size > 0,
        ensures
            r matches Ok(t) ==> t@ == video_bounds_of(self.patch_size as nat, *output_shape),
            r matches Err(e) ==> e.basic(),
            crate::array::is_main_memory(*device) && self.has_grid(*output_shape) ==> (r matches Ok(t)
                && t.on_cpu() && model::fits(t@.dims)),
    {
        let p: usize = self.patch_size;
        let f: usize = output_shape.frames;
        let hp: usize = output_shape.height / p;
        let wp: usize = output_shape.width / p;
        let limit: u64 = i64::MAX as u64;
        if f as u64 >= limit || output_shape.height as u64 >= limit || output_shape.width as u64 >= limit {
            return Err(Failure::Overflow);
        }
        proof {
            if self.has_grid(*output_shape) {
                lemma_grid_fits(output_shape.batch as nat, f as nat, hp as nat, wp as nat);
            }
        }
        let n: usize = product3(f, hp, wp)?;
        let dims: Vec<usize> = vec![output_shape.batch, 3, n, 2];
        let ghost sizes: Seq<nat> = seq![output_shape.batch as nat, 3, n as nat, 2];
        assert(model::nats(dims@) =~= sizes);
        let half: usize = product3(output_shape.batch, 3, n)?;
        let total: usize = match half.checked_mul(2) {
            Some(t) => t,
            None => {
                return Err(Failure::Overflow);
            },
        };
        proof {
            lemmas::lemma_numel4(output_shape.batch as nat, 3, n as nat, 2);
        }
        let mut values: Vec<i64> = Vec::new();
        let mut j: usize = 0;
        while j < total
            invariant
                j <= total,
                total == output_shape.batch * 3 * n * 2,
                n == f * hp * wp,
                p == self.patch_size,
                p > 0,
                hp == output_shape.height / p,
                wp == output_shape.width / p,
                f < i64::MAX,
                output_shape.height < i64::MAX,
                output_shape.width < i64::MAX,
                sizes == seq![output_shape.batch as nat, 3, n as nat, 2],
                values.len() == j,
                forall|i: int|
                    0 <= i < j ==> #[trigger] values[i] == token_bound(
                        p as int,
                        hp as int,
                        wp as int,
                        model::unravel(sizes, i)[1],
                        model::unravel(sizes, i)[2],
                        model::unravel(sizes, i)[3],
                    ),
            decreases total - j,
        {
            proof {
                lemma_unravel4(output_shape.batch as nat, 3, n as nat, 2, j as int);
                assert(n > 0 && hp > 0 && wp > 0) by (nonlinear_arith)
                    requires
                        j < total,
                        j >= 0,
                        total == output_shape.batch * 3 * n * 2,
                        n == f * hp * wp,
                        hp >= 0,
                        wp >= 0,
                ;
            }
            let k: usize = j % 2;
            let token: usize = (j / 2) % n;
            let d: usize = (j / 2) / n % 3;
            proof {
                lemma_token_in_grid(
                    token as int,
                    f as int,
                    hp as int,
                    wp as int,
                    p as int,
                    output_shape.height as int,
                    output_shape.width as int,
                    k as int,
                );
            }
            let value: usize = if d == 0 {
                token / wp / hp + k
            } else if d == 1 {
                (token / wp % hp + k) * p
            } else {
                (token % wp + k) * p
            };
            values.push(value as i64);
            j = j + 1;
        }
        let ghost list = values@;
        let r = Array::integers(values, &dims, device)?.to_dtype(Dtype::F32)?;
        assert(r@.cells =~= video_bounds_of(p as nat, *output_shape).cells);
        Ok(r)
    }
}

/// The numbers of tokens and of their bounds can be counted where the bounds can be addressed.
proof fn lemma_grid_fits(b: nat, f: nat, h: nat, w: nat)
    requires
        b > 0 && f > 0 && h > 0 && w > 0,
        model::fits(seq![b, 3, f * h * w, 2]),
    ensures
        f * h <= usize::MAX,
        f * h * w <= usize::MAX,
        b * 3 <= usize::MAX,
        b * 3 * (f * h * w) * 2 <= usize::MAX,
        b * 3 * (f * h * w) <= usize::MAX,
        model::numel(seq![b, 3, f * h * w, 2]) == b * 3 * (f * h * w) * 2,
{
    let n = f * h * w;
    let dims: Seq<nat> = seq![b, 3, n, 2];
    lemmas::lemma_numel4(b, 3, n, 2);
    assert(f * h > 0 && n > 0 && f * h <= n) by (nonlinear_arith)
        requires
            f > 0,
            h > 0,
            w > 0,
            n == f * h * w,
    ;
    assert(b * 3 * n * 2 > 0 && n <= b * 3 * n && b * 3 <= b * 3 * n) by (nonlinear_arith)
        requires
            b > 0,
            n > 0,
    ;
    lemmas::lemma_extent_is_numel(dims);
}

/// The shapes on the way from tokens to a latent can be addressed where the tokens can.
proof fn lemma_tokens_fit(dims: Seq<nat>, b: nat, c: nat, f: nat, height: nat, width: nat, p: nat)
    requires
        p > 0,
        height % p == 0,
        width % p == 0,
        dims == seq![b, f * (height / p) * (width / p), c * p * p],
        model::fits(dims),
        model::numel(dims) > 0 || model::fits(seq![b, c, f, height / p, p, width / p, p]),
    ensures
        ({
            let (h, w) = (height / p, width / p);
            &&& model::fits(seq![b, f, h, w, c, p, p])
            &&& model::numel(seq![b, f, h, w, c, p, p]) == model::numel(dims)
            &&& model::numel(seq![b, c, f, h, p, w, p]) == model::numel(dims)
            &&& model::fits(seq![b, c, f, height, width])
            &&& model::numel(seq![b, c, f, height, width]) == model::numel(dims)
        }),
{
    let (h, w) = (height / p, width / p);
    vstd::arithmetic::div_mod::lemma_fundamental_div_mod(height as int, p as int);
    vstd::arithmetic::div_mod::lemma_fundamental_div_mod(width as int, p as int);
    vstd::arithmetic::mul::lemma_mul_is_commutative(p as int, h as int);
    vstd::arithmetic::mul::lemma_mul_is_commutative(p as int, w as int);
    lemma_patch_counts(b, c, f, h, w, p);
    if model::numel(dims) > 0 {
        lemmas::lemma_extent_is_numel(dims);
        lemmas::lemma_extent_is_numel(seq![b, f, h, w, c, p, p]);
        lemmas::lemma_extent_is_numel(seq![b, c, f, height, width]);
    } else {
        lemma_patches_fit(b, c, f, h, w, p);
    }
}

/// The coordinates of a token lie within the grid.
proof fn lemma_token_in_grid(n: int, f: int, h: int, w: int, p: int, height: int, width: int, k: int)
    requires
        0 <= k <= 1,
        0 <= n < f * h * w,
        h > 0,
        w > 0,
        p > 0,
        h == height / p,
        w == width / p,
    ensures
        0 <= n / w / h < f,
        0 <= n / w % h < h,
        0 <= n % w < w,
        0 <= (n / w % h + k) * p <= height,
        0 <= (n % w + k) * p <= width,
{
    assert(0 <= n / w < f * h && 0 <= n % w < w) by (nonlinear_arith)
        requires
            0 <= n < f * h * w,
            w > 0,
    ;
    let m = n / w;
    assert(0 <= m / h < f && 0 <= m % h < h) by (nonlinear_arith)
        requires
            0 <= m < f * h,
            h > 0,
    ;
    let a = m % h;
    let b = n % w;
    assert(0 <= (a + k) * p <= height) by (nonlinear_arith)
        requires
            0 <= k <= 1,
            0 <= a < h,
            h == height / p,
            p > 0,
    ;
    assert(0 <= (b + k) * p <= width) by (nonlinear_arith)
        requires
            0 <= k <= 1,
            0 <= b < w,
            w == width / p,
            p > 0,
    ;
}

/// Partial products of the sizes of a non-empty token list fit where the latent fits.
proof fn lemma_products_fit(b: nat, f: nat, h: nat, w: nat, c: nat, p: nat)
    requires
        0 < b * (f * h * w) * (c * p * p) <= usize::MAX,
    ensures
        f * h * w <= usize::MAX,
        f * h <= usize::MAX,
        c * p * p <= usize::MAX,
        c * p <= usize::MAX,
{
    let x = f * h * w;
    let y = c * p * p;
    assert(b >= 1 && x >= 1 && y >= 1 && x <= b * x * y && y <= b * x * y) by (nonlinear_arith)
        requires
            0 < b * x * y,
    ;
    assert(f * h >= 1 && w >= 1 && f * h <= x) by (nonlinear_arith)
        requires
            x == f * h * w,
            x >= 1,
    ;
    assert(c * p <= y) by (nonlinear_arith)
        requires
            y == c * p * p,
            y >= 1,
    ;
}

/// Where an audio latent can be addressed, so can its tokens.
proof fn lemma_audio_tokens_fit(b: nat, c: nat, t: nat, m: nat)
    requires
        model::fits(seq![b, c, t, m]),
    ensures
        c * m <= usize::MAX,
        model::fits(seq![b, t, c * m]),
{
    let (b1, c1) = (lemmas::counted_size(b), lemmas::counted_size(c));
    let (t1, m1) = (lemmas::counted_size(t), lemmas::counted_size(m));
    lemmas::lemma_extent4(b, c, t, m);
    lemmas::lemma_extent3(b, t, c * m);
    lemmas::lemma_merged_size(c, m);
    let w = lemmas::counted_size(c * m);
    assert(b1 * c1 * t1 * m1 == b1 * t1 * (c1 * m1)) by (nonlinear_arith);
    assert(b1 * t1 >= 1) by (nonlinear_arith)
        requires
            b1 >= 1,
            t1 >= 1,
    ;
    let (bt, cm) = (b1 * t1, c1 * m1);
    assert(bt * w <= bt * cm && cm <= bt * cm) by (nonlinear_arith)
        requires
            bt >= 1,
            1 <= w <= cm,
    ;
}

/// Where the patches of a latent can be addressed with an axis for each of their sides, so can its
/// tokens and the latent itself.
proof fn lemma_patches_fit(b: nat, c: nat, f: nat, h: nat, w: nat, p: nat)
    requires
        model::fits(seq![b, c, f, h, p, w, p]) || model::fits(seq![b, f, h, w, c, p, p]),
    ensures
        model::fits(seq![b, c, f, h, p, w, p]),
        model::fits(seq![b, f, h, w, c, p, p]),
        model::fits(seq![b, f * h * w, c * p * p]),
        model::fits(seq![b, c, f, h * p, w * p]),
        f * h * w <= usize::MAX,
        f * h <= usize::MAX,
        c * p * p <= usize::MAX,
        c * p <= usize::MAX,
{
    let (b1, c1, f1) = (lemmas::counted_size(b), lemmas::counted_size(c), lemmas::counted_size(f));
    let (h1, w1, p1) = (lemmas::counted_size(h), lemmas::counted_size(w), lemmas::counted_size(p));
    lemmas::lemma_extent7(b, c, f, h, p, w, p);
    lemmas::lemma_extent7(b, f, h, w, c, p, p);
    lemmas::lemma_extent3(b, f * h * w, c * p * p);
    lemmas::lemma_extent5(b, c, f, h * p, w * p);
    lemma_regroup(b1 as int, c1 as int, f1 as int, h1 as int, w1 as int, p1 as int);
    lemmas::lemma_merged_size(f, h);
    lemmas::lemma_merged_size(f * h, w);
    lemmas::lemma_merged_size(c, p);
    lemmas::lemma_merged_size(c * p, p);
    lemmas::lemma_merged_size(h, p);
    lemmas::lemma_merged_size(w, p);
    let (x, y) = (f1 * h1 * w1, c1 * p1 * p1);
    let fh = lemmas::counted_size(f * h);
    let cp = lemmas::counted_size(c * p);
    assert(fh * w1 <= x) by (nonlinear_arith)
        requires
            fh <= f1 * h1,
            w1 >= 1,
            x == f1 * h1 * w1,
    ;
    assert(cp * p1 <= y) by (nonlinear_arith)
        requires
            cp <= c1 * p1,
            p1 >= 1,
            y == c1 * p1 * p1,
    ;
    assert(f1 * h1 <= x && c1 * p1 <= y) by (nonlinear_arith)
        requires
            f1 * h1 >= 1,
            c1 * p1 >= 1,
            w1 >= 1,
            p1 >= 1,
            x == f1 * h1 * w1,
            y == c1 * p1 * p1,
    ;
    let (x1, y1) = (lemmas::counted_size(f * h * w), lemmas::counted_size(c * p * p));
    assert(b1 * x1 * y1 <= b1 * x * y && x <= b1 * x * y && y <= b1 * x * y) by (nonlinear_arith)
        requires
            1 <= x1 <= x,
            1 <= y1 <= y,
            b1 >= 1,
    ;
    let (hp, wp) = (lemmas::counted_size(h * p), lemmas::counted_size(w * p));
    let front = b1 * c1 * f1;
    assert(front >= 1) by (nonlinear_arith)
        requires
            front == b1 * c1 * f1,
            b1 >= 1,
            c1 >= 1,
            f1 >= 1,
    ;
    assert(front * hp * wp <= front * (h1 * p1) * (w1 * p1)) by (nonlinear_arith)
        requires
            1 <= hp <= h1 * p1,
            1 <= wp <= w1 * p1,
            front >= 1,
    ;
}

/// The product of three sizes.
pub fn product3(a: usize, b: usize, c: usize) -> (r: Result<usize, Failure>)
    ensures
        r matches Ok(n) ==> n == a * b * c,
        r matches Err(e) ==> e == Failure::Overflow,
        a * b <= usize::MAX && a * b * c <= usize::MAX ==> r is Ok,
{
    match a.checked_mul(b) {
        Some(ab) => match ab.checked_mul(c) {
            Some(n) => Ok(n),
            None => Err(Failure::Overflow),
        },
        None => Err(Failure::Overflow),
    }
}

/// A video latent comes back when its tokens are put together again.
pub proof fn law_unpatchify_undoes_patchify(x: TensorView, p: nat, shape: VideoLatentShape)
    requires
        x.wf(),
        x.dims == shape.dims(),
        p > 0,
        shape.height as nat % p == 0,
        shape.width as nat % p == 0,
    ensures
        unpatchify_of(patchify_of(x, p), p, shape) == x,
{
    let (b, c, f) = (x.dims[0], x.dims[1], x.dims[2]);
    let (h, w) = (x.dims[3] / p, x.dims[4] / p);
    vstd::arithmetic::div_mod::lemma_fundamental_div_mod(x.dims[3] as int, p as int);
    vstd::arithmetic::div_mod::lemma_fundamental_div_mod(x.dims[4] as int, p as int);
    vstd::arithmetic::mul::lemma_mul_is_commutative(p as int, h as int);
    vstd::arithmetic::mul::lemma_mul_is_commutative(p as int, w as int);
    lemma_patch_counts(b, c, f, h, w, p);
    lemma_patch_axes();
    assert(x.dims =~= seq![b, c, f, h * p, w * p]);
    let grid = model::reshape(x, seq![b, c, f, h, p, w, p]);
    let there = token_order();
    let back = latent_order();
    let moved = model::permute(grid, there);
    assert(moved.dims =~= seq![b, f, h, w, c, p, p]) by {
        reveal(model::permute);
    }
    let tokens = patchify_of(x, p);
    assert(model::reshape(tokens, seq![b, f, h, w, c, p, p]) == moved);
    lemmas::lemma_permute_inverse(grid, there, back);
    assert(model::reshape(grid, x.dims) =~= x);
}

/// Tokens come back when the latent that they make up is cut again.
pub proof fn law_patchify_undoes_unpatchify(x: TensorView, p: nat, shape: VideoLatentShape)
    requires
        x.wf(),
        p > 0,
        shape.height as nat % p == 0,
        shape.width as nat % p == 0,
        x.dims == seq![
            shape.batch as nat,
            shape.frames as nat * (shape.height as nat / p) * (shape.width as nat / p),
            shape.channels as nat * p * p,
        ],
    ensures
        patchify_of(unpatchify_of(x, p, shape), p) == x,
{
    let (b, c, f) = (shape.batch as nat, shape.channels as nat, shape.frames as nat);
    let (h, w) = (shape.height as nat / p, shape.width as nat / p);
    vstd::arithmetic::div_mod::lemma_fundamental_div_mod(shape.height as int, p as int);
    vstd::arithmetic::div_mod::lemma_fundamental_div_mod(shape.width as int, p as int);
    vstd::arithmetic::mul::lemma_mul_is_commutative(p as int, h as int);
    vstd::arithmetic::mul::lemma_mul_is_commutative(p as int, w as int);
    lemma_patch_counts(b, c, f, h, w, p);
    lemma_patch_axes();
    let grid = model::reshape(x, seq![b, f, h, w, c, p, p]);
    let there = token_order();
    let back = latent_order();
    let moved = model::permute(grid, back);
    assert(moved.dims =~= seq![b, c, f, h, p, w, p]) by {
        reveal(model::permute);
    }
    let latent = unpatchify_of(x, p, shape);
    assert(latent.dims =~= seq![b, c, f, h * p, w * p]);
    assert(model::reshape(latent, seq![b, c, f, h, p, w, p]) == moved);
    lemmas::lemma_permute_inverse(grid, back, there);
    assert(model::reshape(grid, x.dims) =~= x);
}

/// A latent has as many tokens as the patchifier counts.
pub proof fn law_token_count(patchifier: VideoLatentPatchifier, x: TensorView, shape: VideoLatentShape)
    requires
        patchifier.patch_size > 0,
        x.dims == shape.dims(),
    ensures
        patchify_of(x, patchifier.patch_size as nat).dims[1] == patchifier.token_count(shape),
        video_bounds_of(patchifier.patch_size as nat, shape).dims[2] == patchifier.token_count(shape),
{
}

/// The three scale factors in the order of the axes.
pub open spec fn scale_of(factors: SpatioTemporalScaleFactors) -> TensorView {
    model::reshape(
        model::cast(
            model::integers(
                seq![factors.time as i64, factors.height as i64, factors.width as i64],
                seq![3],
            ),
            Dtype::F32,
        ),
        seq![1, 3, 1, 1],
    )
}

/// Latent coordinates in pixels and frames. With the causal fix the first latent
/// frame stands for one frame, and those after it for `time` frames each.
pub open spec fn pixel_coords_of(
    coords: TensorView,
    factors: SpatioTemporalScaleFactors,
    causal_fix: bool,
) -> TensorView {
    let pixels = model::binary(BinOp::Times, model::cast(coords, Dtype::F32), scale_of(factors));
    if causal_fix {
        let shift = model::binary(BinOp::Minus, model::number(ONE), model::count(factors.time as nat));
        let moved = model::affine(model::narrow(pixels, 1, 0, 1), model::number(ONE), shift);
        model::cat(
            seq![model::clamp(moved, ZERO, INFINITY), model::narrow(pixels, 1, 1, 2)],
            1,
        )
    } else {
        pixels
    }
}

/// A latent coordinate along axis `d` in pixels or frames.
pub open spec fn pixel_of(coord: model::Cell, d: int, factors: SpatioTemporalScaleFactors, causal_fix: bool) -> model::Cell {
    let scaled = model::Cell::Binary(
        BinOp::Times,
        Box::new(coord),
        Box::new(scale_of(factors).cells[d]),
    );
    if causal_fix && d == 0 {
        let shift = model::binary(BinOp::Minus, model::number(ONE), model::count(factors.time as nat));
        let moved = model::Cell::Affine {
            x: Box::new(scaled),
            mul: Box::new(model::number(ONE).cells[0]),
            add: Box::new(shift.cells[0]),
        };
        let raised = model::Cell::Binary(
            BinOp::Maximum,
            Box::new(moved),
            Box::new(model::cast(model::number(ZERO), Dtype::F32).cells[0]),
        );
        model::Cell::Binary(
            BinOp::Minimum,
            Box::new(raised),
            Box::new(model::cast(model::number(INFINITY), Dtype::F32).cells[0]),
        )
    } else {
        scaled
    }
}

/// Each coordinate is brought into pixels or frames by itself, in a way that depends on its axis
/// alone.
pub proof fn law_pixel_coordinates(
    coords: TensorView,
    factors: SpatioTemporalScaleFactors,
    causal_fix: bool,
    idx: Seq<int>,
)
    requires
        coords.wf(),
        coords.rank() == 4 && coords.dims[1] == 3,
        model::in_bounds(coords.dims, idx),
    ensures
        pixel_coords_of(coords, factors, causal_fix).at(idx) == pixel_of(
            model::cast(coords, Dtype::F32).at(idx),
            idx[1],
            factors,
            causal_fix,
        ),
{
    let wide = model::cast(coords, Dtype::F32);
    let scale = scale_of(factors);
    let d = coords.dims;
    assert(lemmas::spreads(scale.dims, d));
    lemmas::lemma_spread_common(scale.dims, d);
    let pixels = model::binary(BinOp::Times, wide, scale);
    lemmas::lemma_binary_at(BinOp::Times, wide, scale, idx);
    let place: Seq<int> = seq![0, idx[1], 0, 0];
    assert(lemmas::repeated(scale.dims, d, idx) =~= place);
    assert(model::in_bounds(scale.dims, place));
    lemmas::lemma_ravel4(scale.dims, place);
    assert(scale.at(place) == scale.cells[idx[1]]);
    assert(pixels.dtype == Dtype::F32) by {
        reveal(model::binary);
        reveal(model::broadcast_to);
    }
    if causal_fix {
        let shift = model::binary(BinOp::Minus, model::number(ONE), model::count(factors.time as nat));
        let first = model::narrow(pixels, 1, 0, 1);
        let moved = model::affine(first, model::number(ONE), shift);
        let lower = model::cast(model::number(ZERO), moved.dtype);
        let upper = model::cast(model::number(INFINITY), moved.dtype);
        let raised = model::binary(BinOp::Maximum, moved, lower);
        let rest = model::narrow(pixels, 1, 1, 2);
        lemmas::lemma_narrow_dims(pixels, 1, 0, 1);
        lemmas::lemma_narrow_dims(pixels, 1, 1, 2);
        lemmas::lemma_with_single(BinOp::Maximum, moved, lower);
        lemmas::lemma_with_single(BinOp::Minimum, raised, upper);
        let clamped = model::clamp(moved, ZERO, INFINITY);
        assert(clamped.dims.update(1, clamped.dims[1] + rest.dims[1]) =~= d);
        lemmas::lemma_parts_at(clamped, rest, 1, idx);
        if idx[1] == 0 {
            let part = d.update(1, 1);
            assert(model::in_bounds(part, idx));
            lemmas::lemma_narrow_at(pixels, 1, 0, 1, idx);
            assert(idx.update(1, idx[1] + 0) =~= idx);
            lemmas::lemma_binary_at(BinOp::Maximum, moved, lower, idx);
            lemmas::lemma_binary_at(BinOp::Minimum, raised, upper, idx);
            let none = Seq::<int>::empty();
            assert(lemmas::repeated(lower.dims, part, idx) =~= none);
            assert(model::ravel(Seq::<nat>::empty(), none) == 0);
            lemmas::lemma_ravel(part, idx);
            assert(first.cells.len() == model::numel(part) && first.dtype == Dtype::F32) by {
                reveal(model::narrow);
            }
            let scaled = pixels.at(idx);
            assert(first.at(idx) == scaled);
            assert(moved.at(idx) == model::Cell::Affine {
                x: Box::new(scaled),
                mul: Box::new(model::number(ONE).cells[0]),
                add: Box::new(shift.cells[0]),
            });
            assert(raised.at(idx) == model::Cell::Binary(
                BinOp::Maximum,
                Box::new(moved.at(idx)),
                Box::new(lower.cells[0]),
            ));
            assert(clamped.at(idx) == model::Cell::Binary(
                BinOp::Minimum,
                Box::new(raised.at(idx)),
                Box::new(upper.cells[0]),
            ));
        } else {
            let o = idx.update(1, idx[1] - 1);
            assert(model::in_bounds(d.update(1, 2), o));
            lemmas::lemma_narrow_at(pixels, 1, 1, 2, o);
            assert(o.update(1, o[1] + 1) =~= idx);
        }
    }
}

/// In pixels and frames, as on the grid, a token ends where the next one along an axis begins.
pub proof fn law_pixel_intervals(
    p: nat,
    shape: VideoLatentShape,
    factors: SpatioTemporalScaleFactors,
    causal_fix: bool,
    b: int,
    n: int,
)
    requires
        p > 0,
        0 <= b < shape.batch,
        0 <= n < shape.frames as nat * (shape.height as nat / p) * (shape.width as nat / p),
    ensures
        ({
            let (h, w) = (shape.height as nat / p, shape.width as nat / p);
            let t = pixel_coords_of(video_bounds_of(p, shape), factors, causal_fix);
            &&& n + h * w < shape.frames as nat * h * w ==> t.at(seq![b, 0, n, 1]) == t.at(
                seq![b, 0, n + h * w, 0],
            )
            &&& n / (w as int) % (h as int) + 1 < h ==> t.at(seq![b, 1, n, 1]) == t.at(seq![b, 1, n + w, 0])
            &&& n % (w as int) + 1 < w ==> t.at(seq![b, 2, n, 1]) == t.at(seq![b, 2, n + 1, 0])
        }),
{
    let (h, w, f) = (shape.height as nat / p, shape.width as nat / p, shape.frames as nat);
    let coords = video_bounds_of(p, shape);
    let tokens = f * h * w;
    let d: Seq<nat> = seq![shape.batch as nat, 3, tokens, 2];
    assert(h > 0 && w > 0) by (nonlinear_arith)
        requires
            0 <= n < f * h * w,
            h >= 0,
            w >= 0,
            f >= 0,
    ;
    law_token_intervals(p as int, h as int, w as int, n);
    if n + h * w < tokens {
        lemma_bound_at(p, shape, factors, causal_fix, b, 0, n, 1);
        lemma_bound_at(p, shape, factors, causal_fix, b, 0, n + h * w, 0);
    }
    if n / (w as int) % (h as int) + 1 < h {
        lemma_row_below(n, f as int, h as int, w as int);
        lemma_bound_at(p, shape, factors, causal_fix, b, 1, n, 1);
        lemma_bound_at(p, shape, factors, causal_fix, b, 1, n + w, 0);
    }
    if n % (w as int) + 1 < w {
        lemma_column_right(n, (f * h) as int, w as int);
        lemma_bound_at(p, shape, factors, causal_fix, b, 2, n, 1);
        lemma_bound_at(p, shape, factors, causal_fix, b, 2, n + 1, 0);
    }
}

/// A token that has another one to its right is not the last.
proof fn lemma_column_right(n: int, rows: int, w: int)
    requires
        0 <= n < rows * w,
        w > 0,
        n % w + 1 < w,
    ensures
        n + 1 < rows * w,
{
    let (q, r) = (n / w, n % w);
    vstd::arithmetic::div_mod::lemma_fundamental_div_mod(n, w);
    assert(n + 1 < rows * w) by (nonlinear_arith)
        requires
            n == w * q + r,
            r + 1 < w,
            n < rows * w,
            w > 0,
            r >= 0,
    ;
}

/// A token that has another one below it has a row behind its own.
proof fn lemma_row_below(n: int, f: int, h: int, w: int)
    requires
        0 <= n < f * h * w,
        h > 0,
        w > 0,
        n / w % h + 1 < h,
    ensures
        n + w < f * h * w,
{
    let (q, r) = (n / w, n % w);
    vstd::arithmetic::div_mod::lemma_fundamental_div_mod(n, w);
    assert(0 <= q < f * h) by (nonlinear_arith)
        requires
            n == w * q + r,
            0 <= r < w,
            0 <= n < f * h * w,
            w > 0,
    ;
    lemma_column_right(q, f, h);
    let rows = f * h;
    assert(n + w < rows * w) by (nonlinear_arith)
        requires
            n == w * q + r,
            0 <= r < w,
            q + 1 < rows,
            w > 0,
    ;
}

/// The coordinate of a token in pixels or frames.
proof fn lemma_bound_at(
    p: nat,
    shape: VideoLatentShape,
    factors: SpatioTemporalScaleFactors,
    causal_fix: bool,
    b: int,
    d: int,
    n: int,
    k: int,
)
    requires
        p > 0,
        0 <= b < shape.batch,
        0 <= d < 3,
        0 <= n < shape.frames as nat * (shape.height as nat / p) * (shape.width as nat / p),
        0 <= k < 2,
    ensures
        pixel_coords_of(video_bounds_of(p, shape), factors, causal_fix).at(seq![b, d, n, k]) == pixel_of(
            model::Cell::Cast(
                Dtype::F32,
                Box::new(
                    model::Cell::Int(
                        token_bound(
                            p as int,
                            (shape.height as nat / p) as int,
                            (shape.width as nat / p) as int,
                            d,
                            n,
                            k,
                        ),
                    ),
                ),
            ),
            d,
            factors,
            causal_fix,
        ),
{
    let coords = video_bounds_of(p, shape);
    let idx = seq![b, d, n, k];
    assert(model::in_bounds(coords.dims, idx));
    lemmas::lemma_ravel(coords.dims, idx);
    law_pixel_coordinates(coords, factors, causal_fix, idx);
    assert(model::cast(coords, Dtype::F32) == coords);
}

proof fn lemma_scale_shape()
    ensures
        model::numel(seq![3nat]) == 3,
        model::fits(seq![3nat]),
        model::numel(seq![1nat, 3, 1, 1]) == 3,
        model::fits(seq![1nat, 3, 1, 1]),
{
    lemmas::lemma_numel1(3);
    lemmas::lemma_numel4(1, 3, 1, 1);
    lemmas::lemma_extent_is_numel(seq![3nat]);
    lemmas::lemma_extent_is_numel(seq![1nat, 3, 1, 1]);
}

/// Latent coordinates in pixels and frames.
pub fn get_pixel_coords(latent_coords: &Array, scale_factors: &SpatioTemporalScaleFactors, causal_fix: bool) -> (r:
    Result<Array, Failure>)
    ensures
        r matches Ok(t) ==> t@ == pixel_coords_of(latent_coords@, *scale_factors, causal_fix),
        r matches Err(e) ==> e.basic(),
        latent_coords.usable() && model::fits(latent_coords@.dims) && latent_coords@.rank() == 4 && latent_coords@.dims[1] == 3 && scale_factors.time
            <= i64::MAX && scale_factors.height <= i64::MAX && scale_factors.width <= i64::MAX ==> (r matches Ok(t)
            && t.on_cpu() && t@.dims == latent_coords@.dims && t@.dtype == Dtype::F32),
{
    proof {
        lemma_scale_shape();
    }
    let device = latent_coords.device();
    let limit: u64 = i64::MAX as u64;
    if scale_factors.time as u64 > limit || scale_factors.height as u64 > limit || scale_factors.width as u64
        > limit {
        return Err(Failure::Overflow);
    }
    let factors: Vec<i64> = vec![
        scale_factors.time as i64,
        scale_factors.height as i64,
        scale_factors.width as i64,
    ];
    assert(factors@ =~= seq![
        scale_factors.time as i64,
        scale_factors.height as i64,
        scale_factors.width as i64,
    ]);
    let scale = Array::integer_list(factors, &device)?.to_dtype(Dtype::F32)?.reshape4(1, 3, 1, 1)?;
    proof {
        if latent_coords@.rank() == 4 && latent_coords@.dims[1] == 3 {
            assert(lemmas::spreads(scale@.dims, latent_coords@.dims));
            lemmas::lemma_spread_common(scale@.dims, latent_coords@.dims);
        }
    }
    let pixel_coords = latent_coords.to_dtype(Dtype::F32)?.broadcast(BinOp::Times, &scale)?;
    proof {
        lemmas::lemma_narrow_dims(pixel_coords@, 1, 0, 1);
        lemmas::lemma_narrow_dims(pixel_coords@, 1, 1, 2);
    }
    if causal_fix {
        let shift = Array::number(ONE)?.broadcast(BinOp::Minus, &Array::count(scale_factors.time)?)?;
        let temporal = pixel_coords.narrow(1, 0, 1)?;
        let adjusted = temporal.shift_by(&shift)?.clamp(ZERO, INFINITY)?;
        let height_width = pixel_coords.narrow(1, 1, 2)?;
        proof {
            lemmas::lemma_rejoined(pixel_coords@.dims, adjusted@, height_width@);
        }
        Array::join(adjusted, height_width, 1)
    } else {
        Ok(pixel_coords)
    }
}

/// Makes audio latents into tokens of one frame.
#[derive(Clone, Copy, Debug)]
pub struct AudioPatchifier {
    pub patch_size: usize,
    pub sample_rate: usize,
    pub hop_length: usize,
    pub audio_latent_downsample_factor: usize,
    pub is_causal: bool,
}

/// `b c t m -> b t (c m)`.
pub open spec fn audio_patchify_of(x: TensorView) -> TensorView {
    model::reshape(
        model::permute(x, audio_order()),
        seq![x.dims[0], x.dims[2], x.dims[1] * x.dims[3]],
    )
}

/// `b t (c m) -> b c t m`.
pub open spec fn audio_unpatchify_of(x: TensorView, shape: AudioLatentShape) -> TensorView {
    model::permute(
        model::reshape(
            x,
            seq![x.dims[0], x.dims[1], shape.channels as nat, shape.mel_bins as nat],
        ),
        audio_order(),
    )
}

/// The axes of an audio latent with channels and time exchanged.
pub open spec fn audio_order() -> Seq<int> {
    seq![0, 2, 1, 3]
}

proof fn lemma_audio_axes()
    ensures
        model::is_permutation(audio_order(), 4),
        forall|j: int| 0 <= j < 4 ==> audio_order()[#[trigger] audio_order()[j]] == j,
{
}

impl AudioPatchifier {
    pub fn new(patch_size: usize) -> (r: AudioPatchifier)
        ensures
            r == (AudioPatchifier {
                patch_size,
                sample_rate: 16000,
                hop_length: 160,
                audio_latent_downsample_factor: 4,
                is_causal: true,
            }),
    {
        AudioPatchifier {
            patch_size,
            sample_rate: 16000,
            hop_length: 160,
            audio_latent_downsample_factor: 4,
            is_causal: true,
        }
    }

    /// The number of tokens of a latent: one for each frame.
    pub fn get_token_count(&self, shape: &AudioLatentShape) -> (r: usize)
        ensures
            r == shape.frames,
    {
        shape.frames
    }

    /// `(B, C, T, M)` to `(B, T, C * M)`. In main memory it fails on another
    /// number of axes only.
    pub fn patchify(&self, latents: &Array) -> (r: Result<Array, Failure>)
        ensures
            r matches Ok(t) ==> t@ == audio_patchify_of(latents@),
            r matches Ok(t) ==> t.on_cpu() == latents.on_cpu(),
            r is Ok ==> latents@.rank() == 4,
            latents@.rank() != 4 ==> r == Err::<Array, Failure>(
                Failure::Rank { expected: 4, got: latents@.rank() as usize },
            ),
            r matches Err(e) ==> e.basic(),
            latents.usable() && latents@.rank() == 4 ==> r is Ok,
    {
        let (b, c, t, mel) = latents.dims4()?;
        let ghost tokens: Seq<nat> = seq![b as nat, t as nat, c as nat * mel as nat];
        proof {
            lemma_audio_axes();
            lemmas::lemma_numel4(b as nat, c as nat, t as nat, mel as nat);
            lemmas::lemma_numel4(b as nat, t as nat, c as nat, mel as nat);
            lemmas::lemma_numel3(b as nat, t as nat, c as nat * mel as nat);
            assert(b * c * t * mel == b * t * c * mel) by (nonlinear_arith);
            assert(b * t * c * mel == b * t * (c * mel)) by (nonlinear_arith);
            lemma_audio_tokens_fit(b as nat, c as nat, t as nat, mel as nat);
        }
        let x = latents.permute4(0, 2, 1, 3)?;
        proof {
            reveal(model::permute);
            assert(x@.dims =~= seq![b as nat, t as nat, c as nat, mel as nat]);
        }
        let width: usize = match c.checked_mul(mel) {
            Some(w) => w,
            None => {
                return Err(Failure::Overflow);
            },
        };
        x.reshape3(b, t, width)
    }

    /// `(B, T, C * M)` to `(B, C, T, M)`. In main memory it does not fail on tokens of that width,
    /// but where there are none and the latent could not be addressed.
    pub fn unpatchify(&self, latents: &Array, output_shape: &AudioLatentShape) -> (r: Result<Array, Failure>)
        ensures
            r matches Ok(t) ==> t@ == audio_unpatchify_of(latents@, *output_shape),
            r is Ok ==> latents@.rank() == 3,
            latents@.rank() != 3 ==> r == Err::<Array, Failure>(
                Failure::Rank { expected: 3, got: latents@.rank() as usize },
            ),
            r matches Err(e) ==> e.basic(),
            latents.usable() && latents@.rank() == 3 && latents@.dims[2] == output_shape.channels
                * output_shape.mel_bins && (model::numel(latents@.dims) > 0 || model::fits(
                seq![
                    latents@.dims[0],
                    latents@.dims[1],
                    output_shape.channels as nat,
                    output_shape.mel_bins as nat,
                ],
            )) ==> r is Ok,
    {
        let (b, t, width) = latents.dims3()?;
        proof {
            lemma_audio_axes();
            let (c, m) = (output_shape.channels as nat, output_shape.mel_bins as nat);
            let split: Seq<nat> = seq![b as nat, t as nat, c, m];
            lemmas::lemma_numel4(b as nat, t as nat, c, m);
            lemmas::lemma_numel3(b as nat, t as nat, width as nat);
            assert(latents@.dims =~= seq![b as nat, t as nat, width as nat]);
            assert(b * t * c * m == b * t * (c * m)) by (nonlinear_arith);
            if model::numel(latents@.dims) > 0 && width == c * m {
                lemmas::lemma_extent_is_numel(latents@.dims);
                lemmas::lemma_extent_is_numel(split);
            }
        }
        let x = latents.reshape4(b, t, output_shape.channels, output_shape.mel_bins)?;
        x.permute4(0, 2, 1, 3)
    }

    /// The spectrogram frame at which a latent frame begins.
    pub open spec fn mel_frame(&self, latent_frame: int) -> int {
        let mel = latent_frame * self.audio_latent_downsample_factor;
        if self.is_causal {
            let shifted = mel + 1 - self.audio_latent_downsample_factor;
            if shifted < 0 {
                0
            } else {
                shifted
            }
        } else {
            mel
        }
    }

    /// The sample at which a latent frame begins.
    pub open spec fn first_sample(&self, latent_frame: int) -> int {
        self.mel_frame(latent_frame) * self.hop_length
    }

    /// The sample at which a latent frame begins.
    pub fn latent_sample(&self, latent_frame: usize) -> (r: Result<usize, Failure>)
        ensures
            r matches Ok(s) ==> s == self.first_sample(latent_frame as int),
            r matches Err(e) ==> e == Failure::Overflow,
            latent_frame * self.audio_latent_downsample_factor < usize::MAX && self.first_sample(
                latent_frame as int,
            ) <= usize::MAX ==> r is Ok,
    {
        let mel: usize = match latent_frame.checked_mul(self.audio_latent_downsample_factor) {
            Some(m) => m,
            None => {
                return Err(Failure::Overflow);
            },
        };
        let mel_frame: usize = if self.is_causal {
            match mel.checked_add(1) {
                Some(m) => {
                    if m < self.audio_latent_downsample_factor {
                        0
                    } else {
                        m - self.audio_latent_downsample_factor
                    }
                },
                None => {
                    return Err(Failure::Overflow);
                },
            }
        } else {
            mel
        };
        match mel_frame.checked_mul(self.hop_length) {
            Some(s) => Ok(s),
            None => Err(Failure::Overflow),
        }
    }

    /// Whether the samples up to a latent frame can be counted.
    pub open spec fn counts_to(&self, latent_frame: int) -> bool {
        &&& latent_frame * self.audio_latent_downsample_factor < usize::MAX
        &&& self.first_sample(latent_frame) <= usize::MAX
        &&& self.first_sample(latent_frame) <= i64::MAX
        &&& self.sample_rate <= i64::MAX
    }

    /// The time at which a latent frame begins, in seconds.
    pub fn latent_time_in_secs(&self, latent_frame: usize) -> (r: Result<Array, Failure>)
        ensures
            r matches Ok(t) ==> t@ == model::binary(
                BinOp::Over,
                model::count(self.first_sample(latent_frame as int) as nat),
                model::count(self.sample_rate as nat),
            ),
            r matches Err(e) ==> e.basic(),
            self.counts_to(latent_frame as int) ==> r is Ok,
    {
        let sample: usize = self.latent_sample(latent_frame)?;
        Array::count(sample)?.broadcast(BinOp::Over, &Array::count(self.sample_rate)?)
    }

    /// The samples at which each frame begins and ends.
    pub open spec fn sample_bounds(&self, shape: AudioLatentShape) -> TensorView {
        let dims = seq![shape.batch as nat, 1, shape.frames as nat, 2];
        TensorView {
            dims,
            dtype: Dtype::F64,
            cells: Seq::new(
                model::numel(dims),
                |j: int|
                    {
                        let o = model::unravel(dims, j);
                        model::Cell::Cast(
                            Dtype::F64,
                            Box::new(model::Cell::Int(self.first_sample(o[2] + o[3]))),
                        )
                    },
            ),
        }
    }

    /// When each token begins and ends, in seconds.
    pub open spec fn bounds_of(&self, shape: AudioLatentShape) -> TensorView {
        model::cast(
            model::binary(
                BinOp::Over,
                self.sample_bounds(shape),
                model::count(self.sample_rate as nat),
            ),
            Dtype::F32,
        )
    }

    /// When each token begins and ends, in seconds: `(B, 1, T, 2)`.
    pub fn get_patch_grid_bounds(&self, output_shape: &AudioLatentShape, device: &candle_core::Device) -> (r:
        Result<Array, Failure>)
        ensures
            r matches Ok(t) ==> t@ == self.bounds_of(*output_shape),
            r matches Err(e) ==> e.basic(),
            crate::array::is_main_memory(*device) && self.counts_to(output_shape.frames as int) && model::fits(
                seq![output_shape.batch as nat, 1, output_shape.frames as nat, 2],
            ) && output_shape.batch > 0 && output_shape.frames > 0 ==> r is Ok,
    {
        let ghost fine = self.counts_to(output_shape.frames as int);
        let t: usize = output_shape.frames;
        let dims: Vec<usize> = vec![output_shape.batch, 1, t, 2];
        let ghost sizes: Seq<nat> = seq![output_shape.batch as nat, 1, t as nat, 2];
        assert(model::nats(dims@) =~= sizes);
        proof {
            let b = output_shape.batch as nat;
            lemmas::lemma_numel4(b, 1, t as nat, 2);
            if b > 0 && t > 0 {
                assert(b * 1 * t * 2 > 0 && b * 1 * t * 2 == b * t * 2 && b * t <= b * t * 2) by (nonlinear_arith)
                    requires
                        b > 0,
                        t > 0,
                ;
                lemmas::lemma_extent_is_numel(sizes);
            }
        }
        let total: usize = product3(output_shape.batch, t, 2)?;
        proof {
            lemmas::lemma_numel4(output_shape.batch as nat, 1, t as nat, 2);
            let b = output_shape.batch as int;
            assert(b * 1 * t * 2 == b * t * 2) by (nonlinear_arith);
        }
        let mut values: Vec<i64> = Vec::new();
        let mut j: usize = 0;
        while j < total
            invariant
                j <= total,
                total == output_shape.batch * t * 2,
                t == output_shape.frames,
                fine == self.counts_to(output_shape.frames as int),
                sizes == seq![output_shape.batch as nat, 1, t as nat, 2],
                values.len() == j,
                forall|i: int|
                    0 <= i < j ==> #[trigger] values[i] == self.first_sample(
                        model::unravel(sizes, i)[2] + model::unravel(sizes, i)[3],
                    ),
            decreases total - j,
        {
            proof {
                lemma_unravel4(output_shape.batch as nat, 1, t as nat, 2, j as int);
                assert(t > 0) by (nonlinear_arith)
                    requires
                        j < total,
                        j >= 0,
                        total == output_shape.batch * t * 2,
                        t >= 0,
                ;
            }
            let frame: usize = (j / 2) % t;
            let edge: usize = frame + j % 2;
            proof {
                law_audio_frames_in_order(*self, edge as int, t as int);
                assert(edge * self.audio_latent_downsample_factor <= t * self.audio_latent_downsample_factor)
                    by (nonlinear_arith)
                    requires
                        edge <= t,
                        self.audio_latent_downsample_factor >= 0,
                ;
            }
            let sample: usize = self.latent_sample(edge)?;
            if sample as u64 > i64::MAX as u64 {
                return Err(Failure::Overflow);
            }
            values.push(sample as i64);
            j = j + 1;
        }
        let ghost list = values@;
        let samples = Array::integers(values, &dims, &crate::array::main_memory())?.to_dtype(Dtype::F64)?;
        assert(samples@.cells =~= self.sample_bounds(*output_shape).cells);
        assert(samples@ == self.sample_bounds(*output_shape));
        proof {
            lemmas::lemma_with_single(BinOp::Over, samples@, model::count(self.sample_rate as nat));
        }
        samples.broadcast(BinOp::Over, &Array::count(self.sample_rate)?)?.to_dtype(Dtype::F32)?.to_device(
            device,
        )
    }
}

/// An audio latent comes back when its tokens are put together again.
pub proof fn law_audio_unpatchify_undoes_patchify(x: TensorView, shape: AudioLatentShape)
    requires
        x.wf(),
        x.dims == shape.dims(),
    ensures
        audio_unpatchify_of(audio_patchify_of(x), shape) == x,
{
    lemma_audio_axes();
    let (b, c, t, m) = (x.dims[0], x.dims[1], x.dims[2], x.dims[3]);
    let axes = audio_order();
    let moved = model::permute(x, axes);
    assert(moved.dims =~= seq![b, t, c, m]) by {
        reveal(model::permute);
    }
    assert(model::reshape(audio_patchify_of(x), seq![b, t, c, m]) == moved);
    lemmas::lemma_permute_inverse(x, axes, axes);
}

/// Audio tokens come back when the latent that they make up is cut again.
pub proof fn law_audio_patchify_undoes_unpatchify(x: TensorView, shape: AudioLatentShape)
    requires
        x.wf(),
        x.dims == seq![
            shape.batch as nat,
            shape.frames as nat,
            shape.channels as nat * shape.mel_bins as nat,
        ],
    ensures
        audio_patchify_of(audio_unpatchify_of(x, shape)) == x,
{
    lemma_audio_axes();
    let (b, t) = (x.dims[0], x.dims[1]);
    let (c, m) = (shape.channels as nat, shape.mel_bins as nat);
    let axes = audio_order();
    let grid = model::reshape(x, seq![b, t, c, m]);
    let moved = model::permute(grid, axes);
    assert(moved.dims =~= seq![b, c, t, m]) by {
        reveal(model::permute);
    }
    lemmas::lemma_numel4(b, t, c, m);
    lemmas::lemma_numel3(b, t, c * m);
    assert(b * t * c * m == b * t * (c * m)) by (nonlinear_arith);
    lemmas::lemma_permute_inverse(grid, axes, axes);
    assert(model::reshape(grid, x.dims) =~= x);
}

/// Latent frames follow on each other in time: each begins where the one before ends,
/// and with the causal layout none begins before the sound does.
pub proof fn law_audio_frames_in_order(p: AudioPatchifier, i: int, j: int)
    requires
        0 <= i <= j,
    ensures
        0 <= p.first_sample(i) <= p.first_sample(j),
        p.is_causal && p.audio_latent_downsample_factor >= 1 ==> p.first_sample(0) == 0,
{
    let f = p.audio_latent_downsample_factor as int;
    let hop = p.hop_length as int;
    assert(0 <= i * f <= j * f) by (nonlinear_arith)
        requires
            0 <= i <= j,
            f >= 0,
    ;
    let a = p.mel_frame(i);
    let b = p.mel_frame(j);
    assert(0 <= a <= b);
    assert(0 <= a * hop <= b * hop) by (nonlinear_arith)
        requires
            0 <= a <= b,
            hop >= 0,
    ;
    assert(0 * f == 0);
    assert(0 * hop == 0);
}

} // verus!
