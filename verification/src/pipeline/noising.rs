//! How a latent lies between its clean version and noise.
use vstd::prelude::*;

use crate::lemmas;
use crate::model::{self, BinOp, TensorView};
use crate::pipeline::denoise::noised_of;
use crate::reals::{self, Functions};
use crate::scalar::{ONE, ZERO};
use crate::scheduler::diffusion_step::{self, level_value};

verus! {

/// Whether a latent, noise of its shape and a noise level go together.
pub open spec fn mixable(clean: TensorView, noise: TensorView, sigma: TensorView) -> bool {
    &&& clean.wf() && noise.wf() && sigma.wf()
    &&& clean.dims == noise.dims
    &&& clean.dtype.float() && noise.dtype.float() && sigma.dtype.float()
    &&& sigma.rank() == 0
}

/// A noised latent lies on the straight line from its clean version to the noise, as far along it as
/// the noise level says: without noise it is the clean version, at level one the noise.
pub proof fn law_noised(clean: TensorView, noise: TensorView, sigma: TensorView, i: int, f: Functions)
    requires
        mixable(clean, noise, sigma),
        0 <= i < clean.cells.len(),
    ensures
        noised_of(clean, noise, sigma).dims == clean.dims,
        noised_of(clean, noise, sigma).wf(),
        noised_of(clean, noise, sigma).dtype == clean.dtype,
        ({
            let (y, c, n, s) = (
                reals::value(noised_of(clean, noise, sigma).cells[i], f),
                reals::value(clean.cells[i], f),
                reals::value(noise.cells[i], f),
                level_value(sigma, f),
            );
            &&& y - c == s * (n - c)
            &&& s == 0real ==> y == c
            &&& s == 1real ==> y == n
        }),
{
    broadcast use reals::group_reading;
    lemmas::lemma_single();
    reals::lemma_constants();
    assert(sigma.dims =~= Seq::<nat>::empty());
    let level = diffusion_step::wide(sigma);
    let rest = model::binary(BinOp::Minus, model::number(ONE), level);
    let (c, n, s) = (reals::value(clean.cells[i], f), reals::value(noise.cells[i], f), level_value(sigma, f));
    assert(level_value(level, f) == s);
    assert(level_value(rest, f) == 1real - s);
    let a = model::affine(clean, rest, model::number(ZERO));
    let b = model::affine(noise, level, model::number(ZERO));
    assert(reals::value(a.cells[i], f) == c * (1real - s));
    assert(reals::value(b.cells[i], f) == n * s);
    assert(c * (1real - s) + n * s - c == s * (n - c)) by (nonlinear_arith);
    assert(0real * (n - c) == 0real && 1real * (n - c) == n - c) by (nonlinear_arith);
}

/// A step of Euler's method with a right prediction stays on that line: it leads from one noise level
/// to the next.
pub proof fn law_step_along_noise(
    clean: TensorView,
    noise: TensorView,
    sigma: TensorView,
    next: TensorView,
    i: int,
    f: Functions,
)
    requires
        mixable(clean, noise, sigma) && mixable(clean, noise, next),
        0 <= i < clean.cells.len(),
        level_value(sigma, f) != 0real,
    ensures
        reals::value(
            diffusion_step::euler_of(noised_of(clean, noise, sigma), clean, sigma, next).cells[i],
            f,
        ) == reals::value(noised_of(clean, noise, next).cells[i], f),
{
    law_noised(clean, noise, sigma, i, f);
    law_noised(clean, noise, next, i, f);
    diffusion_step::law_euler_step(noised_of(clean, noise, sigma), clean, sigma, next, i, f);
    let y = reals::value(diffusion_step::euler_of(noised_of(clean, noise, sigma), clean, sigma, next).cells[i], f);
    let (c, s, m) = (reals::value(clean.cells[i], f), level_value(sigma, f), level_value(next, f));
    let u = reals::value(noise.cells[i], f) - c;
    assert((s * u) * m == (m * u) * s) by (nonlinear_arith);
    let (p, q) = (y - c, m * u);
    assert(p * s == q * s);
    assert((p - q) * s == p * s - q * s) by (nonlinear_arith);
    let w = p - q;
    assert(w == 0real) by (nonlinear_arith)
        requires
            w * s == 0real,
            s != 0real,
    ;
}

} // verus!
