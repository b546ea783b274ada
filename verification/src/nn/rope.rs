//! Rotary positional embeddings.
use vstd::prelude::*;

use crate::array::{self, Array};
use crate::error::Failure;
use crate::lemmas;
use crate::model::{self, BinOp, Dtype, TensorView, UnOp};
use crate::scalar::{Scalar, HALF, MINUS_ONE, PI, TWO, ZERO};

verus! {

/// How the elements of a head pair up.
#[derive(Clone, Copy, PartialEq, Eq, Structural, Debug)]
pub enum LTXRopeType {
    /// Neighbours.
    Interleaved,
    /// The first half with the second half.
    Split,
}

/// What rotating `input` by the given cosines and sines gives.
pub open spec fn rotary_of(input: TensorView, cos: TensorView, sin: TensorView, rope_type: LTXRopeType) -> TensorView {
    match rope_type {
        LTXRopeType::Interleaved => interleaved_of(input, cos, sin),
        LTXRopeType::Split => split_of(input, cos, sin),
    }
}

/// Rotates the pairs of `input`.
pub fn apply_rotary_emb(input: &Array, cos_freqs: &Array, sin_freqs: &Array, rope_type: LTXRopeType) -> (r: Result<
    Array,
    Failure,
>)
    ensures
        r matches Ok(t) ==> t@ == rotary_of(input@, cos_freqs@, sin_freqs@, rope_type),
        rotates(input, cos_freqs, sin_freqs, rope_type) ==> (r matches Ok(t) && t.on_cpu() && t@.dims
            == input@.dims && t@.dtype == input@.dtype),
        rope_type == LTXRopeType::Interleaved && input@.rank() > 0 && input@.dims.last() % 2 != 0 ==> r == Err::<
            Array,
            Failure,
        >(Failure::OddRope),
{
    match rope_type {
        LTXRopeType::Interleaved => apply_interleaved_rotary_emb(input, cos_freqs, sin_freqs),
        LTXRopeType::Split => apply_split_rotary_emb(input, cos_freqs, sin_freqs),
    }
}

/// Every pair `(a, b)` along the last axis replaced by `(-b, a)`.
pub open spec fn turned(x: TensorView) -> TensorView {
    let n = x.rank() as int;
    let paired = model::reshape(x, x.dims.drop_last().push(x.dims.last() / 2).push(2));
    let first = model::squeeze(model::narrow(paired, n, 0, 1), n);
    let second = model::squeeze(model::narrow(paired, n, 1, 1), n);
    let parts = seq![model::unsqueeze(model::unary(UnOp::Neg, second), n), model::unsqueeze(first, n)];
    model::reshape(model::cat(parts, n), x.dims)
}

/// Of the elements `2 k` and `2 k + 1` along the last axis, the first is replaced by the
/// second with its sign changed, and the second by the first.
pub proof fn law_turned_pairs(x: TensorView, idx: Seq<int>, k: int)
    requires
        x.rank() > 0,
        x.dims.last() % 2 == 0,
        model::in_bounds(x.dims.drop_last(), idx),
        0 <= 2 * k < x.dims.last(),
    ensures
        turned(x).dims == x.dims,
        turned(x).at(idx.push(2 * k)) == model::Cell::Unary(UnOp::Neg, Box::new(x.at(idx.push(2 * k + 1)))),
        turned(x).at(idx.push(2 * k + 1)) == x.at(idx.push(2 * k)),
{
    let n = x.rank() as int;
    let half = x.dims.last() / 2;
    let front = x.dims.drop_last();
    let halves = front.push(half);
    let paired = model::reshape(x, halves.push(2));
    let a = model::narrow(paired, n, 0, 1);
    let b = model::narrow(paired, n, 1, 1);
    let at = idx.push(k);
    assert forall|j: int| 0 <= j < halves.len() implies 0 <= #[trigger] at[j] < halves[j] by {
        if j < front.len() {
            assert(at[j] == idx[j] && halves[j] == front[j]);
        }
    }
    assert(halves.push(2).update(n, 1) =~= halves.push(1));
    let o = at.push(0);
    assert forall|j: int| 0 <= j < n + 1 implies 0 <= #[trigger] o[j] < halves.push(1)[j] by {
        if j < n {
            assert(o[j] == at[j] && halves.push(1)[j] == halves[j]);
        }
    }
    lemmas::lemma_narrow_at(paired, n, 0, 1, o);
    lemmas::lemma_narrow_at(paired, n, 1, 1, o);
    lemmas::lemma_narrow_dims(paired, n, 0, 1);
    lemmas::lemma_narrow_dims(paired, n, 1, 1);
    assert(o.update(n, 0) =~= at.push(0));
    assert(o.update(n, 1) =~= at.push(1));
    assert(halves.push(1).remove(n) =~= halves);
    assert(halves.insert(n, 1) =~= halves.push(1));
    lemmas::lemma_ravel_one(halves, at);
    let first = model::squeeze(a, n);
    let second = model::squeeze(b, n);
    assert(first.at(at) == paired.at(at.push(0)));
    assert(second.at(at) == paired.at(at.push(1)));
    lemma_pair_position(x, idx, k, 0);
    lemma_pair_position(x, idx, k, 1);
    let neg = model::unsqueeze(model::unary(UnOp::Neg, second), n);
    let kept = model::unsqueeze(first, n);
    let parts = seq![neg, kept];
    assert(parts.drop_last() =~= seq![neg]);
    assert(model::cat(seq![neg], n) == neg);
    assert(model::cat(parts, n) == model::cat2(neg, kept, n));
    assert(neg.dims.drop_last() =~= halves);
    lemmas::lemma_cat2_at(neg, kept, halves, at, 0);
    lemmas::lemma_cat2_at(neg, kept, halves, at, 1);
    lemmas::lemma_ravel(halves, at);
    lemma_second_size(x, b);
    assert(neg.at(at.push(0)) == model::Cell::Unary(UnOp::Neg, Box::new(second.at(at))));
    let joined = model::cat(parts, n);
    assert(joined.dims == halves.push(2));
    assert(turned(x) == model::reshape(joined, x.dims));
    lemma_pair_position(turned(x), idx, k, 0);
    lemma_pair_position(turned(x), idx, k, 1);
}

/// Element `e` of pair `k` is element `2 k + e` of the last axis.
proof fn lemma_pair_position(x: TensorView, idx: Seq<int>, k: int, e: int)
    requires
        x.rank() > 0,
        x.dims.last() % 2 == 0,
        idx.len() == x.rank() - 1,
    ensures
        model::ravel(x.dims.drop_last().push(x.dims.last() / 2).push(2), idx.push(k).push(e)) == model::ravel(
            x.dims,
            idx.push(2 * k + e),
        ),
{
    let front = x.dims.drop_last();
    let half = x.dims.last() / 2;
    assert(x.dims =~= front.push(x.dims.last()));
    lemmas::lemma_ravel_push(front, x.dims.last(), idx, 2 * k + e);
    lemmas::lemma_ravel_push(front, half, idx, k);
    lemmas::lemma_ravel_push(front.push(half), 2, idx.push(k), e);
    let r = model::ravel(front, idx);
    assert(r * x.dims.last() + (2 * k + e) == (r * half + k) * 2 + e) by (nonlinear_arith)
        requires
            x.dims.last() == 2 * half,
    ;
}

/// A part of pairs has as many elements as its shape says.
proof fn lemma_second_size(x: TensorView, part: TensorView)
    requires
        x.rank() > 0,
        part == model::narrow(
            model::reshape(x, x.dims.drop_last().push(x.dims.last() / 2).push(2)),
            x.rank() as int,
            1,
            1,
        ),
    ensures
        part.cells.len() == model::numel(x.dims.drop_last().push(x.dims.last() / 2)),
{
    reveal(model::narrow);
    let halves = x.dims.drop_last().push(x.dims.last() / 2);
    assert(halves.push(2).update(x.rank() as int, 1) =~= halves.push(1));
    lemmas::lemma_numel_push(halves, 1);
}

/// `x * cos + turned(x) * sin`.
pub open spec fn interleaved_of(x: TensorView, cos: TensorView, sin: TensorView) -> TensorView {
    model::binary(
        BinOp::Plus,
        model::binary(BinOp::Times, x, cos),
        model::binary(BinOp::Times, turned(x), sin),
    )
}

/// Whether `freqs` can be repeated to the shape of `x`, in main memory.
pub open spec fn spans(x: &Array, freqs: &Array) -> bool {
    x.takes(freqs) && model::common_dims(x@.dims, freqs@.dims) == x@.dims
}

/// Pairs along a last axis have the elements and the room of the axis.
proof fn lemma_pair_shapes(dims: Seq<nat>)
    requires
        dims.len() > 0,
        dims.last() % 2 == 0,
    ensures
        ({
            let paired = dims.drop_last().push(dims.last() / 2).push(2);
            &&& model::numel(paired) == model::numel(dims)
            &&& model::numel(dims) > 0 && model::fits(dims) ==> model::fits(paired)
        }),
{
    let front = dims.drop_last();
    let half = dims.last() / 2;
    assert(dims =~= front.push(dims.last()));
    lemmas::lemma_numel_push(front, dims.last());
    lemmas::lemma_numel_push(front, half);
    lemmas::lemma_numel_push(front.push(half), 2);
    let c = model::numel(front);
    assert(c * half * 2 == c * dims.last()) by (nonlinear_arith)
        requires
            dims.last() == 2 * half,
    ;
    if model::numel(dims) > 0 {
        lemmas::lemma_extent_is_numel(dims);
        lemmas::lemma_extent_is_numel(front.push(half).push(2));
    }
}

/// The two parts of all pairs make up the pairs.
proof fn lemma_pair_join(a: TensorView, b: TensorView, halves: Seq<nat>)
    requires
        a.dims == halves.push(1),
        b.dims == halves.push(1),
    ensures
        model::joinable(seq![a, b], halves.len() as int),
        model::cat(seq![a, b], halves.len() as int).dims == halves.push(2),
        model::cat(seq![a, b], halves.len() as int).dtype == a.dtype,
{
    reveal(model::cat2);
    let n = halves.len() as int;
    let parts = seq![a, b];
    assert(parts[0] == a && parts[1] == b);
    model::lemma_cat_dims(parts, n);
    assert(parts.drop_last() =~= seq![a]);
    assert(seq![a].drop_last() =~= Seq::<TensorView>::empty());
    assert(model::joined_size(Seq::<TensorView>::empty(), n) == 0);
    assert(seq![a].last() == a && parts.last() == b);
    assert(model::joined_size(seq![a], n) == 1);
    assert(model::joined_size(parts, n) == 2);
    assert(halves.push(1).update(n, 2) =~= halves.push(2));
    assert(model::cat(seq![a], n) == a);
    assert(model::cat(parts, n) == model::cat2(model::cat(parts.drop_last(), n), b, n));
}

/// Rotates neighbouring elements: `(a, b)` becomes `(a cos - b sin, a sin + b cos)`.
pub fn apply_interleaved_rotary_emb(input: &Array, cos_freqs: &Array, sin_freqs: &Array) -> (r: Result<
    Array,
    Failure,
>)
    ensures
        r matches Ok(t) ==> t@ == interleaved_of(input@, cos_freqs@, sin_freqs@),
        r is Ok ==> input@.rank() > 0 && input@.dims.last() % 2 == 0,
        input@.rank() > 0 && input@.dims.last() % 2 != 0 ==> r == Err::<Array, Failure>(Failure::OddRope),
        rotates(input, cos_freqs, sin_freqs, LTXRopeType::Interleaved) ==> (r matches Ok(t) && t.on_cpu() && t@.dims
            == input@.dims && t@.dtype == input@.dtype),
{
    let dims = input.dims();
    let n: usize = dims.len();
    if n == 0 {
        return Err(Failure::Shape);
    }
    let last_dim: usize = dims[n - 1];
    assert(input@.dims.last() == last_dim);
    if last_dim % 2 != 0 {
        return Err(Failure::OddRope);
    }
    let mut new_shape: Vec<usize> = dims.clone();
    new_shape.set(n - 1, last_dim / 2);
    new_shape.push(2);
    assert(model::nats(new_shape@) =~= input@.dims.drop_last().push((last_dim / 2) as nat).push(2));
    proof {
        lemma_pair_shapes(input@.dims);
    }
    let paired = input.reshape(&new_shape)?;
    proof {
        lemmas::lemma_narrow_dims(paired@, n as int, 0, 1);
        lemmas::lemma_narrow_dims(paired@, n as int, 1, 1);
        let halves = input@.dims.drop_last().push((last_dim / 2) as nat);
        assert(halves.push(2).update(n as int, 1) =~= halves.push(1));
        assert(halves.push(1).remove(n as int) =~= halves);
        assert(halves.insert(n as int, 1) =~= halves.push(1));
    }
    let t1 = paired.narrow(n, 0, 1)?.squeeze(n)?;
    let t2 = paired.narrow(n, 1, 1)?.squeeze(n)?;
    let neg_t2 = t2.unary(UnOp::Neg)?;
    let (turned_part, kept) = (neg_t2.unsqueeze(n)?, t1.unsqueeze(n)?);
    proof {
        lemma_pair_join(turned_part@, kept@, input@.dims.drop_last().push((last_dim / 2) as nat));
    }
    let rotated = Array::join(turned_part, kept, n)?;
    let rotated = rotated.reshape(&dims)?;
    input.broadcast(BinOp::Times, cos_freqs)?.pairwise(
        BinOp::Plus,
        &rotated.broadcast(BinOp::Times, sin_freqs)?,
    )
}

/// The two halves `(a, b)` of the last axis replaced by
/// `(a cos - b sin, a sin + b cos)`.
pub open spec fn split_halves_of(x: TensorView, cos: TensorView, sin: TensorView) -> TensorView {
    let n = x.rank() - 1;
    let half = x.dims.last() / 2;
    let a = model::narrow(x, n, 0, half);
    let b = model::narrow(x, n, half, half);
    let first = model::binary(
        BinOp::Minus,
        model::binary(BinOp::Times, a, cos),
        model::binary(BinOp::Times, b, sin),
    );
    let second = model::binary(
        BinOp::Plus,
        model::binary(BinOp::Times, a, sin),
        model::binary(BinOp::Times, b, cos),
    );
    model::cat(seq![first, second], n)
}

/// [`split_halves_of`], head by head where `cos` has an axis for the heads and
/// `x` has none.
pub open spec fn split_of(x: TensorView, cos: TensorView, sin: TensorView) -> TensorView {
    if x.rank() != 4 && cos.rank() == 4 {
        let heads = model::transpose(
            model::reshape(x, seq![cos.dims[0], cos.dims[2], cos.dims[1], cos.dims[3] * 2]),
            1,
            2,
        );
        model::reshape(model::transpose(split_halves_of(heads, cos, sin), 1, 2), x.dims)
    } else {
        split_halves_of(x, cos, sin)
    }
}

/// Rotates the two halves of the last axis.
pub fn rotate_halves(input: &Array, cos_freqs: &Array, sin_freqs: &Array) -> (r: Result<Array, Failure>)
    ensures
        r matches Err(e) ==> e.basic(),
        r matches Ok(t) ==> t@ == split_halves_of(input@, cos_freqs@, sin_freqs@),
        r is Ok ==> input@.rank() > 0,
        halves_span(input, cos_freqs) && halves_span(input, sin_freqs) ==> r is Ok,
        r matches Ok(t) ==> halves_span(input, cos_freqs) && halves_span(input, sin_freqs) ==> t@.dims
            == input@.dims && t@.dtype == input@.dtype && t.on_cpu(),
{
    let dims = input.dims();
    if dims.len() == 0 {
        return Err(Failure::Shape);
    }
    let n: usize = dims.len() - 1;
    assert(input@.dims.last() == dims[n as int]);
    let half: usize = dims[n] / 2;
    let x1 = input.narrow(n, 0, half)?;
    let x2 = input.narrow(n, half, half)?;
    proof {
        lemmas::lemma_narrow_dims(input@, n as int, 0, half as nat);
        lemmas::lemma_narrow_dims(input@, n as int, half as nat, half as nat);
    }
    let out1 = x1.broadcast(BinOp::Times, cos_freqs)?.pairwise(
        BinOp::Minus,
        &x2.broadcast(BinOp::Times, sin_freqs)?,
    )?;
    let out2 = x1.broadcast(BinOp::Times, sin_freqs)?.pairwise(
        BinOp::Plus,
        &x2.broadcast(BinOp::Times, cos_freqs)?,
    )?;
    proof {
        if halves_span(input, cos_freqs) && halves_span(input, sin_freqs) {
            lemma_half_join(out1@, out2@, input@.dims);
        }
    }
    Array::join(out1, out2, n)
}

/// Whether `freqs` can be repeated to the shape of one half of the last axis of `x`, in main
/// memory.
pub open spec fn halves_span(x: &Array, freqs: &Array) -> bool {
    let half = x@.dims.update(x@.rank() - 1, x@.dims.last() / 2);
    &&& x@.rank() > 0 && x@.dims.last() % 2 == 0
    &&& x.on_cpu() && freqs.on_cpu() && x@.dtype == freqs@.dtype && x@.dtype.float()
    &&& model::have_common_dims(half, freqs@.dims) && model::common_dims(half, freqs@.dims) == half
}

/// Two halves make up the whole.
pub proof fn lemma_half_join(a: TensorView, b: TensorView, dims: Seq<nat>)
    requires
        dims.len() > 0,
        dims.last() % 2 == 0,
        a.dims == dims.update(dims.len() - 1, dims.last() / 2),
        b.dims == a.dims,
    ensures
        model::joinable(seq![a, b], dims.len() - 1),
        model::cat(seq![a, b], dims.len() - 1).dims == dims,
        model::cat(seq![a, b], dims.len() - 1).dtype == a.dtype,
{
    reveal(model::cat2);
    let n = dims.len() - 1;
    let parts = seq![a, b];
    assert(parts[0] == a && parts[1] == b);
    model::lemma_cat_dims(parts, n);
    assert(parts.drop_last() =~= seq![a]);
    assert(seq![a].drop_last() =~= Seq::<TensorView>::empty());
    assert(model::joined_size(Seq::<TensorView>::empty(), n) == 0);
    assert(seq![a].last() == a && parts.last() == b);
    assert(model::joined_size(seq![a], n) == dims.last() / 2);
    assert(model::joined_size(parts, n) == dims.last());
    assert(a.dims.update(n, dims.last()) =~= dims);
    assert(model::cat(seq![a], n) == a);
    assert(model::cat(parts, n) == model::cat2(model::cat(parts.drop_last(), n), b, n));
}

/// Whether the shapes go together for a rotation, in main memory.
pub open spec fn rotates(x: &Array, cos: &Array, sin: &Array, rope_type: LTXRopeType) -> bool {
    match rope_type {
        LTXRopeType::Interleaved => {
            &&& x@.rank() > 0 && x@.dims.last() % 2 == 0 && model::numel(x@.dims) > 0
            &&& spans(x, cos) && spans(x, sin)
        },
        LTXRopeType::Split => if x@.rank() != 4 && cos@.rank() == 4 {
            &&& x.on_cpu() && cos.on_cpu() && sin.on_cpu()
            &&& x@.dtype == cos@.dtype && x@.dtype == sin@.dtype && x@.dtype.float()
            &&& sin@.dims == cos@.dims
            &&& model::numel(x@.dims) > 0 && model::numel(x@.dims) == 2 * model::numel(cos@.dims)
        } else {
            halves_span(x, cos) && halves_span(x, sin)
        },
    }
}

/// All heads side by side have the elements and the room of the heads.
proof fn lemma_head_shapes(dims: Seq<nat>, b: nat, h: nat, t: nat, half: nat)
    requires
        model::fits(dims),
        model::numel(dims) > 0,
        model::numel(dims) == 2 * model::numel(seq![b, h, t, half]),
    ensures
        model::numel(seq![b, t, h, half * 2]) == model::numel(dims),
        model::fits(seq![b, t, h, half * 2]),
        half * 2 <= usize::MAX,
{
    lemmas::lemma_numel4(b, h, t, half);
    lemmas::lemma_numel4(b, t, h, half * 2);
    assert(b * t * h * (half * 2) == 2 * (b * h * t * half)) by (nonlinear_arith);
    lemmas::lemma_extent_is_numel(dims);
    lemmas::lemma_extent_is_numel(seq![b, t, h, half * 2]);
    let n = b * t * h;
    assert(half * 2 <= n * (half * 2)) by (nonlinear_arith)
        requires
            n * (half * 2) > 0,
            n >= 0,
            half >= 0,
    ;
}

/// Rotates the two halves of each head.
pub fn apply_split_rotary_emb(input: &Array, cos_freqs: &Array, sin_freqs: &Array) -> (r: Result<Array, Failure>)
    ensures
        r matches Err(e) ==> e.basic(),
        r matches Ok(t) ==> t@ == split_of(input@, cos_freqs@, sin_freqs@),
        r is Ok ==> input@.rank() > 0 || cos_freqs@.rank() == 4,
        rotates(input, cos_freqs, sin_freqs, LTXRopeType::Split) ==> (r matches Ok(t) && t.on_cpu() && t@.dims
            == input@.dims && t@.dtype == input@.dtype),
{
    let dims = input.dims();
    if dims.len() != 4 && cos_freqs.rank() == 4 {
        let (b, h, t, half_per_head) = cos_freqs.dims4()?;
        proof {
            if rotates(input, cos_freqs, sin_freqs, LTXRopeType::Split) {
                lemma_head_shapes(input@.dims, b as nat, h as nat, t as nat, half_per_head as nat);
            }
        }
        let per_head: usize = match half_per_head.checked_mul(2) {
            Some(p) => p,
            None => {
                return Err(Failure::Overflow);
            },
        };
        let x = input.reshape4(b, t, h, per_head)?;
        proof {
            lemmas::lemma_permute_dims(x@, model::swapped(4, 1, 2));
        }
        let x = x.transpose(1, 2)?;
        proof {
            assert(x@.dims =~= seq![b as nat, h as nat, t as nat, per_head as nat]);
            assert(x@.dims.update(3, half_per_head as nat) =~= cos_freqs@.dims);
            lemmas::lemma_common_dims(cos_freqs@.dims);
        }
        let x = rotate_halves(&x, cos_freqs, sin_freqs)?;
        proof {
            lemmas::lemma_permute_dims(x@, model::swapped(x@.rank(), 1, 2));
            if rotates(input, cos_freqs, sin_freqs, LTXRopeType::Split) {
                assert(model::permute(x@, model::swapped(4, 1, 2)).dims =~= seq![
                    b as nat,
                    t as nat,
                    h as nat,
                    per_head as nat,
                ]);
            }
        }
        return x.transpose(1, 2)?.contiguous()?.reshape(&dims);
    }
    rotate_halves(input, cos_freqs, sin_freqs)
}

/// Frequency `i` of `n`: `theta ^ (i / (n - 1)) * pi / 2`.
pub open spec fn base_frequency_of(theta: Scalar, i: nat, n: nat) -> TensorView {
    let denom: nat = if n > 1 { (n - 1) as nat } else { 1 };
    let exponent = model::binary(BinOp::Over, model::count(i), model::count(denom));
    let power = model::powf(model::number(theta), exponent);
    let turns = model::affine(power, model::number(PI), model::number(ZERO));
    let angle = model::affine(turns, model::number(HALF), model::number(ZERO));
    model::reshape(model::cast(angle, Dtype::F32), seq![1nat])
}

/// The `n` base frequencies.
pub open spec fn base_frequencies_of(theta: Scalar, n: nat) -> TensorView {
    model::cat(Seq::new(n, |i: int| base_frequency_of(theta, i as nat, n)), 0)
}

/// The `n` base frequencies `theta ^ (i / (n - 1)) * pi / 2`, in main memory.
pub fn base_frequencies(theta: Scalar, n: usize) -> (r: Result<Array, Failure>)
    ensures
        r matches Err(e) ==> e.basic(),
        r matches Ok(t) ==> t@ == base_frequencies_of(theta, n as nat),
        r is Ok ==> n > 0,
        0 < n && model::fits(seq![n as nat]) ==> (r matches Ok(t) && t.on_cpu() && t@.dims == seq![n as nat]
            && t@.dtype == Dtype::F32),
{
    proof {
        lemmas::lemma_single();
        lemmas::lemma_extent1(n as nat);
    }
    let denom: usize = if n > 1 {
        n - 1
    } else {
        1
    };
    let mut parts: Vec<Array> = Vec::new();
    let mut i: usize = 0;
    while i < n
        invariant
            i <= n,
            denom == (if n > 1 { n - 1 } else { 1 }),
            parts.len() == i,
            model::fits(seq![n as nat]) ==> n <= i64::MAX,
            model::numel(Seq::<nat>::empty()) == 1 && model::numel(seq![1nat]) == 1 && model::fits(seq![1nat]),
            forall|k: int|
                0 <= k < i ==> (#[trigger] parts[k])@ == base_frequency_of(theta, k as nat, n as nat)
                    && parts[k].on_cpu(),
        decreases n - i,
    {
        let exponent = Array::count(i)?.broadcast(BinOp::Over, &Array::count(denom)?)?;
        let power = Array::number(theta)?.powf(&exponent)?;
        let angle = power.scale(PI)?.scale(HALF)?;
        proof {
            if angle@.rank() == 0 {
                assert(angle@.dims =~= Seq::<nat>::empty());
            }
        }
        parts.push(angle.to_dtype(Dtype::F32)?.reshape1(1)?);
        i = i + 1;
    }
    assert(array::views(parts@) =~= Seq::new(
        n as nat,
        |i: int| base_frequency_of(theta, i as nat, n as nat),
    ));
    proof {
        if n > 0 {
            lemmas::lemma_list(array::views(parts@), Dtype::F32);
        }
    }
    Array::cat(&parts, 0)
}

/// The position of each token along axis `d` of the grid: the position itself,
/// or of an interval `[start, end)` its start or its middle.
pub open spec fn positions_of(grid: TensorView, d: int, middle: bool) -> TensorView {
    let positions = model::squeeze(model::narrow(grid, 1, d as nat, 1), 1);
    let last = positions.rank() - 1;
    if positions.rank() >= 3 && positions.dims.last() == 2 {
        let start = model::narrow(positions, last, 0, 1);
        let end = model::narrow(positions, last, 1, 1);
        if middle {
            model::squeeze(
                model::affine(
                    model::binary(BinOp::Plus, start, end),
                    model::number(HALF),
                    model::number(ZERO),
                ),
                last,
            )
        } else {
            model::squeeze(start, last)
        }
    } else {
        positions
    }
}

/// Positions scaled from `0 .. max` to `-1 .. 1`.
pub open spec fn centered_of(positions: TensorView, max: nat) -> TensorView {
    let fractional = model::affine(
        model::cast(positions, Dtype::F32),
        model::unary(UnOp::Recip, model::count(max)),
        model::number(ZERO),
    );
    let doubled = model::affine(fractional, model::number(TWO), model::number(ZERO));
    model::affine(doubled, model::number(crate::scalar::ONE), model::number(MINUS_ONE))
}

/// Every position along axis `d` times every base frequency.
pub open spec fn axis_angles_of(grid: TensorView, d: int, max: nat, middle: bool, base: TensorView) -> TensorView {
    let centered = centered_of(positions_of(grid, d, middle), max);
    let expanded = model::unsqueeze(centered, centered.rank() as int);
    let row = model::unsqueeze(base, 0);
    if expanded.rank() == 3 {
        model::binary(BinOp::Times, expanded, model::unsqueeze(row, 0))
    } else {
        model::binary(BinOp::Times, expanded, row)
    }
}

/// The angles of all axes, frequency by frequency.
pub open spec fn angles_of(
    grid: TensorView,
    max_pos: Seq<usize>,
    middle: bool,
    base: TensorView,
    freq_count: nat,
) -> TensorView {
    let all = Seq::new(
        max_pos.len(),
        |d: int| axis_angles_of(grid, d, max_pos[d] as nat, middle, base),
    );
    let stacked = model::stack(all, all[0].rank() as int);
    model::reshape(stacked, seq![stacked.dims[0], stacked.dims[1], freq_count * max_pos.len()])
}

/// Cosines or sines with `pad` neutral elements in front.
pub open spec fn padded_of(freqs: TensorView, neutral: int, pad: nat) -> TensorView {
    if pad != 0 {
        let front = model::full(neutral, seq![freqs.dims[0], freqs.dims[1], pad], Dtype::F32);
        model::cat(seq![front, freqs], 2)
    } else {
        freqs
    }
}

/// Cosines (`neutral` is one) or sines (`neutral` is zero) of the angles, in the
/// layout that a kind of pairing needs.
pub open spec fn layout_of(
    values: TensorView,
    neutral: int,
    dim: nat,
    ndim: nat,
    freq_count: nat,
    heads: nat,
    out_dtype: Dtype,
    rope_type: LTXRopeType,
) -> TensorView {
    match rope_type {
        LTXRopeType::Interleaved => {
            let doubled = repeat_interleave_of(values, 2);
            let pad = dim % (2 * ndim);
            let all = if pad != 0 {
                let front = model::full(neutral, seq![values.dims[0], values.dims[1], pad], Dtype::F32);
                model::cat(seq![front, doubled], 2)
            } else {
                doubled
            };
            model::cast(all, out_dtype)
        },
        LTXRopeType::Split => {
            let all = padded_of(values, neutral, (dim / 2 - freq_count * ndim) as nat);
            let per_head = model::reshape(
                all,
                seq![values.dims[0], values.dims[1], heads, (dim / 2) / heads],
            );
            model::cast(model::transpose(per_head, 1, 2), out_dtype)
        },
    }
}

/// The cosines and sines that [`precompute_freqs_cis`] returns.
pub open spec fn freqs_cis_of(
    grid: TensorView,
    dim: nat,
    out_dtype: Dtype,
    theta: Scalar,
    max_pos: Seq<usize>,
    middle: bool,
    heads: nat,
    rope_type: LTXRopeType,
) -> (TensorView, TensorView) {
    let ndim = max_pos.len();
    let freq_count = dim / (2 * ndim);
    let angles = angles_of(grid, max_pos, middle, base_frequencies_of(theta, freq_count), freq_count);
    let cos = model::unary(UnOp::Cos, angles);
    let sin = model::unary(UnOp::Sin, angles);
    (
        layout_of(cos, 1, dim, ndim, freq_count, heads, out_dtype, rope_type),
        layout_of(sin, 0, dim, ndim, freq_count, heads, out_dtype, rope_type),
    )
}

/// Whether this is a grid of intervals `(B, ndim, T, 2)` or of positions `(B, ndim, T)` in main
/// memory.
pub open spec fn is_grid(grid: &Array) -> bool {
    &&& grid.on_cpu() && grid@.dtype.float()
    &&& grid@.rank() == 3 || (grid@.rank() == 4 && grid@.dims[3] == 2)
}

/// The shape of the cosines and sines of a grid of `t` tokens in `b` samples.
pub open spec fn freqs_dims(b: nat, t: nat, dim: nat, heads: nat, rope_type: LTXRopeType) -> Seq<nat> {
    match rope_type {
        LTXRopeType::Interleaved => seq![b, t, dim],
        LTXRopeType::Split => seq![b, heads, t, (dim / 2) / heads],
    }
}

/// The position of each token along axis `d` of the grid.
fn token_positions(grid: &Array, d: usize, middle: bool) -> (r: Result<Array, Failure>)
    ensures
        r matches Err(e) ==> e.basic(),
        r matches Ok(t) ==> t@ == positions_of(grid@, d as int, middle),
        is_grid(grid) && d < grid@.dims[1] ==> (r matches Ok(t) && t.on_cpu() && t@.dtype == grid@.dtype && t@.dims
            == seq![grid@.dims[0], grid@.dims[2]]),
{
    proof {
        lemmas::lemma_narrow_dims(grid@, 1, d as nat, 1);
    }
    let positions = grid.narrow(1, d, 1)?.squeeze(1)?;
    proof {
        if is_grid(grid) && grid@.rank() == 3 {
            assert(positions@.dims =~= seq![grid@.dims[0], grid@.dims[2]]);
        } else if is_grid(grid) {
            assert(positions@.dims =~= seq![grid@.dims[0], grid@.dims[2], 2]);
            lemmas::lemma_narrow_dims(positions@, 2, 0, 1);
            lemmas::lemma_narrow_dims(positions@, 2, 1, 1);
            assert(positions@.dims.update(2, 1).remove(2) =~= seq![grid@.dims[0], grid@.dims[2]]);
        }
    }
    let dims = positions.dims();
    if dims.len() >= 3 && dims[dims.len() - 1] == 2 {
        let last: usize = dims.len() - 1;
        assert(positions@.dims.last() == dims[last as int]);
        let start = positions.narrow(last, 0, 1)?;
        let end = positions.narrow(last, 1, 1)?;
        if middle {
            start.pairwise(BinOp::Plus, &end)?.scale(HALF)?.squeeze(last)
        } else {
            start.squeeze(last)
        }
    } else {
        assert(dims.len() > 0 ==> positions@.dims.last() == dims[dims.len() - 1]);
        Ok(positions)
    }
}

/// Every position along axis `d` times every base frequency.
fn axis_angles(grid: &Array, d: usize, max: usize, middle: bool, base: &Array) -> (r: Result<Array, Failure>)
    ensures
        r matches Err(e) ==> e.basic(),
        r matches Ok(t) ==> t@ == axis_angles_of(grid@, d as int, max as nat, middle, base@),
        is_grid(grid) && d < grid@.dims[1] && base.on_cpu() && base@.dtype == Dtype::F32
            && base@.rank() == 1 && model::fits(seq![grid@.dims[0], grid@.dims[2], base@.dims[0]]) ==> (
        r matches Ok(t) && t.on_cpu() && t@.dtype == Dtype::F32 && t@.dims == seq![
            grid@.dims[0],
            grid@.dims[2],
            base@.dims[0],
        ]),
{
    let positions = token_positions(grid, d, middle)?;
    let fractional = positions.to_dtype(Dtype::F32)?.scale_by(&Array::count(max)?.unary(UnOp::Recip)?)?;
    let centered = fractional.scale(TWO)?.shift(MINUS_ONE)?;
    let expanded = centered.unsqueeze(centered.rank())?;
    let row = base.unsqueeze(0)?;
    if expanded.rank() == 3 {
        proof {
            if is_grid(grid) && d < grid@.dims[1] && base@.rank() == 1 {
                let (b, t, n) = (grid@.dims[0], grid@.dims[2], base@.dims[0]);
                assert(expanded@.dims =~= seq![b, t, 1]);
                assert(model::unsqueeze(row@, 0).dims =~= seq![1, 1, n]);
                lemma_outer(b, t, n);
            }
        }
        expanded.broadcast(BinOp::Times, &row.unsqueeze(0)?)
    } else {
        expanded.broadcast(BinOp::Times, &row)
    }
}

/// The shape of all products of two numbers from each of two lists.
proof fn lemma_outer(b: nat, t: nat, n: nat)
    ensures
        model::have_common_dims(seq![b, t, 1], seq![1, 1, n]),
        model::common_dims(seq![b, t, 1], seq![1, 1, n]) == seq![b, t, n],
{
    let (x, y): (Seq<nat>, Seq<nat>) = (seq![b, t, 1], seq![1, 1, n]);
    assert(model::size_from_last(x, 0) == 1 && model::size_from_last(x, 1) == t && model::size_from_last(x, 2) == b);
    assert(model::size_from_last(y, 0) == n && model::size_from_last(y, 1) == 1 && model::size_from_last(y, 2) == 1);
    assert(model::common_dims(x, y) =~= seq![b, t, n]);
}

/// `pad` neutral elements in front of the last of three axes.
fn pad_front(
    freqs: Array,
    neutral: bool,
    b: usize,
    t: usize,
    pad: usize,
    device: &candle_core::Device,
) -> (r: Result<Array, Failure>)
    ensures
        r matches Err(e) ==> e.basic(),
        r matches Ok(v) ==> v@ == (if pad != 0 {
            let front = model::full(
                if neutral { 1 } else { 0 },
                seq![b as nat, t as nat, pad as nat],
                Dtype::F32,
            );
            model::cat(seq![front, freqs@], 2)
        } else {
            freqs@
        }),
        freqs.on_cpu() && freqs@.dtype == Dtype::F32 && freqs@.rank() == 3 && freqs@.dims[0] == b && freqs@.dims[1]
            == t && array::is_main_memory(*device) && model::numel(freqs@.dims) > 0 && model::fits(
            seq![b as nat, t as nat, pad as nat + freqs@.dims[2]],
        ) ==> (r matches Ok(v) && v.on_cpu() && v@.dtype == Dtype::F32 && v@.dims == seq![
            b as nat,
            t as nat,
            pad as nat + freqs@.dims[2],
        ]),
{
    proof {
        if freqs@.rank() == 3 && freqs@.dims[0] == b && freqs@.dims[1] == t {
            let w = freqs@.dims[2];
            assert(freqs@.dims =~= seq![b as nat, t as nat, w]);
            if pad != 0 && model::numel(freqs@.dims) > 0 && model::fits(seq![b as nat, t as nat, pad as nat + w]) {
                lemma_front(b as nat, t as nat, pad as nat, w);
            }
        }
    }
    if pad != 0 {
        let dims: Vec<usize> = vec![b, t, pad];
        assert(model::nats(dims@) =~= seq![b as nat, t as nat, pad as nat]);
        let front = if neutral {
            Array::ones(&dims, Dtype::F32, device)?
        } else {
            Array::zeros(&dims, Dtype::F32, device)?
        };
        proof {
            if freqs@.rank() == 3 && freqs@.dims[0] == b && freqs@.dims[1] == t {
                lemma_front_join(front@, freqs@);
            }
        }
        Array::join(front, freqs, 2)
    } else {
        Ok(freqs)
    }
}

proof fn lemma_front(b: nat, t: nat, pad: nat, w: nat)
    requires
        pad > 0,
        model::numel(seq![b, t, w]) > 0,
        model::fits(seq![b, t, pad + w]),
    ensures
        model::fits(seq![b, t, pad]),
{
    lemmas::lemma_numel3(b, t, pad);
    lemmas::lemma_numel3(b, t, w);
    lemmas::lemma_numel3(b, t, pad + w);
    assert(0 < b * t * pad <= b * t * (pad + w)) by (nonlinear_arith)
        requires
            b * t * w > 0,
            pad > 0,
    ;
    lemmas::lemma_room(seq![b, t, pad], seq![b, t, pad + w]);
}

proof fn lemma_front_join(front: TensorView, freqs: TensorView)
    requires
        front.rank() == 3,
        freqs.rank() == 3,
        front.dims[0] == freqs.dims[0],
        front.dims[1] == freqs.dims[1],
    ensures
        model::joinable(seq![front, freqs], 2),
        model::cat(seq![front, freqs], 2).dims == seq![
            front.dims[0],
            front.dims[1],
            front.dims[2] + freqs.dims[2],
        ],
        model::cat(seq![front, freqs], 2).dtype == front.dtype,
{
    reveal(model::cat2);
    let parts = seq![front, freqs];
    assert(parts[0] == front && parts[1] == freqs);
    assert(parts.drop_last() =~= seq![front]);
    assert(parts.last() == freqs);
    assert(model::cat(seq![front], 2) == front);
    assert(model::cat(parts, 2) == model::cat2(model::cat(parts.drop_last(), 2), freqs, 2));
    assert(model::cat(parts, 2).dims =~= seq![front.dims[0], front.dims[1], front.dims[2] + freqs.dims[2]]);
}

/// Whether there is a grid in main memory with as many axes as there are largest positions,
/// and the angles of its tokens can be counted and addressed.
pub open spec fn plottable(grid: &Array, dim: nat, out_dtype: Dtype, max_pos: Seq<usize>) -> bool {
    &&& is_grid(grid) && grid@.dims[1] == max_pos.len()
    &&& grid@.dims[0] > 0 && grid@.dims[2] > 0
    &&& 0 < max_pos.len() && 2 * max_pos.len() <= dim
    &&& out_dtype.plain()
    &&& model::fits(seq![grid@.dims[0], grid@.dims[2], dim])
}

/// What follows for the shapes on the way.
proof fn lemma_plottable(b: nat, t: nat, dim: nat, ndim: nat)
    requires
        b > 0 && t > 0,
        0 < ndim && 2 * ndim <= dim,
        model::fits(seq![b, t, dim]),
    ensures
        ({
            let n = dim / (2 * ndim);
            &&& n > 0
            &&& 2 * (n * ndim) + dim % (2 * ndim) == dim
            &&& n * ndim <= dim / 2
            &&& n * ndim > 0
            &&& model::fits(seq![n])
            &&& model::fits(seq![b, t, n])
            &&& model::fits(seq![b, t, n, ndim])
            &&& model::fits(seq![b, t, n * ndim])
            &&& model::fits(seq![b, t, n * ndim * 2])
            &&& model::fits(seq![b, t, dim / 2])
            &&& model::numel(seq![b, t, n, ndim]) == model::numel(seq![b, t, n * ndim])
            &&& model::numel(seq![b, t, n * ndim]) > 0
        }),
{
    let n = dim / (2 * ndim);
    vstd::arithmetic::div_mod::lemma_fundamental_div_mod(dim as int, 2 * ndim as int);
    let r = dim % (2 * ndim);
    assert(2 * ndim * n == 2 * (n * ndim)) by (nonlinear_arith);
    assert(n > 0) by (nonlinear_arith)
        requires
            dim == 2 * ndim * n + r,
            r < 2 * ndim,
            2 * ndim <= dim,
    ;
    let w = n * ndim;
    assert(w > 0 && n <= w) by (nonlinear_arith)
        requires
            n > 0,
            ndim > 0,
            w == n * ndim,
    ;
    lemma_narrower(b, t, n, dim);
    lemma_narrower(b, t, w, dim);
    lemma_narrower(b, t, w * 2, dim);
    lemma_narrower(b, t, dim / 2, dim);
    lemmas::lemma_numel4(b, t, n, ndim);
    lemmas::lemma_numel3(b, t, w);
    assert(b * t * n * ndim == b * t * w) by (nonlinear_arith)
        requires
            w == n * ndim,
    ;
    lemmas::lemma_room(seq![b, t, n, ndim], seq![b, t, w]);
    lemmas::lemma_numel1(n);
    lemmas::lemma_numel3(b, t, n);
    assert(n <= b * t * n) by (nonlinear_arith)
        requires
            b > 0,
            t > 0,
    ;
    lemmas::lemma_room(seq![n], seq![b, t, n]);
}

/// Heads have the elements and the room of all heads side by side.
proof fn lemma_split_heads(b: nat, t: nat, w: nat, heads: nat)
    requires
        b > 0 && t > 0 && w > 0 && heads > 0,
        w % heads == 0,
        model::fits(seq![b, t, w]),
    ensures
        model::numel(seq![b, t, heads, w / heads]) == model::numel(seq![b, t, w]),
        model::fits(seq![b, t, heads, w / heads]),
{
    let p = w / heads;
    vstd::arithmetic::div_mod::lemma_fundamental_div_mod(w as int, heads as int);
    lemmas::lemma_numel4(b, t, heads, p);
    lemmas::lemma_numel3(b, t, w);
    assert(b * t * heads * p == b * t * w && b * t * w > 0) by (nonlinear_arith)
        requires
            w == heads * p,
            b > 0,
            t > 0,
            w > 0,
    ;
    lemmas::lemma_room(seq![b, t, heads, p], seq![b, t, w]);
}

/// A last axis that is shorter leaves a shape addressable.
proof fn lemma_narrower(b: nat, t: nat, w: nat, dim: nat)
    requires
        b > 0 && t > 0,
        0 < w <= dim,
        model::fits(seq![b, t, dim]),
    ensures
        model::fits(seq![b, t, w]),
        model::numel(seq![b, t, w]) > 0,
{
    lemmas::lemma_numel3(b, t, w);
    lemmas::lemma_numel3(b, t, dim);
    assert(0 < b * t * w <= b * t * dim) by (nonlinear_arith)
        requires
            b > 0,
            t > 0,
            0 < w <= dim,
    ;
    lemmas::lemma_room(seq![b, t, w], seq![b, t, dim]);
}

/// The cosines and sines by which [`apply_rotary_emb`] rotates.
///
/// `indices_grid` has shape `(B, ndim, T, 2)` with intervals `[start, end)`, or
/// `(B, ndim, T)`, where `ndim` is the length of `max_pos`.
#[verifier::spinoff_prover]
#[verifier::rlimit(80)]
pub fn precompute_freqs_cis(
    indices_grid: &Array,
    dim: usize,
    out_dtype: Dtype,
    theta: Scalar,
    max_pos: &Vec<usize>,
    use_middle_indices_grid: bool,
    num_attention_heads: usize,
    rope_type: LTXRopeType,
    device: &candle_core::Device,
) -> (r: Result<(Array, Array), Failure>)
    ensures
        r matches Ok(f) ==> (f.0@, f.1@) == freqs_cis_of(
            indices_grid@,
            dim as nat,
            out_dtype,
            theta,
            max_pos@,
            use_middle_indices_grid,
            num_attention_heads as nat,
            rope_type,
        ),
        max_pos.len() == 0 ==> r == Err::<(Array, Array), Failure>(Failure::Shape),
        0 < max_pos.len() && dim < 2 * max_pos.len() <= usize::MAX ==> r == Err::<(Array, Array), Failure>(
            Failure::RopeDim { dim, ndim: max_pos.len() },
        ),
        plottable(indices_grid, dim as nat, out_dtype, max_pos@) && array::is_main_memory(*device) ==> match rope_type {
            LTXRopeType::Interleaved => r is Ok,
            LTXRopeType::Split => if num_attention_heads != 0 && (dim / 2) % num_attention_heads == 0 {
                r is Ok
            } else {
                r == Err::<(Array, Array), Failure>(
                    Failure::RopeHeads { half: (dim / 2) as usize, heads: num_attention_heads },
                )
            },
        },
        plottable(indices_grid, dim as nat, out_dtype, max_pos@) && array::is_main_memory(*device) ==> (
        r matches Ok(f) ==> f.0.on_cpu() && f.1.on_cpu() && f.0@.dtype == out_dtype && f.1@.dtype == out_dtype
            && f.0@.dims == freqs_dims(
            indices_grid@.dims[0],
            indices_grid@.dims[2],
            dim as nat,
            num_attention_heads as nat,
            rope_type,
        ) && f.1@.dims == f.0@.dims),
        r matches Err(Failure::RopeDim { .. }) ==> dim < 2 * max_pos.len(),
        r matches Err(Failure::RopeHeads { .. }) ==> rope_type == LTXRopeType::Split && (
        num_attention_heads == 0 || (dim / 2) % num_attention_heads != 0),
        r is Ok && rope_type == LTXRopeType::Split ==> num_attention_heads != 0 && (dim / 2) % num_attention_heads == 0,
{
    let ndim: usize = max_pos.len();
    if ndim == 0 {
        return Err(Failure::Shape);
    }
    let ghost fine = plottable(indices_grid, dim as nat, out_dtype, max_pos@) && array::is_main_memory(*device);
    let ghost (gb, gt) = (indices_grid@.dims[0], indices_grid@.dims[2]);
    proof {
        if fine {
            lemma_plottable(gb, gt, dim as nat, ndim as nat);
        }
    }
    let n_elem: usize = match ndim.checked_mul(2) {
        Some(n) => n,
        None => {
            return Err(Failure::Overflow);
        },
    };
    let freq_count: usize = dim / n_elem;
    if freq_count == 0 {
        proof {
            if dim >= n_elem {
                vstd::arithmetic::div_mod::lemma_div_is_ordered(n_elem as int, dim as int, n_elem as int);
                vstd::arithmetic::div_mod::lemma_div_by_self(n_elem as int);
            }
        }
        return Err(Failure::RopeDim { dim, ndim });
    }
    proof {
        assert(dim >= n_elem) by {
            if dim < n_elem {
                vstd::arithmetic::div_mod::lemma_basic_div(dim as int, n_elem as int);
            }
        }
    }
    let freq_base = base_frequencies(theta, freq_count)?.to_device(device)?;
    let mut all_freqs: Vec<Array> = Vec::new();
    let mut d: usize = 0;
    while d < ndim
        invariant
            d <= ndim,
            ndim == max_pos.len(),
            ndim > 0,
            dim >= 2 * ndim,
            fine ==> is_grid(indices_grid) && indices_grid@.dims[1] == ndim && freq_base.on_cpu()
                && freq_base@.dtype == Dtype::F32 && freq_base@.dims == seq![freq_count as nat] && model::fits(
                seq![indices_grid@.dims[0], indices_grid@.dims[2], freq_count as nat],
            ),
            fine ==> plottable(indices_grid, dim as nat, out_dtype, max_pos@) && array::is_main_memory(*device),
            !fine ==> !(plottable(indices_grid, dim as nat, out_dtype, max_pos@) && array::is_main_memory(*device)),
            gb == indices_grid@.dims[0] && gt == indices_grid@.dims[2],
            fine ==> forall|k: int|
                0 <= k < d ==> (#[trigger] all_freqs[k]).on_cpu() && all_freqs[k]@.dtype == Dtype::F32
                    && all_freqs[k]@.dims == seq![gb, gt, freq_count as nat],
            all_freqs.len() == d,
            forall|k: int|
                0 <= k < d ==> (#[trigger] all_freqs[k])@ == axis_angles_of(
                    indices_grid@,
                    k,
                    max_pos[k] as nat,
                    use_middle_indices_grid,
                    freq_base@,
                ),
        decreases ndim - d,
    {
        all_freqs.push(axis_angles(indices_grid, d, max_pos[d], use_middle_indices_grid, &freq_base)?);
        d = d + 1;
    }
    let ghost all = Seq::new(
        max_pos@.len(),
        |d: int|
            axis_angles_of(
                indices_grid@,
                d,
                max_pos@[d] as nat,
                use_middle_indices_grid,
                freq_base@,
            ),
    );
    assert(array::views(all_freqs@) =~= all);
    let stack_dim: usize = all_freqs[0].rank();
    assert(all[0] == all_freqs[0]@);
    proof {
        if fine {
            assert(all_freqs[0]@.dims == seq![gb, gt, freq_count as nat]);
            assert(seq![gb, gt, freq_count as nat].insert(3, ndim as nat) =~= seq![
                gb,
                gt,
                freq_count as nat,
                ndim as nat,
            ]);
        }
    }
    let freqs = Array::stack(&all_freqs, stack_dim)?;
    let dims = freqs.dims();
    if dims.len() < 2 {
        return Err(Failure::Shape);
    }
    let b: usize = dims[0];
    let t: usize = dims[1];
    assert(freqs@.dims[0] == b && freqs@.dims[1] == t);
    let width: usize = match freq_count.checked_mul(ndim) {
        Some(w) => w,
        None => {
            return Err(Failure::Overflow);
        },
    };
    let freqs = freqs.reshape3(b, t, width)?;
    assert(freqs@ == angles_of(
        indices_grid@,
        max_pos@,
        use_middle_indices_grid,
        freq_base@,
        freq_count as nat,
    ));
    let cos = freqs.unary(UnOp::Cos)?;
    let sin = freqs.unary(UnOp::Sin)?;
    match rope_type {
        LTXRopeType::Interleaved => {
            let pad: usize = dim % n_elem;
            proof {
                if fine {
                    let flat: Seq<nat> = seq![gb, gt, width as nat];
                    assert(freqs@.dims =~= flat);
                    assert(flat.drop_last().push(flat.last() * 2) =~= seq![gb, gt, width as nat * 2]);
                    lemma_narrower(gb, gt, width as nat * 2, dim as nat);
                }
            }
            let cos_out = pad_front(repeat_interleave_last(&cos, 2)?, true, b, t, pad, device)?;
            let sin_out = pad_front(repeat_interleave_last(&sin, 2)?, false, b, t, pad, device)?;
            proof {
                if fine {
                    let n = (2 * ndim) as int;
                    vstd::arithmetic::div_mod::lemma_fundamental_div_mod(dim as int, n);
                    let q = dim as int / n;
                    assert(width as int * 2 == n * q) by (nonlinear_arith)
                        requires
                            width as int == q * ndim as int,
                            n == 2 * ndim as int,
                    ;
                    assert(cos_out@.dims =~= seq![gb, gt, dim as nat]);
                    assert(sin_out@.dims =~= seq![gb, gt, dim as nat]);
                }
            }
            Ok((cos_out.to_dtype(out_dtype)?, sin_out.to_dtype(out_dtype)?))
        },
        LTXRopeType::Split => {
            let expected: usize = dim / 2;
            let pad: usize = match expected.checked_sub(width) {
                Some(p) => p,
                None => {
                    return Err(Failure::Shape);
                },
            };
            if num_attention_heads == 0 || expected % num_attention_heads != 0 {
                return Err(Failure::RopeHeads { half: expected, heads: num_attention_heads });
            }
            let cos = pad_front(cos, true, b, t, pad, device)?;
            let sin = pad_front(sin, false, b, t, pad, device)?;
            let half_per_head: usize = expected / num_attention_heads;
            proof {
                if fine {
                    lemma_split_heads(gb, gt, expected as nat, num_attention_heads as nat);
                }
            }
            let cos = cos.reshape4(b, t, num_attention_heads, half_per_head)?;
            let sin = sin.reshape4(b, t, num_attention_heads, half_per_head)?;
            proof {
                lemmas::lemma_permute_dims(cos@, model::swapped(4, 1, 2));
                lemmas::lemma_permute_dims(sin@, model::swapped(4, 1, 2));
            }
            let cos = cos.transpose(1, 2)?;
            let sin = sin.transpose(1, 2)?;
            proof {
                if fine {
                    let dims = freqs_dims(gb, gt, dim as nat, num_attention_heads as nat, rope_type);
                    assert(cos@.dims =~= dims);
                    assert(sin@.dims =~= dims);
                }
            }
            Ok((cos.to_dtype(out_dtype)?, sin.to_dtype(out_dtype)?))
        },
    }
}

/// Every element of the last axis `n` times in a row.
pub open spec fn repeat_interleave_of(x: TensorView, n: nat) -> TensorView {
    let r = x.rank() as int;
    let copies = model::repeat_axis(model::unsqueeze(x, r), r, n);
    model::reshape(copies, x.dims.update(r - 1, x.dims.last() * n))
}

proof fn lemma_repeat_shapes(dims: Seq<nat>, n: nat)
    requires
        dims.len() > 0,
        n > 0,
        model::numel(dims) > 0,
    ensures
        model::numel(dims.push(n)) == model::numel(dims.drop_last().push(dims.last() * n)),
        model::fits(dims.drop_last().push(dims.last() * n)) ==> model::fits(dims.push(n)) && dims.last() * n
            <= usize::MAX,
{
    let front = dims.drop_last();
    let w = dims.last() * n;
    assert(dims =~= front.push(dims.last()));
    lemmas::lemma_numel_push(front, dims.last());
    lemmas::lemma_numel_push(dims, n);
    lemmas::lemma_numel_push(front, w);
    let c = model::numel(front);
    let l = dims.last();
    assert(c * l * n == c * (l * n) && c * (l * n) > 0 && l * n <= c * (l * n)) by (nonlinear_arith)
        requires
            c * l > 0,
            n > 0,
            c >= 0,
            l >= 0,
    ;
    if model::fits(front.push(w)) {
        lemmas::lemma_room(dims.push(n), front.push(w));
        lemmas::lemma_extent_is_numel(front.push(w));
    }
}

/// Every element of the last axis `n` times in a row: `[a, b]` becomes `[a, a, b, b]`.
pub fn repeat_interleave_last(x: &Array, n: usize) -> (r: Result<Array, Failure>)
    ensures
        r matches Err(e) ==> e.basic(),
        r matches Ok(t) ==> t@ == repeat_interleave_of(x@, n as nat),
        r is Ok ==> x@.rank() > 0,
        x.usable() && x@.rank() > 0 && 0 < n && model::numel(x@.dims) > 0 && model::fits(
            x@.dims.drop_last().push(x@.dims.last() * n as nat),
        ) ==> (r matches Ok(t) && t.on_cpu() && t@.dtype == x@.dtype && t@.dims == x@.dims.drop_last().push(
            x@.dims.last() * n as nat,
        )),
{
    proof {
        if x@.rank() > 0 && 0 < n && model::numel(x@.dims) > 0 {
            lemma_repeat_shapes(x@.dims, n as nat);
        }
    }
    let mut dims = x.dims();
    let rank: usize = dims.len();
    if rank == 0 {
        return Err(Failure::Shape);
    }
    let last: usize = dims[rank - 1];
    assert(x@.dims.last() == last);
    let width: usize = match last.checked_mul(n) {
        Some(w) => w,
        None => {
            return Err(Failure::Overflow);
        },
    };
    proof {
        assert(x@.dims.insert(rank as int, 1) =~= x@.dims.push(1));
        assert(x@.dims.push(1).update(rank as int, (1 * n) as nat) =~= x@.dims.push(n as nat));
    }
    let expanded = x.unsqueeze(rank)?.repeat_axis(rank, n)?;
    dims.set(rank - 1, width);
    assert(model::nats(dims@) =~= x@.dims.update(rank - 1, (last * n) as nat));
    assert(model::nats(dims@) =~= x@.dims.drop_last().push((last * n) as nat));
    expanded.reshape(&dims)
}

/// Element `i` of the last axis is element `i / n` of what was repeated.
pub proof fn law_repeat_interleave(x: TensorView, n: nat, idx: Seq<int>, i: int)
    requires
        x.rank() > 0,
        n > 0,
        model::in_bounds(x.dims.drop_last(), idx),
        0 <= i < x.dims.last() * n,
    ensures
        repeat_interleave_of(x, n).dims == x.dims.drop_last().push(x.dims.last() * n),
        repeat_interleave_of(x, n).at(idx.push(i)) == x.at(idx.push(i / n as int)),
{
    let r = x.rank() as int;
    let front = x.dims.drop_last();
    let last = x.dims.last();
    let (k, e) = (i / n as int, i % n as int);
    assert(0 <= k < last && 0 <= e < n && i == k * n + e) by {
        vstd::arithmetic::div_mod::lemma_fundamental_div_mod(i, n as int);
        vstd::arithmetic::mul::lemma_mul_is_commutative(n as int, k);
        assert(0 <= k < last) by (nonlinear_arith)
            requires
                0 <= i < last * n,
                n > 0,
                k == i / n as int,
        ;
    }
    let one = model::unsqueeze(x, r);
    let at = idx.push(k);
    assert(x.dims =~= front.push(last));
    assert(one.dims =~= x.dims.push(1));
    assert forall|j: int| 0 <= j < x.dims.len() implies 0 <= #[trigger] at[j] < x.dims[j] by {
        if j < front.len() {
            assert(at[j] == idx[j] && front[j] == x.dims[j]);
        }
    }
    lemma_copies(one, x.dims, n, at, e);
    lemmas::lemma_ravel_one(x.dims, at);
    let copies = model::repeat_axis(one, r, n);
    lemmas::lemma_ravel_push(x.dims, n, at, e);
    lemmas::lemma_ravel_push(front, last, idx, k);
    lemmas::lemma_ravel_push(front, last * n, idx, i);
    assert(x.dims.update(r - 1, last * n) =~= front.push(last * n));
    let p = model::ravel(front, idx);
    assert((p * last + k) * n + e == p * (last * n) + (k * n + e)) by (nonlinear_arith);
    assert(copies.at(at.push(e)) == x.at(at));
}

/// All copies along a new last axis are alike.
proof fn lemma_copies(one: TensorView, dims: Seq<nat>, n: nat, at: Seq<int>, e: int)
    requires
        one.dims == dims.push(1),
        model::in_bounds(dims, at),
        0 <= e < n,
    ensures
        model::repeat_axis(one, dims.len() as int, n).dims == dims.push(n),
        model::repeat_axis(one, dims.len() as int, n).at(at.push(e)) == one.at(at.push(0)),
    decreases n,
{
    let d = dims.len() as int;
    if n > 1 {
        let all = Seq::new(n, |i: int| one);
        let fewer = Seq::new((n - 1) as nat, |i: int| one);
        assert(all.drop_last() =~= fewer);
        let head = model::cat(fewer, d);
        assert(head == model::repeat_axis(one, d, (n - 1) as nat));
        assert(model::cat(all, d) == model::cat2(head, one, d));
        lemma_copies(one, dims, (n - 1) as nat, at, if e < n - 1 { e } else { 0 });
        assert(head.dims.drop_last() =~= dims);
        lemmas::lemma_cat2_at(head, one, dims, at, e);
    }
}

} // verus!
