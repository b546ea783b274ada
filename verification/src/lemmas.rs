//! Facts about the model of tensors.
use vstd::prelude::*;

use crate::model::{self, BinOp, RelOp, TensorView};

verus! {

/// One more axis multiplies the number of elements by its size.
pub proof fn lemma_numel_push(dims: Seq<nat>, d: nat)
    ensures
        model::numel(dims.push(d)) == model::numel(dims) * d,
        model::extent(dims.push(d)) == model::extent(dims) * (if d == 0 { 1 } else { d }),
{
    assert(dims.push(d).drop_last() =~= dims);
}

/// Without empty axes, the number of elements is the product of the non-zero sizes.
pub proof fn lemma_extent_is_numel(dims: Seq<nat>)
    requires
        model::numel(dims) > 0,
    ensures
        model::extent(dims) == model::numel(dims),
    decreases dims.len(),
{
    if dims.len() > 0 {
        let front = model::numel(dims.drop_last());
        assert(front > 0 && dims.last() > 0) by (nonlinear_arith)
            requires
                front * dims.last() > 0,
        ;
        lemma_extent_is_numel(dims.drop_last());
    }
}

pub proof fn lemma_numel1(a: nat)
    ensures
        model::numel(seq![a]) == a,
{
    lemma_numel_push(Seq::empty(), a);
    assert(model::numel(Seq::<nat>::empty()) == 1);
    assert(Seq::<nat>::empty().push(a) =~= seq![a]);
    let one = model::numel(Seq::<nat>::empty());
    assert(one * a == a) by (nonlinear_arith)
        requires
            one == 1,
    ;
}

/// The size of a shape of two axes.
pub proof fn lemma_numel2(a: nat, b: nat)
    ensures
        model::numel(seq![a, b]) == a * b,
{
    lemma_numel1(a);
    lemma_numel_push(seq![a], b);
    assert(seq![a].push(b) =~= seq![a, b]);
}

pub proof fn lemma_numel3(a: nat, b: nat, c: nat)
    ensures
        model::numel(seq![a, b, c]) == a * b * c,
{
    lemma_numel1(a);
    lemma_numel_push(seq![a], b);
    lemma_numel_push(seq![a, b], c);
    assert(seq![a].push(b) =~= seq![a, b]);
    assert(seq![a, b].push(c) =~= seq![a, b, c]);
}

pub proof fn lemma_numel4(a: nat, b: nat, c: nat, d: nat)
    ensures
        model::numel(seq![a, b, c, d]) == a * b * c * d,
{
    lemma_numel3(a, b, c);
    lemma_numel_push(seq![a, b, c], d);
    assert(seq![a, b, c].push(d) =~= seq![a, b, c, d]);
}

pub proof fn lemma_numel5(a: nat, b: nat, c: nat, d: nat, e: nat)
    ensures
        model::numel(seq![a, b, c, d, e]) == a * b * c * d * e,
{
    lemma_numel4(a, b, c, d);
    lemma_numel_push(seq![a, b, c, d], e);
    assert(seq![a, b, c, d].push(e) =~= seq![a, b, c, d, e]);
}

pub proof fn lemma_numel7(a: nat, b: nat, c: nat, d: nat, e: nat, f: nat, g: nat)
    ensures
        model::numel(seq![a, b, c, d, e, f, g]) == a * b * c * d * e * f * g,
{
    lemma_numel5(a, b, c, d, e);
    lemma_numel_push(seq![a, b, c, d, e], f);
    lemma_numel_push(seq![a, b, c, d, e, f], g);
    assert(seq![a, b, c, d, e].push(f) =~= seq![a, b, c, d, e, f]);
    assert(seq![a, b, c, d, e, f].push(g) =~= seq![a, b, c, d, e, f, g]);
}

/// A tensor with elements has no empty axis.
pub proof fn lemma_axis_positive(dims: Seq<nat>, k: int)
    requires
        0 <= k < dims.len(),
        model::numel(dims) > 0,
    ensures
        dims[k] > 0,
    decreases dims.len(),
{
    let front = model::numel(dims.drop_last());
    assert(front > 0 && dims.last() > 0) by (nonlinear_arith)
        requires
            front * dims.last() > 0,
    ;
    if k < dims.len() - 1 {
        lemma_axis_positive(dims.drop_last(), k);
        assert(dims.drop_last()[k] == dims[k]);
    }
}

/// With another last axis, a tensor has elements where both it and that axis have.
pub proof fn lemma_width(dims: Seq<nat>, width: nat)
    requires
        dims.len() > 0,
        model::numel(dims) > 0,
        width > 0,
    ensures
        model::numel(dims.drop_last().push(width)) > 0,
        dims.last() > 0,
{
    lemma_numel_push(dims.drop_last(), width);
    let front = model::numel(dims.drop_last());
    assert(front > 0 && dims.last() > 0) by (nonlinear_arith)
        requires
            front * dims.last() > 0,
    ;
    assert(front * width > 0) by (nonlinear_arith)
        requires
            front > 0,
            width > 0,
    ;
}

/// A product of positive numbers is at least as large as each of them.
pub proof fn lemma_factors(a: nat, b: nat, c: nat)
    requires
        a * b * c > 0,
    ensures
        0 < a <= a * b * c,
        0 < b <= a * b * c,
        0 < c <= a * b * c,
        0 < a * b <= a * b * c,
{
    assert(a > 0 && b > 0 && c > 0 && a * b > 0) by (nonlinear_arith)
        requires
            a * b * c > 0,
    ;
    assert(a <= a * b && b <= a * b) by (nonlinear_arith)
        requires
            a > 0,
            b > 0,
    ;
    let ab = a * b;
    assert(ab <= ab * c && c <= ab * c) by (nonlinear_arith)
        requires
            ab > 0,
            c > 0,
    ;
}

/// A multi-index within bounds has a row-major position, from which it can be
/// read back.
pub proof fn lemma_ravel(dims: Seq<nat>, idx: Seq<int>)
    requires
        model::in_bounds(dims, idx),
    ensures
        0 <= model::ravel(dims, idx) < model::numel(dims),
        model::unravel(dims, model::ravel(dims, idx)) == idx,
    decreases dims.len(),
{
    if dims.len() > 0 {
        let front = dims.drop_last();
        let head = idx.drop_last();
        assert forall|k: int| 0 <= k < front.len() implies 0 <= #[trigger] head[k] < front[k] by {
            assert(head[k] == idx[k]);
        }
        lemma_ravel(front, head);
        let r = model::ravel(front, head);
        let n = model::numel(front);
        let d = dims.last() as int;
        let l = idx.last();
        assert(0 <= l < d) by {
            assert(idx[dims.len() - 1] == l);
        }
        assert(0 <= r * d + l < n * d) by (nonlinear_arith)
            requires
                0 <= r < n,
                0 <= l < d,
        ;
        assert((r * d + l) / d == r && (r * d + l) % d == l) by {
            vstd::arithmetic::div_mod::lemma_fundamental_div_mod_converse(r * d + l, d, r, l);
        }
        assert(model::unravel(dims, model::ravel(dims, idx)) =~= idx);
    } else {
        assert(idx =~= Seq::empty());
    }
}

/// Every row-major position has a multi-index within bounds.
pub proof fn lemma_unravel(dims: Seq<nat>, i: int)
    requires
        0 <= i < model::numel(dims),
    ensures
        model::in_bounds(dims, model::unravel(dims, i)),
        model::ravel(dims, model::unravel(dims, i)) == i,
    decreases dims.len(),
{
    if dims.len() > 0 {
        let front = dims.drop_last();
        let d = dims.last() as int;
        let n = model::numel(front);
        assert(d > 0) by (nonlinear_arith)
            requires
                0 <= i < n * d,
                d >= 0,
        ;
        assert(0 <= i / d < n && 0 <= i % d < d && i == (i / d) * d + i % d) by (nonlinear_arith)
            requires
                0 <= i < n * d,
                d > 0,
        ;
        lemma_unravel(front, i / d);
        let o = model::unravel(dims, i);
        let head = model::unravel(front, i / d);
        assert(o.drop_last() =~= head);
        assert forall|k: int| 0 <= k < dims.len() implies 0 <= #[trigger] o[k] < dims[k] by {
            if k < front.len() {
                assert(o[k] == head[k]);
                assert(front[k] == dims[k]);
            }
        }
    }
}

/// Exchanging the axes by `p` and then by `q` leaves a tensor as it was, where `q`
/// undoes `p`.
pub proof fn lemma_permute_inverse(v: TensorView, p: Seq<int>, q: Seq<int>)
    requires
        v.wf(),
        model::is_permutation(p, v.rank()),
        model::is_permutation(q, v.rank()),
        forall|j: int| 0 <= j < v.rank() ==> p[#[trigger] q[j]] == j,
    ensures
        model::permute(model::permute(v, p), q) == v,
{
    reveal(model::permute);
    let n = v.rank();
    assert forall|j: int| 0 <= j < n implies #[trigger] q[j] == p.index_of(j) by {
        assert(p[q[j]] == j);
        assert(p.contains(j));
        assert(p[p.index_of(j)] == j);
    }
    let w = model::permute(v, p);
    let r = model::permute(w, q);
    assert(r.dims =~= v.dims);
    assert forall|i: int| 0 <= i < v.cells.len() implies #[trigger] r.cells[i] == v.cells[i] by {
        lemma_unravel(v.dims, i);
        let o = model::unravel(v.dims, i);
        let s2 = Seq::new(n, |k: int| o[q.index_of(k)]);
        assert forall|k: int| 0 <= k < n implies q.index_of(#[trigger] q[k]) == k by {
            assert(q.contains(q[k]));
            let m = q.index_of(q[k]);
            assert(q[m] == q[k]);
        }
        assert forall|k: int| 0 <= k < n implies 0 <= #[trigger] s2[k] < w.dims[k] by {
            // `k` is `q[m]` for `m = p[k]`.
            let m = p[k];
            assert(q[m] == p.index_of(m));
            assert(p[q[m]] == m && q[m] == k);
            assert(s2[k] == o[m]);
            assert(w.dims[k] == v.dims[p[k]]);
        }
        lemma_ravel(w.dims, s2);
        let s1 = Seq::new(n, |k: int| model::unravel(w.dims, model::ravel(w.dims, s2))[p.index_of(k)]);
        assert forall|k: int| 0 <= k < n implies #[trigger] s1[k] == o[k] by {
            assert(p.index_of(k) == q[k]);
            assert(s1[k] == s2[q[k]]);
            assert(s2[q[k]] == o[q.index_of(q[k])]);
        }
        assert(s1 =~= o);
    }
    assert(r.cells =~= v.cells);
}

/// The element of a tensor with exchanged axes whose multi-index is that of an element
/// with the same axes exchanged.
pub proof fn lemma_permute_at(v: TensorView, p: Seq<int>, idx: Seq<int>)
    requires
        v.wf(),
        model::is_permutation(p, v.rank()),
        model::in_bounds(v.dims, idx),
    ensures
        model::permute(v, p).at(Seq::new(v.rank(), |j: int| idx[p[j]])) == v.at(idx),
        model::permute(v, p).dims == Seq::new(v.rank(), |j: int| v.dims[p[j]]),
        model::permute(v, p).wf(),
{
    reveal(model::permute);
    let n = v.rank();
    let w = model::permute(v, p);
    let o = Seq::new(n, |j: int| idx[p[j]]);
    assert(w.dims =~= Seq::new(n, |j: int| v.dims[p[j]]));
    assert forall|j: int| 0 <= j < n implies 0 <= #[trigger] o[j] < w.dims[j] by {
        assert(0 <= p[j] < n);
        assert(0 <= idx[p[j]] < v.dims[p[j]]);
    }
    lemma_ravel(w.dims, o);
    lemma_permutation_onto(p, n);
    let source = Seq::new(n, |k: int| o[p.index_of(k)]);
    assert forall|k: int| 0 <= k < n implies #[trigger] source[k] == idx[k] by {
        assert(p.contains(k));
        assert(p[p.index_of(k)] == k);
    }
    assert(source =~= idx);
}

/// A permutation of `n` axes lists each of them.
pub proof fn lemma_permutation_onto(p: Seq<int>, n: nat)
    requires
        model::is_permutation(p, n),
    ensures
        forall|k: int| 0 <= k < n ==> #[trigger] p.contains(k),
{
    assert forall|k: int| 0 <= k < n implies #[trigger] p.contains(k) by {
        if !p.contains(k) {
            let s = p.to_set();
            let all = vstd::set_lib::set_int_range(0, n as int);
            vstd::set_lib::lemma_int_range(0, n as int);
            assert(p.no_duplicates());
            p.unique_seq_to_set();
            assert forall|a: int| s.contains(a) implies all.remove(k).contains(a) by {
                assert(p.contains(a));
            }
            vstd::set_lib::lemma_len_subset(s, all.remove(k));
        }
    }
}

/// One more axis extends a row-major position.
pub proof fn lemma_ravel_push(dims: Seq<nat>, d: nat, idx: Seq<int>, i: int)
    ensures
        model::ravel(dims.push(d), idx.push(i)) == model::ravel(dims, idx) * d + i,
{
    assert(dims.push(d).drop_last() =~= dims);
    assert(idx.push(i).drop_last() =~= idx);
}

/// A last axis of size one does not change a row-major position.
pub proof fn lemma_ravel_one(dims: Seq<nat>, idx: Seq<int>)
    ensures
        model::ravel(dims.push(1), idx.push(0)) == model::ravel(dims, idx),
{
    lemma_ravel_push(dims, 1, idx, 0);
}

/// The element of a part.
pub proof fn lemma_narrow_at(x: TensorView, dim: int, start: nat, len: nat, idx: Seq<int>)
    requires
        0 <= dim < x.rank(),
        model::in_bounds(x.dims.update(dim, len), idx),
    ensures
        model::narrow(x, dim, start, len).at(idx) == x.at(idx.update(dim, idx[dim] + start)),
{
    reveal(model::narrow);
    lemma_ravel(x.dims.update(dim, len), idx);
}

/// The element of two parts along their last axis.
pub proof fn lemma_cat2_at(a: TensorView, b: TensorView, dims: Seq<nat>, idx: Seq<int>, i: int)
    requires
        a.rank() == dims.len() + 1,
        a.dims.drop_last() == dims,
        model::in_bounds(dims, idx),
        0 <= i < a.dims.last() + b.dims[dims.len() as int],
    ensures
        model::cat2(a, b, dims.len() as int).dims == dims.push(a.dims.last() + b.dims[dims.len() as int]),
        model::cat2(a, b, dims.len() as int).at(idx.push(i)) == (if i < a.dims.last() {
            a.at(idx.push(i))
        } else {
            b.at(idx.push(i - a.dims.last()))
        }),
{
    reveal(model::cat2);
    let n = dims.len() as int;
    let all = a.dims.update(n, a.dims[n] + b.dims[n]);
    assert(all =~= dims.push(a.dims.last() + b.dims[n]));
    let o = idx.push(i);
    assert forall|k: int| 0 <= k < all.len() implies 0 <= #[trigger] o[k] < all[k] by {
        if k < n {
            assert(o[k] == idx[k] && all[k] == dims[k]);
        }
    }
    lemma_ravel(all, o);
    assert(o.update(n, i - a.dims.last()) =~= idx.push(i - a.dims.last()));
}

/// Row-major positions under four axes.
pub proof fn lemma_ravel4(d: Seq<nat>, o: Seq<int>)
    requires
        d.len() == 4,
        o.len() == 4,
    ensures
        model::ravel(d, o) == ((o[0] * d[1] + o[1]) * d[2] + o[2]) * d[3] + o[3],
{
    let e = Seq::<nat>::empty();
    let f = Seq::<int>::empty();
    lemma_ravel_push(e, d[0], f, o[0]);
    lemma_ravel_push(e.push(d[0]), d[1], f.push(o[0]), o[1]);
    lemma_ravel_push(e.push(d[0]).push(d[1]), d[2], f.push(o[0]).push(o[1]), o[2]);
    lemma_ravel_push(
        e.push(d[0]).push(d[1]).push(d[2]),
        d[3],
        f.push(o[0]).push(o[1]).push(o[2]),
        o[3],
    );
    assert(d =~= e.push(d[0]).push(d[1]).push(d[2]).push(d[3]));
    assert(o =~= f.push(o[0]).push(o[1]).push(o[2]).push(o[3]));
    assert(model::ravel(e, f) == 0);
    let r0 = model::ravel(e, f);
    assert(r0 * d[0] == 0) by (nonlinear_arith)
        requires
            r0 == 0,
    ;
}

/// Row-major positions under five axes.
pub proof fn lemma_ravel5(d: Seq<nat>, o: Seq<int>)
    requires
        d.len() == 5,
        o.len() == 5,
    ensures
        model::ravel(d, o) == (((o[0] * d[1] + o[1]) * d[2] + o[2]) * d[3] + o[3]) * d[4] + o[4],
{
    lemma_ravel4(d.drop_last(), o.drop_last());
}

/// Row-major positions under six axes.
pub proof fn lemma_ravel6(d: Seq<nat>, o: Seq<int>)
    requires
        d.len() == 6,
        o.len() == 6,
    ensures
        model::ravel(d, o) == ((((o[0] * d[1] + o[1]) * d[2] + o[2]) * d[3] + o[3]) * d[4] + o[4]) * d[5]
            + o[5],
{
    lemma_ravel5(d.drop_last(), o.drop_last());
}

/// Row-major positions under seven axes.
pub proof fn lemma_ravel7(d: Seq<nat>, o: Seq<int>)
    requires
        d.len() == 7,
        o.len() == 7,
    ensures
        model::ravel(d, o) == (((((o[0] * d[1] + o[1]) * d[2] + o[2]) * d[3] + o[3]) * d[4] + o[4]) * d[5]
            + o[5]) * d[6] + o[6],
{
    lemma_ravel6(d.drop_last(), o.drop_last());
}

/// Row-major positions under eight axes.
pub proof fn lemma_ravel8(d: Seq<nat>, o: Seq<int>)
    requires
        d.len() == 8,
        o.len() == 8,
    ensures
        model::ravel(d, o) == ((((((o[0] * d[1] + o[1]) * d[2] + o[2]) * d[3] + o[3]) * d[4] + o[4]) * d[5]
            + o[5]) * d[6] + o[6]) * d[7] + o[7],
{
    lemma_ravel7(d.drop_last(), o.drop_last());
}

/// Two neighbouring axes of sizes `n` and `p` count like one of size `n * p`.
pub proof fn lemma_merge_axes(r: int, n: int, a: int, p: int, b: int)
    ensures
        r * (n * p) + (a * p + b) == (r * n + a) * p + b,
{
    assert(r * (n * p) + (a * p + b) == (r * n + a) * p + b) by (nonlinear_arith);
}

// Shapes.

/// Whether a tensor of the first shape is repeated along some axes to reach the second.
pub open spec fn spreads(small: Seq<nat>, large: Seq<nat>) -> bool {
    &&& small.len() == large.len()
    &&& forall|k: int| 0 <= k < small.len() ==> #[trigger] small[k] == large[k] || small[k] == 1
}

/// Combining a tensor with one that is repeated keeps its shape.
pub proof fn lemma_binary_dims(op: BinOp, a: TensorView, b: TensorView)
    requires
        spreads(b.dims, a.dims),
    ensures
        model::binary(op, a, b).dims == a.dims,
{
    reveal(model::binary);
    reveal(model::broadcast_to);
    let n = a.dims.len();
    assert forall|k: int| 0 <= k < n implies #[trigger] model::common_dims(a.dims, b.dims)[k] == a.dims[k] by {
        assert(model::size_from_last(a.dims, n - 1 - k) == a.dims[k]);
        assert(model::size_from_last(b.dims, n - 1 - k) == b.dims[k]);
    }
    assert(model::common_dims(a.dims, b.dims) =~= a.dims);
}

/// The same with the smaller tensor first.
pub proof fn lemma_binary_dims_flipped(op: BinOp, a: TensorView, b: TensorView)
    requires
        spreads(a.dims, b.dims),
    ensures
        model::binary(op, a, b).dims == b.dims,
{
    reveal(model::binary);
    reveal(model::broadcast_to);
    let n = a.dims.len();
    assert forall|k: int| 0 <= k < n implies #[trigger] model::common_dims(a.dims, b.dims)[k] == b.dims[k] by {
        assert(model::size_from_last(a.dims, n - 1 - k) == a.dims[k]);
        assert(model::size_from_last(b.dims, n - 1 - k) == b.dims[k]);
    }
    assert(model::common_dims(a.dims, b.dims) =~= b.dims);
}

/// A shape that is repeated to another has that one in common with it.
pub proof fn lemma_spread_common(small: Seq<nat>, large: Seq<nat>)
    requires
        spreads(small, large),
    ensures
        model::have_common_dims(large, small),
        model::common_dims(large, small) == large,
{
    let n = large.len();
    assert forall|k: int| 0 <= k < n implies (#[trigger] model::size_from_last(large, k)) == model::size_from_last(
        small,
        k,
    ) || model::size_from_last(small, k) == 1 by {
        assert(small[n - 1 - k] == large[n - 1 - k] || small[n - 1 - k] == 1);
    }
    assert forall|k: int| 0 <= k < n implies #[trigger] model::common_dims(large, small)[k] == large[k] by {
        assert(model::size_from_last(large, n - 1 - k) == large[k]);
        assert(model::size_from_last(small, n - 1 - k) == small[k]);
    }
    assert(model::common_dims(large, small) =~= large);
}

/// A list of the size of the last axis, or of one element, is repeated along the others.
pub proof fn lemma_last_spreads(dims: Seq<nat>, width: nat)
    requires
        dims.len() > 0,
        dims.last() == width || width == 1,
    ensures
        model::have_common_dims(dims, seq![width]),
        model::common_dims(dims, seq![width]) == dims,
{
    let w: Seq<nat> = seq![width];
    assert(model::size_from_last(dims, 0) == dims.last() && model::size_from_last(w, 0) == width);
    assert forall|k: int| 0 < k < dims.len() implies #[trigger] model::size_from_last(w, k) == 1 by {}
    assert(model::common_dims(dims, w) =~= dims);
}

/// A single number is repeated to any shape.
pub proof fn lemma_number_spreads(dims: Seq<nat>)
    ensures
        model::have_common_dims(dims, Seq::<nat>::empty()),
        model::common_dims(dims, Seq::<nat>::empty()) == dims,
{
    assert(model::common_dims(dims, Seq::<nat>::empty()) =~= dims);
}

/// A size of an addressable shape is addressable.
pub proof fn lemma_size_fits(dims: Seq<nat>, i: int)
    requires
        0 <= i < dims.len(),
        model::fits(dims),
    ensures
        dims[i] <= usize::MAX,
{
    lemma_size_in_extent(dims, i);
}

/// The size of an axis as it counts for whether a tensor can be addressed.
pub open spec fn counted_size(n: nat) -> nat {
    if n == 0 {
        1
    } else {
        n
    }
}

/// Two axes that are merged count at most for what they count for alone.
pub proof fn lemma_merged_size(a: nat, b: nat)
    ensures
        a * b <= counted_size(a) * counted_size(b),
        1 <= counted_size(a * b) <= counted_size(a) * counted_size(b),
{
    let (x, y) = (counted_size(a), counted_size(b));
    assert(a * b <= x * y && 1 <= x * y) by (nonlinear_arith)
        requires
            a <= x,
            b <= y,
            1 <= x,
            1 <= y,
            a >= 0,
            b >= 0,
    ;
}

pub proof fn lemma_extent3(a: nat, b: nat, c: nat)
    ensures
        model::extent(seq![a, b, c]) == counted_size(a) * counted_size(b) * counted_size(c),
{
    lemma_extent1(a);
    lemma_numel_push(seq![a], b);
    lemma_numel_push(seq![a, b], c);
    assert(seq![a].push(b) =~= seq![a, b]);
    assert(seq![a, b].push(c) =~= seq![a, b, c]);
}

pub proof fn lemma_extent4(a: nat, b: nat, c: nat, d: nat)
    ensures
        model::extent(seq![a, b, c, d]) == counted_size(a) * counted_size(b) * counted_size(c) * counted_size(d),
{
    lemma_extent3(a, b, c);
    lemma_numel_push(seq![a, b, c], d);
    assert(seq![a, b, c].push(d) =~= seq![a, b, c, d]);
}

pub proof fn lemma_extent5(a: nat, b: nat, c: nat, d: nat, e: nat)
    ensures
        model::extent(seq![a, b, c, d, e]) == counted_size(a) * counted_size(b) * counted_size(c) * counted_size(
            d,
        ) * counted_size(e),
{
    lemma_extent4(a, b, c, d);
    lemma_numel_push(seq![a, b, c, d], e);
    assert(seq![a, b, c, d].push(e) =~= seq![a, b, c, d, e]);
}

pub proof fn lemma_extent7(a: nat, b: nat, c: nat, d: nat, e: nat, f: nat, g: nat)
    ensures
        model::extent(seq![a, b, c, d, e, f, g]) == counted_size(a) * counted_size(b) * counted_size(c)
            * counted_size(d) * counted_size(e) * counted_size(f) * counted_size(g),
{
    lemma_extent5(a, b, c, d, e);
    lemma_numel_push(seq![a, b, c, d, e], f);
    lemma_numel_push(seq![a, b, c, d, e, f], g);
    assert(seq![a, b, c, d, e].push(f) =~= seq![a, b, c, d, e, f]);
    assert(seq![a, b, c, d, e, f].push(g) =~= seq![a, b, c, d, e, f, g]);
}

/// A size is at most the product of all sizes that are not zero.
proof fn lemma_size_in_extent(dims: Seq<nat>, i: int)
    requires
        0 <= i < dims.len(),
    ensures
        dims[i] <= model::extent(dims),
        model::extent(dims) > 0,
    decreases dims.len(),
{
    let front = dims.drop_last();
    let last = if dims.last() == 0 { 1 } else { dims.last() };
    if front.len() > 0 {
        lemma_size_in_extent(front, if i < front.len() { i } else { 0 });
    } else {
        assert(model::extent(front) == 1);
    }
    let e = model::extent(front);
    assert(e > 0 ==> e <= e * last && last <= e * last) by (nonlinear_arith)
        requires
            last >= 1,
    ;
    if i < front.len() {
        assert(front[i] == dims[i]);
    }
}

/// The element of a tensor that is extended by zeros behind its last position along an axis.
pub proof fn lemma_pad_behind_at(v: TensorView, dim: int, right: nat, idx: Seq<int>)
    requires
        0 <= dim < v.rank(),
        model::in_bounds(v.dims.update(dim, v.dims[dim] + right), idx),
    ensures
        model::pad_zeros(v, dim, 0, right).at(idx) == (if idx[dim] < v.dims[dim] {
            v.at(idx)
        } else {
            model::constant(0, v.dtype)
        }),
{
    let dims = v.dims.update(dim, v.dims[dim] + right);
    if right == 0 {
        assert(dims =~= v.dims);
    } else {
        reveal(model::cat2);
        let z = model::zeros(v.dims.update(dim, right), v.dtype);
        let parts = seq![v, z];
        assert(parts.drop_last() =~= seq![v]);
        reveal_with_fuel(model::cat, 2);
        assert(model::cat(parts, dim) == model::cat2(v, z, dim));
        lemma_ravel(dims, idx);
        if idx[dim] >= v.dims[dim] {
            let rest = idx.update(dim, idx[dim] - v.dims[dim]);
            assert(model::in_bounds(z.dims, rest));
            lemma_ravel(z.dims, rest);
        }
    }
}

/// The shape of a part.
pub proof fn lemma_narrow_dims(x: TensorView, dim: int, start: nat, len: nat)
    ensures
        model::narrow(x, dim, start, len).dims == x.dims.update(dim, len),
        model::narrow(x, dim, start, len).dtype == x.dtype,
{
    reveal(model::narrow);
}

/// Two parts of a tensor along its second axis, of sizes one and two, have its shape together.
pub proof fn lemma_rejoined(dims: Seq<nat>, a: TensorView, b: TensorView)
    requires
        dims.len() > 1,
        a.dims == dims.update(1, 1),
        b.dims == dims.update(1, 2),
    ensures
        model::joinable(seq![a, b], 1),
        model::cat(seq![a, b], 1).dims == dims.update(1, 3),
        dims[1] == 3 ==> model::cat(seq![a, b], 1).dims == dims,
        model::cat(seq![a, b], 1).dtype == a.dtype,
{
    reveal(model::cat2);
    let parts = seq![a, b];
    assert(parts[0] == a && parts[1] == b);
    model::lemma_cat_dims(parts, 1);
    assert(parts.drop_last() =~= seq![a]);
    assert(seq![a].drop_last() =~= Seq::<TensorView>::empty());
    assert(model::joined_size(Seq::<TensorView>::empty(), 1) == 0);
    assert(seq![a].last() == a && parts.last() == b);
    assert(model::joined_size(seq![a], 1) == 1);
    assert(model::joined_size(parts, 1) == 3);
    assert(model::cat(seq![a], 1) == a);
    assert(model::cat(parts, 1) == model::cat2(model::cat(parts.drop_last(), 1), b, 1));
    assert(a.dims.update(1, 3) =~= dims.update(1, 3));
    if dims[1] == 3 {
        assert(dims.update(1, 3) =~= dims);
    }
}

/// Two tensors that differ in the size of one axis alone can be joined along it.
pub proof fn lemma_join2(a: TensorView, b: TensorView, dim: int)
    requires
        0 <= dim < a.rank(),
        b.dims == a.dims.update(dim, b.dims[dim]),
    ensures
        model::joinable(seq![a, b], dim),
        model::cat(seq![a, b], dim).dims == a.dims.update(dim, a.dims[dim] + b.dims[dim]),
        model::cat(seq![a, b], dim).dtype == a.dtype,
{
    reveal(model::cat2);
    let parts = seq![a, b];
    assert(parts[0] == a && parts[1] == b);
    model::lemma_cat_dims(parts, dim);
    assert(parts.drop_last() =~= seq![a]);
    assert(seq![a].drop_last() =~= Seq::<TensorView>::empty());
    assert(model::joined_size(Seq::<TensorView>::empty(), dim) == 0);
    assert(seq![a].last() == a && parts.last() == b);
    assert(model::joined_size(seq![a], dim) == a.dims[dim]);
    assert(model::cat(seq![a], dim) == a);
    assert(model::cat(parts, dim) == model::cat2(model::cat(parts.drop_last(), dim), b, dim));
}

/// Zeros in front and behind extend an axis.
pub proof fn lemma_pad(v: TensorView, dim: int, left: nat, right: nat)
    requires
        0 <= dim < v.rank(),
    ensures
        model::pad_zeros(v, dim, left, right).dims == v.dims.update(dim, left + v.dims[dim] + right),
        model::pad_zeros(v, dim, left, right).dtype == v.dtype,
{
    let l = model::zeros(v.dims.update(dim, left), v.dtype);
    let r = model::zeros(v.dims.update(dim, right), v.dtype);
    let all = left + v.dims[dim] + right;
    if left == 0 && right == 0 {
        assert(v.dims.update(dim, all) =~= v.dims);
    } else if left == 0 {
        lemma_join2(v, r, dim);
    } else {
        assert(l.dims.update(dim, v.dims[dim]) =~= v.dims);
        lemma_join2(l, v, dim);
        assert(l.dims.update(dim, left + v.dims[dim]) =~= v.dims.update(dim, left + v.dims[dim]));
        if right > 0 {
            let front = model::cat(seq![l, v], dim);
            assert(front.dims.update(dim, right) =~= r.dims);
            lemma_join2(front, r, dim);
            let parts = seq![l, v, r];
            assert(parts.drop_last() =~= seq![l, v]);
            assert(parts.last() == r);
            assert(seq![front, r].drop_last() =~= seq![front]);
            assert(seq![front, r].last() == r);
            assert(model::cat(seq![front], dim) == front);
            assert(model::cat(parts, dim) == model::cat2(front, r, dim));
            assert(model::cat(seq![front, r], dim) == model::cat2(front, r, dim));
            assert(front.dims.update(dim, all) =~= v.dims.update(dim, all));
        }
    }
}

/// The common shape of a column and a row.
pub proof fn lemma_table(a: nat, b: nat)
    ensures
        model::have_common_dims(seq![a, 1], seq![1, b]),
        model::common_dims(seq![a, 1], seq![1, b]) == seq![a, b],
        model::have_common_dims(seq![1, b], seq![a, 1]),
        model::common_dims(seq![1, b], seq![a, 1]) == seq![a, b],
{
    let (x, y): (Seq<nat>, Seq<nat>) = (seq![a, 1], seq![1, b]);
    assert(model::size_from_last(x, 0) == 1 && model::size_from_last(x, 1) == a);
    assert(model::size_from_last(y, 0) == b && model::size_from_last(y, 1) == 1);
    assert(model::common_dims(x, y) =~= seq![a, b]);
    assert(model::common_dims(y, x) =~= seq![a, b]);
}

/// A shape with elements, but no more than another that can be addressed, can be addressed.
pub proof fn lemma_room(dims: Seq<nat>, room: Seq<nat>)
    requires
        0 < model::numel(dims) <= model::numel(room),
        model::fits(room),
    ensures
        model::fits(dims),
{
    lemma_extent_is_numel(dims);
    lemma_extent_is_numel(room);
}

/// Lists of one element each can be joined to a list.
pub proof fn lemma_list(parts: Seq<TensorView>, dtype: model::Dtype)
    requires
        parts.len() > 0,
        forall|i: int| 0 <= i < parts.len() ==> (#[trigger] parts[i]).dims == seq![1nat] && parts[i].dtype == dtype,
    ensures
        model::joinable(parts, 0),
        model::cat(parts, 0).dims == seq![parts.len()],
        model::cat(parts, 0).dtype == dtype,
    decreases parts.len(),
{
    reveal(model::cat2);
    let front = parts.drop_last();
    assert forall|i: int| 0 <= i < front.len() implies (#[trigger] front[i]).dims == seq![1nat] && front[i].dtype
        == dtype by {
        assert(front[i] == parts[i]);
    }
    assert(parts[0].dims == seq![1nat]);
    if parts.len() > 1 {
        lemma_list(front, dtype);
        assert(parts.last() == parts[parts.len() - 1]);
        assert(model::cat(parts, 0) == model::cat2(model::cat(front, 0), parts.last(), 0));
        assert(model::cat(parts, 0).dims =~= seq![parts.len()]);
    }
}

/// The shape with exchanged axes.
pub proof fn lemma_permute_dims(x: TensorView, p: Seq<int>)
    ensures
        model::permute(x, p).dims == Seq::new(p.len(), |j: int| x.dims[p[j]]),
        model::permute(x, p).dtype == x.dtype,
{
    reveal(model::permute);
}

/// The common shape of a shape and itself.
pub proof fn lemma_common_dims(d: Seq<nat>)
    ensures
        model::have_common_dims(d, d),
        model::common_dims(d, d) == d,
{
    let n = d.len();
    assert forall|k: int| 0 <= k < n implies #[trigger] model::common_dims(d, d)[k] == d[k] by {
        assert(model::size_from_last(d, n - 1 - k) == d[k]);
    }
    assert(model::common_dims(d, d) =~= d);
}

/// One axis can be addressed where its elements fit into one allocation.
pub proof fn lemma_extent1(n: nat)
    ensures
        model::extent(seq![n]) == (if n == 0 { 1 } else { n }),
{
    lemma_numel_push(Seq::empty(), n);
    assert(model::extent(Seq::<nat>::empty()) == 1);
    assert(Seq::<nat>::empty().push(n) =~= seq![n]);
    let one = model::extent(Seq::<nat>::empty());
    let m: nat = if n == 0 { 1 } else { n };
    assert(one * m == m) by (nonlinear_arith)
        requires
            one == 1,
    ;
}

/// A single number has one element, with one axis or none.
pub proof fn lemma_single()
    ensures
        model::numel(Seq::<nat>::empty()) == 1,
        model::fits(Seq::<nat>::empty()),
        model::numel(seq![1nat]) == 1,
        model::fits(seq![1nat]),
{
    lemma_numel1(1);
    lemma_extent1(1);
    assert(model::extent(Seq::<nat>::empty()) == 1);
}

/// A relation between single numbers is a single flag.
pub proof fn lemma_single_relation(op: RelOp, a: TensorView, b: TensorView)
    requires
        a.rank() == 0,
        b.rank() == 0,
    ensures
        model::relation(op, a, b).dims == Seq::<nat>::empty(),
        model::have_common_dims(a.dims, b.dims),
        model::common_dims(a.dims, b.dims) == Seq::<nat>::empty(),
        model::fits(Seq::<nat>::empty()),
        model::numel(Seq::<nat>::empty()) == 1,
        model::numel(seq![1nat]) == 1,
        model::fits(seq![1nat]),
        model::relation(op, a, b).dtype == model::Dtype::U8,
{
    reveal(model::relation);
    lemma_single();
    assert(model::common_dims(a.dims, b.dims) =~= Seq::<nat>::empty());
}

/// A single number keeps its element where its shape is repeated to no axes.
proof fn lemma_single_spread(v: TensorView)
    requires
        v.rank() == 0,
    ensures
        model::broadcast_to(v, Seq::empty()).dims == Seq::<nat>::empty(),
        model::broadcast_to(v, Seq::empty()).cells.len() == 1,
        model::broadcast_to(v, Seq::empty()).cells[0] == v.cells[0],
{
    reveal(model::broadcast_to);
    lemma_single();
    assert(v.dims =~= Seq::<nat>::empty());
    let idx = model::unravel(Seq::<nat>::empty(), 0);
    assert(model::ravel(v.dims, idx) == 0);
    let b = model::broadcast_to(v, Seq::empty());
    let shift = 0 - v.dims.len();
    let source = Seq::new(
        v.dims.len(),
        |k: int|
            if v.dims[k] == Seq::<nat>::empty()[k + shift] {
                idx[k + shift]
            } else {
                0
            },
    );
    assert(model::ravel(v.dims, source) == 0);
}

/// What two single numbers give is a single number.
pub proof fn lemma_single_binary(op: BinOp, a: TensorView, b: TensorView)
    requires
        a.rank() == 0,
        b.rank() == 0,
    ensures
        model::binary(op, a, b).cells =~= seq![
            model::Cell::Binary(op, Box::new(a.cells[0]), Box::new(b.cells[0])),
        ],
{
    reveal(model::binary);
    lemma_single();
    assert(model::common_dims(a.dims, b.dims) =~= Seq::<nat>::empty());
    lemma_single_spread(a);
    lemma_single_spread(b);
}

/// Which element of a tensor of the first shape stands at an element of the second, where it is
/// repeated to it.
pub open spec fn repeated(small: Seq<nat>, large: Seq<nat>, idx: Seq<int>) -> Seq<int> {
    let shift = large.len() - small.len();
    Seq::new(
        small.len(),
        |k: int|
            if small[k] == large[k + shift] {
                idx[k + shift]
            } else {
                0
            },
    )
}

/// An element of a tensor that is combined with one that is repeated to its shape.
pub proof fn lemma_binary_at(op: BinOp, a: TensorView, b: TensorView, idx: Seq<int>)
    requires
        b.rank() <= a.rank(),
        model::common_dims(a.dims, b.dims) == a.dims,
        model::in_bounds(a.dims, idx),
    ensures
        model::binary(op, a, b).dims == a.dims,
        model::binary(op, a, b).at(idx) == model::Cell::Binary(
            op,
            Box::new(a.at(idx)),
            Box::new(b.at(repeated(b.dims, a.dims, idx))),
        ),
{
    reveal(model::binary);
    reveal(model::broadcast_to);
    lemma_ravel(a.dims, idx);
    let i = model::ravel(a.dims, idx);
    let l = model::broadcast_to(a, a.dims);
    let r = model::broadcast_to(b, a.dims);
    let o = model::unravel(a.dims, i);
    assert(o == idx);
    assert(repeated(a.dims, a.dims, idx) =~= idx);
    assert(l.cells[i] == a.at(repeated(a.dims, a.dims, o)));
    assert(r.cells[i] == b.at(repeated(b.dims, a.dims, o)));
}

/// An element of two parts.
pub proof fn lemma_parts_at(a: TensorView, b: TensorView, dim: int, idx: Seq<int>)
    requires
        0 <= dim < a.rank(),
        model::in_bounds(a.dims.update(dim, a.dims[dim] + b.dims[dim]), idx),
    ensures
        model::cat(seq![a, b], dim).at(idx) == (if idx[dim] < a.dims[dim] {
            a.at(idx)
        } else {
            b.at(idx.update(dim, idx[dim] - a.dims[dim]))
        }),
{
    reveal(model::cat2);
    let parts = seq![a, b];
    assert(parts.drop_last() =~= seq![a]);
    assert(model::cat(seq![a], dim) == a);
    assert(model::cat(parts, dim) == model::cat2(model::cat(parts.drop_last(), dim), b, dim));
    lemma_ravel(a.dims.update(dim, a.dims[dim] + b.dims[dim]), idx);
}

/// A tensor keeps its shape where it is combined with a single number.
pub proof fn lemma_with_single(op: BinOp, a: TensorView, b: TensorView)
    requires
        b.rank() == 0,
    ensures
        model::binary(op, a, b).dims == a.dims,
        model::binary(op, a, b).dtype == a.dtype,
        model::have_common_dims(a.dims, b.dims),
        model::common_dims(a.dims, b.dims) == a.dims,
{
    reveal(model::binary);
    reveal(model::broadcast_to);
    let n = a.dims.len();
    assert forall|k: int| 0 <= k < n implies #[trigger] model::common_dims(a.dims, b.dims)[k] == a.dims[k] by {
        assert(model::size_from_last(a.dims, n - 1 - k) == a.dims[k]);
    }
    assert(model::common_dims(a.dims, b.dims) =~= a.dims);
}

} // verus!
