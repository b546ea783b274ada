//! How the timestep modulates the streams of a block.
use vstd::prelude::*;

use crate::base::ops;
use crate::lemmas;
use crate::model::{self, BinOp, Dtype, TensorView};
use crate::reals::{self, Functions};
use crate::scalar::{Scalar, ONE};
use crate::transformer::block::{
    ada_of, av_ada_of, av_rows_of, ffn_of, modulated_of, prompt_context_of, self_and_text_attention_of, self_attention_of,
    text_attention_of, BasicAVTransformerBlock, StreamLayers,
};
use crate::transformer::modality::ArgsView;

verus! {

/// Number `j` of row `r` of a modulation table, with what a token has for that row.
pub open spec fn row_value(
    table: TensorView,
    timesteps: TensorView,
    r: int,
    b: int,
    t: int,
    j: int,
    f: Functions,
) -> real {
    reals::value(table.at(seq![r, j]), f) + reals::value(timesteps.at(seq![b, t, r * table.dims[1] + j]), f)
}

/// Whether a table of rows of numbers goes with the values of each token.
pub open spec fn modulating(table: TensorView, batch: nat, timesteps: TensorView) -> bool {
    &&& table.wf() && table.rank() == 2
    &&& timesteps.wf() && timesteps.dtype.float() && timesteps.rank() == 3
    &&& timesteps.dims == seq![batch, timesteps.dims[1], table.dims[0] * table.dims[1]]
}

/// Whether a state goes with a table and the values of each token.
pub open spec fn modulated_state(x: TensorView, table: TensorView, batch: nat, timesteps: TensorView) -> bool {
    &&& modulating(table, batch, timesteps)
    &&& x.wf() && x.dtype.float()
    &&& x.dims == seq![batch, timesteps.dims[1], table.dims[1]]
}

/// A token's values for row `r` stand side by side behind those for the rows before it.
proof fn lemma_token_row(table: TensorView, batch: nat, timesteps: TensorView, r: int, b: int, t: int, j: int)
    requires
        modulating(table, batch, timesteps),
        0 <= r < table.dims[0],
        0 <= b < batch && 0 <= t < timesteps.dims[1] && 0 <= j < table.dims[1],
    ensures
        ({
            let ts = model::reshape(timesteps, seq![batch, timesteps.dims[1], table.dims[0], table.dims[1]]);
            &&& ts.wf()
            &&& ts.at(seq![b, t, r, j]) == timesteps.at(seq![b, t, r * table.dims[1] + j])
        }),
        model::in_bounds(timesteps.dims, seq![b, t, r * table.dims[1] + j]),
{
    let (n, p, d) = (timesteps.dims[1] as int, table.dims[0] as int, table.dims[1] as int);
    let (four, three): (Seq<nat>, Seq<nat>) = (
        seq![batch, timesteps.dims[1], table.dims[0], table.dims[1]],
        seq![batch, timesteps.dims[1], table.dims[0] * table.dims[1]],
    );
    let (i4, i3) = (seq![b, t, r, j], seq![b, t, r * d + j]);
    assert(four.drop_last() =~= seq![batch, timesteps.dims[1], table.dims[0]]);
    assert(four.drop_last().drop_last() =~= seq![batch, timesteps.dims[1]]);
    assert(three.drop_last() =~= seq![batch, timesteps.dims[1]]);
    assert(i4.drop_last() =~= seq![b, t, r]);
    assert(i4.drop_last().drop_last() =~= seq![b, t]);
    assert(i3.drop_last() =~= seq![b, t]);
    let a = model::ravel(seq![batch, timesteps.dims[1]], seq![b, t]);
    assert(model::ravel(four.drop_last(), i4.drop_last()) == a * p + r);
    assert(model::ravel(four, i4) == (a * p + r) * d + j);
    assert(model::ravel(three, i3) == a * (p * d) + (r * d + j));
    assert((a * p + r) * d + j == a * (p * d) + (r * d + j)) by (nonlinear_arith);
    let m = model::numel(seq![batch, timesteps.dims[1]]) as int;
    assert(model::numel(four.drop_last()) == m * p);
    assert(model::numel(four) == m * p * d);
    assert(model::numel(three) == m * (p * d));
    assert(m * p * d == m * (p * d)) by (nonlinear_arith);
    assert(0 <= r * d + j < p * d) by (nonlinear_arith)
        requires
            0 <= r < p,
            0 <= j < d,
    ;
}

/// Rows `start .. start + n` of a table, spread over the tokens.
proof fn lemma_table_rows(table: TensorView, dtype: Dtype, start: nat, n: nat, i: int, j: int, f: Functions)
    requires
        table.wf() && table.rank() == 2 && dtype.float(),
        start + n <= table.dims[0],
        0 <= i < n,
        0 <= j < table.dims[1],
    ensures
        ({
            let rows = model::cast(
                model::unsqueeze(model::unsqueeze(model::narrow(table, 0, start, n), 0), 0),
                dtype,
            );
            &&& rows.dims == seq![1, 1, n, table.dims[1]]
            &&& reals::value(rows.at(seq![0, 0, i, j]), f) == reals::value(table.at(seq![start + i, j]), f)
        }),
{
    broadcast use reals::group_reading;
    let part = model::narrow(table, 0, start, n);
    lemmas::lemma_narrow_dims(table, 0, start, n);
    assert(table.dims.update(0, n) =~= seq![n, table.dims[1]]);
    assert(model::in_bounds(seq![n, table.dims[1]], seq![i, j]));
    lemmas::lemma_narrow_at(table, 0, start, n, seq![i, j]);
    assert(seq![i, j].update(0, i + start) =~= seq![start + i, j]);
    assert(part.wf()) by {
        reveal(model::narrow);
    }
    let t1 = model::unsqueeze(part, 0);
    reals::lemma_unsqueeze_at(part, 0, seq![i, j]);
    assert(seq![i, j].insert(0, 0) =~= seq![0, i, j]);
    reals::lemma_unsqueeze_at(t1, 0, seq![0, i, j]);
    assert(seq![0, i, j].insert(0, 0) =~= seq![0, 0, i, j]);
    let t2 = model::unsqueeze(t1, 0);
    assert(t2.dims =~= seq![1, 1, n, table.dims[1]]);
    assert(model::in_bounds(t2.dims, seq![0, 0, i, j]));
    lemmas::lemma_ravel(t2.dims, seq![0, 0, i, j]);
}

/// Value `i` of the three from row `offset` on is row `offset + i` of the table plus what the token
/// has for it.
pub proof fn law_row(
    table: TensorView,
    batch: nat,
    timesteps: TensorView,
    offset: nat,
    i: nat,
    b: int,
    t: int,
    j: int,
    f: Functions,
)
    requires
        modulating(table, batch, timesteps),
        i < 3,
        offset + 3 <= table.dims[0],
        0 <= b < batch && 0 <= t < timesteps.dims[1] && 0 <= j < table.dims[1],
    ensures
        ada_of(table, batch, timesteps, offset, i).dims == seq![batch, timesteps.dims[1], table.dims[1]],
        ada_of(table, batch, timesteps, offset, i).wf(),
        reals::value(ada_of(table, batch, timesteps, offset, i).at(seq![b, t, j]), f) == row_value(
            table,
            timesteps,
            (offset + i) as int,
            b,
            t,
            j,
            f,
        ),
{
    broadcast use reals::group_reading;
    let (n, p, d) = (timesteps.dims[1], table.dims[0], table.dims[1]);
    let rows = model::cast(
        model::unsqueeze(model::unsqueeze(model::narrow(table, 0, offset, 3), 0), 0),
        timesteps.dtype,
    );
    lemma_table_rows(table, timesteps.dtype, offset, 3, i as int, j, f);
    let ts = model::reshape(timesteps, seq![batch, n, p, d]);
    lemma_token_row(table, batch, timesteps, (offset + i) as int, b, t, j);
    let some = model::narrow(ts, 2, offset, 3);
    lemmas::lemma_narrow_dims(ts, 2, offset, 3);
    let all: Seq<nat> = seq![batch, n, 3, d];
    assert(ts.dims.update(2, 3) =~= all);
    let o = seq![b, t, i as int, j];
    assert(model::in_bounds(all, o));
    lemmas::lemma_narrow_at(ts, 2, offset, 3, o);
    assert(o.update(2, o[2] + offset) =~= seq![b, t, (offset + i) as int, j]);
    let combined = model::binary(BinOp::Plus, some, rows);
    lemmas::lemma_spread_common(rows.dims, all);
    reals::lemma_binary_at(BinOp::Plus, some, rows, o, f);
    assert(lemmas::repeated(all, all, o) =~= o);
    assert(lemmas::repeated(rows.dims, all, o) =~= seq![0, 0, i as int, j]);
    let part = model::narrow(combined, 2, i, 1);
    lemmas::lemma_narrow_dims(combined, 2, i, 1);
    let q = seq![b, t, 0, j];
    assert(all.update(2, 1) =~= seq![batch, n, 1, d]);
    assert(model::in_bounds(all.update(2, 1), q));
    lemmas::lemma_narrow_at(combined, 2, i, 1, q);
    assert(q.update(2, q[2] + i) =~= o);
    assert(part.wf()) by {
        reveal(model::narrow);
    }
    reals::lemma_squeeze_at(part, 2, seq![b, t, j]);
    assert(seq![b, t, j].insert(2, 0) =~= q);
    assert(part.dims.remove(2) =~= seq![batch, n, d]);
}

/// A modulated number is `1 + scale` times the number, plus the shift: where scale and shift are zero
/// it is the number itself, and a shift moves it by as much.
pub proof fn law_modulated(normed: TensorView, shift: TensorView, scale: TensorView, k: int, f: Functions)
    requires
        normed.wf() && shift.wf() && scale.wf(),
        normed.dtype.float(),
        shift.dims == normed.dims && scale.dims == normed.dims,
        0 <= k < normed.cells.len(),
    ensures
        modulated_of(normed, shift, scale).dims == normed.dims,
        modulated_of(normed, shift, scale).wf(),
        ({
            let (x, m) = (
                reals::value(normed.cells[k], f),
                reals::value(modulated_of(normed, shift, scale).cells[k], f),
            );
            m - reals::value(shift.cells[k], f) == x + x * reals::value(scale.cells[k], f)
        }),
{
    broadcast use reals::group_reading;
    reals::lemma_constants();
    let (x, s) = (reals::value(normed.cells[k], f), reals::value(scale.cells[k], f));
    let factor = model::affine(model::cast(scale, Dtype::F32), model::number(ONE), model::number(ONE));
    assert(s * 1real == s) by (nonlinear_arith);
    assert(reals::value(factor.cells[k], f) == s + 1real);
    let scaled = model::binary(BinOp::Times, model::cast(normed, Dtype::F32), factor);
    assert(reals::value(scaled.cells[k], f) == x * (s + 1real));
    assert(x * (s + 1real) == x + x * s) by (nonlinear_arith);
}

proof fn lemma_normed_shape(x: TensorView, eps: Scalar)
    requires
        x.rank() > 0,
        x.dtype.float(),
    ensures
        ops::rms_norm_of(x, None, eps).dims == x.dims,
        ops::rms_norm_of(x, None, eps).wf(),
        ops::rms_norm_of(x, None, eps).dtype == x.dtype,
{
    broadcast use reals::group_reading;
    reveal(model::mean_keepdim);
    let d = x.dims;
    lemmas::lemma_spread_common(d.update(d.len() - 1, 1), d);
}

/// What the layers of a stream get: the normalised state, shifted by row `first` of the table and
/// scaled by the row behind it.
pub open spec fn layer_input(
    x: TensorView,
    table: TensorView,
    batch: nat,
    timesteps: TensorView,
    first: nat,
    eps: Scalar,
) -> TensorView {
    modulated_of(
        ops::rms_norm_of(x, None, eps),
        ada_of(table, batch, timesteps, first, 0),
        ada_of(table, batch, timesteps, first, 1),
    )
}

/// Row `first` shifts what the layers of a stream get, and the row behind it scales it.
pub proof fn law_layer_input(
    x: TensorView,
    table: TensorView,
    batch: nat,
    timesteps: TensorView,
    first: nat,
    eps: Scalar,
    b: int,
    t: int,
    j: int,
    f: Functions,
)
    requires
        modulated_state(x, table, batch, timesteps),
        first + 3 <= table.dims[0],
        0 <= b < batch && 0 <= t < timesteps.dims[1] && 0 <= j < table.dims[1],
    ensures
        layer_input(x, table, batch, timesteps, first, eps).dims == x.dims,
        layer_input(x, table, batch, timesteps, first, eps).wf(),
        ({
            let at = seq![b, t, j];
            let n = reals::value(ops::rms_norm_of(x, None, eps).at(at), f);
            reals::value(layer_input(x, table, batch, timesteps, first, eps).at(at), f) - row_value(
                table,
                timesteps,
                first as int,
                b,
                t,
                j,
                f,
            ) == n + n * row_value(table, timesteps, (first + 1) as int, b, t, j, f)
        }),
{
    lemma_normed_shape(x, eps);
    law_row(table, batch, timesteps, first, 0, b, t, j, f);
    law_row(table, batch, timesteps, first, 1, b, t, j, f);
    assert(model::in_bounds(x.dims, seq![b, t, j]));
    lemmas::lemma_ravel(x.dims, seq![b, t, j]);
    law_modulated(
        ops::rms_norm_of(x, None, eps),
        ada_of(table, batch, timesteps, first, 0),
        ada_of(table, batch, timesteps, first, 1),
        model::ravel(x.dims, seq![b, t, j]),
        f,
    );
}

/// Self-attention adds to a state what it makes of the state that rows zero and one modulate, times
/// row two. Where that row is zero the state stays as it is.
pub proof fn law_self_attention(
    layers: StreamLayers,
    x: TensorView,
    args: ArgsView,
    batch: nat,
    eps: Scalar,
    b: int,
    t: int,
    j: int,
    f: Functions,
)
    requires
        modulated_state(x, layers.scale_shift_table@, batch, args.timesteps),
        layers.scale_shift_table@.dims[0] >= 6,
        ({
            let seen = layers.attn1.apply(
                layer_input(x, layers.scale_shift_table@, batch, args.timesteps, 0, eps),
                None,
                None,
                Some(args.positional_embeddings),
                None,
            );
            seen.wf() && seen.dims == x.dims
        }),
        0 <= b < x.dims[0] && 0 <= t < x.dims[1] && 0 <= j < x.dims[2],
    ensures
        ({
            let at = seq![b, t, j];
            let seen = layers.attn1.apply(
                layer_input(x, layers.scale_shift_table@, batch, args.timesteps, 0, eps),
                None,
                None,
                Some(args.positional_embeddings),
                None,
            );
            let (y, g) = (
                reals::value(self_attention_of(layers, x, args, batch, eps, false).at(at), f),
                row_value(layers.scale_shift_table@, args.timesteps, 2, b, t, j, f),
            );
            &&& y - reals::value(x.at(at), f) == reals::value(seen.at(at), f) * g
            &&& g == 0real ==> y == reals::value(x.at(at), f)
        }),
{
    broadcast use reals::group_reading;
    let at = seq![b, t, j];
    let table = layers.scale_shift_table@;
    law_row(table, batch, args.timesteps, 0, 2, b, t, j, f);
    assert(model::in_bounds(x.dims, at));
    lemmas::lemma_ravel(x.dims, at);
    let seen = layers.attn1.apply(
        layer_input(x, table, batch, args.timesteps, 0, eps),
        None,
        None,
        Some(args.positional_embeddings),
        None,
    );
    let s = reals::value(seen.at(at), f);
    assert(s * 0real == 0real) by (nonlinear_arith);
}

/// The feed-forward network adds to a state what it makes of the state that rows three and four
/// modulate, times row five. Where that row is zero the state stays as it is.
pub proof fn law_feed_forward(
    layers: StreamLayers,
    x: TensorView,
    args: ArgsView,
    batch: nat,
    eps: Scalar,
    b: int,
    t: int,
    j: int,
    f: Functions,
)
    requires
        modulated_state(x, layers.scale_shift_table@, batch, args.timesteps),
        layers.scale_shift_table@.dims[0] >= 6,
        ({
            let fed = layers.ff.apply(layer_input(x, layers.scale_shift_table@, batch, args.timesteps, 3, eps));
            fed.wf() && fed.dims == x.dims
        }),
        0 <= b < x.dims[0] && 0 <= t < x.dims[1] && 0 <= j < x.dims[2],
    ensures
        ({
            let at = seq![b, t, j];
            let fed = layers.ff.apply(layer_input(x, layers.scale_shift_table@, batch, args.timesteps, 3, eps));
            let (y, g) = (
                reals::value(ffn_of(layers, x, args, batch, eps).at(at), f),
                row_value(layers.scale_shift_table@, args.timesteps, 5, b, t, j, f),
            );
            &&& y - reals::value(x.at(at), f) == reals::value(fed.at(at), f) * g
            &&& g == 0real ==> y == reals::value(x.at(at), f)
        }),
{
    broadcast use reals::group_reading;
    let at = seq![b, t, j];
    let table = layers.scale_shift_table@;
    law_row(table, batch, args.timesteps, 3, 2, b, t, j, f);
    assert(model::in_bounds(x.dims, at));
    lemmas::lemma_ravel(x.dims, at);
    let fed = layers.ff.apply(layer_input(x, table, batch, args.timesteps, 3, eps));
    let s = reals::value(fed.at(at), f);
    assert(s * 0real == 0real) by (nonlinear_arith);
}

/// Attention to the text adds nothing where row eight of a table of nine rows is zero.
pub proof fn law_text_attention(
    layers: StreamLayers,
    x: TensorView,
    args: ArgsView,
    batch: nat,
    eps: Scalar,
    b: int,
    t: int,
    j: int,
    f: Functions,
)
    requires
        modulated_state(x, layers.scale_shift_table@, batch, args.timesteps),
        layers.scale_shift_table@.dims[0] >= 9,
        text_attention_of(layers, x, args, batch, eps).dims == x.dims,
        0 <= b < x.dims[0] && 0 <= t < x.dims[1] && 0 <= j < x.dims[2],
        row_value(layers.scale_shift_table@, args.timesteps, 8, b, t, j, f) == 0real,
    ensures
        reals::value(text_attention_of(layers, x, args, batch, eps).at(seq![b, t, j]), f) == 0real,
{
    let table = layers.scale_shift_table@;
    law_row(table, batch, args.timesteps, 6, 2, b, t, j, f);
    let context = if layers.prompt_scale_shift_table is Some && args.prompt_timestep is Some {
        prompt_context_of(args.context, layers.prompt_scale_shift_table->0@, args.prompt_timestep->0, batch)
    } else {
        args.context
    };
    let out = layers.attn2.apply(
        layer_input(x, table, batch, args.timesteps, 6, eps),
        Some(context),
        args.context_mask,
        None,
        None,
    );
    let g = ada_of(table, batch, args.timesteps, 6, 2);
    assert(text_attention_of(layers, x, args, batch, eps) == model::binary(BinOp::Times, out, g));
    lemma_closed(out, g, x.dims, seq![b, t, j], f);
}

/// Nothing is left of what is multiplied by zero.
proof fn lemma_closed(out: TensorView, g: TensorView, d: Seq<nat>, at: Seq<int>, f: Functions)
    requires
        model::binary(BinOp::Times, out, g).dims == d,
        g.dims == d,
        model::in_bounds(d, at),
        reals::value(g.at(at), f) == 0real,
    ensures
        reals::value(model::binary(BinOp::Times, out, g).at(at), f) == 0real,
{
    reals::binary_shape(BinOp::Times, out, g);
    reals::lemma_binary_at(BinOp::Times, out, g, at, f);
    assert(lemmas::repeated(g.dims, d, at) =~= at);
    let s = reals::value(out.at(lemmas::repeated(out.dims, d, at)), f);
    assert(s * 0real == 0real) by (nonlinear_arith);
}

/// What attention to the text gives is added to the state after self-attention.
pub proof fn law_text_added(
    layers: StreamLayers,
    x: TensorView,
    args: ArgsView,
    batch: nat,
    eps: Scalar,
    skip: bool,
    k: int,
    f: Functions,
)
    requires
        ({
            let y = self_attention_of(layers, x, args, batch, eps, skip);
            let added = text_attention_of(layers, y, args, batch, eps);
            y.wf() && added.wf() && added.dims == y.dims && 0 <= k < y.cells.len()
        }),
    ensures
        ({
            let y = self_attention_of(layers, x, args, batch, eps, skip);
            reals::value(self_and_text_attention_of(layers, x, args, batch, eps, skip).cells[k], f) - reals::value(
                y.cells[k],
                f,
            ) == reals::value(text_attention_of(layers, y, args, batch, eps).cells[k], f)
        }),
{
    let y = self_attention_of(layers, x, args, batch, eps, skip);
    reals::read_pair(BinOp::Plus, y, text_attention_of(layers, y, args, batch, eps), k, f);
}

/// A row of the table of a pair of streams plus what the token has for it.
proof fn lemma_cross_row(
    table: TensorView,
    batch: nat,
    timesteps: TensorView,
    start: nat,
    n: nat,
    i: nat,
    b: int,
    t: int,
    j: int,
    f: Functions,
)
    requires
        table.wf() && table.rank() == 2,
        timesteps.wf() && timesteps.dtype.float() && timesteps.rank() == 3,
        timesteps.dims == seq![batch, timesteps.dims[1], n * table.dims[1]],
        i < n,
        start + n <= table.dims[0],
        0 <= b < batch && 0 <= t < timesteps.dims[1] && 0 <= j < table.dims[1],
    ensures
        ({
            let rows = model::squeeze(model::narrow(av_rows_of(table, batch, timesteps, start, n), 2, i, 1), 2);
            &&& rows.wf() && rows.dims == seq![batch, timesteps.dims[1], table.dims[1]]
            &&& reals::value(rows.at(seq![b, t, j]), f) == reals::value(table.at(seq![(start + i) as int, j]), f)
                + reals::value(timesteps.at(seq![b, t, i * table.dims[1] + j]), f)
        }),
{
    broadcast use reals::group_reading;
    let (c, d) = (timesteps.dims[1], table.dims[1]);
    let rows = model::cast(
        model::unsqueeze(model::unsqueeze(model::narrow(table, 0, start, n), 0), 0),
        timesteps.dtype,
    );
    lemma_table_rows(table, timesteps.dtype, start, n, i as int, j, f);
    let first = model::narrow(table, 0, start, n);
    lemmas::lemma_narrow_dims(table, 0, start, n);
    assert(table.dims.update(0, n) =~= seq![n, d]);
    assert(first.wf()) by {
        reveal(model::narrow);
    }
    let ts = model::reshape(timesteps, seq![batch, c, n, d]);
    lemma_token_row(first, batch, timesteps, i as int, b, t, j);
    let all: Seq<nat> = seq![batch, c, n, d];
    let o = seq![b, t, i as int, j];
    assert(model::in_bounds(all, o));
    let combined = model::binary(BinOp::Plus, ts, rows);
    lemmas::lemma_spread_common(rows.dims, all);
    reals::lemma_binary_at(BinOp::Plus, ts, rows, o, f);
    assert(lemmas::repeated(all, all, o) =~= o);
    assert(lemmas::repeated(rows.dims, all, o) =~= seq![0, 0, i as int, j]);
    let part = model::narrow(combined, 2, i, 1);
    lemmas::lemma_narrow_dims(combined, 2, i, 1);
    let q = seq![b, t, 0, j];
    assert(all.update(2, 1) =~= seq![batch, c, 1, d]);
    assert(model::in_bounds(all.update(2, 1), q));
    lemmas::lemma_narrow_at(combined, 2, i, 1, q);
    assert(q.update(2, q[2] + i) =~= o);
    assert(part.wf()) by {
        reveal(model::narrow);
    }
    reals::lemma_squeeze_at(part, 2, seq![b, t, j]);
    assert(seq![b, t, j].insert(2, 0) =~= q);
    assert(part.dims.remove(2) =~= seq![batch, c, d]);
}

/// Of the table of a pair of streams, rows zero and one scale and shift for attention of the video to
/// the audio, rows two and three for attention of the audio to the video, and row four is how much of
/// what is attended to is added. A token has its values for the first four side by side.
pub proof fn law_cross_rows(
    table: TensorView,
    batch: nat,
    scale_shift: TensorView,
    gate: TensorView,
    b: int,
    t: int,
    u: int,
    j: int,
    f: Functions,
)
    requires
        table.wf() && table.rank() == 2 && table.dims[0] >= 5,
        scale_shift.wf() && scale_shift.dtype.float() && scale_shift.rank() == 3,
        scale_shift.dims == seq![batch, scale_shift.dims[1], 4 * table.dims[1]],
        gate.wf() && gate.dtype.float() && gate.rank() == 3,
        gate.dims == seq![batch, gate.dims[1], table.dims[1]],
        0 <= b < batch && 0 <= t < scale_shift.dims[1] && 0 <= u < gate.dims[1] && 0 <= j < table.dims[1],
    ensures
        ({
            let (rows, d) = (av_ada_of(table, batch, scale_shift, gate), table.dims[1] as int);
            let at = seq![b, t, j];
            &&& reals::value(rows.scale_a2v.at(at), f) == reals::value(table.at(seq![0, j]), f) + reals::value(
                scale_shift.at(seq![b, t, j]),
                f,
            )
            &&& reals::value(rows.shift_a2v.at(at), f) == reals::value(table.at(seq![1, j]), f) + reals::value(
                scale_shift.at(seq![b, t, d + j]),
                f,
            )
            &&& reals::value(rows.scale_v2a.at(at), f) == reals::value(table.at(seq![2, j]), f) + reals::value(
                scale_shift.at(seq![b, t, 2 * d + j]),
                f,
            )
            &&& reals::value(rows.shift_v2a.at(at), f) == reals::value(table.at(seq![3, j]), f) + reals::value(
                scale_shift.at(seq![b, t, 3 * d + j]),
                f,
            )
            &&& reals::value(rows.gate.at(seq![b, u, j]), f) == reals::value(table.at(seq![4, j]), f) + reals::value(
                gate.at(seq![b, u, j]),
                f,
            )
        }),
{
    let d = table.dims[1] as int;
    lemma_cross_row(table, batch, scale_shift, 0, 4, 0, b, t, j, f);
    lemma_cross_row(table, batch, scale_shift, 0, 4, 1, b, t, j, f);
    lemma_cross_row(table, batch, scale_shift, 0, 4, 2, b, t, j, f);
    lemma_cross_row(table, batch, scale_shift, 0, 4, 3, b, t, j, f);
    assert(gate.dims =~= seq![batch, gate.dims[1], 1 * table.dims[1]]);
    lemma_cross_row(table, batch, gate, 4, 1, 0, b, u, j, f);
    assert(0 * d == 0 && 1 * d == d);
}

/// What the video stream sees of the audio stream.
pub open spec fn heard(
    block: BasicAVTransformerBlock,
    v: ArgsView,
    a: ArgsView,
    vx: TensorView,
    ax: TensorView,
    batch: nat,
) -> TensorView {
    let c = block.cross->0;
    let mine = av_ada_of(
        c.scale_shift_table_a2v_ca_video@,
        batch,
        v.cross_scale_shift_timestep->0,
        v.cross_gate_timestep->0,
    );
    let other = av_ada_of(
        c.scale_shift_table_a2v_ca_audio@,
        batch,
        a.cross_scale_shift_timestep->0,
        a.cross_gate_timestep->0,
    );
    c.audio_to_video_attn.apply(
        modulated_of(ops::rms_norm_of(vx, None, block.norm_eps), mine.shift_a2v, mine.scale_a2v),
        Some(modulated_of(ops::rms_norm_of(ax, None, block.norm_eps), other.shift_a2v, other.scale_a2v)),
        None,
        v.cross_positional_embeddings,
        a.cross_positional_embeddings,
    )
}

/// What the audio stream sees of the video stream.
pub open spec fn watched(
    block: BasicAVTransformerBlock,
    v: ArgsView,
    a: ArgsView,
    vx: TensorView,
    ax: TensorView,
    batch: nat,
) -> TensorView {
    let c = block.cross->0;
    let mine = av_ada_of(
        c.scale_shift_table_a2v_ca_audio@,
        batch,
        a.cross_scale_shift_timestep->0,
        a.cross_gate_timestep->0,
    );
    let other = av_ada_of(
        c.scale_shift_table_a2v_ca_video@,
        batch,
        v.cross_scale_shift_timestep->0,
        v.cross_gate_timestep->0,
    );
    c.video_to_audio_attn.apply(
        modulated_of(ops::rms_norm_of(ax, None, block.norm_eps), mine.shift_v2a, mine.scale_v2a),
        Some(modulated_of(ops::rms_norm_of(vx, None, block.norm_eps), other.shift_v2a, other.scale_v2a)),
        None,
        a.cross_positional_embeddings,
        v.cross_positional_embeddings,
    )
}

/// Whether what a stream sees of the other has its shape, and row four of a table goes with it.
pub open spec fn crossing(x: TensorView, seen: TensorView, table: TensorView, batch: nat, gate: TensorView) -> bool {
    &&& x.wf() && x.rank() == 3 && seen.wf() && seen.dims == x.dims
    &&& table.wf() && table.rank() == 2 && table.dims[0] >= 5
    &&& gate.wf() && gate.dtype.float() && gate.rank() == 3
    &&& x.dims == seq![batch, x.dims[1], table.dims[1]]
    &&& gate.dims == seq![batch, gate.dims[1], table.dims[1]]
    &&& gate.dims[1] == x.dims[1] || gate.dims[1] == 1
}

/// How much of what is seen of the other stream is added: row four plus what the token has for it.
pub open spec fn share(
    x: TensorView,
    table: TensorView,
    gate: TensorView,
    b: int,
    t: int,
    j: int,
    f: Functions,
) -> real {
    let u = if gate.dims[1] == x.dims[1] {
        t
    } else {
        0
    };
    reals::value(table.at(seq![4, j]), f) + reals::value(gate.at(seq![b, u, j]), f)
}

proof fn lemma_crossed(
    x: TensorView,
    seen: TensorView,
    table: TensorView,
    batch: nat,
    scale_shift: TensorView,
    gate: TensorView,
    b: int,
    t: int,
    j: int,
    f: Functions,
)
    requires
        crossing(x, seen, table, batch, gate),
        0 <= b < x.dims[0] && 0 <= t < x.dims[1] && 0 <= j < x.dims[2],
    ensures
        ({
            let at = seq![b, t, j];
            let g = av_ada_of(table, batch, scale_shift, gate).gate;
            reals::value(model::binary(BinOp::Plus, x, model::binary(BinOp::Times, seen, g)).at(at), f) - reals::value(
                x.at(at),
                f,
            ) == reals::value(seen.at(at), f) * share(x, table, gate, b, t, j, f)
        }),
{
    broadcast use reals::group_reading;
    let at = seq![b, t, j];
    let g = av_ada_of(table, batch, scale_shift, gate).gate;
    let u = if gate.dims[1] == x.dims[1] {
        t
    } else {
        0
    };
    assert(gate.dims =~= seq![batch, gate.dims[1], 1 * table.dims[1]]);
    lemma_cross_row(table, batch, gate, 4, 1, 0, b, u, j, f);
    assert(0 * (table.dims[1] as int) == 0);
    assert(g.dims =~= seq![batch, gate.dims[1], table.dims[1]]);
    assert(model::in_bounds(x.dims, at));
    lemmas::lemma_ravel(x.dims, at);
    lemmas::lemma_spread_common(g.dims, x.dims);
    reals::lemma_binary_at(BinOp::Times, seen, g, at, f);
    assert(lemmas::repeated(x.dims, x.dims, at) =~= at);
    assert(lemmas::repeated(g.dims, x.dims, at) =~= seq![b, u, j]);
}

/// The video stream gets added what it sees of the audio stream, times row four of its own table.
pub proof fn law_video_crossed(
    block: BasicAVTransformerBlock,
    v: ArgsView,
    a: ArgsView,
    vx: TensorView,
    ax: TensorView,
    batch: nat,
    b: int,
    t: int,
    j: int,
    f: Functions,
)
    requires
        BasicAVTransformerBlock::runs(Some(v)) && BasicAVTransformerBlock::visible(Some(a)),
        crossing(
            vx,
            heard(block, v, a, vx, ax, batch),
            block.cross->0.scale_shift_table_a2v_ca_video@,
            batch,
            v.cross_gate_timestep->0,
        ),
        0 <= b < vx.dims[0] && 0 <= t < vx.dims[1] && 0 <= j < vx.dims[2],
    ensures
        reals::value(block.video_crossed(Some(v), Some(a), vx, ax, batch).at(seq![b, t, j]), f) - reals::value(
            vx.at(seq![b, t, j]),
            f,
        ) == reals::value(heard(block, v, a, vx, ax, batch).at(seq![b, t, j]), f) * share(
            vx,
            block.cross->0.scale_shift_table_a2v_ca_video@,
            v.cross_gate_timestep->0,
            b,
            t,
            j,
            f,
        ),
{
    reveal(BasicAVTransformerBlock::video_crossed);
    lemma_crossed(
        vx,
        heard(block, v, a, vx, ax, batch),
        block.cross->0.scale_shift_table_a2v_ca_video@,
        batch,
        v.cross_scale_shift_timestep->0,
        v.cross_gate_timestep->0,
        b,
        t,
        j,
        f,
    );
}

/// The audio stream gets added what it sees of the video stream, times row four of its own table.
pub proof fn law_audio_crossed(
    block: BasicAVTransformerBlock,
    v: ArgsView,
    a: ArgsView,
    vx: TensorView,
    ax: TensorView,
    batch: nat,
    b: int,
    t: int,
    j: int,
    f: Functions,
)
    requires
        BasicAVTransformerBlock::runs(Some(a)) && BasicAVTransformerBlock::visible(Some(v)),
        crossing(
            ax,
            watched(block, v, a, vx, ax, batch),
            block.cross->0.scale_shift_table_a2v_ca_audio@,
            batch,
            a.cross_gate_timestep->0,
        ),
        0 <= b < ax.dims[0] && 0 <= t < ax.dims[1] && 0 <= j < ax.dims[2],
    ensures
        reals::value(block.audio_crossed(Some(v), Some(a), vx, ax, batch).at(seq![b, t, j]), f) - reals::value(
            ax.at(seq![b, t, j]),
            f,
        ) == reals::value(watched(block, v, a, vx, ax, batch).at(seq![b, t, j]), f) * share(
            ax,
            block.cross->0.scale_shift_table_a2v_ca_audio@,
            a.cross_gate_timestep->0,
            b,
            t,
            j,
            f,
        ),
{
    reveal(BasicAVTransformerBlock::audio_crossed);
    lemma_crossed(
        ax,
        watched(block, v, a, vx, ax, batch),
        block.cross->0.scale_shift_table_a2v_ca_audio@,
        batch,
        a.cross_scale_shift_timestep->0,
        a.cross_gate_timestep->0,
        b,
        t,
        j,
        f,
    );
}

} // verus!
