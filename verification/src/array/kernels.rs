//! Operations that join, select and reduce.
use vstd::prelude::*;

use crate::array::{self, addressable, same_sizes, Array};
use crate::error::Failure;
use crate::lemmas;
use crate::model;
use crate::scalar::{ONE, ZERO};

verus! {

/// Whether arrays are in main memory and hold elements of one plain type.
pub open spec fn alike(parts: Seq<Array>) -> bool {
    forall|i: int|
        0 <= i < parts.len() ==> (#[trigger] parts[i]).on_cpu() && parts[i]@.dtype == parts[0]@.dtype
            && parts[0]@.dtype.plain()
}

/// Whether arrays of one shape and one plain type, in main memory, have one addressable shape
/// along a new axis.
pub open spec fn stackable(parts: Seq<Array>, dim: int) -> bool {
    &&& parts.len() > 0
    &&& alike(parts)
    &&& forall|i: int| 0 <= i < parts.len() ==> (#[trigger] parts[i])@.dims == parts[0]@.dims
    &&& dim <= parts[0]@.rank()
    &&& model::fits(parts[0]@.dims.insert(dim, parts.len()))
}

/// Whether each of some integers in main memory is the number of one of so many rows.
pub open spec fn names_rows(ids: &Array, rows: nat) -> bool {
    &&& ids.on_cpu() && (ids@.dtype == model::Dtype::U32 || ids@.dtype == model::Dtype::I64)
    &&& model::all_positions(ids@, rows) && model::all_positions(ids@, model::largest(ids@.dtype))
}

/// Whether a layer can be applied to `x` in main memory: `x`, its weights and its bias hold
/// single-precision numbers there, and neither `x` nor the weights are empty.
pub open spec fn runs(x: Array, weight: Array, bias: Option<Array>) -> bool {
    &&& x.on_cpu() && x@.dtype == model::Dtype::F32 && model::numel(x@.dims) > 0
    &&& weight.on_cpu() && weight@.dtype == model::Dtype::F32 && model::numel(weight@.dims) > 0
    &&& bias matches Some(b) ==> b.on_cpu() && b@.dtype == model::Dtype::F32
}

/// Parts of one shape can be joined along a new axis, which has one position for each part.
pub proof fn lemma_stack(parts: Seq<model::TensorView>, dim: int)
    requires
        parts.len() > 0,
        0 <= dim <= parts[0].rank(),
        forall|i: int| 0 <= i < parts.len() ==> (#[trigger] parts[i]).dims == parts[0].dims,
        forall|i: int| 0 <= i < parts.len() ==> (#[trigger] parts[i]).dtype == parts[0].dtype,
    ensures
        ({
            let raised = parts.map_values(|p: model::TensorView| model::unsqueeze(p, dim));
            &&& model::joinable(raised, dim)
            &&& model::cat(raised, dim).dims == parts[0].dims.insert(dim, parts.len())
            &&& model::cat(raised, dim).dtype == parts[0].dtype
        }),
{
    let raised = parts.map_values(|p: model::TensorView| model::unsqueeze(p, dim));
    let one = parts[0].dims.insert(dim, 1);
    assert forall|i: int| 0 <= i < raised.len() implies (#[trigger] raised[i]).dims == one by {
        assert(parts[i].dims == parts[0].dims);
    }
    assert(model::joinable(raised, dim));
    model::lemma_cat_dims(raised, dim);
    lemma_joined_ones(raised, dim);
    assert(one.update(dim, parts.len()) =~= parts[0].dims.insert(dim, parts.len()));
    assert forall|i: int| 0 <= i < raised.len() implies (#[trigger] raised[i]).dtype == parts[0].dtype by {
        assert(parts[i].dtype == parts[0].dtype);
    }
    lemma_cat_dtype(raised, dim);
}

proof fn lemma_joined_ones(parts: Seq<model::TensorView>, dim: int)
    requires
        forall|i: int| 0 <= i < parts.len() ==> (#[trigger] parts[i]).dims[dim] == 1,
    ensures
        model::joined_size(parts, dim) == parts.len(),
    decreases parts.len(),
{
    if parts.len() > 0 {
        assert forall|i: int| 0 <= i < parts.drop_last().len() implies (#[trigger] parts.drop_last()[i]).dims[dim]
            == 1 by {
            assert(parts[i].dims[dim] == 1);
        }
        lemma_joined_ones(parts.drop_last(), dim);
        assert(parts[parts.len() - 1].dims[dim] == 1);
    }
}

/// Copies of a tensor can be joined along an axis, which is as many times as long.
proof fn lemma_copies(v: model::TensorView, n: nat, dim: int)
    requires
        n > 0,
        0 <= dim < v.rank(),
    ensures
        ({
            let copies = Seq::new(n, |i: int| v);
            &&& model::joinable(copies, dim)
            &&& model::cat(copies, dim).dims == v.dims.update(dim, v.dims[dim] * n)
            &&& model::cat(copies, dim).dtype == v.dtype
        }),
{
    let copies = Seq::new(n, |i: int| v);
    model::lemma_cat_dims(copies, dim);
    lemma_copies_size(v, n, dim);
    lemma_cat_dtype(copies, dim);
}

pub proof fn lemma_copies_size(v: model::TensorView, n: nat, dim: int)
    ensures
        model::joined_size(Seq::new(n, |i: int| v), dim) == v.dims[dim] * n,
    decreases n,
{
    let copies = Seq::new(n, |i: int| v);
    if n > 0 {
        lemma_copies_size(v, (n - 1) as nat, dim);
        assert(copies.drop_last() =~= Seq::new((n - 1) as nat, |i: int| v));
        let d = v.dims[dim];
        assert(copies.last() == v);
        assert(d * ((n - 1) as nat) + d == d * n) by (nonlinear_arith)
            requires
                n > 0,
        ;
    } else {
        assert(copies =~= Seq::empty());
        assert(v.dims[dim] * 0 == 0);
    }
}

pub proof fn lemma_cat_dtype(parts: Seq<model::TensorView>, dim: int)
    requires
        parts.len() > 0,
    ensures
        model::cat(parts, dim).dtype == parts[0].dtype,
    decreases parts.len(),
{
    reveal(model::cat2);
    if parts.len() > 1 {
        lemma_cat_dtype(parts.drop_last(), dim);
    }
}

impl Array {
    /// `Tensor::cat` of candle: the parts one after the other along an axis. In main memory
    /// it does not fail on parts of one plain type.
    #[verifier::external_body]
    fn raw_cat(parts: &Vec<Array>, dim: usize) -> (r: Result<Array, Failure>)
        requires
            model::joinable(array::views(parts@), dim as int),
            model::fits(model::cat(array::views(parts@), dim as int).dims),
        ensures
            r matches Err(e) ==> e.basic(),
            r matches Ok(t) ==> t@ == model::cat(array::views(parts@), dim as int),
            r matches Ok(t) ==> parts.len() > 0 && t.on_cpu() == parts[0].on_cpu(),
            alike(parts@) ==> r is Ok,
    {
        let refs: Vec<&candle_core::Tensor> = parts.iter().map(|p| &p.inner).collect();
        Ok(Array { inner: candle_core::Tensor::cat(&refs, dim).map_err(Failure::Candle)? })
    }

    /// The parts one after the other along axis `dim`.
    pub fn cat(parts: &Vec<Array>, dim: usize) -> (r: Result<Array, Failure>)
        ensures
            r matches Err(e) ==> e.basic(),
            r matches Ok(t) ==> t@ == model::cat(array::views(parts@), dim as int),
            r is Ok ==> model::joinable(array::views(parts@), dim as int),
            r matches Ok(t) ==> parts.len() > 0 && t.on_cpu() == parts[0].on_cpu(),
            alike(parts@) && model::joinable(array::views(parts@), dim as int) && model::fits(
                model::cat(array::views(parts@), dim as int).dims,
            ) ==> r is Ok,
    {
        let ghost vs = array::views(parts@);
        let ghost fine = model::joinable(vs, dim as int) && model::fits(model::cat(vs, dim as int).dims);
        if parts.len() == 0 {
            return Err(Failure::Shape);
        }
        let first = parts[0].dims();
        assert(vs[0] == parts[0]@);
        if parts.len() == 1 {
            return Ok(parts[0].clone());
        }
        if dim >= first.len() {
            return Err(Failure::Shape);
        }
        proof {
            if fine {
                model::lemma_cat_dims(vs, dim as int);
                array::lemma_axis_extent(model::cat(vs, dim as int).dims, dim as int);
            }
        }
        let mut total: usize = 0;
        let mut i: usize = 0;
        assert(vs.take(0) =~= Seq::empty());
        while i < parts.len()
            invariant
                i <= parts.len(),
                vs == array::views(parts@),
                parts.len() > 1,
                dim < first.len(),
                fine == (model::joinable(vs, dim as int) && model::fits(model::cat(vs, dim as int).dims)),
                fine ==> model::joined_size(vs, dim as int) <= usize::MAX,
                model::nats(first@) == vs[0].dims,
                total == model::joined_size(vs.take(i as int), dim as int),
                forall|j: int| 0 <= j < i ==> (#[trigger] vs[j]).rank() == vs[0].rank(),
                forall|j: int, k: int|
                    0 <= j < i && 0 <= k < vs[0].rank() && k != dim ==> (#[trigger] vs[j].dims[k])
                        == vs[0].dims[k],
            decreases parts.len() - i,
        {
            let d = parts[i].dims();
            assert(vs[i as int] == parts[i as int]@);
            if d.len() != first.len() {
                return Err(Failure::Shape);
            }
            let mut k: usize = 0;
            while k < d.len()
                invariant
                    k <= d.len(),
                    d.len() == first.len(),
                    i < vs.len(),
                    model::nats(first@) == vs[0].dims,
                    model::nats(d@) == vs[i as int].dims,
                    vs == array::views(parts@),
                    fine == (model::joinable(vs, dim as int) && model::fits(model::cat(vs, dim as int).dims)),
                    forall|j: int| 0 <= j < k && j != dim ==> d[j] == first[j],
                decreases d.len() - k,
            {
                assert(vs[i as int].dims[k as int] == d[k as int] && vs[0].dims[k as int] == first[k as int]);
                if k != dim && d[k] != first[k] {
                    return Err(Failure::Shape);
                }
                k = k + 1;
            }
            assert(vs.take(i + 1).drop_last() =~= vs.take(i as int));
            assert(vs.take(i + 1).last() == vs[i as int]);
            assert forall|k: int| 0 <= k < vs[0].rank() && k != dim implies (#[trigger] vs[i as int].dims[k])
                == vs[0].dims[k] by {
                assert(model::nats(d@)[k] == model::nats(first@)[k]);
            }
            proof {
                model::lemma_joined_prefix(vs, dim as int, i + 1);
                assert(vs[i as int].dims[dim as int] == d[dim as int]);
            }
            match total.checked_add(d[dim]) {
                Some(t) => {
                    total = t;
                },
                None => {
                    return Err(Failure::Overflow);
                },
            }
            i = i + 1;
        }
        assert(vs.take(i as int) =~= vs);
        let mut dims = first;
        dims.set(dim, total);
        proof {
            model::lemma_cat_dims(vs, dim as int);
            assert(model::nats(dims@) =~= vs[0].dims.update(dim as int, total as nat));
        }
        if !addressable(&dims) {
            return Err(Failure::Overflow);
        }
        Array::raw_cat(parts, dim)
    }

    /// `a` followed by `b` along axis `dim`.
    pub fn join(a: Array, b: Array, dim: usize) -> (r: Result<Array, Failure>)
        ensures
            r matches Err(e) ==> e.basic(),
            r matches Ok(t) ==> t@ == model::cat(seq![a@, b@], dim as int),
            r is Ok ==> model::joinable(seq![a@, b@], dim as int),
            r matches Ok(t) ==> t.on_cpu() == a.on_cpu(),
            a.on_cpu() && b.on_cpu() && a@.dtype == b@.dtype && a@.dtype.plain() && model::joinable(
                seq![a@, b@],
                dim as int,
            ) && model::fits(model::cat(seq![a@, b@], dim as int).dims) ==> r is Ok,
    {
        let parts = vec![a, b];
        assert(array::views(parts@) =~= seq![a@, b@]);
        Array::cat(&parts, dim)
    }

    /// The parts along a new axis `dim`.
    pub fn stack(parts: &Vec<Array>, dim: usize) -> (r: Result<Array, Failure>)
        ensures
            r matches Err(e) ==> e.basic(),
            r matches Ok(t) ==> t@ == model::stack(array::views(parts@), dim as int),
            r is Ok ==> parts.len() > 0,
            r matches Ok(t) ==> t.on_cpu() == parts[0].on_cpu(),
            stackable(parts@, dim as int) ==> (r matches Ok(t) && t@.dims == parts[0]@.dims.insert(
                dim as int,
                parts.len() as nat,
            ) && t@.dtype == parts[0]@.dtype),
    {
        let mut raised: Vec<Array> = Vec::new();
        let mut i: usize = 0;
        while i < parts.len()
            invariant
                i <= parts.len(),
                raised.len() == i,
                forall|k: int|
                    0 <= k < i ==> (#[trigger] raised[k])@ == model::unsqueeze(parts[k]@, dim as int)
                        && raised[k].on_cpu() == parts[k].on_cpu(),
            decreases parts.len() - i,
        {
            raised.push(parts[i].unsqueeze(dim)?);
            i = i + 1;
        }
        assert(array::views(raised@) =~= array::views(parts@).map_values(
            |p: model::TensorView| model::unsqueeze(p, dim as int),
        ));
        proof {
            if stackable(parts@, dim as int) {
                lemma_stack(array::views(parts@), dim as int);
                assert(alike(raised@));
            }
        }
        Array::cat(&raised, dim)
    }

    /// `n` copies of `self`, one after the other along axis `dim`; `self` for `n`
    /// below two.
    pub fn repeat_axis(&self, dim: usize, n: usize) -> (r: Result<Array, Failure>)
        ensures
            r matches Err(e) ==> e.basic(),
            r matches Ok(t) ==> t@ == model::repeat_axis(self@, dim as int, n as nat),
            self.usable() && 0 < n && dim < self@.rank() && model::fits(
                self@.dims.update(dim as int, self@.dims[dim as int] * n as nat),
            ) ==> (r matches Ok(t) && t.on_cpu() && t@.dtype == self@.dtype && t@.dims == self@.dims.update(
                dim as int,
                self@.dims[dim as int] * n as nat,
            )),
    {
        proof {
            if dim < self@.rank() && n == 1 {
                assert(self@.dims.update(dim as int, self@.dims[dim as int] * 1) =~= self@.dims);
            }
        }
        if n <= 1 {
            return Ok(self.clone());
        }
        let mut copies: Vec<Array> = Vec::new();
        let mut i: usize = 0;
        while i < n
            invariant
                i <= n,
                copies.len() == i,
                forall|k: int|
                    0 <= k < i ==> (#[trigger] copies[k])@ == self@ && copies[k].on_cpu() == self.on_cpu(),
            decreases n - i,
        {
            copies.push(self.clone());
            i = i + 1;
        }
        assert(array::views(copies@) =~= Seq::new(n as nat, |i: int| self@));
        proof {
            if dim < self@.rank() {
                lemma_copies(self@, n as nat, dim as int);
                if self.usable() {
                    assert(alike(copies@));
                }
            }
        }
        Array::cat(&copies, dim)
    }

    /// `Conv2d::forward` of candle-nn: convolution over the last two axes, with
    /// the same padding and stride for both. Of single-precision numbers in main memory it does
    /// not fail. What it computes can depend on how its operands are stored, so they are stored
    /// in row-major order.
    #[verifier::external_body]
    fn raw_conv2d(
        &self,
        weight: &Array,
        bias: &Option<Array>,
        padding: usize,
        stride: usize,
        dilation: usize,
        groups: usize,
    ) -> (r: Result<Array, Failure>)
        requires
            self.in_order(),
            weight.in_order(),
            conv2d_defined(
                self@,
                weight@,
                array::opt_view(*bias),
                padding as nat,
                stride as nat,
                dilation as nat,
                groups as nat,
            ),
        ensures
            r matches Err(e) ==> e.basic(),
            r matches Ok(t) ==> t@ == model::conv2d(
                self@,
                weight@,
                array::opt_view(*bias),
                padding as nat,
                stride as nat,
                dilation as nat,
                groups as nat,
            ) && t.on_cpu() == self.on_cpu(),
            runs(*self, *weight, *bias) ==> r is Ok,
    {
        let cfg = candle_nn::Conv2dConfig { padding, stride, dilation, groups, ..Default::default() };
        let bias = bias.as_ref().map(|b| b.inner.clone());
        let layer = candle_nn::Conv2d::new(weight.inner.clone(), bias, cfg);
        Ok(Array { inner: candle_nn::Module::forward(&layer, &self.inner).map_err(Failure::Candle)? })
    }

    /// Convolution over the last two axes.
    pub fn conv2d(
        &self,
        weight: &Array,
        bias: &Option<Array>,
        padding: usize,
        stride: usize,
        dilation: usize,
        groups: usize,
    ) -> (r: Result<Array, Failure>)
        ensures
            r matches Err(e) ==> e.basic(),
            r matches Ok(t) ==> t@ == model::conv2d(
                self@,
                weight@,
                array::opt_view(*bias),
                padding as nat,
                stride as nat,
                dilation as nat,
                groups as nat,
            ) && t.on_cpu() == self.on_cpu(),
            r is Ok ==> conv2d_defined(
                self@,
                weight@,
                array::opt_view(*bias),
                padding as nat,
                stride as nat,
                dilation as nat,
                groups as nat,
            ),
            runs(*self, *weight, *bias) && conv2d_defined(
                self@,
                weight@,
                array::opt_view(*bias),
                padding as nat,
                stride as nat,
                dilation as nat,
                groups as nat,
            ) ==> r is Ok,
    {
        proof {
            reveal(model::conv2d);
        }
        let (b, c_in, h, w) = self.dims4()?;
        let (c_out, c_in_k, k_h, k_w) = weight.dims4()?;
        check_groups(self, bias, c_in, c_out, c_in_k, groups)?;
        let h_out: usize = window_count(h, k_h, padding, stride, dilation)?;
        let w_out: usize = window_count(w, k_w, padding, stride, dilation)?;
        let dims: Vec<usize> = vec![b, c_out, h_out, w_out];
        assert(model::nats(dims@) =~= seq![b as nat, c_out as nat, h_out as nat, w_out as nat]);
        if !addressable(&dims) {
            return Err(Failure::Overflow);
        }
        self.packed()?.raw_conv2d(&weight.packed()?, bias, padding, stride, dilation, groups)
    }

    /// `Conv1d::forward` of candle-nn: convolution over the last axis. Of single-precision
    /// numbers in main memory it does not fail. What it computes can depend on how its operands
    /// are stored, so they are stored in row-major order.
    #[verifier::external_body]
    fn raw_conv1d(
        &self,
        weight: &Array,
        bias: &Option<Array>,
        padding: usize,
        stride: usize,
        dilation: usize,
        groups: usize,
    ) -> (r: Result<Array, Failure>)
        requires
            self.in_order(),
            weight.in_order(),
            conv1d_defined(
                self@,
                weight@,
                array::opt_view(*bias),
                padding as nat,
                stride as nat,
                dilation as nat,
                groups as nat,
            ),
        ensures
            r matches Err(e) ==> e.basic(),
            r matches Ok(t) ==> t@ == model::conv1d(
                self@,
                weight@,
                array::opt_view(*bias),
                padding as nat,
                stride as nat,
                dilation as nat,
                groups as nat,
            ) && t.on_cpu() == self.on_cpu(),
            runs(*self, *weight, *bias) ==> r is Ok,
    {
        let cfg = candle_nn::Conv1dConfig { padding, stride, dilation, groups, ..Default::default() };
        let bias = bias.as_ref().map(|b| b.inner.clone());
        let layer = candle_nn::Conv1d::new(weight.inner.clone(), bias, cfg);
        Ok(Array { inner: candle_nn::Module::forward(&layer, &self.inner).map_err(Failure::Candle)? })
    }

    /// Convolution over the last axis.
    pub fn conv1d(
        &self,
        weight: &Array,
        bias: &Option<Array>,
        padding: usize,
        stride: usize,
        dilation: usize,
        groups: usize,
    ) -> (r: Result<Array, Failure>)
        ensures
            r matches Err(e) ==> e.basic(),
            r matches Ok(t) ==> t@ == model::conv1d(
                self@,
                weight@,
                array::opt_view(*bias),
                padding as nat,
                stride as nat,
                dilation as nat,
                groups as nat,
            ) && t.on_cpu() == self.on_cpu(),
            r is Ok ==> conv1d_defined(
                self@,
                weight@,
                array::opt_view(*bias),
                padding as nat,
                stride as nat,
                dilation as nat,
                groups as nat,
            ),
            runs(*self, *weight, *bias) && conv1d_defined(
                self@,
                weight@,
                array::opt_view(*bias),
                padding as nat,
                stride as nat,
                dilation as nat,
                groups as nat,
            ) ==> r is Ok,
    {
        proof {
            reveal(model::conv1d);
        }
        let (b, c_in, n) = self.dims3()?;
        let (c_out, c_in_k, k) = weight.dims3()?;
        check_groups(self, bias, c_in, c_out, c_in_k, groups)?;
        let n_out: usize = window_count(n, k, padding, stride, dilation)?;
        let dims: Vec<usize> = vec![b, c_out, n_out];
        assert(model::nats(dims@) =~= seq![b as nat, c_out as nat, n_out as nat]);
        if !addressable(&dims) {
            return Err(Failure::Overflow);
        }
        self.packed()?.raw_conv1d(&weight.packed()?, bias, padding, stride, dilation, groups)
    }

    /// `ConvTranspose1d::forward` of candle-nn: transposed convolution over the last
    /// axis. Of single-precision numbers in main memory it does not fail. What it computes can
    /// depend on how its operands are stored, so they are stored in row-major order.
    #[verifier::external_body]
    fn raw_conv_transpose1d(&self, weight: &Array, bias: &Option<Array>, padding: usize, stride: usize) -> (r:
        Result<Array, Failure>)
        requires
            self.in_order(),
            weight.in_order(),
            conv_transpose1d_defined(self@, weight@, padding as nat, stride as nat),
            bias matches Some(b) ==> b@.dims == seq![weight@.dims[1]],
        ensures
            r matches Err(e) ==> e.basic(),
            r matches Ok(t) ==> t@ == model::conv_transpose1d(
                self@,
                weight@,
                array::opt_view(*bias),
                padding as nat,
                stride as nat,
            ) && t.on_cpu() == self.on_cpu(),
            runs(*self, *weight, *bias) ==> r is Ok,
    {
        let cfg = candle_nn::ConvTranspose1dConfig { padding, stride, ..Default::default() };
        let bias = bias.as_ref().map(|b| b.inner.clone());
        let layer = candle_nn::ConvTranspose1d::new(weight.inner.clone(), bias, cfg);
        Ok(Array { inner: candle_nn::Module::forward(&layer, &self.inner).map_err(Failure::Candle)? })
    }

    /// Transposed convolution over the last axis.
    pub fn conv_transpose1d(&self, weight: &Array, bias: &Option<Array>, padding: usize, stride: usize) -> (r:
        Result<Array, Failure>)
        ensures
            r matches Err(e) ==> e.basic(),
            r matches Ok(t) ==> t@ == model::conv_transpose1d(
                self@,
                weight@,
                array::opt_view(*bias),
                padding as nat,
                stride as nat,
            ) && t.on_cpu() == self.on_cpu(),
            r is Ok ==> conv_transpose1d_defined(self@, weight@, padding as nat, stride as nat),
            runs(*self, *weight, *bias) && conv_transpose1d_defined(self@, weight@, padding as nat, stride as nat) && (
            bias matches Some(b) ==> b@.dims == seq![weight@.dims[1]]) ==> r is Ok,
    {
        let (b, c_in, n) = self.dims3()?;
        let (c_in_k, c_out, k) = weight.dims3()?;
        if !self.dtype().is_float() {
            return Err(Failure::Dtype);
        }
        if c_in != c_in_k || n == 0 || k == 0 || stride == 0 {
            return Err(Failure::Shape);
        }
        if let Some(t) = bias {
            let expected: Vec<usize> = vec![c_out];
            let got = t.dims();
            assert(model::nats(expected@) =~= seq![weight@.dims[1]]);
            if !same_sizes(&expected, &got) {
                return Err(Failure::Shape);
            }
        }
        let reach: usize = match (n - 1).checked_mul(stride) {
            Some(m) => m,
            None => {
                return Err(Failure::Overflow);
            },
        };
        let cut: usize = match padding.checked_mul(2) {
            Some(m) => m,
            None => {
                return Err(Failure::Overflow);
            },
        };
        if reach < cut {
            return Err(Failure::Shape);
        }
        proof {
            let spread = model::spread(n as nat, k as nat, padding as nat, stride as nat) as nat;
            if model::fits(seq![b as nat, c_out as nat, spread]) {
                array::lemma_axis_extent(seq![b as nat, c_out as nat, spread], 2);
            }
        }
        let n_out: usize = match (reach - cut).checked_add(k) {
            Some(m) => m,
            None => {
                return Err(Failure::Overflow);
            },
        };
        let dims: Vec<usize> = vec![b, c_out, n_out];
        assert(model::nats(dims@) =~= seq![b as nat, c_out as nat, n_out as nat]);
        if !addressable(&dims) {
            return Err(Failure::Overflow);
        }
        self.packed()?.raw_conv_transpose1d(&weight.packed()?, bias, padding, stride)
    }

    /// `Tensor::pad_with_zeros` of candle: zeros in front and behind along an axis. In main
    /// memory it does not fail.
    #[verifier::external_body]
    fn raw_pad_with_zeros(&self, dim: usize, left: usize, right: usize) -> (r: Result<Array, Failure>)
        requires
            self@.rank() > dim,
            left + self@.dims[dim as int] + right <= usize::MAX,
            model::fits(
                self@.dims.update(dim as int, (left + self@.dims[dim as int] + right) as nat),
            ),
        ensures
            r matches Err(e) ==> e.basic(),
            r matches Ok(t) ==> t@ == model::pad_zeros(self@, dim as int, left as nat, right as nat),
            r matches Ok(t) ==> t.on_cpu() == self.on_cpu(),
            self.usable() ==> r is Ok,
    {
        Ok(Array { inner: self.inner.pad_with_zeros(dim, left, right).map_err(Failure::Candle)? })
    }

    /// Zeros in front and behind along axis `dim`.
    pub fn pad_with_zeros(&self, dim: usize, left: usize, right: usize) -> (r: Result<Array, Failure>)
        ensures
            r matches Err(e) ==> e.basic(),
            r matches Ok(t) ==> t@ == model::pad_zeros(self@, dim as int, left as nat, right as nat),
            r is Ok ==> self@.rank() > dim,
            r matches Ok(t) ==> t.on_cpu() == self.on_cpu(),
            self.usable() && self@.rank() > dim && left + self@.dims[dim as int] + right <= usize::MAX && model::fits(
                self@.dims.update(dim as int, (left + self@.dims[dim as int] + right) as nat),
            ) ==> r is Ok,
    {
        let mut dims = self.dims();
        if dim >= dims.len() {
            return Err(Failure::Shape);
        }
        let size: usize = match dims[dim].checked_add(left) {
            Some(n) => match n.checked_add(right) {
                Some(m) => m,
                None => {
                    return Err(Failure::Overflow);
                },
            },
            None => {
                return Err(Failure::Overflow);
            },
        };
        dims.set(dim, size);
        assert(model::nats(dims@) =~= self@.dims.update(dim as int, size as nat));
        if !addressable(&dims) {
            return Err(Failure::Overflow);
        }
        self.raw_pad_with_zeros(dim, left, right)
    }

    /// `Tensor::upsample_nearest2d` of candle to twice the height and width: every
    /// element of the last two axes twice in both directions. In main memory it does not fail. It
    /// computes positions in double precision, which is exact up to 2^53.
    #[verifier::external_body]
    fn raw_upsample_nearest2d(&self, height: usize, width: usize) -> (r: Result<Array, Failure>)
        requires
            self@.rank() == 4,
            self@.dims[2] > 0 && self@.dims[3] > 0,
            height == 2 * self@.dims[2] <= 0x20_0000_0000_0000,
            width == 2 * self@.dims[3] <= 0x20_0000_0000_0000,
            model::fits(seq![self@.dims[0], self@.dims[1], height as nat, width as nat]),
        ensures
            r matches Err(e) ==> e.basic(),
            r matches Ok(t) ==> t@ == model::doubled(model::doubled(self@, 2), 3) && t.on_cpu() == self.on_cpu(),
            self.usable() ==> r is Ok,
    {
        Ok(Array { inner: self.inner.upsample_nearest2d(height, width).map_err(Failure::Candle)? })
    }

    /// Every element of the last two of four axes twice in both directions.
    pub fn double2d(&self) -> (r: Result<Array, Failure>)
        ensures
            r matches Err(e) ==> e.basic(),
            r matches Ok(t) ==> t@ == model::doubled(model::doubled(self@, 2), 3) && t.on_cpu() == self.on_cpu(),
            r is Ok ==> self@.rank() == 4,
            self.usable() && self@.rank() == 4 && 0 < self@.dims[2] <= 0x10_0000_0000_0000 && 0 < self@.dims[3]
                <= 0x10_0000_0000_0000
                && model::fits(seq![self@.dims[0], self@.dims[1], self@.dims[2] * 2, self@.dims[3] * 2]) ==> r is Ok,
    {
        let (b, c, h, w) = self.dims4()?;
        if h == 0 || w == 0 {
            return Err(Failure::Shape);
        }
        if h as u64 > 0x10_0000_0000_0000 || w as u64 > 0x10_0000_0000_0000 {
            return Err(Failure::Overflow);
        }
        proof {
            let d: Seq<nat> = seq![self@.dims[0], self@.dims[1], self@.dims[2] * 2, self@.dims[3] * 2];
            if model::fits(d) {
                lemmas::lemma_size_fits(d, 2);
                lemmas::lemma_size_fits(d, 3);
            }
        }
        match (h.checked_mul(2), w.checked_mul(2)) {
            (Some(height), Some(width)) => {
                let dims: Vec<usize> = vec![b, c, height, width];
                assert(model::nats(dims@) =~= seq![self@.dims[0], self@.dims[1], height as nat, width as nat]);
                if !addressable(&dims) {
                    return Err(Failure::Overflow);
                }
                self.raw_upsample_nearest2d(height, width)
            },
            _ => Err(Failure::Overflow),
        }
    }

    /// Whether `self` and `rhs` hold single-precision numbers in main memory, as many matrices
    /// each, of which each pair can be multiplied.
    pub open spec fn multiplies(&self, rhs: &Array) -> bool {
        let n = self@.rank();
        &&& self.on_cpu() && self@.dtype == model::Dtype::F32
        &&& rhs.on_cpu() && rhs@.dtype == model::Dtype::F32
        &&& 2 <= n <= 4 && rhs@.rank() == n
        &&& self@.dims[n - 1] == rhs@.dims[n - 2]
        &&& forall|i: int| 0 <= i < n - 2 ==> #[trigger] self@.dims[i] == rhs@.dims[i]
    }

    /// `Tensor::matmul` of candle: matrix products over the last two axes. The
    /// leading axes of both count the products. Of single-precision numbers in main memory it
    /// does not fail. What it computes can depend on how its operands are stored, so they are
    /// stored in row-major order.
    #[verifier::external_body]
    fn raw_matmul(&self, rhs: &Array) -> (r: Result<Array, Failure>)
        requires
            self.in_order(),
            rhs.in_order(),
            self@.rank() >= 2,
            rhs@.rank() == self@.rank(),
            model::fits(model::matmul(self@, rhs@).dims),
        ensures
            r matches Err(e) ==> e.basic(),
            r matches Ok(t) ==> t@ == model::matmul(self@, rhs@) && t.on_cpu() == self.on_cpu(),
            self.multiplies(rhs) ==> r is Ok,
    {
        Ok(Array { inner: self.inner.matmul(&rhs.inner).map_err(Failure::Candle)? })
    }

    /// Matrix products over the last two axes.
    pub fn matmul(&self, rhs: &Array) -> (r: Result<Array, Failure>)
        ensures
            r matches Err(e) ==> e.basic(),
            r matches Ok(t) ==> t@ == model::matmul(self@, rhs@) && t.on_cpu() == self.on_cpu(),
            r is Ok ==> self@.rank() >= 2 && rhs@.rank() == self@.rank(),
            self.multiplies(rhs) && model::fits(self@.dims.drop_last().push(rhs@.dims.last())) ==> (r matches Ok(t)
                && t@.dims == self@.dims.drop_last().push(rhs@.dims.last()) && t@.dtype == self@.dtype),
    {
        proof {
            reveal(model::matmul);
        }
        let mut dims = self.dims();
        let other = rhs.dims();
        if dims.len() < 2 || other.len() != dims.len() {
            return Err(Failure::Shape);
        }
        let last: usize = dims.len() - 1;
        dims.set(last, other[last]);
        assert(model::nats(dims@) =~= self@.dims.drop_last().push(rhs@.dims.last()));
        if !addressable(&dims) {
            return Err(Failure::Overflow);
        }
        self.packed()?.raw_matmul(&rhs.packed()?)
    }

    /// `Linear::forward` of candle-nn: `x` times the transposed `weight`, plus
    /// `bias`. Of rows of single-precision numbers in main memory, under up to three leading
    /// axes, it does not fail. What it computes can depend on how `x` is stored, so it is
    /// stored in row-major order.
    #[verifier::external_body]
    fn raw_linear(&self, weight: &Array, bias: &Option<Array>) -> (r: Result<Array, Failure>)
        requires
            self.in_order(),
            weight.in_order(),
            self@.dtype.float(),
            self@.rank() >= 1,
            weight@.rank() == 2,
            bias matches Some(b) ==> b@.dims == seq![weight@.dims[0]],
            model::fits(self@.dims.drop_last().push(weight@.dims[0])),
        ensures
            r matches Err(e) ==> e.basic(),
            r matches Ok(t) ==> t@ == model::linear(self@, weight@, array::opt_view(*bias)),
            r matches Ok(t) ==> t.on_cpu() == self.on_cpu(),
            runs(*self, *weight, *bias) && 2 <= self@.rank() <= 4 && self@.dims.last() == weight@.dims[1] ==> r is Ok,
    {
        let bias = bias.as_ref().map(|b| b.inner.clone());
        let layer = candle_nn::Linear::new(weight.inner.clone(), bias);
        Ok(Array { inner: candle_nn::Module::forward(&layer, &self.inner).map_err(Failure::Candle)? })
    }

    /// Every row times the transposed `weight`, plus `bias`.
    pub fn linear(&self, weight: &Array, bias: &Option<Array>) -> (r: Result<Array, Failure>)
        requires
            self@.dtype.float(),
            self@.rank() >= 1,
            weight@.rank() == 2,
            bias matches Some(b) ==> b@.dims == seq![weight@.dims[0]],
            model::fits(self@.dims.drop_last().push(weight@.dims[0])),
        ensures
            r matches Err(e) ==> e.basic(),
            r matches Ok(t) ==> t@ == model::linear(self@, weight@, array::opt_view(*bias)),
            r matches Ok(t) ==> t.on_cpu() == self.on_cpu(),
            runs(*self, *weight, *bias) && 2 <= self@.rank() <= 4 && self@.dims.last() == weight@.dims[1] ==> r is Ok,
    {
        self.packed()?.raw_linear(&weight.packed()?, bias)
    }

    /// `GroupNorm::forward` of candle-nn: each group of channels normalised to mean
    /// zero and variance one, with the single binary64 number `eps` added to the
    /// variance, then scaled and shifted for each channel. Of single-precision numbers in main
    /// memory it does not fail.
    #[verifier::external_body]
    fn raw_group_norm(&self, weight: &Array, bias: &Array, channels: usize, groups: usize, eps: &Array) -> (r: Result<
        Array,
        Failure,
    >)
        requires
            self@.dtype.float(),
            groups > 0,
        ensures
            r matches Err(e) ==> e.basic(),
            r matches Ok(t) ==> t@ == model::group_norm(self@, weight@, bias@, groups as nat, eps@),
            r is Ok ==> self@.rank() >= 3 && self@.dims[1] == channels && channels as nat % groups as nat == 0,
            r matches Ok(t) ==> t.on_cpu() == self.on_cpu(),
            groups_normalise(*self, *weight, *bias, channels as nat, groups as nat) && eps.single() ==> r is Ok,
    {
        let e = eps.inner.to_scalar().map_err(Failure::Candle)?;
        let (w, b) = (weight.inner.clone(), bias.inner.clone());
        let layer = candle_nn::GroupNorm::new(w, b, channels, groups, e).map_err(Failure::Candle)?;
        Ok(Array { inner: candle_nn::Module::forward(&layer, &self.inner).map_err(Failure::Candle)? })
    }

    /// Each of `groups` groups of `channels` channels normalised to mean zero and
    /// variance one, then scaled and shifted for each channel.
    pub fn group_norm(&self, weight: &Array, bias: &Array, channels: usize, groups: usize, eps: &Array) -> (r: Result<
        Array,
        Failure,
    >)
        ensures
            r matches Err(e) ==> e.basic(),
            r matches Ok(t) ==> t@ == model::group_norm(self@, weight@, bias@, groups as nat, eps@),
            r is Ok ==> self@.rank() >= 3 && self@.dims[1] == channels && groups > 0 && channels as nat
                % groups as nat == 0,
            r matches Ok(t) ==> t.on_cpu() == self.on_cpu(),
            groups_normalise(*self, *weight, *bias, channels as nat, groups as nat) && eps.single() ==> r is Ok,
    {
        if !self.dtype().is_float() {
            return Err(Failure::Dtype);
        }
        if groups == 0 {
            return Err(Failure::Shape);
        }
        self.raw_group_norm(weight, bias, channels, groups, eps)
    }

    /// `Tensor::randn_like` of candle: random numbers from a normal distribution,
    /// under the shape and with the element type of `self`. Which numbers come is not
    /// stated. From the standard normal distribution in main memory it does not fail.
    #[verifier::external_body]
    fn raw_randn_like(&self, mean: &Array, std: &Array) -> (r: Result<Array, Failure>)
        ensures
            r matches Err(e) ==> e.basic(),
            r matches Ok(t) ==> t@.dims == self@.dims && t@.dtype == self@.dtype && t.on_cpu() == self.on_cpu(),
            self.on_cpu() && self@.dtype.float() && mean.single() && mean@ == model::number(ZERO) && std.single()
                && std@ == model::number(ONE) ==> r is Ok,
    {
        let m = mean.inner.to_scalar().map_err(Failure::Candle)?;
        let s = std.inner.to_scalar().map_err(Failure::Candle)?;
        Ok(Array { inner: self.inner.randn_like(m, s).map_err(Failure::Candle)? })
    }

    /// Random numbers from the standard normal distribution, under the shape and with
    /// the element type of `self`.
    pub fn randn_like(&self) -> (r: Result<Array, Failure>)
        ensures
            r matches Err(e) ==> e.basic(),
            r matches Ok(t) ==> t@.dims == self@.dims && t@.dtype == self@.dtype && t.on_cpu() == self.on_cpu(),
            self.on_cpu() && self@.dtype.float() ==> r is Ok,
    {
        self.raw_randn_like(&Array::number(ZERO)?, &Array::number(ONE)?)
    }

    /// `ops::softmax` of candle-nn: softmax along an axis. In main memory it does not fail. It
    /// divides by the stride of the axis, so the array is stored in row-major order.
    #[verifier::external_body]
    fn raw_softmax(&self, dim: usize) -> (r: Result<Array, Failure>)
        requires
            self.in_order(),
            self@.dtype.float(),
            self@.rank() > dim,
            self@.dims[dim as int] > 0,
        ensures
            r matches Err(e) ==> e.basic(),
            r matches Ok(t) ==> t@ == model::softmax(self@, dim as int) && t.on_cpu() == self.on_cpu(),
            self.on_cpu() && model::numel(self@.dims) > 0 ==> r is Ok,
    {
        Ok(Array { inner: candle_nn::ops::softmax(&self.inner, dim).map_err(Failure::Candle)? })
    }

    /// Softmax along axis `dim`, which is not empty.
    pub fn softmax(&self, dim: usize) -> (r: Result<Array, Failure>)
        ensures
            r matches Err(e) ==> e.basic(),
            r matches Ok(t) ==> t@ == model::softmax(self@, dim as int) && t.on_cpu() == self.on_cpu(),
            r is Ok ==> self@.rank() > dim && self@.dims[dim as int] > 0,
            self.on_cpu() && self@.dtype.float() && self@.rank() > dim && self@.dims[dim as int] > 0 && model::numel(
                self@.dims,
            ) > 0 ==> r is Ok,
    {
        if !self.dtype().is_float() {
            return Err(Failure::Dtype);
        }
        if self.dim(dim)? == 0 {
            return Err(Failure::Shape);
        }
        self.packed()?.raw_softmax(dim)
    }

    /// `ops::softmax_last_dim` of candle-nn: softmax along the last axis. In main memory it
    /// does not fail on an array stored in row-major order.
    #[verifier::external_body]
    fn raw_softmax_last_dim(&self) -> (r: Result<Array, Failure>)
        requires
            self@.rank() >= 1,
            self@.dims.last() > 0,
        ensures
            r matches Err(e) ==> e.basic(),
            r matches Ok(t) ==> t@ == model::softmax_last_dim(self@) && t.on_cpu() == self.on_cpu(),
            self.on_cpu() && self@.dtype.float() && self.in_order() ==> r is Ok,
    {
        Ok(Array { inner: candle_nn::ops::softmax_last_dim(&self.inner).map_err(Failure::Candle)? })
    }

    /// Softmax along the last axis, which is not empty.
    pub fn softmax_last_dim(&self) -> (r: Result<Array, Failure>)
        ensures
            r matches Err(e) ==> e.basic(),
            r matches Ok(t) ==> t@ == model::softmax_last_dim(self@) && t.on_cpu() == self.on_cpu(),
            r is Ok ==> self@.rank() >= 1 && self@.dims.last() > 0,
            self.on_cpu() && self@.dtype.float() && self@.rank() >= 1 && self@.dims.last() > 0 ==> r is Ok,
    {
        let dims = self.dims();
        if dims.len() == 0 {
            return Err(Failure::Shape);
        }
        assert(self@.dims.last() == dims[dims.len() - 1]);
        if dims[dims.len() - 1] == 0 {
            return Err(Failure::Shape);
        }
        self.packed()?.raw_softmax_last_dim()
    }

    /// `Tensor::where_cond` of candle: the elements of `a` where this is not zero, those of `b`
    /// elsewhere. In main memory it does not fail on flags and tensors of one shape and one plain
    /// type.
    #[verifier::external_body]
    fn raw_select(&self, a: &Array, b: &Array) -> (r: Result<Array, Failure>)
        ensures
            r matches Err(e) ==> e.basic(),
            r matches Ok(t) ==> t@ == model::select(self@, a@, b@) && t.on_cpu() == a.on_cpu(),
            r is Ok ==> self@.dims == a@.dims && b@.dims == a@.dims && b@.dtype == a@.dtype,
            self.on_cpu() && a.usable() && b.on_cpu() && self@.dtype == model::Dtype::U8 && self@.dims == a@.dims
                && b@.dims == a@.dims && b@.dtype == a@.dtype ==> r is Ok,
    {
        Ok(Array { inner: self.inner.where_cond(&a.inner, &b.inner).map_err(Failure::Candle)? })
    }

    /// The elements of `a` where this single flag is set, else those of `b`.
    pub fn choose_between(&self, a: &Array, b: &Array) -> (r: Result<Array, Failure>)
        ensures
            r matches Err(e) ==> e.basic(),
            r matches Ok(t) ==> t@ == model::select(model::broadcast_to(self@, a@.dims), a@, b@),
            r matches Ok(t) ==> t.on_cpu() == a.on_cpu() && t@.dims == a@.dims && t@.dtype == a@.dtype && b@.dims
                == a@.dims && b@.dtype == a@.dtype,
            self.on_cpu() && a.usable() && b.on_cpu() && self@.rank() == 0 && self@.dtype == model::Dtype::U8
                && b@.dims == a@.dims && b@.dtype == a@.dtype ==> r is Ok,
    {
        proof {
            use_type_invariant(a);
            if self@.rank() == 0 {
                lemmas::lemma_number_spreads(a@.dims);
                assert(self@.dims =~= Seq::<nat>::empty());
            }
            reveal(model::broadcast_to);
        }
        self.expand(&a.dims())?.raw_select(a, b)
    }

    /// `Tensor::expand` of candle: the tensor repeated along its axes of size one,
    /// and along new leading axes, to a shape. Fails where that cannot be, and on
    /// nothing else.
    #[verifier::external_body]
    fn raw_expand(&self, dims: &Vec<usize>) -> (r: Result<Array, Failure>)
        requires
            model::fits(model::nats(dims@)),
        ensures
            r matches Err(e) ==> e.basic(),
            r matches Ok(t) ==> t@ == model::broadcast_to(self@, model::nats(dims@)) && t.on_cpu() == self.on_cpu(),
            r is Ok <==> model::broadcastable(self@.dims, model::nats(dims@)),
    {
        Ok(Array { inner: self.inner.expand(dims.as_slice()).map_err(Failure::Candle)? })
    }

    /// The array repeated along its axes of size one, and along new leading axes, to
    /// a shape.
    pub fn expand(&self, dims: &Vec<usize>) -> (r: Result<Array, Failure>)
        ensures
            r matches Err(e) ==> e.basic(),
            r matches Ok(t) ==> t@ == model::broadcast_to(self@, model::nats(dims@)) && t.on_cpu() == self.on_cpu(),
            r is Ok <==> model::broadcastable(self@.dims, model::nats(dims@)) && model::fits(
                model::nats(dims@),
            ),
    {
        if !addressable(dims) {
            return Err(Failure::Overflow);
        }
        self.raw_expand(dims)
    }

    /// All elements along one axis.
    pub fn flatten_all(&self) -> (r: Result<Array, Failure>)
        ensures
            r matches Err(e) ==> e.basic(),
            r matches Ok(t) ==> t@ == model::flatten(self@) && t.on_cpu() == self.on_cpu(),
            self.on_cpu() && self@.dtype.plain() ==> r is Ok,
    {
        proof {
            use_type_invariant(self);
            lemmas::lemma_numel1(model::numel(self@.dims));
            array::lemma_flat_fits(self@.dims);
        }
        let n: usize = self.elem_count();
        self.reshape1(n)
    }

    /// `Tensor::mean_keepdim` of candle: the mean along an axis, which keeps size
    /// one. In main memory it fails only where there is no such axis. In which order the
    /// elements are added can depend on how they are stored, so they are stored in row-major
    /// order.
    #[verifier::external_body]
    fn raw_mean_keepdim(&self, dim: usize) -> (r: Result<Array, Failure>)
        requires
            self.in_order(),
            self@.dtype.float(),
        ensures
            r matches Err(e) ==> e.basic(),
            r matches Ok(t) ==> t@ == model::mean_keepdim(self@, dim as int),
            r is Ok ==> self@.rank() > dim,
            r matches Ok(t) ==> t.on_cpu() == self.on_cpu(),
            self.on_cpu() && self@.rank() > dim ==> r is Ok,
    {
        Ok(Array { inner: self.inner.mean_keepdim(dim).map_err(Failure::Candle)? })
    }

    /// The mean along axis `dim`, which keeps size one.
    pub fn mean_keepdim(&self, dim: usize) -> (r: Result<Array, Failure>)
        ensures
            r matches Err(e) ==> e.basic(),
            r matches Ok(t) ==> t@ == model::mean_keepdim(self@, dim as int),
            r is Ok ==> self@.rank() > dim && self@.dtype.float(),
            r matches Ok(t) ==> t.on_cpu() == self.on_cpu(),
            self.on_cpu() && self@.dtype.float() && self@.rank() > dim ==> r is Ok,
    {
        if !self.dtype().is_float() {
            return Err(Failure::Dtype);
        }
        self.packed()?.raw_mean_keepdim(dim)
    }

    /// `Tensor::sum` of candle: the sum along some axes, which are dropped. In main memory it
    /// fails only where there are no such axes. In which order the elements are added can
    /// depend on how they are stored, so they are stored in row-major order.
    #[verifier::external_body]
    fn raw_sum(&self, dims: &Vec<usize>) -> (r: Result<Array, Failure>)
        requires
            self.in_order(),
            self@.dtype.float(),
            forall|i: int, j: int| 0 <= i < j < dims.len() ==> dims[i] < dims[j],
        ensures
            r matches Err(e) ==> e.basic(),
            r matches Ok(t) ==> t@ == model::sum(self@, array::axes(dims@)),
            r matches Ok(t) ==> t.on_cpu() == self.on_cpu(),
            self.on_cpu() && (forall|i: int| 0 <= i < dims.len() ==> #[trigger] dims[i] < self@.rank()) ==> r is Ok,
    {
        Ok(Array { inner: self.inner.sum(dims.as_slice()).map_err(Failure::Candle)? })
    }

    /// The sum along axis `dim`, which is dropped.
    pub fn sum1(&self, dim: usize) -> (r: Result<Array, Failure>)
        ensures
            r matches Err(e) ==> e.basic(),
            r matches Ok(t) ==> t@ == model::sum(self@, seq![dim as int]),
            r matches Ok(t) ==> t.on_cpu() == self.on_cpu(),
            self.on_cpu() && self@.dtype.float() && self@.rank() > dim ==> r is Ok,
    {
        if !self.dtype().is_float() {
            return Err(Failure::Dtype);
        }
        let dims: Vec<usize> = vec![dim];
        assert(array::axes(dims@) =~= seq![dim as int]);
        self.packed()?.raw_sum(&dims)
    }

    /// The sum along two axes, which are dropped.
    pub fn sum2(&self, a: usize, b: usize) -> (r: Result<Array, Failure>)
        requires
            a < b,
        ensures
            r matches Err(e) ==> e.basic(),
            r matches Ok(t) ==> t@ == model::sum(self@, seq![a as int, b as int]),
            r matches Ok(t) ==> t.on_cpu() == self.on_cpu(),
            self.on_cpu() && self@.dtype.float() && self@.rank() > b ==> r is Ok,
    {
        if !self.dtype().is_float() {
            return Err(Failure::Dtype);
        }
        let dims: Vec<usize> = vec![a, b];
        assert(array::axes(dims@) =~= seq![a as int, b as int]);
        self.packed()?.raw_sum(&dims)
    }

    /// `Tensor::max` of candle: the largest element along an axis, which is dropped.
    /// In main memory it does not fail. It divides by the stride of the axis, so the array is
    /// stored in row-major order.
    #[verifier::external_body]
    fn raw_max(&self, dim: usize) -> (r: Result<Array, Failure>)
        requires
            self.in_order(),
            self@.dtype.float(),
            self@.rank() > dim,
            self@.dims[dim as int] > 0,
        ensures
            r matches Err(e) ==> e.basic(),
            r matches Ok(t) ==> t@ == model::max(self@, dim as int) && t.on_cpu() == self.on_cpu(),
            self.on_cpu() && model::numel(self@.dims) > 0 ==> r is Ok,
    {
        Ok(Array { inner: self.inner.max(dim).map_err(Failure::Candle)? })
    }

    /// `Tensor::min` of candle: the smallest element along an axis, which is dropped.
    /// In main memory it does not fail. It divides by the stride of the axis, so the array is
    /// stored in row-major order.
    #[verifier::external_body]
    fn raw_min(&self, dim: usize) -> (r: Result<Array, Failure>)
        requires
            self.in_order(),
            self@.dtype.float(),
            self@.rank() > dim,
            self@.dims[dim as int] > 0,
        ensures
            r matches Err(e) ==> e.basic(),
            r matches Ok(t) ==> t@ == model::min(self@, dim as int) && t.on_cpu() == self.on_cpu(),
            self.on_cpu() && model::numel(self@.dims) > 0 ==> r is Ok,
    {
        Ok(Array { inner: self.inner.min(dim).map_err(Failure::Candle)? })
    }

    /// The largest element along axis `dim`, which is not empty and is dropped.
    pub fn largest(&self, dim: usize) -> (r: Result<Array, Failure>)
        ensures
            r matches Err(e) ==> e.basic(),
            r matches Ok(t) ==> t@ == model::max(self@, dim as int) && t.on_cpu() == self.on_cpu(),
            r is Ok ==> self@.rank() > dim && self@.dims[dim as int] > 0,
            self.on_cpu() && self@.dtype.float() && self@.rank() > dim && self@.dims[dim as int] > 0 && model::numel(
                self@.dims,
            ) > 0 ==> r is Ok,
    {
        if !self.dtype().is_float() {
            return Err(Failure::Dtype);
        }
        if self.dim(dim)? == 0 {
            return Err(Failure::Shape);
        }
        self.packed()?.raw_max(dim)
    }

    /// The smallest element along axis `dim`, which is not empty and is dropped.
    pub fn smallest(&self, dim: usize) -> (r: Result<Array, Failure>)
        ensures
            r matches Err(e) ==> e.basic(),
            r matches Ok(t) ==> t@ == model::min(self@, dim as int) && t.on_cpu() == self.on_cpu(),
            r is Ok ==> self@.rank() > dim && self@.dims[dim as int] > 0,
            self.on_cpu() && self@.dtype.float() && self@.rank() > dim && self@.dims[dim as int] > 0 && model::numel(
                self@.dims,
            ) > 0 ==> r is Ok,
    {
        if !self.dtype().is_float() {
            return Err(Failure::Dtype);
        }
        if self.dim(dim)? == 0 {
            return Err(Failure::Shape);
        }
        self.packed()?.raw_min(dim)
    }

    /// `Embedding::forward` of candle-nn: the row of a table for each integer. In main memory it
    /// does not fail on a table stored in row-major order that has a row for each.
    #[verifier::external_body]
    fn raw_embedding(&self, ids: &Array, width: usize) -> (r: Result<Array, Failure>)
        requires
            self.in_order(),
            self@.rank() == 2,
            self@.dims[1] == width,
            model::fits(ids@.dims.push(width as nat)),
        ensures
            r matches Err(e) ==> e.basic(),
            r matches Ok(t) ==> t@ == model::embedding(self@, ids@),
            r matches Ok(t) ==> t.on_cpu() == self.on_cpu(),
            self.usable() && names_rows(ids, self@.dims[0]) ==> r is Ok,
    {
        let layer = candle_nn::Embedding::new(self.inner.clone(), width);
        Ok(Array { inner: candle_nn::Module::forward(&layer, &ids.inner).map_err(Failure::Candle)? })
    }

    /// The row of a table for each integer.
    pub fn embedding(&self, ids: &Array) -> (r: Result<Array, Failure>)
        ensures
            r matches Err(e) ==> e.basic(),
            r matches Ok(t) ==> t@ == model::embedding(self@, ids@),
            r is Ok ==> self@.rank() == 2,
            r matches Ok(t) ==> t.on_cpu() == self.on_cpu() && t@.dtype == self@.dtype && t@.dims == ids@.dims.push(
                self@.dims[1],
            ),
            self.usable() && self@.rank() == 2 && names_rows(ids, self@.dims[0]) && model::fits(
                ids@.dims.push(self@.dims[1]),
            ) ==> r is Ok,
    {
        let (_rows, width) = self.dims2()?;
        let mut dims = ids.dims();
        dims.push(width);
        assert(model::nats(dims@) =~= ids@.dims.push(width as nat));
        if !addressable(&dims) {
            return Err(Failure::Overflow);
        }
        proof {
            reveal(model::embedding);
            reveal(model::index_select);
        }
        self.packed()?.raw_embedding(ids, width)
    }

    /// `Tensor::index_select` of candle: position `j` of axis `dim` of the result
    /// is position `ids[j]` of axis `dim`. In main memory it does not fail on an array stored
    /// in row-major order.
    #[verifier::external_body]
    fn raw_index_select(&self, ids: &Array, dim: usize) -> (r: Result<Array, Failure>)
        requires
            self@.rank() > dim,
            ids@.rank() == 1,
            ids@.dtype == model::Dtype::I64,
            model::all_positions(ids@, self@.dims[dim as int]),
            model::fits(self@.dims.update(dim as int, ids@.cells.len())),
        ensures
            r matches Err(e) ==> e.basic(),
            r matches Ok(t) ==> t@ == model::index_select(self@, model::integer_cells(ids@), dim as int),
            r matches Ok(t) ==> t.on_cpu() == self.on_cpu(),
            self.usable() && self.in_order() && ids.on_cpu() && ids@.dtype == model::Dtype::I64 ==> r is Ok,
    {
        Ok(Array { inner: self.inner.index_select(&ids.inner, dim).map_err(Failure::Candle)? })
    }

    /// Position `j` of axis `dim` of the result is position `ids[j]` of axis `dim`.
    pub fn index_select(&self, ids: Vec<i64>, dim: usize) -> (r: Result<Array, Failure>)
        ensures
            r matches Err(e) ==> e.basic(),
            r matches Ok(t) ==> t@ == model::index_select(self@, array::positions(ids@), dim as int),
            r is Ok ==> self@.rank() > dim && array::index_list(ids@, self@.dims[dim as int]),
            r matches Ok(t) ==> t.on_cpu() == self.on_cpu(),
            self.usable() && self@.rank() > dim && array::index_list(ids@, self@.dims[dim as int]) && model::fits(
                self@.dims.update(dim as int, ids@.len()),
            ) && model::fits(seq![ids@.len()]) ==> r is Ok,
    {
        let mut dims = self.dims();
        if dim >= dims.len() {
            return Err(Failure::Shape);
        }
        let size: usize = dims[dim];
        assert(size == self@.dims[dim as int]);
        let mut i: usize = 0;
        while i < ids.len()
            invariant
                i <= ids.len(),
                size == self@.dims[dim as int],
                forall|j: int| 0 <= j < i ==> 0 <= #[trigger] ids@[j] < size,
            decreases ids.len() - i,
        {
            if ids[i] < 0 || ids[i] as u64 >= size as u64 {
                return Err(Failure::Shape);
            }
            i = i + 1;
        }
        let n: usize = ids.len();
        dims.set(dim, n);
        assert(model::nats(dims@) =~= self@.dims.update(dim as int, n as nat));
        if !addressable(&dims) {
            return Err(Failure::Overflow);
        }
        let device = self.device();
        let ghost l = ids@;
        let ids = Array::integer_list(ids, &device)?;
        assert(model::integer_cells(ids@) =~= array::positions(l));
        self.packed()?.raw_index_select(&ids, dim)
    }
}

/// Whether the channels of `x` can be normalised in groups, in main memory.
pub open spec fn groups_normalise(x: Array, weight: Array, bias: Array, channels: nat, groups: nat) -> bool {
    &&& runs(x, weight, Some(bias))
    &&& x@.rank() >= 3 && x@.dims[1] == channels
    &&& groups > 0 && channels % groups == 0
    &&& weight@.dims == seq![channels] && bias@.dims == seq![channels]
}

/// Whether the channels of a convolution go together.
pub open spec fn channels_match(
    x: model::TensorView,
    weight: model::TensorView,
    bias: Option<model::TensorView>,
    groups: nat,
) -> bool {
    &&& x.dtype.float()
    &&& groups >= 1
    &&& x.dims[1] == weight.dims[1] * groups
    &&& weight.dims[0] % groups == 0
    &&& bias matches Some(b) ==> b.dims == seq![weight.dims[0]]
}

/// Whether a convolution over the last two axes is defined and its result can be
/// addressed.
pub open spec fn conv2d_defined(
    x: model::TensorView,
    weight: model::TensorView,
    bias: Option<model::TensorView>,
    padding: nat,
    stride: nat,
    dilation: nat,
    groups: nat,
) -> bool {
    &&& x.rank() == 4
    &&& weight.rank() == 4
    &&& channels_match(x, weight, bias, groups)
    &&& model::has_window(x.dims[2], weight.dims[2], padding, stride, dilation)
    &&& model::has_window(x.dims[3], weight.dims[3], padding, stride, dilation)
    &&& x.dims[2] + 2 * padding <= usize::MAX
    &&& x.dims[3] + 2 * padding <= usize::MAX
    &&& model::fits(model::conv2d(x, weight, bias, padding, stride, dilation, groups).dims)
}

/// Whether a convolution over the last axis is defined and its result can be
/// addressed.
pub open spec fn conv1d_defined(
    x: model::TensorView,
    weight: model::TensorView,
    bias: Option<model::TensorView>,
    padding: nat,
    stride: nat,
    dilation: nat,
    groups: nat,
) -> bool {
    &&& x.rank() == 3
    &&& weight.rank() == 3
    &&& channels_match(x, weight, bias, groups)
    &&& model::has_window(x.dims[2], weight.dims[2], padding, stride, dilation)
    &&& x.dims[2] + 2 * padding <= usize::MAX
    &&& model::fits(model::conv1d(x, weight, bias, padding, stride, dilation, groups).dims)
}

/// Whether a transposed convolution over the last axis is defined and its result can be
/// addressed.
pub open spec fn conv_transpose1d_defined(
    x: model::TensorView,
    weight: model::TensorView,
    padding: nat,
    stride: nat,
) -> bool {
    &&& x.dtype.float()
    &&& x.rank() == 3
    &&& weight.rank() == 3
    &&& x.dims[1] == weight.dims[0]
    &&& x.dims[2] >= 1
    &&& weight.dims[2] >= 1
    &&& stride >= 1
    &&& (x.dims[2] - 1) * stride >= 2 * padding
    &&& (x.dims[2] - 1) * stride <= usize::MAX
    &&& model::fits(
        seq![x.dims[0], weight.dims[1], model::spread(x.dims[2], weight.dims[2], padding, stride) as nat],
    )
}

/// Fails where the channels of a convolution do not go together.
fn check_groups(
    x: &Array,
    bias: &Option<Array>,
    c_in: usize,
    c_out: usize,
    c_in_k: usize,
    groups: usize,
) -> (r: Result<(), Failure>)
    ensures
        r matches Err(e) ==> e.basic(),
        r is Ok ==> x@.dtype.float() && groups >= 1 && c_in == c_in_k * groups && c_out % groups == 0,
        r is Ok ==> (bias matches Some(b) ==> b@.dims == seq![c_out as nat]),
        x@.dtype.float() && groups >= 1 && c_in == c_in_k * groups && c_out as nat % groups as nat == 0 && (
        bias matches Some(b) ==> b@.dims == seq![c_out as nat]) ==> r is Ok,
{
    if !x.dtype().is_float() {
        return Err(Failure::Dtype);
    }
    if groups == 0 || c_out % groups != 0 {
        return Err(Failure::Shape);
    }
    match c_in_k.checked_mul(groups) {
        Some(c) => {
            if c != c_in {
                return Err(Failure::Shape);
            }
        },
        None => {
            return Err(Failure::Shape);
        },
    }
    if let Some(b) = bias {
        let expected: Vec<usize> = vec![c_out];
        let got = b.dims();
        assert(model::nats(expected@) =~= seq![c_out as nat]);
        if !same_sizes(&expected, &got) {
            return Err(Failure::Shape);
        }
    }
    Ok(())
}

/// The number of positions of a window; fails where there is none.
pub fn window_count(n: usize, k: usize, padding: usize, stride: usize, dilation: usize) -> (r: Result<
    usize,
    Failure,
>)
    ensures
        r matches Err(e) ==> e == Failure::Shape || e == Failure::Overflow,
        r matches Ok(c) ==> c == model::windows(
            n as nat,
            k as nat,
            padding as nat,
            stride as nat,
            dilation as nat,
        ),
        r is Ok ==> model::has_window(
            n as nat,
            k as nat,
            padding as nat,
            stride as nat,
            dilation as nat,
        ) && n + 2 * padding <= usize::MAX,
        model::has_window(
            n as nat,
            k as nat,
            padding as nat,
            stride as nat,
            dilation as nat,
        ) && n + 2 * padding <= usize::MAX ==> r is Ok,
{
    if k == 0 || stride == 0 {
        return Err(Failure::Shape);
    }
    let padded: usize = match padding.checked_mul(2) {
        Some(p) => match n.checked_add(p) {
            Some(s) => s,
            None => {
                return Err(Failure::Overflow);
            },
        },
        None => {
            return Err(Failure::Overflow);
        },
    };
    let reach: usize = match dilation.checked_mul(k - 1) {
        Some(d) => d,
        None => {
            return Err(Failure::Overflow);
        },
    };
    if reach >= padded {
        return Err(Failure::Shape);
    }
    let steps: usize = (padded - reach - 1) / stride;
    assert(steps <= padded - reach - 1) by (nonlinear_arith)
        requires
            steps == (padded - reach - 1) / (stride as int),
            stride >= 1,
            padded - reach - 1 >= 0,
    ;
    Ok(steps + 1)
}

} // verus!
