//! Arrays made from numbers.
use vstd::prelude::*;

use crate::array::{self, addressable, candle_dtype, element_count, main_memory, Array};
use crate::error::Failure;
use crate::lemmas;
use crate::model::{self, BinOp, Dtype};
use crate::scalar::Scalar;

verus! {

impl Array {
    /// `Tensor::from_raw_buffer` of candle on the eight bytes of a binary64
    /// number: a tensor without axes, in main memory, that holds this number. It does not
    /// fail.
    #[verifier::external_body]
    pub(crate) fn number(s: Scalar) -> (r: Result<Array, Failure>)
        ensures
            r matches Ok(t) ==> t@ == model::number(s) && t.on_cpu(),
            r is Ok,
    {
        let cpu = candle_core::Device::Cpu;
        let bytes = s.to_ne_bytes();
        let t = candle_core::Tensor::from_raw_buffer(&bytes, candle_core::DType::F64, &[], &cpu);
        Ok(Array { inner: t.map_err(Failure::Candle)? })
    }

    /// `Tensor::from_vec` of candle on integers, in row-major order. In main memory it does
    /// not fail.
    #[verifier::external_body]
    fn raw_integers(values: Vec<i64>, dims: &Vec<usize>, device: &candle_core::Device) -> (r: Result<Array, Failure>)
        requires
            model::fits(model::nats(dims@)),
            values.len() == model::numel(model::nats(dims@)),
        ensures
            r matches Err(e) ==> e.basic(),
            r matches Ok(t) ==> t@ == model::integers(values@, model::nats(dims@)),
            r matches Ok(t) ==> t.on_cpu() == array::is_main_memory(*device),
            array::is_main_memory(*device) ==> r is Ok,
    {
        Ok(Array { inner: candle_core::Tensor::from_vec(values, dims.as_slice(), device).map_err(Failure::Candle)? })
    }

    /// Integers under a shape, in row-major order.
    pub fn integers(values: Vec<i64>, dims: &Vec<usize>, device: &candle_core::Device) -> (r: Result<Array, Failure>)
        ensures
            r matches Err(e) ==> e.basic(),
            r matches Ok(t) ==> t@ == model::integers(values@, model::nats(dims@)),
            r is Ok ==> values.len() == model::numel(model::nats(dims@)),
            r matches Ok(t) ==> t.on_cpu() == array::is_main_memory(*device),
            array::is_main_memory(*device) && model::fits(model::nats(dims@)) && values.len() == model::numel(
                model::nats(dims@),
            ) ==> r is Ok,
    {
        if !addressable(dims) {
            return Err(Failure::Overflow);
        }
        if values.len() != element_count(dims) {
            return Err(Failure::Shape);
        }
        Array::raw_integers(values, dims, device)
    }

    /// Integers along one axis.
    pub fn integer_list(values: Vec<i64>, device: &candle_core::Device) -> (r: Result<Array, Failure>)
        ensures
            r matches Err(e) ==> e.basic(),
            r matches Ok(t) ==> t@ == model::integers(values@, seq![values.len() as nat]),
            r matches Ok(t) ==> t.on_cpu() == array::is_main_memory(*device),
            array::is_main_memory(*device) && model::fits(seq![values.len() as nat]) ==> r is Ok,
    {
        proof {
            lemmas::lemma_numel1(values.len() as nat);
        }
        let dims: Vec<usize> = vec![values.len()];
        assert(model::nats(dims@) =~= seq![values.len() as nat]);
        Array::integers(values, &dims, device)
    }

    /// The integers `0 .. n` along one axis.
    pub fn range(n: usize, device: &candle_core::Device) -> (r: Result<Array, Failure>)
        ensures
            r matches Err(e) ==> e.basic(),
            r matches Ok(t) ==> t@ == model::range(n as nat),
            r matches Ok(t) ==> t.on_cpu() == array::is_main_memory(*device),
            array::is_main_memory(*device) && model::fits(seq![n as nat]) ==> r is Ok,
    {
        proof {
            lemmas::lemma_extent1(n as nat);
        }
        if n as u64 > i64::MAX as u64 {
            return Err(Failure::Overflow);
        }
        let mut values: Vec<i64> = Vec::new();
        let mut i: usize = 0;
        while i < n
            invariant
                i <= n <= i64::MAX,
                values.len() == i,
                forall|k: int| 0 <= k < i ==> #[trigger] values[k] == k,
            decreases n - i,
        {
            values.push(i as i64);
            i = i + 1;
        }
        let ghost v = values@;
        let r = Array::integer_list(values, device)?;
        assert(r@.cells =~= model::range(n as nat).cells);
        Ok(r)
    }

    /// The single binary64 number `n`, in main memory, converted from an integer.
    fn converted(n: i64) -> (r: Result<Array, Failure>)
        requires
            n >= 0,
        ensures
            r matches Ok(t) && t@ == model::count(n as nat) && t.single(),
    {
        proof {
            lemmas::lemma_single();
        }
        let dims: Vec<usize> = Vec::new();
        assert(model::nats(dims@) =~= Seq::<nat>::empty());
        let values: Vec<i64> = vec![n];
        let ghost v = values@;
        assert(v =~= seq![n]);
        let r = Array::integers(values, &dims, &main_memory())?.to_dtype(Dtype::F64)?;
        proof {
            let ints = model::integers(v, Seq::empty());
            assert(ints.cells =~= seq![model::Cell::Int(n as int)]);
            assert(r@ == model::cast(ints, Dtype::F64));
            reveal(model::counted);
            assert(r@.cells =~= model::count(n as nat).cells);
        }
        Ok(r)
    }

    /// The single binary64 number `n`, in main memory.
    pub fn count(n: usize) -> (r: Result<Array, Failure>)
        ensures
            r matches Ok(t) && t@ == model::count(n as nat) && t.on_cpu(),
    {
        let n: u64 = n as u64;
        if n <= i64::MAX as u64 {
            return Array::converted(n as i64);
        }
        let high = Array::converted((n / 0x1_0000_0000) as i64)?;
        let low = Array::converted((n % 0x1_0000_0000) as i64)?;
        let unit = Array::number(0x41F0_0000_0000_0000)?;
        let upper = high.broadcast(BinOp::Times, &unit)?;
        let r = upper.broadcast(BinOp::Plus, &low)?;
        proof {
            reveal(model::counted);
            lemmas::lemma_single_binary(BinOp::Times, high@, unit@);
            lemmas::lemma_single_binary(BinOp::Plus, upper@, low@);
            assert(r@.cells =~= model::count(n as nat).cells);
            assert(r@.dims =~= Seq::<nat>::empty());
        }
        Ok(r)
    }

    /// `Tensor::zeros` of candle. In main memory it does not fail.
    #[verifier::external_body]
    fn raw_zeros(dims: &Vec<usize>, dtype: Dtype, device: &candle_core::Device) -> (r: Result<Array, Failure>)
        requires
            model::fits(model::nats(dims@)),
        ensures
            r matches Err(e) ==> e.basic(),
            r matches Ok(t) ==> t@ == model::zeros(model::nats(dims@), dtype),
            r matches Ok(t) ==> t.on_cpu() == array::is_main_memory(*device),
            array::is_main_memory(*device) && dtype.plain() ==> r is Ok,
    {
        let t = candle_core::Tensor::zeros(dims.as_slice(), candle_dtype(dtype), device);
        Ok(Array { inner: t.map_err(Failure::Candle)? })
    }

    /// Zeros under a shape.
    pub fn zeros(dims: &Vec<usize>, dtype: Dtype, device: &candle_core::Device) -> (r: Result<Array, Failure>)
        ensures
            r matches Err(e) ==> e.basic(),
            r matches Ok(t) ==> t@ == model::zeros(model::nats(dims@), dtype),
            r matches Ok(t) ==> t.on_cpu() == array::is_main_memory(*device),
            array::is_main_memory(*device) && dtype.plain() && model::fits(model::nats(dims@)) ==> r is Ok,
    {
        if !addressable(dims) {
            return Err(Failure::Overflow);
        }
        Array::raw_zeros(dims, dtype, device)
    }

    /// `Tensor::ones` of candle. In main memory it does not fail.
    #[verifier::external_body]
    fn raw_ones(dims: &Vec<usize>, dtype: Dtype, device: &candle_core::Device) -> (r: Result<Array, Failure>)
        requires
            model::fits(model::nats(dims@)),
            dtype.float(),
        ensures
            r matches Err(e) ==> e.basic(),
            r matches Ok(t) ==> t@ == model::ones(model::nats(dims@), dtype),
            r matches Ok(t) ==> t.on_cpu() == array::is_main_memory(*device),
            array::is_main_memory(*device) ==> r is Ok,
    {
        let t = candle_core::Tensor::ones(dims.as_slice(), candle_dtype(dtype), device);
        Ok(Array { inner: t.map_err(Failure::Candle)? })
    }

    /// Ones under a shape.
    pub fn ones(dims: &Vec<usize>, dtype: Dtype, device: &candle_core::Device) -> (r: Result<Array, Failure>)
        ensures
            r matches Err(e) ==> e.basic(),
            r matches Ok(t) ==> t@ == model::ones(model::nats(dims@), dtype),
            r matches Ok(t) ==> t.on_cpu() == array::is_main_memory(*device),
            array::is_main_memory(*device) && dtype.float() && model::fits(model::nats(dims@)) ==> r is Ok,
    {
        if !addressable(dims) {
            return Err(Failure::Overflow);
        }
        if !dtype.is_float() {
            return Err(Failure::Dtype);
        }
        Array::raw_ones(dims, dtype, device)
    }

    /// `Tensor::from_vec` of candle on non-negative integers, in row-major order. In main
    /// memory it does not fail.
    #[verifier::external_body]
    fn raw_unsigned(values: Vec<u32>, dims: &Vec<usize>, device: &candle_core::Device) -> (r: Result<Array, Failure>)
        requires
            model::fits(model::nats(dims@)),
            values.len() == model::numel(model::nats(dims@)),
        ensures
            r matches Err(e) ==> e.basic(),
            r matches Ok(t) ==> t@ == model::unsigned_integers(values@, model::nats(dims@)),
            r matches Ok(t) ==> t.on_cpu() == array::is_main_memory(*device),
            array::is_main_memory(*device) ==> r is Ok,
    {
        Ok(Array { inner: candle_core::Tensor::from_vec(values, dims.as_slice(), device).map_err(Failure::Candle)? })
    }

    /// Non-negative integers under a shape, in row-major order.
    pub fn unsigned_integers(values: Vec<u32>, dims: &Vec<usize>, device: &candle_core::Device) -> (r: Result<
        Array,
        Failure,
    >)
        ensures
            r matches Err(e) ==> e.basic(),
            r matches Ok(t) ==> t@ == model::unsigned_integers(values@, model::nats(dims@)),
            r is Ok ==> values.len() == model::numel(model::nats(dims@)),
            r matches Ok(t) ==> t.on_cpu() == array::is_main_memory(*device),
            array::is_main_memory(*device) && model::fits(model::nats(dims@)) && values.len() == model::numel(
                model::nats(dims@),
            ) ==> r is Ok,
    {
        if !addressable(dims) {
            return Err(Failure::Overflow);
        }
        if values.len() != element_count(dims) {
            return Err(Failure::Shape);
        }
        Array::raw_unsigned(values, dims, device)
    }

    /// The single number `n` in an element type.
    pub fn whole(n: usize, dtype: Dtype, device: &candle_core::Device) -> (r: Result<Array, Failure>)
        ensures
            r matches Err(e) ==> e.basic(),
            r matches Ok(t) ==> t@ == model::whole(n as nat, dtype),
            r matches Ok(t) ==> t.on_cpu() == array::is_main_memory(*device),
            array::is_main_memory(*device) && n <= i64::MAX && dtype.plain() ==> r is Ok,
    {
        proof {
            lemmas::lemma_single();
        }
        if n as u64 > i64::MAX as u64 {
            return Err(Failure::Overflow);
        }
        let dims: Vec<usize> = Vec::new();
        assert(model::nats(dims@) =~= Seq::<nat>::empty());
        let values: Vec<i64> = vec![n as i64];
        let ghost v = values@;
        assert(v =~= seq![n as i64]);
        let one = Array::integers(values, &dims, device)?;
        assert(one@.cells =~= seq![model::Cell::Int(n as int)]);
        one.to_dtype(dtype)
    }
}

} // verus!
