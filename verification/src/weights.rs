//! Checkpoints: named tensors, reached by dotted paths.
use vstd::prelude::*;

use crate::array::{self, candle_dtype, Array};
use crate::error::Failure;
use crate::model::{self, Dtype, TensorView};

verus! {

/// Tensors of safetensors files mapped into memory.
#[verifier::external_type_specification]
#[verifier::external_body]
pub struct ExMmapedSafetensors(candle_core::safetensors::MmapedSafetensors);

/// A checkpoint, seen from one of its paths.
#[verifier::external_body]
pub struct Weights {
    inner: candle_nn::VarBuilder<'static>,
}

/// The tensors of the checkpoint by their full names.
pub uninterp spec fn tensors(w: Weights) -> Map<Seq<char>, TensorView>;

/// The path from which the checkpoint is seen; `None` at its root.
pub uninterp spec fn path(w: Weights) -> Option<Seq<char>>;

/// The element type that tensors are converted to when they are loaded.
pub uninterp spec fn loaded_dtype(w: Weights) -> Dtype;

/// Whether tensors are loaded from main memory into main memory.
pub uninterp spec fn stays_in_memory(w: Weights) -> bool;

/// `name` seen from `path`.
pub open spec fn under(path: Option<Seq<char>>, name: Seq<char>) -> Seq<char> {
    match path {
        None => name,
        Some(p) => p + seq!['.'] + name,
    }
}

/// The decimal digit for a number below ten.
pub open spec fn digit(n: nat) -> char {
    if n == 0 {
        '0'
    } else if n == 1 {
        '1'
    } else if n == 2 {
        '2'
    } else if n == 3 {
        '3'
    } else if n == 4 {
        '4'
    } else if n == 5 {
        '5'
    } else if n == 6 {
        '6'
    } else if n == 7 {
        '7'
    } else if n == 8 {
        '8'
    } else {
        '9'
    }
}

/// `n` in decimal notation.
pub open spec fn decimal(n: nat) -> Seq<char>
    decreases n,
{
    if n < 10 {
        seq![digit(n)]
    } else {
        decimal(n / 10).push(digit(n % 10))
    }
}

/// The mathematical model of [`Weights`].
#[verifier::ext_equal]
pub struct WeightsView {
    pub tensors: Map<Seq<char>, TensorView>,
    pub path: Option<Seq<char>>,
    pub dtype: Dtype,
    pub in_memory: bool,
}

impl WeightsView {
    /// The same checkpoint seen from below `name`.
    pub open spec fn pp(self, name: Seq<char>) -> WeightsView {
        WeightsView { path: Some(under(self.path, name)), ..self }
    }

    /// The same checkpoint seen from below the number `i`.
    pub open spec fn at(self, i: nat) -> WeightsView {
        self.pp(decimal(i))
    }

    /// Whether there is a tensor of this name.
    pub open spec fn has(self, name: Seq<char>) -> bool {
        self.tensors.contains_key(under(self.path, name))
    }

    /// The tensor of this name, as it is loaded.
    pub open spec fn get(self, name: Seq<char>) -> TensorView {
        model::cast(self.tensors[under(self.path, name)], self.dtype)
    }

    /// Whether all tensors are loaded from main memory into main memory, between plain types,
    /// and have shapes that can be addressed.
    pub open spec fn sound(self) -> bool {
        &&& self.in_memory
        &&& self.dtype.plain()
        &&& forall|k: Seq<char>| #[trigger]
            self.tensors.contains_key(k) ==> self.tensors[k].dtype.plain() && model::fits(self.tensors[k].dims)
    }

    /// Whether there is a tensor of this name and shape.
    pub open spec fn holds(self, name: Seq<char>, dims: Seq<nat>) -> bool {
        self.has(name) && self.get(name).dims == dims
    }
}

/// No axis of a tensor that a sound checkpoint holds is too long to be counted.
pub proof fn lemma_axis_counts(w: WeightsView, name: Seq<char>, dims: Seq<nat>, i: int)
    requires
        w.sound(),
        w.holds(name, dims),
        0 <= i < dims.len(),
    ensures
        dims[i] * 8 <= isize::MAX,
{
    array::lemma_axis_extent(dims, i);
}

impl View for Weights {
    type V = WeightsView;

    open spec fn view(&self) -> WeightsView {
        WeightsView {
            tensors: tensors(*self),
            path: path(*self),
            dtype: loaded_dtype(*self),
            in_memory: stays_in_memory(*self),
        }
    }
}

/// `VarBuilder::from_backend` of candle-nn on mapped files: a checkpoint seen
/// from its root, whose tensors are converted to `dtype` when they are loaded.
/// What the files hold is not stated.
#[verifier::external_body]
fn raw_from_mmaped(
    files: candle_core::safetensors::MmapedSafetensors,
    dtype: Dtype,
    device: candle_core::Device,
) -> (r: Weights)
    ensures
        path(r) == None::<Seq<char>>,
        loaded_dtype(r) == dtype,
        stays_in_memory(r) == array::is_main_memory(device),
{
    let backend = Box::new(files);
    Weights { inner: candle_nn::VarBuilder::from_backend(backend, candle_dtype(dtype), device) }
}

/// `VarBuilder::from_tensors` of candle-nn: a checkpoint seen from its root that
/// holds the given tensors under their names, and no others.
#[verifier::external_body]
fn raw_from_tensors(
    entries: std::collections::HashMap<String, candle_core::Tensor>,
    dtype: Dtype,
    device: &candle_core::Device,
) -> (r: Weights)
    ensures
        path(r) == None::<Seq<char>>,
        loaded_dtype(r) == dtype,
        array::is_main_memory(*device) && (forall|k: String| #[trigger]
            entries@.contains_key(k) ==> array::in_main_memory(entries@[k])) ==> stays_in_memory(r),
        forall|k: String|
            #[trigger] entries@.contains_key(k) ==> tensors(r).contains_key(k@) && tensors(r)[k@]
                == array::contents(entries@[k]),
        forall|name: Seq<char>| #[trigger]
            tensors(r).contains_key(name) ==> exists|k: String| #[trigger] entries@.contains_key(k) && k@ == name,
{
    Weights { inner: candle_nn::VarBuilder::from_tensors(entries, candle_dtype(dtype), device) }
}

impl Weights {
    /// A checkpoint in mapped safetensors files.
    pub fn from_mmaped(
        files: candle_core::safetensors::MmapedSafetensors,
        dtype: Dtype,
        device: candle_core::Device,
    ) -> (r: Weights)
        ensures
            r@.path == None::<Seq<char>>,
            r@.dtype == dtype,
            r@.in_memory == array::is_main_memory(device),
    {
        raw_from_mmaped(files, dtype, device)
    }

    /// A checkpoint that holds the given tensors.
    pub fn from_tensors(
        entries: std::collections::HashMap<String, candle_core::Tensor>,
        dtype: Dtype,
        device: &candle_core::Device,
    ) -> (r: Weights)
        ensures
            r@.path == None::<Seq<char>>,
            r@.dtype == dtype,
            array::is_main_memory(*device) && (forall|k: String| #[trigger]
                entries@.contains_key(k) ==> array::in_main_memory(entries@[k])) ==> r@.in_memory,
            forall|k: String|
                #[trigger] entries@.contains_key(k) ==> r@.tensors.contains_key(k@) && r@.tensors[k@]
                    == array::contents(entries@[k]),
            forall|name: Seq<char>| #[trigger]
                r@.tensors.contains_key(name) ==> exists|k: String| #[trigger]
                    entries@.contains_key(k) && k@ == name,
    {
        raw_from_tensors(entries, dtype, device)
    }

    /// `VarBuilder::pp` of candle-nn: the same checkpoint seen from below `name`.
    #[verifier::external_body]
    pub(crate) fn pp(&self, name: &str) -> (r: Weights)
        ensures
            r@ == self@.pp(name@),
    {
        Weights { inner: self.inner.pp(name) }
    }

    /// `VarBuilder::pp` of candle-nn on a number, which stands in decimal notation.
    #[verifier::external_body]
    pub(crate) fn at(&self, i: usize) -> (r: Weights)
        ensures
            r@ == self@.at(i as nat),
    {
        Weights { inner: self.inner.pp(i) }
    }

    /// `VarBuilder::contains_tensor` of candle-nn: whether there is a tensor of
    /// this name.
    #[verifier::external_body]
    pub(crate) fn contains_tensor(&self, name: &str) -> (r: bool)
        ensures
            r == self@.has(name@),
    {
        self.inner.contains_tensor(name)
    }

    /// `VarBuilder::get` of candle-nn: the tensor of this name. Fails where there
    /// is none or it has another shape, and on nothing else where it stays in main memory and
    /// is converted between plain types.
    #[verifier::external_body]
    fn raw_get(&self, dims: &Vec<usize>, name: &str) -> (r: Result<candle_core::Tensor, Failure>)
        ensures
            r matches Err(e) ==> e.basic(),
            r matches Ok(t) ==> array::contents(t) == self@.get(name@),
            r is Ok ==> self@.holds(name@, model::nats(dims@)),
            r matches Ok(t) ==> self@.in_memory ==> array::in_main_memory(t),
            self@.sound() && self@.holds(name@, model::nats(dims@)) ==> r is Ok,
    {
        self.inner.get(dims.as_slice(), name).map_err(Failure::Candle)
    }

    /// The tensor of this name, which has this shape.
    pub fn get(&self, dims: &Vec<usize>, name: &str) -> (r: Result<Array, Failure>)
        ensures
            r matches Err(e) ==> e.basic(),
            r matches Ok(t) ==> t@ == self@.get(name@),
            r is Ok ==> self@.holds(name@, model::nats(dims@)),
            r matches Ok(t) ==> self@.in_memory ==> t.on_cpu(),
            self@.sound() && self@.holds(name@, model::nats(dims@)) ==> r is Ok,
    {
        Array::new(self.raw_get(dims, name)?)
    }

    /// `VarBuilder::get_unchecked` of candle-nn: the tensor of this name, of
    /// whatever shape. Fails where there is none, and on nothing else where it stays in main
    /// memory and is converted between plain types.
    #[verifier::external_body]
    fn raw_get_unchecked(&self, name: &str) -> (r: Result<candle_core::Tensor, Failure>)
        ensures
            r matches Err(e) ==> e.basic(),
            r matches Ok(t) ==> array::contents(t) == self@.get(name@),
            r is Ok ==> self@.has(name@),
            r matches Ok(t) ==> self@.in_memory ==> array::in_main_memory(t),
            self@.sound() && self@.has(name@) ==> r is Ok,
    {
        self.inner.get_unchecked(name).map_err(Failure::Candle)
    }

    /// The tensor of this name, of whatever shape.
    pub fn get_unchecked(&self, name: &str) -> (r: Result<Array, Failure>)
        ensures
            r matches Err(e) ==> e.basic(),
            r matches Ok(t) ==> t@ == self@.get(name@),
            r is Ok ==> self@.has(name@),
            r matches Ok(t) ==> self@.in_memory ==> t.on_cpu(),
            self@.sound() && self@.has(name@) ==> r is Ok,
    {
        Array::new(self.raw_get_unchecked(name)?)
    }

    /// The tensor of this name, with one axis of these sizes.
    pub fn get1(&self, d0: usize, name: &str) -> (r: Result<Array, Failure>)
        ensures
            r matches Err(e) ==> e.basic(),
            r matches Ok(t) ==> t@ == self@.get(name@),
            r is Ok ==> self@.holds(name@, seq![d0 as nat]),
            r matches Ok(t) ==> self@.in_memory ==> t.on_cpu(),
            self@.sound() && self@.holds(name@, seq![d0 as nat]) ==> r is Ok,
    {
        let dims: Vec<usize> = vec![d0];
        assert(model::nats(dims@) =~= seq![d0 as nat]);
        self.get(&dims, name)
    }

    /// The tensor of this name, with two axes of these sizes.
    pub fn get2(&self, d0: usize, d1: usize, name: &str) -> (r: Result<Array, Failure>)
        ensures
            r matches Err(e) ==> e.basic(),
            r matches Ok(t) ==> t@ == self@.get(name@),
            r is Ok ==> self@.holds(name@, seq![d0 as nat, d1 as nat]),
            r matches Ok(t) ==> self@.in_memory ==> t.on_cpu(),
            self@.sound() && self@.holds(name@, seq![d0 as nat, d1 as nat]) ==> r is Ok,
    {
        let dims: Vec<usize> = vec![d0, d1];
        assert(model::nats(dims@) =~= seq![d0 as nat, d1 as nat]);
        self.get(&dims, name)
    }

    /// The tensor of this name, with three axes of these sizes.
    pub fn get3(&self, d0: usize, d1: usize, d2: usize, name: &str) -> (r: Result<Array, Failure>)
        ensures
            r matches Err(e) ==> e.basic(),
            r matches Ok(t) ==> t@ == self@.get(name@),
            r is Ok ==> self@.holds(name@, seq![d0 as nat, d1 as nat, d2 as nat]),
            r matches Ok(t) ==> self@.in_memory ==> t.on_cpu(),
            self@.sound() && self@.holds(name@, seq![d0 as nat, d1 as nat, d2 as nat]) ==> r is Ok,
    {
        let dims: Vec<usize> = vec![d0, d1, d2];
        assert(model::nats(dims@) =~= seq![d0 as nat, d1 as nat, d2 as nat]);
        self.get(&dims, name)
    }

    /// The tensor of this name, with four axes of these sizes.
    pub fn get4(&self, d0: usize, d1: usize, d2: usize, d3: usize, name: &str) -> (r: Result<Array, Failure>)
        ensures
            r matches Err(e) ==> e.basic(),
            r matches Ok(t) ==> t@ == self@.get(name@),
            r is Ok ==> self@.holds(name@, seq![d0 as nat, d1 as nat, d2 as nat, d3 as nat]),
            r matches Ok(t) ==> self@.in_memory ==> t.on_cpu(),
            self@.sound() && self@.holds(name@, seq![d0 as nat, d1 as nat, d2 as nat, d3 as nat]) ==> r is Ok,
    {
        let dims: Vec<usize> = vec![d0, d1, d2, d3];
        assert(model::nats(dims@) =~= seq![d0 as nat, d1 as nat, d2 as nat, d3 as nat]);
        self.get(&dims, name)
    }

    /// The tensor of this name, with five axes of these sizes.
    pub fn get5(&self, d0: usize, d1: usize, d2: usize, d3: usize, d4: usize, name: &str) -> (r: Result<Array, Failure>)
        ensures
            r matches Err(e) ==> e.basic(),
            r matches Ok(t) ==> t@ == self@.get(name@),
            r is Ok ==> self@.holds(name@, seq![d0 as nat, d1 as nat, d2 as nat, d3 as nat, d4 as nat]),
            r matches Ok(t) ==> self@.in_memory ==> t.on_cpu(),
            self@.sound() && self@.holds(name@, seq![d0 as nat, d1 as nat, d2 as nat, d3 as nat, d4 as nat]) ==> r is Ok,
    {
        let dims: Vec<usize> = vec![d0, d1, d2, d3, d4];
        assert(model::nats(dims@) =~= seq![d0 as nat, d1 as nat, d2 as nat, d3 as nat, d4 as nat]);
        self.get(&dims, name)
    }
}

} // verus!
