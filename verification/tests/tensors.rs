use candle_core::{DType, Device, Tensor};

use maor::array::{addressable, common_shape, same_sizes, window_count, Array};
use maor::error::Failure;
use maor::model::{BinOp, Dtype, RelOp, UnOp};

fn array(t: Tensor) -> Array {
    Array::new(t).unwrap()
}

fn of(values: &[f32], dims: &[usize]) -> Array {
    array(Tensor::from_vec(values.to_vec(), dims, &Device::Cpu).unwrap())
}

fn counting(dims: &[usize]) -> Array {
    let n: usize = dims.iter().product();
    let data: Vec<f32> = (0..n).map(|i| i as f32).collect();
    of(&data, dims)
}

fn floats(a: &Array) -> Vec<f32> {
    a.tensor().flatten_all().unwrap().to_dtype(DType::F32).unwrap().to_vec1().unwrap()
}

fn single(x: f64) -> Array {
    array(Tensor::new(x, &Device::Cpu).unwrap())
}

fn near(a: &[f32], b: &[f32]) {
    assert_eq!(a.len(), b.len());
    for (x, y) in a.iter().zip(b.iter()) {
        assert!((x - y).abs() <= 1e-5 * (1.0 + y.abs()), "{a:?} vs {b:?}");
    }
}

#[test]
fn sizes_and_element_types() {
    let x = counting(&[2, 3]);
    assert_eq!(x.dims(), vec![2, 3]);
    assert_eq!(x.rank(), 2);
    assert_eq!(x.elem_count(), 6);
    assert_eq!(x.dtype(), Dtype::F32);
    assert!(x.is_cpu());
    assert_eq!(x.dim(1).unwrap(), 3);
    assert!(x.dim(2).is_err());
    assert_eq!(x.dims2().unwrap(), (2, 3));
    assert!(matches!(x.dims3(), Err(Failure::Rank { expected: 3, got: 2 })));
    assert!(matches!(x.dims4(), Err(Failure::Rank { expected: 4, got: 2 })));
    assert!(matches!(x.dims5(), Err(Failure::Rank { expected: 5, got: 2 })));
    assert!(matches!(counting(&[2]).dims2(), Err(Failure::Rank { expected: 2, got: 1 })));
    assert!(addressable(&vec![3, 4]));
    assert!(!addressable(&vec![usize::MAX, 2]));
    assert!(same_sizes(&vec![1, 2], &vec![1, 2]) && !same_sizes(&vec![1, 2], &vec![1, 3]));
}

#[test]
fn other_shapes() {
    let x = counting(&[2, 3, 4]);
    assert_eq!(x.reshape(&vec![4, 6]).unwrap().dims(), vec![4, 6]);
    assert_eq!(x.reshape1(24).unwrap().dims(), vec![24]);
    assert_eq!(x.reshape2(8, 3).unwrap().dims(), vec![8, 3]);
    assert_eq!(x.reshape3(4, 3, 2).unwrap().dims(), vec![4, 3, 2]);
    assert_eq!(x.reshape4(1, 2, 3, 4).unwrap().dims(), vec![1, 2, 3, 4]);
    assert_eq!(x.reshape5(1, 2, 1, 3, 4).unwrap().dims(), vec![1, 2, 1, 3, 4]);
    assert!(x.reshape1(23).is_err());
    assert_eq!(floats(&x.reshape2(8, 3).unwrap()), floats(&x));
    assert_eq!(x.flatten_all().unwrap().dims(), vec![24]);
}

#[test]
fn other_orders_of_axes() {
    let x = counting(&[2, 1, 3]);
    let y = x.permute3(2, 0, 1).unwrap();
    assert_eq!(y.dims(), vec![3, 2, 1]);
    assert_eq!(floats(&y), vec![0.0, 3.0, 1.0, 4.0, 2.0, 5.0]);
    let z = counting(&[1, 2, 2, 2]).permute4(0, 3, 1, 2).unwrap();
    assert_eq!(floats(&z), vec![0.0, 2.0, 4.0, 6.0, 1.0, 3.0, 5.0, 7.0]);
    let w = counting(&[1, 1, 2, 1, 2]).permute5(0, 1, 4, 3, 2).unwrap();
    assert_eq!(floats(&w), vec![0.0, 2.0, 1.0, 3.0]);
}

#[test]
fn functions_of_one_element() {
    let x = of(&[0.5, -1.5], &[2]);
    let cases: [(UnOp, fn(f32) -> f32); 8] = [
        (UnOp::Neg, |v| -v),
        (UnOp::Exp, |v| v.exp()),
        (UnOp::Sin, |v| v.sin()),
        (UnOp::Cos, |v| v.cos()),
        (UnOp::Tanh, |v| v.tanh()),
        (UnOp::Sqr, |v| v * v),
        (UnOp::Recip, |v| 1.0 / v),
        (UnOp::Relu, |v| v.max(0.0)),
    ];
    for (op, f) in cases {
        near(&floats(&x.unary(op).unwrap()), &[f(0.5), f(-1.5)]);
    }
    near(&floats(&x.unary(UnOp::Sigmoid).unwrap()), &[1.0 / (1.0 + (-0.5f32).exp()), 1.0 / (1.0 + 1.5f32.exp())]);
    let positive = of(&[4.0, 0.25], &[2]);
    near(&floats(&positive.unary(UnOp::Sqrt).unwrap()), &[2.0, 0.5]);
    near(&floats(&positive.unary(UnOp::Log).unwrap()), &[4.0f32.ln(), 0.25f32.ln()]);
    let gelu = floats(&of(&[1.0], &[1]).unary(UnOp::Gelu).unwrap());
    assert!((gelu[0] - 0.8412).abs() < 1e-3);
}

#[test]
fn functions_of_two_elements() {
    let a = of(&[1.0, 2.0, 3.0, 4.0], &[2, 2]);
    let b = of(&[2.0, 4.0], &[2]);
    near(&floats(&a.broadcast(BinOp::Plus, &b).unwrap()), &[3.0, 6.0, 5.0, 8.0]);
    near(&floats(&a.broadcast(BinOp::Minus, &b).unwrap()), &[-1.0, -2.0, 1.0, 0.0]);
    near(&floats(&a.broadcast(BinOp::Times, &b).unwrap()), &[2.0, 8.0, 6.0, 16.0]);
    near(&floats(&a.broadcast(BinOp::Over, &b).unwrap()), &[0.5, 0.5, 1.5, 1.0]);
    near(&floats(&a.broadcast(BinOp::Maximum, &b).unwrap()), &[2.0, 4.0, 3.0, 4.0]);
    near(&floats(&a.broadcast(BinOp::Minimum, &b).unwrap()), &[1.0, 2.0, 2.0, 4.0]);
    near(&floats(&a.pairwise(BinOp::Plus, &a).unwrap()), &[2.0, 4.0, 6.0, 8.0]);
    assert!(a.pairwise(BinOp::Plus, &b).is_err());
    assert!(a.broadcast(BinOp::Plus, &of(&[1.0, 2.0, 3.0], &[3])).is_err());
    assert_eq!(common_shape(&vec![2, 1, 3], &vec![4, 1]), Some(vec![2, 4, 3]));
    assert_eq!(common_shape(&vec![2], &vec![3]), None);
}

#[test]
fn relations() {
    let a = of(&[1.0, 2.0, 3.0], &[3]);
    let b = of(&[2.0], &[1]);
    assert_eq!(floats(&a.relate(RelOp::Lt, &b).unwrap()), vec![1.0, 0.0, 0.0]);
    assert_eq!(floats(&a.relate(RelOp::Gt, &b).unwrap()), vec![0.0, 0.0, 1.0]);
    assert_eq!(floats(&a.relate(RelOp::Ge, &b).unwrap()), vec![0.0, 1.0, 1.0]);
}

#[test]
fn single_numbers_are_read() {
    for x in [0.0, -0.0, 1.0, -2.5, 1e-300, f64::INFINITY, 6.02214076e23, f64::from_bits(0x0123_4567_89AB_CDEF)] {
        assert_eq!(single(x).to_number().unwrap(), x.to_bits());
    }
    assert!(f64::from_bits(single(f64::NAN).to_number().unwrap()).is_nan());
    let sum = single(0.1).broadcast(BinOp::Plus, &single(0.2)).unwrap();
    assert_eq!(sum.to_number().unwrap(), (0.1f64 + 0.2).to_bits());
    assert!(matches!(of(&[1.0], &[1]).to_number(), Err(Failure::Shape)));
    let narrow = array(Tensor::new(1.0f32, &Device::Cpu).unwrap());
    assert!(matches!(narrow.to_number(), Err(Failure::Dtype)));
}

#[test]
fn sums_products_and_powers_with_numbers() {
    let x = of(&[1.0, 2.0], &[2]);
    near(&floats(&x.affine(&single(3.0), &single(-1.0)).unwrap()), &[2.0, 5.0]);
    near(&floats(&x.scale(2.5f64.to_bits()).unwrap()), &[2.5, 5.0]);
    near(&floats(&x.scale_by(&single(-2.0)).unwrap()), &[-2.0, -4.0]);
    near(&floats(&x.shift(0.5f64.to_bits()).unwrap()), &[1.5, 2.5]);
    near(&floats(&x.shift_by(&single(4.0)).unwrap()), &[5.0, 6.0]);
    near(&floats(&x.powf(&single(3.0)).unwrap()), &[1.0, 8.0]);
    near(&floats(&of(&[-3.0, 0.25, 9.0], &[3]).clamp((-1.0f64).to_bits(), 2.0f64.to_bits()).unwrap()), &[-1.0, 0.25, 2.0]);
    let whole = Array::range(3, &Device::Cpu).unwrap();
    assert!(matches!(whole.powf(&single(2.0)), Err(Failure::Dtype)));
    assert!(whole.scale(2.0f64.to_bits()).is_err());
}

#[test]
fn tensors_from_numbers() {
    let dev = &Device::Cpu;
    assert_eq!(floats(&Array::range(4, dev).unwrap()), vec![0.0, 1.0, 2.0, 3.0]);
    assert_eq!(floats(&Array::integer_list(vec![7, -3], dev).unwrap()), vec![7.0, -3.0]);
    assert!(Array::integers(vec![1, 2, 3], &vec![2, 2], dev).is_err());
    let c = Array::count(5).unwrap();
    assert_eq!(c.tensor().to_scalar::<f64>().unwrap(), 5.0);
    for n in [0, 1, 1 << 53, (1 << 53) + 1, i64::MAX as usize, i64::MAX as usize + 1, (1 << 63) + 1025, usize::MAX] {
        assert_eq!(Array::count(n).unwrap().tensor().to_scalar::<f64>().unwrap(), n as f64);
    }
    assert_eq!(floats(&Array::zeros(&vec![2, 2], Dtype::F32, dev).unwrap()), vec![0.0; 4]);
    assert_eq!(floats(&Array::ones(&vec![3], Dtype::F64, dev).unwrap()), vec![1.0; 3]);
    let u = Array::unsigned_integers(vec![5, 6], &vec![1, 2], dev).unwrap();
    assert_eq!(u.tensor().to_vec2::<u32>().unwrap(), vec![vec![5, 6]]);
    let w = Array::whole(9, Dtype::F32, dev).unwrap();
    assert_eq!(w.tensor().to_scalar::<f32>().unwrap(), 9.0);
}

#[test]
fn tensors_side_by_side() {
    let a = counting(&[2, 2]);
    let b = of(&[10.0, 11.0], &[2, 1]);
    let c = Array::cat(&vec![a.clone(), b.clone()], 1).unwrap();
    assert_eq!(c.dims(), vec![2, 3]);
    assert_eq!(floats(&c), vec![0.0, 1.0, 10.0, 2.0, 3.0, 11.0]);
    assert!(Array::cat(&vec![], 0).is_err());
    assert!(Array::cat(&vec![a.clone(), b.clone()], 0).is_err());
    assert_eq!(floats(&Array::join(a.clone(), a.clone(), 0).unwrap()), vec![0.0, 1.0, 2.0, 3.0, 0.0, 1.0, 2.0, 3.0]);
    let s = Array::stack(&vec![of(&[1.0, 2.0], &[2]), of(&[3.0, 4.0], &[2])], 1).unwrap();
    assert_eq!(s.dims(), vec![2, 2]);
    assert_eq!(floats(&s), vec![1.0, 3.0, 2.0, 4.0]);
    assert_eq!(floats(&of(&[1.0, 2.0], &[2]).repeat_axis(0, 3).unwrap()), vec![1.0, 2.0, 1.0, 2.0, 1.0, 2.0]);
    assert_eq!(floats(&of(&[1.0, 2.0], &[2]).repeat_axis(0, 0).unwrap()), vec![1.0, 2.0]);
    let e = of(&[1.0, 2.0], &[2, 1]).expand(&vec![2, 3]).unwrap();
    assert_eq!(floats(&e), vec![1.0, 1.0, 1.0, 2.0, 2.0, 2.0]);
    assert!(of(&[1.0, 2.0], &[2]).expand(&vec![3]).is_err());
    let picked = counting(&[3, 2]).index_select(vec![2, 0, 2], 0).unwrap();
    assert_eq!(floats(&picked), vec![4.0, 5.0, 0.0, 1.0, 4.0, 5.0]);
    assert!(matches!(counting(&[3]).index_select(vec![3], 0), Err(Failure::Shape)));
    let padded = of(&[1.0, 2.0], &[1, 2]).pad_with_zeros(1, 1, 2).unwrap();
    assert_eq!(floats(&padded), vec![0.0, 1.0, 2.0, 0.0, 0.0]);
    let doubled = counting(&[1, 1, 1, 2]).double2d().unwrap();
    assert_eq!(doubled.dims(), vec![1, 1, 2, 4]);
    assert_eq!(floats(&doubled), vec![0.0, 0.0, 1.0, 1.0, 0.0, 0.0, 1.0, 1.0]);
}

#[test]
fn sums_and_extremes_along_axes() {
    let x = counting(&[2, 3]);
    near(&floats(&x.mean_keepdim(1).unwrap()), &[1.0, 4.0]);
    assert_eq!(x.mean_keepdim(1).unwrap().dims(), vec![2, 1]);
    near(&floats(&x.sum1(0).unwrap()), &[3.0, 5.0, 7.0]);
    assert_eq!(x.sum1(0).unwrap().dims(), vec![3]);
    near(&floats(&counting(&[2, 2, 2]).sum2(1, 2).unwrap()), &[6.0, 22.0]);
    near(&floats(&x.largest(1).unwrap()), &[2.0, 5.0]);
    near(&floats(&x.smallest(0).unwrap()), &[0.0, 1.0, 2.0]);
    assert!(matches!(of(&[], &[0]).largest(0), Err(Failure::Shape)));
    let s = floats(&of(&[0.0, 0.0, 3.0f32.ln(), 0.0], &[2, 2]).softmax_last_dim().unwrap());
    near(&s, &[0.5, 0.5, 0.75, 0.25]);
    let s = floats(&of(&[0.0, 0.0, 3.0f32.ln(), 0.0], &[2, 2]).softmax(0).unwrap());
    near(&s, &[0.25, 0.5, 0.75, 0.5]);
}

#[test]
fn products_of_matrices() {
    let a = of(&[1.0, 2.0, 3.0, 4.0], &[2, 2]);
    let b = of(&[0.0, 1.0, 1.0, 1.0], &[2, 2]);
    near(&floats(&a.matmul(&b).unwrap()), &[2.0, 3.0, 4.0, 7.0]);
    assert!(a.matmul(&counting(&[3, 2])).is_err());
}

#[test]
fn rows_of_a_table() {
    let table = counting(&[3, 2]);
    let ids = Array::unsigned_integers(vec![2, 0], &vec![1, 2], &Device::Cpu).unwrap();
    let e = table.embedding(&ids).unwrap();
    assert_eq!(e.dims(), vec![1, 2, 2]);
    assert_eq!(floats(&e), vec![4.0, 5.0, 0.0, 1.0]);
    assert!(matches!(counting(&[3]).embedding(&ids), Err(Failure::Rank { expected: 2, got: 1 })));
}

#[test]
fn convolutions() {
    let x = counting(&[1, 1, 3, 3]);
    let w = of(&[1.0, 0.0, 0.0, 1.0], &[1, 1, 2, 2]);
    let y = x.conv2d(&w, &None, 0, 1, 1, 1).unwrap();
    near(&floats(&y), &[4.0, 6.0, 10.0, 12.0]);
    let bias = Some(of(&[0.5], &[1]));
    near(&floats(&x.conv2d(&w, &bias, 0, 2, 1, 1).unwrap()), &[4.5]);
    let line = counting(&[1, 1, 4]);
    let k = of(&[1.0, -1.0], &[1, 1, 2]);
    near(&floats(&line.conv1d(&k, &None, 0, 1, 1, 1).unwrap()), &[-1.0, -1.0, -1.0]);
    near(&floats(&line.conv1d(&k, &None, 1, 1, 2, 1).unwrap()), &[-1.0, -2.0, -2.0, 2.0]);
    let spread = of(&[1.0, 2.0], &[1, 1, 2]).conv_transpose1d(&of(&[1.0, 10.0], &[1, 1, 2]), &None, 0, 2).unwrap();
    near(&floats(&spread), &[1.0, 10.0, 2.0, 20.0]);
    assert!(line.conv1d(&of(&[0.0; 5], &[1, 1, 5]), &None, 0, 1, 1, 1).is_err());
    assert_eq!(window_count(10, 3, 1, 2, 1).unwrap(), 5);
    assert!(window_count(2, 3, 0, 1, 1).is_err());
}

#[test]
fn normalisation_of_groups() {
    let x = of(&[1.0, 3.0, 10.0, 30.0], &[1, 2, 2]);
    let one = of(&[1.0, 2.0], &[2]);
    let zero = of(&[0.0, 0.5], &[2]);
    let y = x.group_norm(&one, &zero, 2, 2, &single(0.0)).unwrap();
    near(&floats(&y), &[-1.0, 1.0, -1.5, 2.5]);
}

#[test]
fn noise_has_the_shape_of_its_pattern() {
    let x = counting(&[2, 50]);
    let n = x.randn_like().unwrap();
    assert_eq!(n.dims(), vec![2, 50]);
    assert_eq!(n.dtype(), Dtype::F32);
    assert!(floats(&n) != floats(&x));
}

#[test]
fn extremes_along_repeated_and_turned_axes() {
    let x = of(&[1.0, 5.0], &[1, 2]).expand(&vec![3, 2]).unwrap();
    assert_eq!(floats(&x.largest(0).unwrap()), vec![1.0, 5.0]);
    assert_eq!(floats(&x.smallest(1).unwrap()), vec![1.0, 1.0, 1.0]);
    let t = array(counting(&[2, 3]).tensor().t().unwrap());
    assert_eq!(floats(&t.largest(1).unwrap()), vec![3.0, 4.0, 5.0]);
    near(&floats(&of(&[7.0], &[1, 1]).expand(&vec![2, 2]).unwrap().softmax(1).unwrap()), &[0.5, 0.5, 0.5, 0.5]);
}

#[test]
fn a_flag_chooses_between_arrays() {
    let (a, b) = (of(&[1.0, 2.0], &[2]), of(&[3.0, 4.0], &[2]));
    let yes = single(2.0).relate(RelOp::Gt, &single(1.0)).unwrap();
    assert_eq!(floats(&yes.choose_between(&a, &b).unwrap()), vec![1.0, 2.0]);
    let no = single(f64::NAN).relate(RelOp::Gt, &single(1.0)).unwrap();
    assert_eq!(floats(&no.choose_between(&a, &b).unwrap()), vec![3.0, 4.0]);
    assert!(yes.choose_between(&a, &of(&[1.0], &[1])).is_err());
}

#[test]
fn integers_and_bytes_are_read() {
    let x = array(Tensor::new(&[1i64, -2, 200], &Device::Cpu).unwrap());
    assert_eq!(x.to_integers().unwrap(), vec![1, -2, 200]);
    let y = array(Tensor::new(&[0u8, 200], &Device::Cpu).unwrap());
    assert_eq!(y.to_bytes().unwrap(), vec![0, 200]);
    assert!(x.to_bytes().is_err());
    assert!(y.to_integers().is_err());
    assert!(array(Tensor::new(&[[1i64, 2]], &Device::Cpu).unwrap()).to_integers().is_err());
}

#[test]
fn sizes_are_doubled() {
    let x = counting(&[1, 1, 1, 2]).double2d().unwrap();
    assert_eq!(x.dims(), vec![1, 1, 2, 4]);
    assert_eq!(floats(&x), vec![0.0, 0.0, 1.0, 1.0, 0.0, 0.0, 1.0, 1.0]);
    assert!(matches!(of(&[], &[1, 1, 0, 2]).double2d(), Err(Failure::Shape)));
}
