use candle_core::{DType, Device, Tensor};

use maor::array::Array;
use maor::nn::rope::{apply_interleaved_rotary_emb, apply_split_rotary_emb, repeat_interleave_last};
use maor::nn::timestep_embedding::get_timestep_embedding;

fn array(t: Tensor) -> Array {
    Array::new(t).unwrap()
}

fn floats(a: &Array) -> Vec<f32> {
    a.tensor().flatten_all().unwrap().to_dtype(DType::F32).unwrap().to_vec1().unwrap()
}

#[test]
fn test_interleaved_rotary_identity_at_zero() {
    let dev = &Device::Cpu;
    let input = array(Tensor::new(&[[1.0f32, 2.0, 3.0, 4.0]], dev).unwrap());
    let cos = array(Tensor::ones((1, 4), DType::F32, dev).unwrap());
    let sin = array(Tensor::zeros((1, 4), DType::F32, dev).unwrap());

    let out = apply_interleaved_rotary_emb(&input, &cos, &sin).unwrap();
    let vals = floats(&out);
    assert!((vals[0] - 1.0).abs() < 1e-5);
    assert!((vals[1] - 2.0).abs() < 1e-5);
    assert!((vals[2] - 3.0).abs() < 1e-5);
    assert!((vals[3] - 4.0).abs() < 1e-5);
}

#[test]
fn test_split_rotary_identity_at_zero() {
    let dev = &Device::Cpu;
    let input = array(Tensor::new(&[[1.0f32, 2.0, 3.0, 4.0]], dev).unwrap());
    let cos = array(Tensor::ones((1, 2), DType::F32, dev).unwrap());
    let sin = array(Tensor::zeros((1, 2), DType::F32, dev).unwrap());

    let out = apply_split_rotary_emb(&input, &cos, &sin).unwrap();
    let vals = floats(&out);
    assert!((vals[0] - 1.0).abs() < 1e-5);
    assert!((vals[1] - 2.0).abs() < 1e-5);
    assert!((vals[2] - 3.0).abs() < 1e-5);
    assert!((vals[3] - 4.0).abs() < 1e-5);
}

#[test]
fn test_repeat_interleave() {
    let dev = &Device::Cpu;
    let x = array(Tensor::new(&[1.0f32, 2.0, 3.0], dev).unwrap());
    let out = repeat_interleave_last(&x, 2).unwrap();
    assert_eq!(floats(&out), vec![1.0, 1.0, 2.0, 2.0, 3.0, 3.0]);
}

#[test]
fn test_sinusoidal_embedding_shape() {
    let dev = &Device::Cpu;
    let ts = array(Tensor::new(&[0.5f32, 1.0], dev).unwrap());
    let emb = get_timestep_embedding(&ts, 256, true, 0.0f64.to_bits(), 1.0f64.to_bits(), 10000).unwrap();
    assert_eq!(emb.dims(), vec![2, 256]);
}

#[test]
fn test_sinusoidal_embedding_odd_dim() {
    let dev = &Device::Cpu;
    let ts = array(Tensor::new(&[0.5f32], dev).unwrap());
    let emb = get_timestep_embedding(&ts, 257, false, 1.0f64.to_bits(), 1.0f64.to_bits(), 10000).unwrap();
    assert_eq!(emb.dims(), vec![1, 257]);
}

#[test]
fn quarter_turn_exchanges_neighbours() {
    let dev = Device::Cpu;
    let input = array(Tensor::from_vec(vec![1f32, 2.0, 3.0, 4.0], (1, 1, 4), &dev).unwrap());
    let cos = array(Tensor::zeros((1, 1, 4), candle_core::DType::F32, &dev).unwrap());
    let sin = array(Tensor::ones((1, 1, 4), candle_core::DType::F32, &dev).unwrap());
    let out = apply_interleaved_rotary_emb(&input, &cos, &sin).unwrap();
    assert_eq!(floats(&out), vec![-2.0, 1.0, -4.0, 3.0]);
}

#[test]
fn quarter_turn_exchanges_halves() {
    let dev = Device::Cpu;
    let input = array(Tensor::from_vec(vec![1f32, 2.0, 3.0, 4.0], (1, 1, 1, 4), &dev).unwrap());
    let cos = array(Tensor::zeros((1, 1, 1, 2), candle_core::DType::F32, &dev).unwrap());
    let sin = array(Tensor::ones((1, 1, 1, 2), candle_core::DType::F32, &dev).unwrap());
    let out = apply_split_rotary_emb(&input, &cos, &sin).unwrap();
    assert_eq!(floats(&out), vec![-3.0, -4.0, 1.0, 2.0]);
}

#[test]
fn odd_last_axis_cannot_be_rotated() {
    let dev = Device::Cpu;
    let input = array(Tensor::zeros((1, 1, 3), candle_core::DType::F32, &dev).unwrap());
    let turn = array(Tensor::ones((1, 1, 3), candle_core::DType::F32, &dev).unwrap());
    assert!(matches!(apply_interleaved_rotary_emb(&input, &turn, &turn), Err(maor::error::Failure::OddRope)));
}

#[test]
fn repeated_elements_stand_side_by_side() {
    let x = array(Tensor::from_vec(vec![1f32, 2.0], (1, 2), &Device::Cpu).unwrap());
    assert_eq!(floats(&repeat_interleave_last(&x, 3).unwrap()), vec![1.0, 1.0, 1.0, 2.0, 2.0, 2.0]);
}
