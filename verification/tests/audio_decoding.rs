use std::collections::HashMap;

use candle_core::{DType, Device, Tensor};

use maor::array::Array;
use maor::audio_vae::attention::AttnBlock;
use maor::audio_vae::causal_conv2d::{leaky_relu, CausalConv2d, CausalityAxis};
use maor::audio_vae::decoder::{adjust_output_shape, AudioDecoder};
use maor::audio_vae::filters::{beta_at, bessel_i0, half_band, hann_filter, kaiser_sinc_filter1d, sinc, sinc_at};
use maor::audio_vae::resample::{replicate_pad1d, UpSample1d};
use maor::audio_vae::vocoder::{MelStft, Vocoder, VocoderWithBwe};
use maor::error::Failure;
use maor::model::Dtype;
use maor::weights::Weights;

/// Tensors under their names, with small values that differ from each other.
struct Store {
    tensors: HashMap<String, Tensor>,
    next: u32,
}

impl Store {
    fn new() -> Store {
        Store { tensors: HashMap::new(), next: 1 }
    }

    fn add(&mut self, name: &str, dims: &[usize]) {
        let n: usize = dims.iter().product();
        let mut values: Vec<f32> = Vec::new();
        for _ in 0..n {
            self.next = self.next.wrapping_mul(1664525).wrapping_add(1013904223);
            values.push(((self.next >> 16) as f32 / 65536.0 - 0.5) * 0.5);
        }
        self.tensors.insert(name.to_string(), Tensor::from_vec(values, dims, &Device::Cpu).unwrap());
    }

    fn set(&mut self, name: &str, values: &[f32], dims: &[usize]) {
        self.tensors.insert(name.to_string(), Tensor::from_vec(values.to_vec(), dims, &Device::Cpu).unwrap());
    }

    fn linear(&mut self, name: &str, input: usize, output: usize) {
        self.add(&format!("{name}.weight"), &[output, input]);
        self.add(&format!("{name}.bias"), &[output]);
    }

    fn conv2d(&mut self, name: &str, input: usize, output: usize, k: usize) {
        self.add(&format!("{name}.conv.weight"), &[output, input, k, k]);
        self.add(&format!("{name}.conv.bias"), &[output]);
    }

    fn conv1d(&mut self, name: &str, input: usize, output: usize, k: usize) {
        self.add(&format!("{name}.weight"), &[output, input, k]);
        self.add(&format!("{name}.bias"), &[output]);
    }

    fn resnet(&mut self, name: &str, input: usize, output: usize) {
        self.conv2d(&format!("{name}.conv1"), input, output, 3);
        self.conv2d(&format!("{name}.conv2"), output, output, 3);
        if input != output {
            self.conv2d(&format!("{name}.nin_shortcut"), input, output, 1);
        }
    }

    fn weights(&self) -> Weights {
        Weights::from_tensors(self.tensors.clone(), Dtype::F32, &Device::Cpu)
    }
}

fn array(t: Tensor) -> Array {
    Array::new(t).unwrap()
}

fn of(values: &[f32], dims: &[usize]) -> Array {
    array(Tensor::from_vec(values.to_vec(), dims, &Device::Cpu).unwrap())
}

fn wave(dims: &[usize]) -> Array {
    let n: usize = dims.iter().product();
    let data: Vec<f32> = (0..n).map(|i| (i as f32 * 0.7).sin()).collect();
    of(&data, dims)
}

fn floats(a: &Array) -> Vec<f32> {
    a.tensor().flatten_all().unwrap().to_dtype(DType::F32).unwrap().to_vec1().unwrap()
}

fn near(a: &[f32], b: &[f32]) {
    assert_eq!(a.len(), b.len());
    for (x, y) in a.iter().zip(b.iter()) {
        assert!((x - y).abs() <= 1e-5 * (1.0 + y.abs()), "{x} vs {y}");
    }
}

fn number(x: f64) -> Array {
    array(Tensor::new(x, &Device::Cpu).unwrap())
}

fn value(a: &Array) -> f64 {
    a.tensor().to_scalar().unwrap()
}

#[test]
fn the_bessel_function() {
    assert_eq!(value(&bessel_i0(&number(0.0)).unwrap()), 1.0);
    assert!((value(&bessel_i0(&number(1.0)).unwrap()) - 1.2660658777520082).abs() < 1e-12);
    assert!((value(&bessel_i0(&number(5.0)).unwrap()) - 27.239871823604442).abs() < 1e-9);
}

#[test]
fn the_sinc_function() {
    assert_eq!(value(&sinc(&number(0.0)).unwrap()), 1.0);
    assert!((value(&sinc(&number(0.5)).unwrap()) - 2.0 / std::f64::consts::PI).abs() < 1e-12);
    assert!(value(&sinc(&number(2.0)).unwrap()).abs() < 1e-12);
    assert_eq!(value(&sinc_at(&number(0.5), 0.0f64.to_bits()).unwrap()), 1.0);
    assert_eq!(value(&sinc_at(&number(0.5), (-0.0f64).to_bits()).unwrap()), 1.0);
    assert!((value(&sinc_at(&number(0.5), 0.5f64.to_bits()).unwrap()) - 2.0 / std::f64::consts::PI).abs() < 1e-12);
    let beta = |a: f64| value(&beta_at(&number(a), a.to_bits()).unwrap());
    assert!((beta(60.0) - 0.1102 * (60.0 - 8.7)).abs() < 1e-12);
    assert!((beta(50.0) - (0.5842 * 29f64.powf(0.4) + 0.07886 * 29.0)).abs() < 1e-9);
    assert_eq!(beta(21.0), 0.0);
    assert_eq!(beta(20.5), 0.0);
    assert!(beta(22.0) > 0.6);
}

#[test]
fn a_filter_without_taps_is_empty() {
    let f = kaiser_sinc_filter1d(&number(0.25), &number(0.3), 0).unwrap();
    assert_eq!(f.dims(), vec![1, 1, 0]);
}

#[test]
fn low_pass_filters_are_even_and_sum_to_one() {
    for (ratio, taps) in [(2usize, 12usize), (3, 7)] {
        let f = half_band(ratio, taps).unwrap();
        assert_eq!(f.dims(), vec![1, 1, taps]);
        let v = floats(&f);
        assert!((v.iter().sum::<f32>() - 1.0).abs() < 1e-5);
        for i in 0..taps {
            assert!((v[i] - v[taps - 1 - i]).abs() < 1e-6);
        }
    }
    let f = kaiser_sinc_filter1d(&number(0.25), &number(0.3), 12).unwrap();
    assert_eq!(floats(&f), floats(&half_band(2, 12).unwrap()));
    // The middle taps of the filter for a factor of two.
    let v = floats(&f);
    assert!((v[5] - 0.44320977).abs() < 1e-4, "{}", v[5]);
}

#[test]
fn the_filter_for_a_factor_of_three() {
    let f = hann_filter(3).unwrap();
    assert_eq!(f.dims(), vec![1, 1, 43]);
    let v = floats(&f);
    assert!((v[21] - 0.33).abs() < 1e-6);
    assert!((v.iter().sum::<f32>() - 1.0).abs() < 1e-2);
    assert!((v[0] - v[42]).abs() < 1e-6);
}

#[test]
fn ends_are_repeated() {
    let x = of(&[1.0, 2.0, 3.0], &[1, 1, 3]);
    assert_eq!(floats(&replicate_pad1d(&x, 2, 1).unwrap()), vec![1.0, 1.0, 1.0, 2.0, 3.0, 3.0]);
    assert_eq!(floats(&replicate_pad1d(&x, 0, 0).unwrap()), vec![1.0, 2.0, 3.0]);
}

#[test]
fn a_higher_sampling_rate_keeps_a_constant() {
    let x = of(&[1.0; 20], &[1, 2, 10]);
    let y = UpSample1d::new(2, 12).unwrap().forward(&x).unwrap();
    assert_eq!(y.dims(), vec![1, 2, 20]);
    assert!(floats(&y).iter().all(|v| (v - 1.0).abs() < 1e-2));
    let y = UpSample1d::new_hann(3).unwrap().forward(&x).unwrap();
    assert_eq!(y.dims(), vec![1, 2, 30]);
    assert!(floats(&y).iter().all(|v| (v - 1.0).abs() < 1e-2));
}

#[test]
fn rectification_with_a_slope() {
    let y = leaky_relu(&of(&[-2.0, 3.0], &[2]), 0.1f64.to_bits()).unwrap();
    near(&floats(&y), &[-0.2, 3.0]);
}

#[test]
fn causal_convolution_pads_in_front() {
    let mut t: HashMap<String, Tensor> = HashMap::new();
    t.insert("conv.weight".to_string(), Tensor::ones(&[1, 1, 3, 3], DType::F32, &Device::Cpu).unwrap());
    let vb = Weights::from_tensors(t, Dtype::F32, &Device::Cpu);
    let x = of(&[1.0, 2.0, 4.0], &[1, 1, 3, 1]);
    let down = CausalConv2d::new(1, 1, 3, 1, 1, 1, CausalityAxis::Height, &vb).unwrap();
    near(&floats(&down.forward(&x).unwrap()), &[1.0, 3.0, 7.0]);
    let both = CausalConv2d::new(1, 1, 3, 1, 1, 1, CausalityAxis::Neither, &vb).unwrap();
    near(&floats(&both.forward(&x).unwrap()), &[3.0, 7.0, 6.0]);
    let x = of(&[1.0, 2.0, 4.0], &[1, 1, 1, 3]);
    let along = CausalConv2d::new(1, 1, 3, 1, 1, 1, CausalityAxis::Width, &vb).unwrap();
    near(&floats(&along.forward(&x).unwrap()), &[1.0, 3.0, 7.0]);
}

#[test]
fn attention_over_an_image() {
    let mut s = Store::new();
    for part in ["q", "k", "v", "proj_out"] {
        s.add(&format!("{part}.weight"), &[2, 2, 1, 1]);
        s.add(&format!("{part}.bias"), &[2]);
    }
    let block = AttnBlock::new(2, &s.weights()).unwrap();
    let y = block.forward(&wave(&[1, 2, 3, 2])).unwrap();
    assert_eq!(y.dims(), vec![1, 2, 3, 2]);
}

#[test]
fn spectrograms_are_cut_and_filled() {
    let x = of(&[1.0; 12], &[1, 1, 3, 4]);
    let y = adjust_output_shape(&x, 1, 5, 2).unwrap();
    assert_eq!(y.dims(), vec![1, 1, 5, 2]);
    assert_eq!(floats(&y), vec![1.0, 1.0, 1.0, 1.0, 1.0, 1.0, 0.0, 0.0, 0.0, 0.0]);
}

#[test]
fn decoded_spectrograms_have_their_size() {
    let mut s = Store::new();
    s.add("per_channel_statistics.mean-of-means", &[4]);
    s.add("per_channel_statistics.std-of-means", &[4]);
    s.conv2d("conv_in", 2, 8, 3);
    s.resnet("mid.block_1", 8, 8);
    s.resnet("mid.block_2", 8, 8);
    s.resnet("up.1.block.0", 8, 8);
    s.resnet("up.1.block.1", 8, 8);
    s.conv2d("up.1.upsample.conv", 8, 8, 3);
    s.resnet("up.0.block.0", 8, 4);
    s.resnet("up.0.block.1", 4, 4);
    s.conv2d("conv_out", 4, 2, 3);
    let d = AudioDecoder::new(4, 2, &vec![1, 2], 1, 2, CausalityAxis::Height, Some(8), &s.weights()).unwrap();
    let y = d.forward(&wave(&[1, 2, 3, 2])).unwrap();
    assert_eq!(y.dims(), vec![1, 2, 9, 8]);
    assert!(floats(&y).iter().all(|x| x.is_finite()));
}

fn vocoder_store(prefix: &str, amp: bool, rate: usize) -> Store {
    let mut s = Store::new();
    s.conv1d(&format!("{prefix}conv_pre"), 128, 4, 7);
    s.add(&format!("{prefix}ups.0.weight"), &[4, 2, rate]);
    s.add(&format!("{prefix}ups.0.bias"), &[2]);
    for k in 0..3 {
        for part in ["convs1", "convs2"] {
            s.conv1d(&format!("{prefix}resblocks.0.{part}.{k}"), 2, 2, 3);
        }
        if amp {
            for part in ["acts1", "acts2"] {
                s.add(&format!("{prefix}resblocks.0.{part}.{k}.act.alpha"), &[2]);
                s.add(&format!("{prefix}resblocks.0.{part}.{k}.act.beta"), &[2]);
            }
        }
    }
    if amp {
        s.add(&format!("{prefix}act_post.act.alpha"), &[2]);
        s.add(&format!("{prefix}act_post.act.beta"), &[2]);
    }
    s.conv1d(&format!("{prefix}conv_post"), 2, 2, 7);
    s
}

fn amp_vocoder(rate: usize) -> Vocoder {
    Vocoder::new_with_options(
        &vec![rate],
        &vec![rate],
        &vec![3],
        &vec![vec![1, 3, 5]],
        4,
        true,
        true,
        false,
        true,
        false,
        &vocoder_store("", true, rate).weights(),
    )
    .unwrap()
}

#[test]
fn waveforms_have_their_length() {
    let plain = Vocoder::new(
        &vec![4],
        &vec![4],
        &vec![3],
        &vec![vec![1, 1, 1]],
        4,
        true,
        &vocoder_store("", false, 4).weights(),
    )
    .unwrap();
    let y = plain.forward(&wave(&[1, 2, 5, 64])).unwrap();
    assert_eq!(y.dims(), vec![1, 2, 20]);
    assert!(floats(&y).iter().all(|x| x.abs() <= 1.0));
    let y = amp_vocoder(4).forward(&wave(&[1, 2, 5, 64])).unwrap();
    assert_eq!(y.dims(), vec![1, 2, 20]);
    assert!(matches!(plain.forward(&wave(&[2, 5, 64])), Err(Failure::Rank { expected: 4, got: 3 })));
}

#[test]
fn waveforms_at_three_times_the_rate() {
    let mut s = Store::new();
    s.add("stft_fn.forward_basis", &[514, 1, 512]);
    s.add("mel_basis", &[64, 257]);
    let v = VocoderWithBwe {
        vocoder: amp_vocoder(160),
        bwe_generator: amp_vocoder(240),
        mel_stft: MelStft::new(512, 80, 512, &s.weights()).unwrap(),
        resampler: UpSample1d::new_hann(3).unwrap(),
        input_sampling_rate: 16000,
        output_sampling_rate: 48000,
        hop_length: 80,
    };
    let y = v.forward(&wave(&[1, 2, 2, 64])).unwrap();
    assert_eq!(y.dims(), vec![1, 2, 960]);
    assert!(floats(&y).iter().all(|x| x.abs() <= 1.0));
    assert_eq!(v.output_sampling_rate(), 48000);
}

#[test]
fn missing_channels_are_filled_and_surplus_ones_cut() {
    let x = of(&[3.0, 4.0], &[1, 1, 1, 2]);
    let y = adjust_output_shape(&x, 2, 1, 2).unwrap();
    assert_eq!(y.dims(), vec![1, 2, 1, 2]);
    assert_eq!(floats(&y), vec![3.0, 4.0, 0.0, 0.0]);
    let x = of(&[3.0, 4.0], &[1, 2, 1, 1]);
    assert_eq!(floats(&adjust_output_shape(&x, 1, 1, 1).unwrap()), vec![3.0]);
}

#[test]
fn a_bias_counts_where_it_has_the_right_size() {
    let mut s = Store::new();
    s.set("conv.weight", &[1.0], &[1, 1, 1, 1]);
    let plain = CausalConv2d::new(1, 1, 1, 1, 1, 1, CausalityAxis::Neither, &s.weights()).unwrap();
    assert!(plain.bias.is_none());
    s.set("conv.bias", &[1.0, 2.0], &[2]);
    let odd = CausalConv2d::new(1, 1, 1, 1, 1, 1, CausalityAxis::Neither, &s.weights()).unwrap();
    assert!(odd.bias.is_none());
    s.set("conv.bias", &[5.0], &[1]);
    let biased = CausalConv2d::new(1, 1, 1, 1, 1, 1, CausalityAxis::Neither, &s.weights()).unwrap();
    assert_eq!(floats(&biased.forward(&of(&[2.0], &[1, 1, 1, 1])).unwrap()), vec![7.0]);
}
