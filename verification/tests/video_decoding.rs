use std::collections::HashMap;

use candle_core::{DType, Device, Tensor};

use maor::array::Array;
use maor::base::config::BlockSettings;
use maor::error::Failure;
use maor::model::Dtype;
use maor::nn::conv3d::{conv2d_manual, reflect_indices, reflect_pad_2d, CausalConv3d, Conv3d, DualConv3d, SpatialPaddingMode};
use maor::nn::pixel_norm::PixelNorm;
use maor::video_vae::decoder::{DecoderBlock, VideoDecoder};
use maor::video_vae::upsample::{depth_to_space_3d, DepthToSpaceUpsample};
use maor::video_vae::upsampler::{pixel_shuffle_2d, LatentUpsampler};
use maor::weights::Weights;

/// Tensors under their names, with small values that differ from each other.
struct Store {
    tensors: HashMap<String, Tensor>,
    next: u32,
}

impl Store {
    fn new() -> Store {
        Store { tensors: HashMap::new(), next: 1 }
    }

    fn add(&mut self, name: &str, dims: &[usize]) {
        let n: usize = dims.iter().product();
        let mut values: Vec<f32> = Vec::new();
        for _ in 0..n {
            self.next = self.next.wrapping_mul(1664525).wrapping_add(1013904223);
            values.push(((self.next >> 16) as f32 / 65536.0 - 0.5) * 0.5);
        }
        self.tensors.insert(name.to_string(), Tensor::from_vec(values, dims, &Device::Cpu).unwrap());
    }

    fn set(&mut self, name: &str, values: &[f32], dims: &[usize]) {
        self.tensors.insert(name.to_string(), Tensor::from_vec(values.to_vec(), dims, &Device::Cpu).unwrap());
    }

    fn linear(&mut self, name: &str, input: usize, output: usize) {
        self.add(&format!("{name}.weight"), &[output, input]);
        self.add(&format!("{name}.bias"), &[output]);
    }

    fn conv3d(&mut self, name: &str, input: usize, output: usize) {
        self.add(&format!("{name}.weight"), &[output, input, 3, 3, 3]);
        self.add(&format!("{name}.bias"), &[output]);
    }

    fn embedder(&mut self, name: &str, dim: usize) {
        self.linear(&format!("{name}.timestep_embedder.linear_1"), 256, dim);
        self.linear(&format!("{name}.timestep_embedder.linear_2"), dim, dim);
    }

    fn norm(&mut self, name: &str, dim: usize) {
        self.add(&format!("{name}.weight"), &[dim]);
        self.add(&format!("{name}.bias"), &[dim]);
    }

    fn weights(&self) -> Weights {
        Weights::from_tensors(self.tensors.clone(), Dtype::F32, &Device::Cpu)
    }
}

fn array(t: Tensor) -> Array {
    Array::new(t).unwrap()
}

fn of(values: &[f32], dims: &[usize]) -> Array {
    array(Tensor::from_vec(values.to_vec(), dims, &Device::Cpu).unwrap())
}

fn wave(dims: &[usize]) -> Array {
    let n: usize = dims.iter().product();
    let data: Vec<f32> = (0..n).map(|i| (i as f32 * 0.7).sin()).collect();
    of(&data, dims)
}

fn floats(a: &Array) -> Vec<f32> {
    a.tensor().flatten_all().unwrap().to_dtype(DType::F32).unwrap().to_vec1().unwrap()
}

fn near(a: &[f32], b: &[f32]) {
    assert_eq!(a.len(), b.len());
    for (x, y) in a.iter().zip(b.iter()) {
        assert!((x - y).abs() <= 1e-5 * (1.0 + y.abs()), "{x} vs {y}");
    }
}

fn ones(dims: &[usize]) -> Tensor {
    Tensor::ones(dims, DType::F32, &Device::Cpu).unwrap()
}

#[test]
fn mirrored_positions() {
    assert_eq!(reflect_indices(4, 2), vec![2, 1, 0, 1, 2, 3, 2, 1]);
    let x = of(&[1.0, 2.0, 3.0, 4.0], &[1, 1, 2, 2]);
    let y = reflect_pad_2d(&x, 1, 1).unwrap();
    assert_eq!(y.dims(), vec![1, 1, 4, 4]);
    assert_eq!(&floats(&y)[0..4], &[4.0, 3.0, 4.0, 3.0]);
    assert!(matches!(reflect_pad_2d(&x, 2, 1), Err(Failure::ReflectPadding { pad: 2, size: 2 })));
    assert_eq!(SpatialPaddingMode::parse("zeros").unwrap(), SpatialPaddingMode::Zeros);
    assert_eq!(SpatialPaddingMode::parse("reflect").unwrap(), SpatialPaddingMode::Reflect);
    assert!(matches!(SpatialPaddingMode::parse("wrap"), Err(Failure::Unknown { .. })));
}

#[test]
fn convolution_over_time_and_space_sums_its_window() {
    let mut t: HashMap<String, Tensor> = HashMap::new();
    t.insert("weight".to_string(), ones(&[1, 1, 3, 3, 3]));
    t.insert("bias".to_string(), Tensor::new(&[0.5f32], &Device::Cpu).unwrap());
    let vb = Weights::from_tensors(t, Dtype::F32, &Device::Cpu);
    let conv = Conv3d::new(1, 1, 3, (1, 1, 1), (0, 0, 0), 1, true, &vb).unwrap();
    let y = conv.forward(&array(ones(&[1, 1, 3, 4, 3]))).unwrap();
    assert_eq!(y.dims(), vec![1, 1, 1, 2, 1]);
    near(&floats(&y), &[27.5, 27.5]);
    let padded = Conv3d::new(1, 1, 3, (1, 1, 1), (1, 1, 1), 1, true, &vb).unwrap();
    let y = padded.forward(&array(ones(&[1, 1, 1, 1, 1]))).unwrap();
    near(&floats(&y), &[1.5]);
}

#[test]
fn causal_convolution_does_not_look_ahead() {
    let mut t: HashMap<String, Tensor> = HashMap::new();
    t.insert("conv.weight".to_string(), ones(&[1, 1, 3, 3, 3]));
    let vb = Weights::from_tensors(t, Dtype::F32, &Device::Cpu);
    let conv = CausalConv3d::new(1, 1, 3, (1, 1, 1), 1, false, &vb).unwrap();
    let x = of(&[1.0, 2.0, 4.0], &[1, 1, 3, 1, 1]);
    // Each frame sees itself and the two before it; the first frame stands for what was before.
    near(&floats(&conv.forward(&x, true).unwrap()), &[3.0, 4.0, 7.0]);
    // Otherwise it sees one frame on each side.
    near(&floats(&conv.forward(&x, false).unwrap()), &[4.0, 7.0, 10.0]);
}

#[test]
fn kernels_have_elements_and_square_steps() {
    let zeros = |dims: &[usize]| array(Tensor::zeros(dims, DType::F32, &Device::Cpu).unwrap());
    let empty = Conv3d {
        weight: zeros(&[1, 1, 0, 3, 3]),
        bias: None,
        stride: (1, 1, 1),
        padding: (0, 0, 0),
        spatial_padding_mode: SpatialPaddingMode::Zeros,
        groups: 1,
    };
    assert!(matches!(empty.forward(&wave(&[1, 1, 2, 3, 3])), Err(Failure::EmptyKernel)));
    let causal = CausalConv3d { conv: empty, time_kernel_size: 0 };
    assert!(matches!(causal.forward(&wave(&[1, 1, 2, 3, 3]), true), Err(Failure::EmptyKernel)));
    let (x, k) = (wave(&[1, 1, 4, 4]), wave(&[1, 1, 3, 3]));
    assert!(matches!(conv2d_manual(&x, &k, &None, (1, 2), (1, 1), 1), Err(Failure::NotSquare)));
    assert!(matches!(conv2d_manual(&x, &k, &None, (1, 1), (1, 0), 1), Err(Failure::NotSquare)));
}

#[test]
fn separated_convolution() {
    let mut t: HashMap<String, Tensor> = HashMap::new();
    t.insert("weight1".to_string(), ones(&[2, 1, 1, 3, 3]));
    t.insert("weight2".to_string(), ones(&[1, 2, 3, 1, 1]));
    let vb = Weights::from_tensors(t, Dtype::F32, &Device::Cpu);
    let conv = DualConv3d::new(1, 1, 3, (1, 1, 1), (0, 0, 0), 1, false, &vb);
    // The number of channels in between is the larger of input and output.
    assert!(conv.is_err());
    let mut t: HashMap<String, Tensor> = HashMap::new();
    t.insert("weight1".to_string(), ones(&[2, 1, 1, 3, 3]));
    t.insert("weight2".to_string(), ones(&[2, 2, 3, 1, 1]));
    let vb = Weights::from_tensors(t, Dtype::F32, &Device::Cpu);
    let conv = DualConv3d::new(1, 2, 3, (1, 1, 1), (0, 0, 0), 1, false, &vb).unwrap();
    let y = conv.forward(&array(ones(&[1, 1, 3, 3, 3]))).unwrap();
    assert_eq!(y.dims(), vec![1, 2, 1, 1, 1]);
    near(&floats(&y), &[54.0, 54.0]);
}

#[test]
fn channels_become_time_and_space() {
    let x = of(&(0..16).map(|i| i as f32).collect::<Vec<f32>>(), &[1, 8, 2, 1, 1]);
    let y = depth_to_space_3d(&x, (2, 2, 2)).unwrap();
    assert_eq!(y.dims(), vec![1, 1, 4, 2, 2]);
    let v = floats(&y);
    // Frame 0 holds channels 0 to 3 of the first frame, frame 1 channels 4 to 7.
    assert_eq!(&v[0..8], &[0.0, 2.0, 4.0, 6.0, 8.0, 10.0, 12.0, 14.0]);
    let x = of(&(0..8).map(|i| i as f32).collect::<Vec<f32>>(), &[1, 4, 1, 2]);
    let y = pixel_shuffle_2d(&x, 1, 2).unwrap();
    assert_eq!(y.dims(), vec![1, 1, 2, 4]);
    assert_eq!(floats(&y), vec![0.0, 2.0, 1.0, 3.0, 4.0, 6.0, 5.0, 7.0]);
    assert!(matches!(pixel_shuffle_2d(&x, 2, 2), Err(Failure::PixelShuffle { expected: 8, got: 4 })));
}

#[test]
fn upsampling_drops_the_first_frame_in_time() {
    let mut s = Store::new();
    s.conv3d("conv.conv", 2, 8);
    let up = DepthToSpaceUpsample::new(2, (2, 2, 2), 2, SpatialPaddingMode::Zeros, &s.weights()).unwrap();
    let y = up.forward(&wave(&[1, 2, 3, 2, 2]), false).unwrap();
    assert_eq!(y.dims(), vec![1, 1, 5, 4, 4]);
}

#[test]
fn normalisation_over_channels() {
    let x = of(&[3.0, 1.0, 4.0, 1.0], &[1, 2, 2]);
    let y = PixelNorm::new(1, 0.0f64.to_bits()).forward(&x).unwrap();
    let r = 12.5f32.sqrt();
    near(&floats(&y), &[3.0 / r, 1.0, 4.0 / r, 1.0]);
}

fn blocks() -> Vec<(String, BlockSettings)> {
    vec![
        ("compress_all".to_string(), BlockSettings { num_layers: None, multiplier: Some(2) }),
        ("res_x".to_string(), BlockSettings { num_layers: Some(1), multiplier: None }),
    ]
}

fn decoder_store(conditioned: bool) -> Store {
    let mut s = Store::new();
    s.add("per_channel_statistics.mean-of-means", &[2]);
    s.set("per_channel_statistics.std-of-means", &[1.0, 2.0], &[2]);
    s.conv3d("conv_in.conv", 2, 4);
    s.conv3d("up_blocks.0.res_blocks.0.conv1.conv", 4, 4);
    s.conv3d("up_blocks.0.res_blocks.0.conv2.conv", 4, 4);
    s.conv3d("up_blocks.1.conv.conv", 4, 16);
    s.conv3d("conv_out.conv", 2, 48);
    if conditioned {
        s.embedder("up_blocks.0.time_embedder", 16);
        s.add("up_blocks.0.res_blocks.0.scale_shift_table", &[4, 4]);
        s.embedder("last_time_embedder", 4);
        s.add("last_scale_shift_table", &[2, 2]);
        s.set("timestep_scale_multiplier", &[1000.0], &[1]);
    }
    s
}

fn decoder(conditioned: bool, causal: bool) -> VideoDecoder {
    VideoDecoder::new(
        2,
        3,
        &blocks(),
        4,
        true,
        causal,
        conditioned,
        32,
        SpatialPaddingMode::Reflect,
        &decoder_store(conditioned).weights(),
    )
    .unwrap()
}

#[test]
fn decoded_videos_have_their_size() {
    for conditioned in [false, true] {
        for causal in [false, true] {
            let d = decoder(conditioned, causal);
            let y = d.forward(&wave(&[1, 2, 2, 2, 3]), None).unwrap();
            // One doubling of everything, without the first frame, and patches of four by four.
            assert_eq!(y.dims(), vec![1, 3, 3, 16, 24]);
            assert!(floats(&y).iter().all(|x| x.is_finite()));
        }
    }
}

#[test]
fn decoding_with_the_same_noise_repeats() {
    let d = decoder(true, false);
    let x = wave(&[1, 2, 2, 2, 2]);
    let noise = of(&[0.25; 16], &[1, 2, 2, 2, 2]);
    let a = floats(&d.forward_with_noise(&x, None, &noise).unwrap());
    let b = floats(&d.forward_with_noise(&x, None, &noise).unwrap());
    assert_eq!(a, b);
    let silent = of(&[0.0; 16], &[1, 2, 2, 2, 2]);
    assert!(a != floats(&d.forward_with_noise(&x, None, &silent).unwrap()));
    let (out, trace) = d.forward_with_trace(&x, None).unwrap();
    assert_eq!(out.dims(), vec![1, 3, 3, 16, 16]);
    assert!(!trace.is_empty());
}

#[test]
fn tiles_make_as_many_frames_as_the_whole() {
    let d = decoder(false, true);
    let x = wave(&[1, 2, 5, 2, 2]);
    let whole = d.forward(&x, None).unwrap();
    let tiled = d.forward_temporal_tiled(&x, None, 3, 1).unwrap();
    assert_eq!(whole.dims(), vec![1, 3, 9, 16, 16]);
    assert_eq!(tiled.dims(), whole.dims());
    let short = d.forward_temporal_tiled(&wave(&[1, 2, 2, 2, 2]), None, 3, 1).unwrap();
    assert_eq!(short.dims(), vec![1, 3, 3, 16, 16]);
    assert!(matches!(d.forward_temporal_tiled(&x, None, 1, 1), Err(Failure::TileLength { frames: 1 })));
    assert!(matches!(d.forward_temporal_tiled(&x, None, 3, 0), Err(Failure::TileOverlap { overlap: 0 })));
    assert!(matches!(d.forward_temporal_tiled(&x, None, 3, 3), Err(Failure::TileOverlap { overlap: 3 })));
}

#[test]
fn widths_behind_blocks() {
    let two = BlockSettings { num_layers: None, multiplier: Some(2) };
    assert_eq!(DecoderBlock::out_channels("compress_all", 8, &two), 4);
    assert_eq!(DecoderBlock::out_channels("res_x", 8, &two), 8);
}

#[test]
fn a_decoder_knows_its_kinds_of_blocks() {
    let odd = vec![("fold".to_string(), BlockSettings { num_layers: None, multiplier: None })];
    let r = VideoDecoder::new(
        2,
        3,
        &odd,
        4,
        true,
        false,
        false,
        32,
        SpatialPaddingMode::Zeros,
        &decoder_store(false).weights(),
    );
    assert!(r.is_err());
}

#[test]
fn latents_of_twice_the_size() {
    let mut s = Store::new();
    s.conv3d("initial_conv", 2, 32);
    s.norm("initial_norm", 32);
    for part in ["res_blocks", "post_upsample_res_blocks"] {
        s.conv3d(&format!("{part}.0.conv1"), 32, 32);
        s.norm(&format!("{part}.0.norm1"), 32);
        s.conv3d(&format!("{part}.0.conv2"), 32, 32);
        s.norm(&format!("{part}.0.norm2"), 32);
    }
    s.add("upsampler.0.weight", &[128, 32, 3, 3]);
    s.add("upsampler.0.bias", &[128]);
    s.conv3d("final_conv", 32, 2);
    let up = LatentUpsampler::new_x2(2, 32, 1, &s.weights()).unwrap();
    let y = up.forward(&wave(&[1, 2, 2, 2, 3])).unwrap();
    assert_eq!(y.dims(), vec![1, 2, 2, 4, 6]);
    assert!(floats(&y).iter().all(|x| x.is_finite()));
}

#[test]
fn a_checkpoint_holds_no_other_tensors() {
    let mut t: HashMap<String, Tensor> = HashMap::new();
    t.insert("a.weight".to_string(), Tensor::ones(&[2], DType::F32, &Device::Cpu).unwrap());
    let vb = Weights::from_tensors(t, Dtype::F32, &Device::Cpu);
    assert!(vb.get1(2, "a.weight").is_ok());
    assert!(vb.get1(3, "a.weight").is_err());
    assert!(vb.get1(2, "b.weight").is_err());
}
