use candle_core::{DType, Device, Tensor};

use maor::array::Array;
use maor::base::config::{
    default_attention_type, default_audio_pos_max, default_connector_pos_max, default_float64, default_pixel_norm,
    default_pos_max, default_reflect, default_rope_type, GuiderConfig, LtxModelType, RopeType, SchedulerConfig,
    TransformerConfig, VaeConfig, BASE_SHIFT, MAX_SHIFT, NORM_EPS, TEN_THOUSAND, TERMINAL,
};
use maor::base::ops::{missing_err, rms_norm, shape_err, to_denoised, to_velocity};
use maor::base::patchify::{get_pixel_coords, AudioPatchifier, VideoLatentPatchifier};
use maor::base::statistics::PerChannelStatistics;
use maor::base::types::{
    video_scale_factors, AudioLatentShape, SpatioTemporalScaleFactors, VideoLatentShape,
};
use maor::error::Failure;
use maor::scalar::{exceeds, is_zero, to_count, HALF, INFINITY, MINUS_ONE, MINUS_ZERO, ONE, PI, TWO, ZERO};

fn array(t: Tensor) -> Array {
    Array::new(t).unwrap()
}

fn floats(a: &Array) -> Vec<f32> {
    a.tensor().flatten_all().unwrap().to_dtype(DType::F32).unwrap().to_vec1().unwrap()
}

fn counting(dims: &[usize]) -> Array {
    let n: usize = dims.iter().product();
    let data: Vec<f32> = (0..n).map(|i| i as f32).collect();
    array(Tensor::from_vec(data, dims, &Device::Cpu).unwrap())
}

#[test]
fn test_default_transformer_config() {
    let cfg = TransformerConfig::default();
    assert_eq!(cfg.video_inner_dim(), 4096);
    assert_eq!(cfg.audio_inner_dim(), 2048);
    assert_eq!(cfg.num_layers, 48);
    assert!(cfg.double_precision_rope());
}

#[test]
fn test_model_type() {
    assert!(LtxModelType::AudioVideo.is_video_enabled());
    assert!(LtxModelType::AudioVideo.is_audio_enabled());
    assert!(LtxModelType::VideoOnly.is_video_enabled());
    assert!(!LtxModelType::VideoOnly.is_audio_enabled());
}

#[test]
fn audio_only_has_no_video() {
    assert!(!LtxModelType::AudioOnly.is_video_enabled());
    assert!(LtxModelType::AudioOnly.is_audio_enabled());
}

#[test]
fn test_rms_norm_no_weight() {
    let x = array(Tensor::new(&[[1.0f32, 2.0, 3.0], [4.0, 5.0, 6.0]], &Device::Cpu).unwrap());
    let out = rms_norm(&x, None, 1e-6f64.to_bits()).unwrap();
    let vals = floats(&out);
    assert!((vals[0] - 0.4629).abs() < 0.001);
    assert!((vals[1] - 0.9258).abs() < 0.001);
    assert!((vals[2] - 1.3887).abs() < 0.001);
}

#[test]
fn rms_norm_multiplies_by_its_weight() {
    let x = array(Tensor::new(&[[3.0f32, 4.0]], &Device::Cpu).unwrap());
    let w = array(Tensor::new(&[2.0f32, -1.0], &Device::Cpu).unwrap());
    let plain = floats(&rms_norm(&x, None, ZERO).unwrap());
    let weighted = floats(&rms_norm(&x, Some(&w), ZERO).unwrap());
    assert!((weighted[0] - 2.0 * plain[0]).abs() < 1e-6);
    assert!((weighted[1] + plain[1]).abs() < 1e-6);
    let scalar = array(Tensor::new(1.0f32, &Device::Cpu).unwrap());
    assert!(matches!(rms_norm(&scalar, None, ZERO), Err(Failure::Shape)));
}

#[test]
fn test_velocity_denoised_roundtrip() {
    let dev = &Device::Cpu;
    let sample = array(Tensor::new(&[1.0f32, 2.0, 3.0], dev).unwrap());
    let denoised = array(Tensor::new(&[0.5f32, 1.5, 2.5], dev).unwrap());
    let sigma = array(Tensor::new(&[0.8f32], dev).unwrap());

    let vel = to_velocity(&sample, &sigma, &denoised).unwrap();
    let recovered = to_denoised(&sample, &vel, &sigma).unwrap();

    let recovered_vals = floats(&recovered);
    let denoised_vals = floats(&denoised);
    for (a, b) in recovered_vals.iter().zip(denoised_vals.iter()) {
        assert!((a - b).abs() < 1e-5, "roundtrip failed: {a} vs {b}");
    }
}

#[test]
fn test_patchify_unpatchify_roundtrip() {
    let shape = VideoLatentShape { batch: 1, channels: 4, frames: 2, height: 4, width: 4 };
    let patchifier = VideoLatentPatchifier::new(2);
    let input = counting(&shape.to_vec());

    let tokens = patchifier.patchify(&input).unwrap();
    assert_eq!(tokens.dims(), vec![1, 8, 16]);

    let recovered = patchifier.unpatchify(&tokens, &shape).unwrap();
    assert_eq!(recovered.dims(), shape.to_vec());

    let orig = floats(&input);
    let rec = floats(&recovered);
    for (a, b) in orig.iter().zip(rec.iter()) {
        assert!((a - b).abs() < 1e-6, "mismatch: {a} vs {b}");
    }
}

#[test]
fn patches_hold_channels_rows_and_columns() {
    let patchifier = VideoLatentPatchifier::new(2);
    let tokens = patchifier.patchify(&counting(&[1, 2, 1, 2, 4])).unwrap();
    assert_eq!(tokens.dims(), vec![1, 2, 8]);
    assert_eq!(
        floats(&tokens),
        vec![0.0, 1.0, 4.0, 5.0, 8.0, 9.0, 12.0, 13.0, 2.0, 3.0, 6.0, 7.0, 10.0, 11.0, 14.0, 15.0]
    );
}

#[test]
fn patches_must_fit() {
    let patchifier = VideoLatentPatchifier::new(2);
    assert!(matches!(
        patchifier.patchify(&counting(&[1, 1, 1, 3, 4])),
        Err(Failure::NotDivisible { size: 3, part: 2 })
    ));
    assert!(matches!(
        patchifier.patchify(&counting(&[1, 1, 1, 4, 5])),
        Err(Failure::NotDivisible { size: 5, part: 2 })
    ));
    assert!(matches!(
        patchifier.patchify(&counting(&[1, 1, 4, 4])),
        Err(Failure::Rank { expected: 5, got: 4 })
    ));
}

#[test]
fn test_token_count() {
    let patchifier = VideoLatentPatchifier::new(2);
    let shape = VideoLatentShape { batch: 1, channels: 128, frames: 5, height: 16, width: 16 };
    assert_eq!(patchifier.get_token_count(&shape), 320);
}

#[test]
fn test_audio_patchify_roundtrip() {
    let shape = AudioLatentShape { batch: 1, channels: 8, frames: 10, mel_bins: 16 };
    let patchifier = AudioPatchifier::new(1);
    let input = counting(&shape.to_vec());

    let tokens = patchifier.patchify(&input).unwrap();
    assert_eq!(tokens.dims(), vec![1, 10, 128]);

    let recovered = patchifier.unpatchify(&tokens, &shape).unwrap();
    assert_eq!(recovered.dims(), shape.to_vec());

    let orig = floats(&input);
    let rec = floats(&recovered);
    for (a, b) in orig.iter().zip(rec.iter()) {
        assert!((a - b).abs() < 1e-6);
    }
    assert_eq!(patchifier.get_token_count(&shape), 10);
}

#[test]
fn test_audio_latent_time() {
    let p = AudioPatchifier::new(1);
    let time = |i: usize| -> f64 {
        p.latent_time_in_secs(i).unwrap().tensor().to_dtype(DType::F64).unwrap().to_scalar().unwrap()
    };
    assert!((time(0) - 0.0).abs() < 1e-6);
    assert!((time(1) - 0.01).abs() < 1e-6);
}

#[test]
fn audio_bounds_touch() {
    let p = AudioPatchifier::new(1);
    let shape = AudioLatentShape { batch: 1, channels: 8, frames: 3, mel_bins: 16 };
    let bounds = p.get_patch_grid_bounds(&shape, &Device::Cpu).unwrap();
    assert_eq!(bounds.dims(), vec![1, 1, 3, 2]);
    let v = floats(&bounds);
    let expected = [0.0, 0.01, 0.01, 0.05, 0.05, 0.09];
    for (a, b) in v.iter().zip(expected.iter()) {
        assert!((a - b).abs() < 1e-6, "{a} vs {b}");
    }
}

#[test]
fn video_bounds_and_pixel_coordinates() {
    let p = VideoLatentPatchifier::new(1);
    let shape = VideoLatentShape { batch: 1, channels: 128, frames: 2, height: 1, width: 2 };
    let bounds = p.get_patch_grid_bounds(&shape, &Device::Cpu).unwrap();
    assert_eq!(bounds.dims(), vec![1, 3, 4, 2]);
    let v = floats(&bounds);
    assert_eq!(&v[0..8], &[0.0, 1.0, 0.0, 1.0, 1.0, 2.0, 1.0, 2.0]);
    assert_eq!(&v[16..24], &[0.0, 1.0, 1.0, 2.0, 0.0, 1.0, 1.0, 2.0]);
    let factors = SpatioTemporalScaleFactors::default();
    let plain = floats(&get_pixel_coords(&bounds, &factors, false).unwrap());
    assert_eq!(&plain[0..8], &[0.0, 8.0, 0.0, 8.0, 8.0, 16.0, 8.0, 16.0]);
    let causal = floats(&get_pixel_coords(&bounds, &factors, true).unwrap());
    assert_eq!(&causal[0..8], &[0.0, 1.0, 0.0, 1.0, 1.0, 9.0, 1.0, 9.0]);
    assert_eq!(&causal[16..24], &[0.0, 32.0, 32.0, 64.0, 0.0, 32.0, 32.0, 64.0]);
}

#[test]
fn test_normalize_denormalize_roundtrip() {
    let dev = &Device::Cpu;
    let mean = array(Tensor::new(&[1.0f32, 2.0], dev).unwrap());
    let std = array(Tensor::new(&[0.5f32, 0.25], dev).unwrap());
    let stats = PerChannelStatistics::new_video(&mean, &std).unwrap();

    let x = array(Tensor::from_vec(vec![3.0f32, 4.0], &[1, 2, 1, 1, 1], dev).unwrap());

    let normed = stats.normalize(&x).unwrap();
    let recovered = stats.denormalize(&normed).unwrap();

    let orig = floats(&x);
    let rec = floats(&recovered);
    for (a, b) in orig.iter().zip(rec.iter()) {
        assert!((a - b).abs() < 1e-5, "roundtrip failed: {a} vs {b}");
    }

    let normed_vals = floats(&normed);
    assert!((normed_vals[0] - 4.0).abs() < 1e-5);
    assert!((normed_vals[1] - 8.0).abs() < 1e-5);
}

#[test]
fn statistics_need_as_many_means_as_deviations() {
    let dev = &Device::Cpu;
    let mean = array(Tensor::new(&[1.0f32, 2.0], dev).unwrap());
    let std = array(Tensor::new(&[0.5f32], dev).unwrap());
    assert!(matches!(
        PerChannelStatistics::new_audio(&mean, &std),
        Err(Failure::ChannelCount { mean: 2, std: 1 })
    ));
}

#[test]
fn test_video_latent_from_pixel_shape() {
    let shape = VideoLatentShape::from_pixel_shape(1, 33, 512, 768, 128, &video_scale_factors());
    assert_eq!(shape.batch, 1);
    assert_eq!(shape.channels, 128);
    assert_eq!(shape.frames, 5);
    assert_eq!(shape.height, 16);
    assert_eq!(shape.width, 24);
}

#[test]
fn test_video_latent_upscale_roundtrip() {
    let shape = VideoLatentShape { batch: 1, channels: 128, frames: 5, height: 16, width: 16 };
    let (f, h, w) = shape.upscale(&video_scale_factors());
    assert_eq!(f, 33);
    assert_eq!(h, 512);
    assert_eq!(w, 512);
}

#[test]
fn scaling_down_and_up_agree() {
    let factors = video_scale_factors();
    for frames in [1usize, 9, 121] {
        for size in [32usize, 544, 960] {
            let shape = VideoLatentShape::from_pixel_shape(1, frames, size, 2 * size, 128, &factors);
            assert_eq!(shape.upscale(&factors), (frames, size, 2 * size));
        }
    }
}

#[test]
fn test_audio_latent_mask_shape() {
    let shape = AudioLatentShape { batch: 2, channels: 8, frames: 10, mel_bins: 16 };
    let mask = shape.mask_shape();
    assert_eq!(mask.channels, 1);
    assert_eq!(mask.mel_bins, 1);
    assert_eq!(mask.batch, 2);
    assert_eq!(mask.frames, 10);
}

#[test]
fn shapes_of_video_latents() {
    let shape = VideoLatentShape::from_dims(&vec![2, 128, 5, 16, 24]).unwrap();
    assert_eq!(shape.to_vec(), vec![2, 128, 5, 16, 24]);
    assert_eq!(shape.mask_shape().to_vec(), vec![2, 1, 5, 16, 24]);
    assert_eq!(shape.spatial_temporal_numel(), 1920);
    assert!(matches!(VideoLatentShape::from_dims(&vec![1, 2, 3]), Err(Failure::Rank { expected: 5, got: 3 })));
    assert!(matches!(AudioLatentShape::from_dims(&vec![1, 2, 3]), Err(Failure::Rank { expected: 4, got: 3 })));
    assert_eq!(AudioLatentShape::from_dims(&vec![1, 8, 3, 16]).unwrap().to_vec(), vec![1, 8, 3, 16]);
}

#[test]
fn audio_shape_from_time() {
    let s = AudioLatentShape::from_duration(1, 5.0f64.to_bits(), 8, 16, 16000, 160, 4).unwrap();
    assert_eq!(s, AudioLatentShape { batch: 1, channels: 8, frames: 125, mel_bins: 16 });
    let v = AudioLatentShape::from_video_frames(1, 121, 24.0f64.to_bits(), 8, 16, 16000, 160, 4).unwrap();
    assert_eq!(v.frames, ((121.0f64 / 24.0 * 16000.0) as usize) / 160 / 4);
    let none = AudioLatentShape::from_duration(1, (-1.0f64).to_bits(), 8, 16, 16000, 160, 4).unwrap();
    assert_eq!(none.frames, 0);
    let nan = AudioLatentShape::from_duration(1, f64::NAN.to_bits(), 8, 16, 16000, 160, 4).unwrap();
    assert_eq!(nan.frames, 0);
    let most = AudioLatentShape::from_duration(1, 1e300f64.to_bits(), 8, 16, 16000, 160, 4).unwrap();
    assert_eq!(most.frames, usize::MAX / 160 / 4);
    let exact = AudioLatentShape::from_samples(2, 1279.9f64.to_bits(), 8, 16, 160, 4);
    assert_eq!(exact, AudioLatentShape { batch: 2, channels: 8, frames: 1, mel_bins: 16 });
    let long = AudioLatentShape::from_duration(1, 1e15f64.to_bits(), 8, 16, 16000, 160, 4).unwrap();
    assert_eq!(long.frames, ((1e15f64 * 16000.0) as usize) / 160 / 4);
}

#[test]
fn whole_parts_of_numbers() {
    for x in [0.0, -0.0, 0.99, 1.0, -7.5, 2.5, 1e10, 9.3e18, 1.7e19, 1.9e19, f64::INFINITY, f64::NEG_INFINITY, f64::NAN, 5e-324] {
        assert_eq!(to_count(x.to_bits()), x as usize, "{x}");
    }
}

#[test]
fn tokens_lie_side_by_side_in_pixels() {
    let p = VideoLatentPatchifier::new(2);
    let shape = VideoLatentShape { batch: 2, channels: 8, frames: 3, height: 4, width: 6 };
    let bounds = p.get_patch_grid_bounds(&shape, &Device::Cpu).unwrap();
    let (h, w, tokens) = (2, 3, 18);
    for causal in [false, true] {
        let t = floats(&get_pixel_coords(&bounds, &SpatioTemporalScaleFactors::default(), causal).unwrap());
        let at = |b: usize, d: usize, n: usize, k: usize| t[((b * 3 + d) * tokens + n) * 2 + k];
        for b in 0..2 {
            for n in 0..tokens {
                if n + h * w < tokens {
                    assert_eq!(at(b, 0, n, 1), at(b, 0, n + h * w, 0));
                }
                if n / w % h + 1 < h {
                    assert_eq!(at(b, 1, n, 1), at(b, 1, n + w, 0));
                }
                if n % w + 1 < w {
                    assert_eq!(at(b, 2, n, 1), at(b, 2, n + 1, 0));
                }
            }
        }
    }
}

#[test]
fn empty_latents_are_cut_into_patches() {
    let patchifier = VideoLatentPatchifier::new(2);
    let none = array(Tensor::zeros((1, 3, 0, 4, 6), DType::F32, &Device::Cpu).unwrap());
    let tokens = patchifier.patchify(&none).unwrap();
    assert_eq!(tokens.dims(), vec![1, 0, 12]);
    let shape = VideoLatentShape { batch: 1, channels: 3, frames: 0, height: 4, width: 6 };
    assert_eq!(patchifier.unpatchify(&tokens, &shape).unwrap().dims(), vec![1, 3, 0, 4, 6]);
    let audio = AudioPatchifier::new(1);
    let silent = array(Tensor::zeros((1, 8, 0, 16), DType::F32, &Device::Cpu).unwrap());
    let tokens = audio.patchify(&silent).unwrap();
    assert_eq!(tokens.dims(), vec![1, 0, 128]);
    let shape = AudioLatentShape { batch: 1, channels: 8, frames: 0, mel_bins: 16 };
    assert_eq!(audio.unpatchify(&tokens, &shape).unwrap().dims(), vec![1, 8, 0, 16]);
}

#[test]
fn defaults_of_configurations() {
    assert_eq!(default_attention_type(), "default");
    assert_eq!(default_rope_type(), "split");
    assert_eq!(default_float64(), Some("float64".to_string()));
    assert_eq!(default_pos_max(), vec![20, 2048, 2048]);
    assert_eq!(default_audio_pos_max(), vec![20]);
    assert_eq!(default_connector_pos_max(), vec![4096]);
    assert_eq!(default_reflect(), "reflect");
    assert_eq!(default_pixel_norm(), "pixel_norm");
    let vae = VaeConfig::default();
    assert_eq!((vae.latent_channels, vae.out_channels, vae.patch_size), (128, 3, 4));
    assert!(vae.timestep_conditioning && !vae.causal_decoder && vae.decoder_blocks.is_empty());
    let s = SchedulerConfig::default();
    assert_eq!((s.max_shift, s.base_shift, s.terminal), (2.05f64.to_bits(), 0.95f64.to_bits(), 0.1f64.to_bits()));
    assert!(s.stretch);
    let g = GuiderConfig::default();
    assert_eq!((g.cfg_scale, g.stg_scale, g.skip_step), (ONE, ZERO, 0));
    assert_eq!(RopeType::parse("split"), RopeType::Split);
    assert_eq!(RopeType::parse("anything"), RopeType::Interleaved);
}

#[test]
fn numbers_have_their_bit_patterns() {
    assert_eq!(ZERO, 0.0f64.to_bits());
    assert_eq!(ONE, 1.0f64.to_bits());
    assert_eq!(TWO, 2.0f64.to_bits());
    assert_eq!(MINUS_ONE, (-1.0f64).to_bits());
    assert_eq!(HALF, 0.5f64.to_bits());
    assert_eq!(PI, std::f64::consts::PI.to_bits());
    assert_eq!(INFINITY, f64::INFINITY.to_bits());
    assert_eq!(MINUS_ZERO, (-0.0f64).to_bits());
    assert_eq!(NORM_EPS, 1e-6f64.to_bits());
    assert_eq!(TEN_THOUSAND, 10000.0f64.to_bits());
    assert_eq!(MAX_SHIFT, 2.05f64.to_bits());
    assert_eq!(BASE_SHIFT, 0.95f64.to_bits());
    assert_eq!(TERMINAL, 0.1f64.to_bits());
    assert!(is_zero(ZERO) && is_zero(MINUS_ZERO) && !is_zero(ONE));
}

#[test]
fn numbers_compare_as_binary64_do() {
    let values = [f64::NEG_INFINITY, -2.5, -1.0, -1e-300, -0.0, 0.0, 5e-324, 0.5, 1.0, 3.0, f64::INFINITY, f64::NAN];
    for a in values {
        for b in values {
            assert_eq!(exceeds(a.to_bits(), b.to_bits()), a > b, "{a} {b}");
        }
    }
}

#[test]
fn failures_carry_their_words() {
    assert!(matches!(shape_err("a", "b"), Failure::Mismatch { expected, got } if expected == "a" && got == "b"));
    assert!(matches!(missing_err("vocoder"), Failure::Missing { what } if what == "vocoder"));
}
