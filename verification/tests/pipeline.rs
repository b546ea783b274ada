use std::collections::HashMap;

use candle_core::{DType, Device, Tensor};

use maor::array::Array;
use maor::base::config::{BlockSettings, LtxModelType, SchedulerConfig, TransformerConfig, VaeConfig};
use maor::base::patchify::VideoLatentPatchifier;
use maor::base::types::VideoLatentShape;
use maor::error::Failure;
use maor::model::Dtype;
use maor::pipeline::checkpoint::{find_safetensors, header_length, select_gemma_root, text_weights, transformer_weights};
use maor::pipeline::denoise::{
    add_noise_at_sigma, check_run, denoise_step, predict_denoised, run_denoise_loop, Guidance, Scene,
};
use maor::pipeline::options::{
    check_configs, decodes_in_tiles, merges_lora, negative_prompt, GenerationMode, Options, Refusal, SamplerKind,
    StgMode, Unsupported,
};
use maor::pipeline::output::{sidecar_path, tensor_to_rgb_frames, wav_samples};
use maor::pipeline::stages::{make_video_positions, renoise, video_positions_in_seconds};
use maor::scheduler::diffusion_step::Res2sWeights;
use maor::text_encoder::encoder::AVGemmaEncoderOutput;
use maor::transformer::ltx::LTXModel;
use maor::weights::Weights;

/// Tensors under their names, with small values that differ from each other.
struct Store {
    tensors: HashMap<String, Tensor>,
    next: u32,
}

impl Store {
    fn new() -> Store {
        Store { tensors: HashMap::new(), next: 1 }
    }

    fn add(&mut self, name: &str, dims: &[usize]) {
        let n: usize = dims.iter().product();
        let mut values: Vec<f32> = Vec::new();
        for _ in 0..n {
            self.next = self.next.wrapping_mul(1664525).wrapping_add(1013904223);
            values.push(((self.next >> 16) as f32 / 65536.0 - 0.5) * 0.5);
        }
        self.tensors.insert(name.to_string(), Tensor::from_vec(values, dims, &Device::Cpu).unwrap());
    }

    fn set(&mut self, name: &str, values: &[f32], dims: &[usize]) {
        self.tensors.insert(name.to_string(), Tensor::from_vec(values.to_vec(), dims, &Device::Cpu).unwrap());
    }

    fn linear(&mut self, name: &str, input: usize, output: usize) {
        self.add(&format!("{name}.weight"), &[output, input]);
        self.add(&format!("{name}.bias"), &[output]);
    }

    fn attention(&mut self, name: &str, query: usize, context: usize, inner: usize) {
        self.linear(&format!("{name}.to_q"), query, inner);
        self.linear(&format!("{name}.to_k"), context, inner);
        self.linear(&format!("{name}.to_v"), context, inner);
        self.linear(&format!("{name}.to_out.0"), inner, query);
        self.add(&format!("{name}.norm_q.weight"), &[inner]);
        self.add(&format!("{name}.norm_k.weight"), &[inner]);
    }

    fn feed_forward(&mut self, name: &str, dim: usize) {
        self.linear(&format!("{name}.net.0.proj"), dim, 4 * dim);
        self.linear(&format!("{name}.net.2"), 4 * dim, dim);
    }

    fn adaln(&mut self, name: &str, dim: usize, coefficient: usize) {
        self.linear(&format!("{name}.emb.timestep_embedder.linear_1"), 256, dim);
        self.linear(&format!("{name}.emb.timestep_embedder.linear_2"), dim, dim);
        self.linear(&format!("{name}.linear"), dim, coefficient * dim);
    }

    fn weights(&self) -> Weights {
        Weights::from_tensors(self.tensors.clone(), Dtype::F32, &Device::Cpu)
    }
}

fn array(t: Tensor) -> Array {
    Array::new(t).unwrap()
}

fn of(values: &[f32], dims: &[usize]) -> Array {
    array(Tensor::from_vec(values.to_vec(), dims, &Device::Cpu).unwrap())
}

fn wave(dims: &[usize]) -> Array {
    let n: usize = dims.iter().product();
    let data: Vec<f32> = (0..n).map(|i| (i as f32 * 0.7).sin()).collect();
    of(&data, dims)
}

fn floats(a: &Array) -> Vec<f32> {
    a.tensor().flatten_all().unwrap().to_dtype(DType::F32).unwrap().to_vec1().unwrap()
}

fn near(a: &[f32], b: &[f32]) {
    assert_eq!(a.len(), b.len());
    for (x, y) in a.iter().zip(b.iter()) {
        assert!((x - y).abs() <= 1e-5 * (1.0 + y.abs()), "{x} vs {y}");
    }
}

fn small_config() -> TransformerConfig {
    let mut cfg = TransformerConfig::default();
    cfg.num_attention_heads = 2;
    cfg.attention_head_dim = 12;
    cfg.in_channels = 4;
    cfg.out_channels = 4;
    cfg.num_layers = 2;
    cfg.cross_attention_dim = 24;
    cfg.audio_num_attention_heads = 2;
    cfg.audio_attention_head_dim = 6;
    cfg.audio_in_channels = 3;
    cfg.audio_out_channels = 3;
    cfg.audio_cross_attention_dim = 12;
    cfg
}

fn small_weights() -> Store {
    let mut s = Store::new();
    let (v, a) = (24, 12);
    s.linear("patchify_proj", 4, v);
    s.linear("audio_patchify_proj", 3, a);
    s.adaln("adaln_single", v, 9);
    s.adaln("audio_adaln_single", a, 9);
    s.adaln("prompt_adaln_single", v, 2);
    s.adaln("audio_prompt_adaln_single", a, 2);
    s.adaln("av_ca_video_scale_shift_adaln_single", v, 4);
    s.adaln("av_ca_audio_scale_shift_adaln_single", a, 4);
    s.adaln("av_ca_a2v_gate_adaln_single", v, 1);
    s.adaln("av_ca_v2a_gate_adaln_single", a, 1);
    s.add("scale_shift_table", &[2, v]);
    s.add("audio_scale_shift_table", &[2, a]);
    s.linear("proj_out", v, 4);
    s.linear("audio_proj_out", a, 3);
    for i in 0..2 {
        let b = format!("transformer_blocks.{i}");
        s.attention(&format!("{b}.attn1"), v, v, v);
        s.attention(&format!("{b}.attn2"), v, v, v);
        s.feed_forward(&format!("{b}.ff"), v);
        s.add(&format!("{b}.scale_shift_table"), &[9, v]);
        s.add(&format!("{b}.prompt_scale_shift_table"), &[2, v]);
        s.attention(&format!("{b}.audio_attn1"), a, a, a);
        s.attention(&format!("{b}.audio_attn2"), a, a, a);
        s.feed_forward(&format!("{b}.audio_ff"), a);
        s.add(&format!("{b}.audio_scale_shift_table"), &[9, a]);
        s.add(&format!("{b}.audio_prompt_scale_shift_table"), &[2, a]);
        s.attention(&format!("{b}.audio_to_video_attn"), v, a, a);
        s.attention(&format!("{b}.video_to_audio_attn"), a, v, a);
        s.add(&format!("{b}.scale_shift_table_a2v_ca_audio"), &[5, a]);
        s.add(&format!("{b}.scale_shift_table_a2v_ca_video"), &[5, v]);
    }
    s
}

fn options() -> Options {
    Options {
        mode: GenerationMode::Video,
        sampler: SamplerKind::Euler,
        width: 768,
        height: 512,
        frames: 121,
        steps: 8,
        stg_scale: 0,
        stg_block: 28,
        two_stage: true,
        has_upscaler: true,
        stage2_steps: 3,
        has_distilled_lora: true,
    }
}

#[test]
fn options_are_refused_in_order() {
    assert_eq!(options().validate(), Ok(()));
    let cases: Vec<(Refusal, Options)> = vec![
        (Refusal::Size, Options { width: 760, frames: 3, ..options() }),
        (Refusal::Size, Options { height: 500, ..options() }),
        (Refusal::Frames, Options { frames: 120, steps: 0, ..options() }),
        (Refusal::Steps, Options { steps: 0, has_upscaler: false, ..options() }),
        (Refusal::Upscaler, Options { has_upscaler: false, width: 736, ..options() }),
        (Refusal::TwoStageSize, Options { width: 736, stage2_steps: 0, ..options() }),
        (Refusal::Stage2Steps, Options { stage2_steps: 0, steps: 9, ..options() }),
        (Refusal::Stage2Steps, Options { stage2_steps: 4, ..options() }),
        (Refusal::DistilledSteps, Options { steps: 9, stage2_steps: 2, ..options() }),
        (Refusal::DistilledStage2Steps, Options { stage2_steps: 2, ..options() }),
    ];
    for (refusal, o) in cases {
        let message = refusal.message();
        assert!(!message.is_empty());
        assert_eq!(o.validate(), Err(refusal));
    }
    assert_eq!(Options { two_stage: false, has_upscaler: false, width: 736, stage2_steps: 9, ..options() }.validate(), Ok(()));
}

#[test]
fn sound_goes_with_one_sampler() {
    let o = Options { sampler: SamplerKind::Res2s, ..options() };
    assert!(!o.use_audio());
    assert_eq!(o.effective_sampler(), SamplerKind::Res2s);
    let o = Options { mode: GenerationMode::Av, ..o };
    assert!(o.use_audio());
    assert_eq!(o.effective_sampler(), SamplerKind::Euler);
}

#[test]
fn perturbed_blocks() {
    assert!(options().stg_blocks().is_empty());
    assert_eq!(Options { stg_scale: 1.0f64.to_bits(), ..options() }.stg_blocks(), vec![28]);
    assert!(Options { stg_scale: (-1.0f64).to_bits(), ..options() }.stg_blocks().is_empty());
}

#[test]
fn latents_of_both_stages() {
    let (stage, last) = options().latent_shapes();
    assert_eq!((stage.frames, stage.height, stage.width, stage.channels), (16, 8, 12, 128));
    assert_eq!((last.frames, last.height, last.width, last.channels), (16, 16, 24, 128));
    let (stage, last) = Options { two_stage: false, ..options() }.latent_shapes();
    assert_eq!((stage.height, stage.width), (last.height, last.width));
}

fn level_values(v: &Vec<Array>) -> Vec<f32> {
    v.iter().map(|s| s.tensor().to_scalar().unwrap()).collect()
}

#[test]
fn noise_levels_of_both_stages() {
    let cfg = SchedulerConfig::default();
    let one = level_values(&options().stage1_sigmas(1536, &cfg).unwrap());
    assert_eq!(one, vec![1.0, 0.99375, 0.9875, 0.98125, 0.975, 0.909375, 0.725, 0.421875, 0.0]);
    let two = level_values(&options().stage2_sigmas().unwrap());
    assert_eq!(two, vec![0.909375, 0.725, 0.421875, 0.0]);
    let start: f32 = maor::pipeline::options::stage2_start_sigma().unwrap().tensor().to_scalar().unwrap();
    assert_eq!(start, 0.909375);
    let plain = Options { has_distilled_lora: false, steps: 4, stage2_steps: 2, ..options() };
    assert_eq!(level_values(&plain.stage2_sigmas().unwrap()), vec![0.909375, 0.725, 0.421875]);
    let one = level_values(&plain.stage1_sigmas(1536, &cfg).unwrap());
    assert_eq!(one.len(), 5);
    assert_eq!(one[0], 1.0);
    assert_eq!(one[4], 0.0);
    assert!((one[3] - 0.1).abs() < 1e-6);
}

#[test]
fn prompts_for_what_is_not_wanted() {
    let (on, off) = (4.0f64.to_bits(), 1.0f64.to_bits());
    assert_eq!(negative_prompt(on, Some("x"), false, "bad"), Some("x"));
    assert_eq!(negative_prompt(on, None, false, "bad"), Some("bad"));
    assert_eq!(negative_prompt(on, None, true, "bad"), Some(""));
    assert_eq!(negative_prompt(off, None, false, "bad"), None);
}

#[test]
fn configurations_that_are_understood() {
    let mut t = TransformerConfig::default();
    let mut v = VaeConfig::default();
    v.decoder_blocks.clear();
    t.cross_attention_adaln = true;
    t.caption_proj_before_connector = false;
    assert_eq!(check_configs(&t, &v), Err(Unsupported::Transformer));
    t.caption_proj_before_connector = true;
    assert_eq!(check_configs(&t, &v), Err(Unsupported::Decoder));
    v.decoder_blocks.push(("res_x".to_string(), BlockSettings { num_layers: Some(1), multiplier: None }));
    assert_eq!(check_configs(&t, &v), Ok(()));
    assert!(merges_lora(true, 1.0f64.to_bits()));
    assert!(!merges_lora(true, 0.0f64.to_bits()));
    assert!(!merges_lora(false, 1.0f64.to_bits()));
    assert!(decodes_in_tiles(false, 9, 8));
    assert!(!decodes_in_tiles(false, 8, 8));
    assert!(!decodes_in_tiles(true, 9, 8));
}

#[test]
fn names_of_files_beside_the_video() {
    assert_eq!(sidecar_path("out/video.mp4", "audio", "wav"), "out/video.audio.wav");
    assert_eq!(sidecar_path("video.mp4", "audio", "wav"), "video.audio.wav");
    assert_eq!(sidecar_path("a.b/video", "audio", "wav"), "a.b/video.audio.wav");
    assert_eq!(sidecar_path("/x/a.b.mp4", "audio", "wav"), "/x/a.b.audio.wav");
}

#[test]
fn lengths_of_headers() {
    assert_eq!(header_length(&[8, 1, 0, 0, 0, 0, 0, 0]).unwrap(), 264);
    assert_eq!(header_length(&[0, 0, 0, 8, 0, 0, 0, 0]).unwrap(), 134217728);
    assert!(matches!(
        header_length(&[1, 0, 0, 8, 0, 0, 0, 0]),
        Err(Failure::HeaderLength { bytes: 134217729 })
    ));
    assert!(matches!(
        header_length(&[255; 8]),
        Err(Failure::HeaderLength { bytes: u64::MAX })
    ));
}

#[test]
fn shards_are_sorted() {
    let names: Vec<String> = ["b.safetensors", "a.txt", "a-2.safetensors", ".safetensors", "a-10.safetensors"]
        .iter()
        .map(|s| s.to_string())
        .collect();
    assert_eq!(find_safetensors(names).unwrap(), vec!["a-10.safetensors", "a-2.safetensors", "b.safetensors"]);
    assert!(matches!(find_safetensors(vec!["a.bin".to_string()]), Err(Failure::NoWeights)));
}

#[test]
fn roots_of_checkpoints() {
    for root in ["language_model.model.", "model.", ""] {
        let mut s = Store::new();
        s.set(&format!("{root}embed_tokens.weight"), &[2.0], &[1, 1]);
        s.set(&format!("{root}norm.weight"), &[3.0], &[1]);
        s.set("norm.weight", &[3.0], &[1]);
        let vb = select_gemma_root(s.weights()).unwrap();
        assert_eq!(floats(&vb.get_unchecked("norm.weight").unwrap()), vec![3.0]);
    }
    assert!(select_gemma_root(Store::new().weights()).is_err());
    let mut s = Store::new();
    s.set("model.diffusion_model.proj_out.bias", &[4.0], &[1]);
    assert_eq!(floats(&transformer_weights(&s.weights()).get_unchecked("proj_out.bias").unwrap()), vec![4.0]);
    let (_, video, _) = text_weights(&s.weights());
    assert!(video.get_unchecked("learnable_registers").is_err());
}

#[test]
fn videos_become_bytes() {
    let video = of(&[-1.0, 1.0, 0.0, 3.0, -5.0, 0.5], &[1, 3, 1, 1, 2]);
    let (frames, height, width) = tensor_to_rgb_frames(&video).unwrap();
    assert_eq!((height, width), (1, 2));
    assert_eq!(frames, vec![vec![0, 127, 0, 255, 255, 191]]);
    assert!(matches!(
        tensor_to_rgb_frames(&of(&[0.0], &[1, 1, 1, 1])),
        Err(Failure::Rank { expected: 5, got: 4 })
    ));
}

#[test]
fn sounds_become_samples() {
    let audio = of(&[0.0, 1.0, -1.0, 0.5, 2.0, -2.0], &[2, 3]);
    let (samples, channels) = wav_samples(&audio).unwrap();
    assert_eq!(channels, 2);
    assert_eq!(samples, vec![0, 16383, 32767, 32767, -32767, -32767]);
    assert!(matches!(wav_samples(&of(&[0.0], &[1])), Err(Failure::Rank { expected: 2, got: 1 })));
}

#[test]
fn positions_of_tokens_in_seconds() {
    let p = of(&[0.0, 24.0, 3.0, 4.0, 5.0, 6.0], &[1, 3, 1, 2]);
    let s = video_positions_in_seconds(&p, 24.0f64.to_bits()).unwrap();
    assert_eq!(floats(&s), vec![0.0, 1.0, 3.0, 4.0, 5.0, 6.0]);
    let shape = VideoLatentShape { batch: 1, channels: 4, frames: 2, height: 1, width: 1 };
    let s = make_video_positions(&VideoLatentPatchifier { patch_size: 1 }, &shape, 1.0f64.to_bits(), &Device::Cpu).unwrap();
    assert_eq!(s.dims(), vec![1, 3, 2, 2]);
    // The first frame alone, then eight frames.
    assert_eq!(&floats(&s)[0..4], &[0.0, 1.0, 1.0, 9.0]);
}

#[test]
fn noise_between_the_stages() {
    let clean = of(&[1.0, 2.0], &[2]);
    let noise = of(&[-1.0, 4.0], &[2]);
    let sigma = array(Tensor::new(0.25f32, &Device::Cpu).unwrap());
    near(&floats(&add_noise_at_sigma(&clean, &noise, &sigma).unwrap()), &[0.5, 2.5]);
    let (v, a) = renoise(&clean, &noise, Some(noise.clone()), Some(&clean), &sigma).unwrap();
    near(&floats(&v), &[0.5, 2.5]);
    near(&floats(&a.unwrap()), &[-0.5, 3.5]);
    let (_, a) = renoise(&clean, &noise, Some(noise.clone()), None, &sigma).unwrap();
    assert_eq!(floats(&a.unwrap()), floats(&noise));
}

fn context(seed: f32) -> AVGemmaEncoderOutput {
    AVGemmaEncoderOutput {
        video_encoding: wave(&[1, 5, 24]).scale((seed as f64).to_bits()).unwrap(),
        audio_encoding: wave(&[1, 5, 12]).scale((seed as f64).to_bits()).unwrap(),
        attention_mask: of(&[1.0; 5], &[1, 5]),
    }
}

fn scene() -> Scene {
    Scene {
        video_positions: wave(&[1, 3, 3, 2]),
        video_denoise_mask: of(&[1.0; 3], &[1, 3, 1]),
        audio_positions: Some(wave(&[1, 1, 2, 2])),
        audio_denoise_mask: Some(of(&[1.0; 2], &[1, 2, 1])),
        dtype: Dtype::F32,
    }
}

fn guidance(cfg: f64, stg: f64, mode: StgMode) -> Guidance {
    Guidance {
        cfg_scale: cfg.to_bits(),
        video_rescale_scale: 0.7f64.to_bits(),
        stg_scale: stg.to_bits(),
        stg_blocks: vec![1],
        stg_mode: mode,
    }
}

fn sigmas(values: &[f32]) -> Vec<Array> {
    values.iter().map(|v| array(Tensor::new(*v, &Device::Cpu).unwrap())).collect()
}

fn model() -> LTXModel {
    LTXModel::new(&small_config(), LtxModelType::AudioVideo, &small_weights().weights()).unwrap()
}

#[test]
fn guidance_costs_runs_of_the_transformer() {
    let m = model();
    let (pos, neg) = (context(1.0), context(-1.0));
    let (v, a) = (wave(&[1, 3, 4]), wave(&[1, 2, 3]));
    let sigma = &sigmas(&[0.5])[0];
    let run = |neg: Option<&AVGemmaEncoderOutput>, audio: Option<&Array>, g: &Guidance| {
        predict_denoised(&m, &pos, neg, &v, audio, &scene(), sigma, g).unwrap()
    };
    let plain = run(None, Some(&a), &guidance(1.0, 0.0, StgMode::Both));
    assert_eq!(plain.passes, 1);
    assert_eq!(floats(&plain.video), floats(&plain.video_cond));
    assert!(plain.audio.is_some() && plain.video_uncond.is_none() && plain.video_perturbed.is_none());
    let guided = run(Some(&neg), Some(&a), &guidance(3.0, 0.0, StgMode::Both));
    assert_eq!(guided.passes, 2);
    assert!(floats(&guided.video) != floats(&plain.video));
    let both = run(Some(&neg), Some(&a), &guidance(3.0, 1.0, StgMode::Video));
    assert_eq!(both.passes, 3);
    assert!(both.video_perturbed.is_some());
    let silent = run(None, None, &guidance(1.0, 1.0, StgMode::Audio));
    assert_eq!(silent.passes, 1);
    assert!(silent.audio.is_none());
}

#[test]
fn runs_are_steps_one_after_another() {
    let m = model();
    let pos = context(1.0);
    let g = guidance(1.0, 0.0, StgMode::Both);
    let levels = sigmas(&[1.0, 0.5, 0.0]);
    let (v, a) = (wave(&[1, 3, 4]), wave(&[1, 2, 3]));
    let none: Vec<Res2sWeights> = Vec::new();
    let (video, audio, passes) = run_denoise_loop(
        &m, &pos, None, v.clone(), Some(a.clone()), &scene(), &levels, &none, SamplerKind::Euler, &g,
    )
    .unwrap();
    assert_eq!(passes, vec![1, 1]);
    let first =
        denoise_step(&m, &pos, None, &v, &Some(a.clone()), &scene(), &levels, &none, 0, SamplerKind::Euler, &g).unwrap();
    let second = denoise_step(
        &m,
        &pos,
        None,
        &first.video_latent,
        &first.audio_latent,
        &scene(),
        &levels,
        &none,
        1,
        SamplerKind::Euler,
        &g,
    )
    .unwrap();
    assert_eq!(floats(&video), floats(&second.video_latent));
    assert_eq!(floats(&audio.unwrap()), floats(&second.audio_latent.unwrap()));
    // The last step ends in the prediction.
    near(&floats(&video), &floats(&second.prediction.video));
}

#[test]
fn the_sampler_of_second_order() {
    let m = model();
    let pos = context(1.0);
    let g = guidance(1.0, 0.0, StgMode::Both);
    let levels = sigmas(&[1.0, 0.5, 0.0]);
    let w = Res2sWeights { phi1_mid: 0.8f64.to_bits(), phi1: 0.7f64.to_bits(), phi2: 0.4f64.to_bits() };
    let weights = vec![w, w];
    let (video, audio, passes) = run_denoise_loop(
        &m, &pos, None, wave(&[1, 3, 4]), None, &scene(), &levels, &weights, SamplerKind::Res2s, &g,
    )
    .unwrap();
    assert_eq!(video.dims(), vec![1, 3, 4]);
    assert!(audio.is_none());
    // A step that ends without noise needs no second prediction.
    assert_eq!(passes, vec![2, 1]);
    assert!(matches!(
        run_denoise_loop(
            &m, &pos, None, wave(&[1, 3, 4]), Some(wave(&[1, 2, 3])), &scene(), &levels, &weights,
            SamplerKind::Res2s, &g,
        ),
        Err(Failure::SamplerAudio)
    ));
    assert!(matches!(
        run_denoise_loop(
            &m, &pos, None, wave(&[1, 3, 4]), None, &scene(), &sigmas(&[1.0]), &weights, SamplerKind::Euler, &g,
        ),
        Err(Failure::TooFewSigmas { got: 1 })
    ));
    assert!(check_run(2, SamplerKind::Euler, true).is_ok());
}

#[test]
fn paths_beside_a_path_are_different() {
    for path in ["video.mp4", "a/b.c/video", "video.audio.wav", "/", ".."] {
        let sound = sidecar_path(path, "audio", "wav");
        assert_ne!(sound, path);
        assert_ne!(sound, sidecar_path(path, "audio", "mp3"));
        assert_ne!(sound, sidecar_path(path, "voice", "wav"));
    }
}
