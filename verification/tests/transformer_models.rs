use std::collections::HashMap;

use candle_core::{DType, Device, Tensor};

use maor::array::Array;
use maor::base::config::{LtxModelType, TransformerConfig};
use maor::error::Failure;
use maor::model::Dtype;
use maor::nn::adaln::AdaLayerNormSingle;
use maor::nn::attention::{prepare_sdpa_mask, sdpa, Attention};
use maor::nn::feed_forward::FeedForward;
use maor::nn::lora::{linear, linear_no_bias, LoraConfig};
use maor::nn::rope::{precompute_freqs_cis, LTXRopeType};
use maor::nn::text_projection::PixArtAlphaTextProjection;
use maor::nn::timestep_embedding::PixArtAlphaCombinedTimestepSizeEmbeddings;
use maor::transformer::ltx::LTXModel;
use maor::transformer::modality::Modality;
use maor::weights::Weights;

/// Tensors under their names, with small values that differ from each other.
struct Store {
    tensors: HashMap<String, Tensor>,
    next: u32,
}

impl Store {
    fn new() -> Store {
        Store { tensors: HashMap::new(), next: 1 }
    }

    fn add(&mut self, name: &str, dims: &[usize]) {
        let n: usize = dims.iter().product();
        let mut values: Vec<f32> = Vec::new();
        for _ in 0..n {
            self.next = self.next.wrapping_mul(1664525).wrapping_add(1013904223);
            values.push(((self.next >> 16) as f32 / 65536.0 - 0.5) * 0.5);
        }
        self.tensors.insert(name.to_string(), Tensor::from_vec(values, dims, &Device::Cpu).unwrap());
    }

    fn set(&mut self, name: &str, values: &[f32], dims: &[usize]) {
        self.tensors.insert(name.to_string(), Tensor::from_vec(values.to_vec(), dims, &Device::Cpu).unwrap());
    }

    fn linear(&mut self, name: &str, input: usize, output: usize) {
        self.add(&format!("{name}.weight"), &[output, input]);
        self.add(&format!("{name}.bias"), &[output]);
    }

    fn attention(&mut self, name: &str, query: usize, context: usize, inner: usize) {
        self.linear(&format!("{name}.to_q"), query, inner);
        self.linear(&format!("{name}.to_k"), context, inner);
        self.linear(&format!("{name}.to_v"), context, inner);
        self.linear(&format!("{name}.to_out.0"), inner, query);
        self.add(&format!("{name}.norm_q.weight"), &[inner]);
        self.add(&format!("{name}.norm_k.weight"), &[inner]);
    }

    fn feed_forward(&mut self, name: &str, dim: usize) {
        self.linear(&format!("{name}.net.0.proj"), dim, 4 * dim);
        self.linear(&format!("{name}.net.2"), 4 * dim, dim);
    }

    fn adaln(&mut self, name: &str, dim: usize, coefficient: usize) {
        self.linear(&format!("{name}.emb.timestep_embedder.linear_1"), 256, dim);
        self.linear(&format!("{name}.emb.timestep_embedder.linear_2"), dim, dim);
        self.linear(&format!("{name}.linear"), dim, coefficient * dim);
    }

    fn weights(&self) -> Weights {
        Weights::from_tensors(self.tensors.clone(), Dtype::F32, &Device::Cpu)
    }
}

fn array(t: Tensor) -> Array {
    Array::new(t).unwrap()
}

fn of(values: &[f32], dims: &[usize]) -> Array {
    array(Tensor::from_vec(values.to_vec(), dims, &Device::Cpu).unwrap())
}

fn wave(dims: &[usize]) -> Array {
    let n: usize = dims.iter().product();
    let data: Vec<f32> = (0..n).map(|i| (i as f32 * 0.7).sin()).collect();
    of(&data, dims)
}

fn floats(a: &Array) -> Vec<f32> {
    a.tensor().flatten_all().unwrap().to_dtype(DType::F32).unwrap().to_vec1().unwrap()
}

fn near(a: &[f32], b: &[f32]) {
    assert_eq!(a.len(), b.len());
    for (x, y) in a.iter().zip(b.iter()) {
        assert!((x - y).abs() <= 1e-5 * (1.0 + y.abs()), "{x} vs {y}");
    }
}

#[test]
fn checkpoints_are_read_by_name_and_shape() {
    let mut s = Store::new();
    s.set("a", &[1.0, 2.0, 3.0, 4.0], &[2, 2]);
    let vb = s.weights();
    assert_eq!(floats(&vb.get2(2, 2, "a").unwrap()), vec![1.0, 2.0, 3.0, 4.0]);
    assert_eq!(floats(&vb.get_unchecked("a").unwrap()), vec![1.0, 2.0, 3.0, 4.0]);
    assert!(vb.get2(4, 1, "a").is_err());
    assert!(vb.get1(4, "b").is_err());
}

#[test]
fn linear_layers_and_their_adapters() {
    let mut s = Store::new();
    s.set("weight", &[1.0, 0.0, 0.0, 2.0], &[2, 2]);
    s.set("bias", &[10.0, 20.0], &[2]);
    let vb = s.weights();
    let x = of(&[1.0, 1.0], &[1, 2]);
    near(&floats(&linear(2, 2, &vb, None).unwrap().forward(&x).unwrap()), &[11.0, 22.0]);
    near(&floats(&linear_no_bias(2, 2, &vb, None).unwrap().forward(&x).unwrap()), &[1.0, 2.0]);

    let mut l = Store::new();
    l.set("lora_A.weight", &[1.0, 2.0], &[1, 2]);
    l.set("lora_B.weight", &[3.0, 4.0], &[2, 1]);
    let lora = LoraConfig::new(l.weights(), 0.5f64.to_bits());
    // weight + 0.5 * B A
    let y = linear_no_bias(2, 2, &vb, Some(&lora)).unwrap().forward(&x).unwrap();
    near(&floats(&y), &[1.0 + 0.5 * 9.0, 2.0 + 0.5 * 12.0]);

    let mut wrong = Store::new();
    wrong.set("lora_A.weight", &[1.0, 2.0, 3.0], &[1, 3]);
    wrong.set("lora_B.weight", &[3.0, 4.0], &[2, 1]);
    let wrong = LoraConfig::new(wrong.weights(), 1.0f64.to_bits());
    assert!(matches!(linear_no_bias(2, 2, &vb, Some(&wrong)), Err(Failure::LoraShape { .. })));
}

#[test]
fn attention_over_one_position_is_its_value() {
    let q = wave(&[1, 3, 4]);
    let k = wave(&[1, 1, 4]);
    let v = of(&[1.0, 2.0, 3.0, 4.0], &[1, 1, 4]);
    let out = sdpa(&q, &k, &v, 2, 2, None).unwrap();
    assert_eq!(out.dims(), vec![1, 3, 4]);
    near(&floats(&out), &[1.0, 2.0, 3.0, 4.0, 1.0, 2.0, 3.0, 4.0, 1.0, 2.0, 3.0, 4.0]);
}

#[test]
fn attention_leaves_out_what_is_masked() {
    let q = wave(&[1, 2, 4]);
    let k = wave(&[1, 2, 4]);
    let v = of(&[1.0, 2.0, 3.0, 4.0, 9.0, 9.0, 9.0, 9.0], &[1, 2, 4]);
    let mask = of(&[0.0, -10000.0], &[1, 1, 1, 2]);
    let out = sdpa(&q, &k, &v, 2, 2, Some(&mask)).unwrap();
    near(&floats(&out), &[1.0, 2.0, 3.0, 4.0, 1.0, 2.0, 3.0, 4.0]);
    let prepared = prepare_sdpa_mask(Some(&mask), Dtype::F32).unwrap().unwrap();
    assert_eq!(prepared.dims(), vec![1, 1, 1, 2]);
    assert!(prepare_sdpa_mask(None, Dtype::F32).unwrap().is_none());
}

#[test]
fn attention_layer() {
    let mut s = Store::new();
    s.attention("a", 6, 5, 8);
    s.linear("a.to_gate_logits", 6, 2);
    let mut t: HashMap<String, Tensor> = HashMap::new();
    for (k, v) in &s.tensors {
        t.insert(k.strip_prefix("a.").unwrap().to_string(), v.clone());
    }
    let vb = Weights::from_tensors(t, Dtype::F32, &Device::Cpu);
    let attn = Attention::new(6, Some(5), 2, 4, 1e-6f64.to_bits(), LTXRopeType::Split, true, &vb).unwrap();
    let out = attn.forward(&wave(&[1, 3, 6]), Some(&wave(&[1, 2, 5])), None, None, None).unwrap();
    assert_eq!(out.dims(), vec![1, 3, 6]);
    assert!(floats(&out).iter().all(|x| x.is_finite()));
    assert!(matches!(
        Attention::new(6, Some(5), usize::MAX, 4, 0, LTXRopeType::Split, true, &vb),
        Err(Failure::Overflow)
    ));
}

#[test]
fn feed_forward_and_modulation_networks() {
    let mut s = Store::new();
    s.linear("net.0.proj", 3, 12);
    s.linear("net.2", 12, 3);
    let ff = FeedForward::new(3, 3, 4, &s.weights()).unwrap();
    assert_eq!(ff.forward(&wave(&[1, 2, 3])).unwrap().dims(), vec![1, 2, 3]);

    let mut s = Store::new();
    s.linear("emb.timestep_embedder.linear_1", 256, 4);
    s.linear("emb.timestep_embedder.linear_2", 4, 4);
    s.linear("linear", 4, 24);
    let adaln = AdaLayerNormSingle::new(4, 6, &s.weights()).unwrap();
    let (m, e) = adaln.forward_with_embedded(&of(&[0.5, 1.0], &[2]), Dtype::F32).unwrap();
    assert_eq!(m.dims(), vec![2, 24]);
    assert_eq!(e.dims(), vec![2, 4]);

    let mut s = Store::new();
    s.linear("timestep_embedder.linear_1", 256, 4);
    s.linear("timestep_embedder.linear_2", 4, 4);
    let emb = PixArtAlphaCombinedTimestepSizeEmbeddings::new(4, &s.weights()).unwrap();
    assert_eq!(emb.forward(&of(&[0.25], &[1])).unwrap().dims(), vec![1, 4]);

    let mut s = Store::new();
    s.linear("linear_1", 3, 5);
    s.linear("linear_2", 5, 5);
    let p = PixArtAlphaTextProjection::new(3, 5, None, "gelu", &s.weights()).unwrap();
    assert_eq!(p.forward(&wave(&[1, 2, 3])).unwrap().dims(), vec![1, 2, 5]);
    let silu = PixArtAlphaTextProjection::new(3, 5, None, "silu", &s.weights()).unwrap();
    let x = wave(&[1, 2, 3]);
    assert!(floats(&silu.forward(&x).unwrap()) != floats(&p.forward(&x).unwrap()));
}

#[test]
fn rotations_have_a_shape_for_each_kind() {
    let grid = array(
        Tensor::from_vec(vec![0.0f32, 1.0, 2.0], &[1, 1, 3], &Device::Cpu).unwrap(),
    );
    let theta = 10000.0f64.to_bits();
    let (cos, sin) =
        precompute_freqs_cis(&grid, 8, Dtype::F32, theta, &vec![4], false, 2, LTXRopeType::Split, &Device::Cpu).unwrap();
    assert_eq!(cos.dims(), vec![1, 2, 3, 2]);
    assert_eq!(sin.dims(), vec![1, 2, 3, 2]);
    let (cos, _) =
        precompute_freqs_cis(&grid, 8, Dtype::F32, theta, &vec![4], false, 2, LTXRopeType::Interleaved, &Device::Cpu)
            .unwrap();
    assert_eq!(cos.dims(), vec![1, 3, 8]);
    assert!(matches!(
        precompute_freqs_cis(&grid, 1, Dtype::F32, theta, &vec![4], false, 2, LTXRopeType::Split, &Device::Cpu),
        Err(Failure::RopeDim { dim: 1, ndim: 1 })
    ));
    assert!(matches!(
        precompute_freqs_cis(&grid, 6, Dtype::F32, theta, &vec![4], false, 2, LTXRopeType::Split, &Device::Cpu),
        Err(Failure::RopeHeads { half: 3, heads: 2 })
    ));
}

fn small_config() -> TransformerConfig {
    let mut cfg = TransformerConfig::default();
    cfg.num_attention_heads = 2;
    cfg.attention_head_dim = 12;
    cfg.in_channels = 4;
    cfg.out_channels = 4;
    cfg.num_layers = 2;
    cfg.cross_attention_dim = 24;
    cfg.audio_num_attention_heads = 2;
    cfg.audio_attention_head_dim = 6;
    cfg.audio_in_channels = 3;
    cfg.audio_out_channels = 3;
    cfg.audio_cross_attention_dim = 12;
    cfg
}

fn small_weights() -> Store {
    let mut s = Store::new();
    let (v, a) = (24, 12);
    s.linear("patchify_proj", 4, v);
    s.linear("audio_patchify_proj", 3, a);
    s.adaln("adaln_single", v, 9);
    s.adaln("audio_adaln_single", a, 9);
    s.adaln("prompt_adaln_single", v, 2);
    s.adaln("audio_prompt_adaln_single", a, 2);
    s.adaln("av_ca_video_scale_shift_adaln_single", v, 4);
    s.adaln("av_ca_audio_scale_shift_adaln_single", a, 4);
    s.adaln("av_ca_a2v_gate_adaln_single", v, 1);
    s.adaln("av_ca_v2a_gate_adaln_single", a, 1);
    s.add("scale_shift_table", &[2, v]);
    s.add("audio_scale_shift_table", &[2, a]);
    s.linear("proj_out", v, 4);
    s.linear("audio_proj_out", a, 3);
    for i in 0..2 {
        let b = format!("transformer_blocks.{i}");
        s.attention(&format!("{b}.attn1"), v, v, v);
        s.attention(&format!("{b}.attn2"), v, v, v);
        s.feed_forward(&format!("{b}.ff"), v);
        s.add(&format!("{b}.scale_shift_table"), &[9, v]);
        s.add(&format!("{b}.prompt_scale_shift_table"), &[2, v]);
        s.attention(&format!("{b}.audio_attn1"), a, a, a);
        s.attention(&format!("{b}.audio_attn2"), a, a, a);
        s.feed_forward(&format!("{b}.audio_ff"), a);
        s.add(&format!("{b}.audio_scale_shift_table"), &[9, a]);
        s.add(&format!("{b}.audio_prompt_scale_shift_table"), &[2, a]);
        s.attention(&format!("{b}.audio_to_video_attn"), v, a, a);
        s.attention(&format!("{b}.video_to_audio_attn"), a, v, a);
        s.add(&format!("{b}.scale_shift_table_a2v_ca_audio"), &[5, a]);
        s.add(&format!("{b}.scale_shift_table_a2v_ca_video"), &[5, v]);
    }
    s
}

fn video_modality() -> Modality {
    Modality {
        latent: wave(&[1, 3, 4]),
        timesteps: of(&[0.5, 0.5, 0.5], &[1, 3]),
        positions: wave(&[1, 3, 3, 2]),
        context: wave(&[1, 5, 24]),
        enabled: true,
        context_mask: Some(of(&[1.0; 5], &[1, 5])),
        sigma: Some(of(&[0.5], &[1])),
    }
}

fn audio_modality() -> Modality {
    Modality {
        latent: wave(&[1, 2, 3]),
        timesteps: of(&[0.5, 0.5], &[1, 2]),
        positions: wave(&[1, 1, 2, 2]),
        context: wave(&[1, 5, 12]),
        enabled: true,
        context_mask: Some(of(&[1.0; 5], &[1, 5])),
        sigma: Some(of(&[0.5], &[1])),
    }
}

#[test]
fn both_streams_of_the_transformer() {
    let model = LTXModel::new(&small_config(), LtxModelType::AudioVideo, &small_weights().weights()).unwrap();
    let (v, a) = (video_modality(), audio_modality());
    let (vx, ax) = model.forward(Some(&v), Some(&a)).unwrap();
    let (vx, ax) = (vx.unwrap(), ax.unwrap());
    assert_eq!(vx.dims(), vec![1, 3, 4]);
    assert_eq!(ax.dims(), vec![1, 2, 3]);
    assert!(floats(&vx).iter().chain(floats(&ax).iter()).all(|x| x.is_finite()));

    // Each stream hears the other.
    let (alone, none) = model.forward(Some(&v), None).unwrap();
    assert!(none.is_none());
    assert!(floats(&alone.unwrap()) != floats(&vx));
}

#[test]
fn blocks_that_are_not_there_cannot_be_left_out() {
    let model = LTXModel::new(&small_config(), LtxModelType::AudioVideo, &small_weights().weights()).unwrap();
    let (v, a) = (video_modality(), audio_modality());
    let (plain, _) = model.forward(Some(&v), Some(&a)).unwrap();
    let (beyond, _) = model.forward_perturbed(Some(&v), Some(&a), &vec![7], &vec![9]).unwrap();
    let (without, _) = model.forward_perturbed(Some(&v), Some(&a), &vec![1], &vec![]).unwrap();
    let plain = floats(&plain.unwrap());
    assert_eq!(plain, floats(&beyond.unwrap()));
    assert!(plain != floats(&without.unwrap()));
}

#[test]
fn a_transformer_for_video_alone() {
    let model = LTXModel::new(&small_config(), LtxModelType::VideoOnly, &small_weights().weights()).unwrap();
    let (v, a) = model.forward(Some(&video_modality()), Some(&audio_modality())).unwrap();
    assert_eq!(v.unwrap().dims(), vec![1, 3, 4]);
    assert!(a.is_none());
}

#[test]
fn a_transformer_needs_its_weights() {
    let mut s = small_weights();
    s.tensors.remove("transformer_blocks.1.attn1.to_q.weight");
    assert!(LTXModel::new(&small_config(), LtxModelType::AudioVideo, &s.weights()).is_err());
}

#[test]
fn an_adapter_changes_the_transformer() {
    let mut l = Store::new();
    l.add("transformer_blocks.0.attn1.to_q.lora_A.weight", &[2, 24]);
    l.add("transformer_blocks.0.attn1.to_q.lora_B.weight", &[24, 2]);
    let lora = LoraConfig::new(l.weights(), 1.0f64.to_bits());
    let none = LoraConfig::new(Store::new().weights(), 1.0f64.to_bits());
    let s = small_weights();
    let run = |lora: Option<&LoraConfig>| -> Vec<f32> {
        let m = LTXModel::new_with_lora(&small_config(), LtxModelType::AudioVideo, &s.weights(), lora).unwrap();
        floats(&m.forward(Some(&video_modality()), Some(&audio_modality())).unwrap().0.unwrap())
    };
    assert_eq!(run(None), run(Some(&none)));
    assert!(run(None) != run(Some(&lora)));
}
