use std::collections::HashMap;

use candle_core::{DType, Device, Tensor};

use maor::array::Array;
use maor::base::config::TransformerConfig;
use maor::error::Failure;
use maor::model::Dtype;
use maor::nn::rope::LTXRopeType;
use maor::pipeline::stages::encode_prompts;
use maor::text_encoder::connector::{
    parse_rope_type, replace_padded_with_registers, to_additive_mask, Embeddings1DConnector,
};
use maor::text_encoder::encoder::AVGemmaTextEncoder;
use maor::text_encoder::feature_extractor::{
    norm_and_concat_padded_batch, norm_and_concat_per_token_rms, GemmaFeatureExtractor,
};
use maor::text_encoder::gemma3::{
    apply_split_rope, build_causal_mask, combine_masks, compute_inv_freq, gelu_pytorch_tanh, gemma_rms_norm,
    precompute_rope_tables, repeat_kv, Gemma3Config, Gemma3TextModel,
};
use maor::text_encoder::tokenizer::{trim, GemmaTokenizer};
use maor::weights::Weights;

/// Tensors under their names, with small values that differ from each other.
struct Store {
    tensors: HashMap<String, Tensor>,
    next: u32,
}

impl Store {
    fn new() -> Store {
        Store { tensors: HashMap::new(), next: 1 }
    }

    fn add(&mut self, name: &str, dims: &[usize]) {
        let n: usize = dims.iter().product();
        let mut values: Vec<f32> = Vec::new();
        for _ in 0..n {
            self.next = self.next.wrapping_mul(1664525).wrapping_add(1013904223);
            values.push(((self.next >> 16) as f32 / 65536.0 - 0.5) * 0.5);
        }
        self.tensors.insert(name.to_string(), Tensor::from_vec(values, dims, &Device::Cpu).unwrap());
    }

    fn set(&mut self, name: &str, values: &[f32], dims: &[usize]) {
        self.tensors.insert(name.to_string(), Tensor::from_vec(values.to_vec(), dims, &Device::Cpu).unwrap());
    }

    fn linear(&mut self, name: &str, input: usize, output: usize) {
        self.add(&format!("{name}.weight"), &[output, input]);
        self.add(&format!("{name}.bias"), &[output]);
    }

    fn attention(&mut self, name: &str, query: usize, context: usize, inner: usize) {
        self.linear(&format!("{name}.to_q"), query, inner);
        self.linear(&format!("{name}.to_k"), context, inner);
        self.linear(&format!("{name}.to_v"), context, inner);
        self.linear(&format!("{name}.to_out.0"), inner, query);
        self.add(&format!("{name}.norm_q.weight"), &[inner]);
        self.add(&format!("{name}.norm_k.weight"), &[inner]);
    }

    fn feed_forward(&mut self, name: &str, dim: usize) {
        self.linear(&format!("{name}.net.0.proj"), dim, 4 * dim);
        self.linear(&format!("{name}.net.2"), 4 * dim, dim);
    }

    fn connector(&mut self, dim: usize, registers: usize) {
        self.attention("transformer_1d_blocks.0.attn1", dim, dim, dim);
        self.feed_forward("transformer_1d_blocks.0.ff", dim);
        self.add("learnable_registers", &[registers, dim]);
    }

    fn gemma(&mut self, cfg: &Gemma3Config) {
        let (d, q, kv) = (
            cfg.hidden_size,
            cfg.num_attention_heads * cfg.head_dim,
            cfg.num_key_value_heads * cfg.head_dim,
        );
        self.add("embed_tokens.weight", &[cfg.vocab_size, d]);
        self.add("norm.weight", &[d]);
        for i in 0..cfg.num_hidden_layers {
            let l = format!("layers.{i}");
            self.add(&format!("{l}.self_attn.q_proj.weight"), &[q, d]);
            self.add(&format!("{l}.self_attn.k_proj.weight"), &[kv, d]);
            self.add(&format!("{l}.self_attn.v_proj.weight"), &[kv, d]);
            self.add(&format!("{l}.self_attn.o_proj.weight"), &[d, q]);
            self.add(&format!("{l}.self_attn.q_norm.weight"), &[cfg.head_dim]);
            self.add(&format!("{l}.self_attn.k_norm.weight"), &[cfg.head_dim]);
            self.add(&format!("{l}.mlp.gate_proj.weight"), &[cfg.intermediate_size, d]);
            self.add(&format!("{l}.mlp.up_proj.weight"), &[cfg.intermediate_size, d]);
            self.add(&format!("{l}.mlp.down_proj.weight"), &[d, cfg.intermediate_size]);
            for norm in [
                "input_layernorm",
                "post_attention_layernorm",
                "pre_feedforward_layernorm",
                "post_feedforward_layernorm",
            ] {
                self.add(&format!("{l}.{norm}.weight"), &[d]);
            }
        }
    }

    fn weights(&self) -> Weights {
        Weights::from_tensors(self.tensors.clone(), Dtype::F32, &Device::Cpu)
    }
}

fn array(t: Tensor) -> Array {
    Array::new(t).unwrap()
}

fn of(values: &[f32], dims: &[usize]) -> Array {
    array(Tensor::from_vec(values.to_vec(), dims, &Device::Cpu).unwrap())
}

fn wave(dims: &[usize]) -> Array {
    let n: usize = dims.iter().product();
    let data: Vec<f32> = (0..n).map(|i| (i as f32 * 0.7).sin()).collect();
    of(&data, dims)
}

fn floats(a: &Array) -> Vec<f32> {
    a.tensor().flatten_all().unwrap().to_dtype(DType::F32).unwrap().to_vec1().unwrap()
}

fn near(a: &[f32], b: &[f32]) {
    assert_eq!(a.len(), b.len());
    for (x, y) in a.iter().zip(b.iter()) {
        assert!((x - y).abs() <= 1e-5 * (1.0 + y.abs()), "{x} vs {y}");
    }
}


const DESCRIPTION: &str = r#"{
  "version": "1.0",
  "truncation": null,
  "padding": null,
  "added_tokens": [],
  "normalizer": null,
  "pre_tokenizer": { "type": "Whitespace" },
  "post_processor": null,
  "decoder": null,
  "model": {
    "type": "WordLevel",
    "vocab": { "hello": 0, "world": 1, "<pad>": 2, "<unk>": 3 },
    "unk_token": "<unk>"
  }
}"#;

const WITH_START: &str = r#"{
  "version": "1.0",
  "truncation": null,
  "padding": null,
  "added_tokens": [],
  "normalizer": null,
  "pre_tokenizer": { "type": "Whitespace" },
  "post_processor": {
    "type": "TemplateProcessing",
    "single": [
      { "SpecialToken": { "id": "<bos>", "type_id": 0 } },
      { "Sequence": { "id": "A", "type_id": 0 } }
    ],
    "pair": [
      { "Sequence": { "id": "A", "type_id": 0 } },
      { "Sequence": { "id": "B", "type_id": 1 } }
    ],
    "special_tokens": { "<bos>": { "id": "<bos>", "ids": [4], "tokens": ["<bos>"] } }
  },
  "decoder": null,
  "model": {
    "type": "WordLevel",
    "vocab": { "hello": 0, "world": 1, "<unk>": 3, "<bos>": 4, "</s>": 5 },
    "unk_token": "<unk>"
  }
}"#;

fn ids(a: &Array) -> Vec<u32> {
    a.tensor().flatten_all().unwrap().to_vec1().unwrap()
}

#[test]
fn texts_become_rows_of_tokens() {
    let t = GemmaTokenizer::from_bytes(DESCRIPTION.as_bytes(), 4).unwrap();
    assert_eq!(t.max_length(), 4);
    assert!(t.is_repeatable());
    let (tokens, mask) = t.encode("  hello world \n", &Device::Cpu).unwrap();
    assert_eq!(tokens.dims(), vec![1, 4]);
    assert_eq!(ids(&tokens), vec![2, 2, 0, 1]);
    assert_eq!(ids(&mask), vec![0, 0, 1, 1]);
    let (tokens, mask) = t.encode("world world world hello hello", &Device::Cpu).unwrap();
    assert_eq!(ids(&tokens), vec![1, 1, 1, 0]);
    assert_eq!(ids(&mask), vec![1, 1, 1, 1]);
    let (tokens, mask) = t.encode("", &Device::Cpu).unwrap();
    assert_eq!(ids(&tokens), vec![2, 2, 2, 2]);
    assert_eq!(ids(&mask), vec![0, 0, 0, 0]);
    let (tokens, _) = t.encode("goodbye", &Device::Cpu).unwrap();
    assert_eq!(ids(&tokens), vec![2, 2, 2, 3]);
}

#[test]
fn special_tokens_take_room() {
    let t = GemmaTokenizer::from_bytes(WITH_START.as_bytes(), 3).unwrap();
    let (tokens, mask) = t.encode("hello", &Device::Cpu).unwrap();
    assert_eq!(ids(&tokens), vec![5, 4, 0]);
    assert_eq!(ids(&mask), vec![0, 1, 1]);
    let (tokens, _) = t.encode("hello world hello", &Device::Cpu).unwrap();
    assert_eq!(ids(&tokens), vec![4, 0, 1]);
    assert!(matches!(
        GemmaTokenizer::from_bytes(WITH_START.as_bytes(), 0),
        Err(Failure::SpecialTokens { max_length: 0, added: 1 })
    ));
    assert!(matches!(GemmaTokenizer::from_bytes(b"{", 3), Err(Failure::Tokenizer { .. })));
}

#[test]
fn space_around_texts_does_not_count() {
    for s in ["", " ", "a", " a b\t", "\u{3000}a\u{85}\n", "\u{200b}a", "\u{2003}\u{2028}x y\u{a0}"] {
        assert_eq!(trim(s), s.trim());
    }
}

#[test]
fn frequencies_of_the_language_model() {
    let f = compute_inv_freq(8, 10000.0f64.to_bits(), 1.0f64.to_bits(), &Device::Cpu).unwrap();
    near(&floats(&f), &[1.0, 0.1, 0.01, 0.001]);
    let f = compute_inv_freq(8, 10000.0f64.to_bits(), 8.0f64.to_bits(), &Device::Cpu).unwrap();
    near(&floats(&f), &[0.125, 0.0125, 0.00125, 0.000125]);
    let (cos, sin) = precompute_rope_tables(3, &f, &Device::Cpu).unwrap();
    assert_eq!(cos.dims(), vec![3, 4]);
    assert_eq!(floats(&cos)[0], 1.0);
    assert!((floats(&sin)[8] - 0.25f32.sin()).abs() < 1e-6);
}

#[test]
fn rotation_by_a_quarter_turn() {
    let x = of(&[1.0, 2.0, 3.0, 4.0], &[1, 1, 1, 4]);
    let cos = of(&[0.0, 0.0], &[1, 2]);
    let sin = of(&[1.0, 1.0], &[1, 2]);
    near(&floats(&apply_split_rope(&x, &cos, &sin).unwrap()), &[-3.0, -4.0, 1.0, 2.0]);
}

#[test]
fn shared_keys_are_repeated() {
    let x = of(&[1.0, 2.0], &[1, 2, 1, 1]);
    let y = repeat_kv(&x, 2).unwrap();
    assert_eq!(y.dims(), vec![1, 4, 1, 1]);
    assert_eq!(floats(&y), vec![1.0, 1.0, 2.0, 2.0]);
    assert_eq!(floats(&repeat_kv(&x, 1).unwrap()), vec![1.0, 2.0]);
}

#[test]
fn masks_of_the_language_model() {
    let m = build_causal_mask(3, None, Dtype::F32, &Device::Cpu).unwrap();
    assert_eq!(m.dims(), vec![1, 1, 3, 3]);
    let n = -10000.0f32;
    assert_eq!(floats(&m), vec![0.0, n, n, 0.0, 0.0, n, 0.0, 0.0, 0.0]);
    let w = build_causal_mask(3, Some(1), Dtype::F32, &Device::Cpu).unwrap();
    assert_eq!(floats(&w), vec![0.0, n, n, 0.0, 0.0, n, n, 0.0, 0.0]);
    let c = combine_masks(&m, &of(&[0.0, 1.0, 1.0], &[1, 3]), Dtype::F32).unwrap();
    assert_eq!(floats(&c), vec![n, 2.0 * n - n, n, n, 0.0, n, n, 0.0, 0.0]);
}

#[test]
fn activation_and_norm_of_the_language_model() {
    let y = gelu_pytorch_tanh(&of(&[0.0, 1.0, -1.0, 3.0], &[4])).unwrap();
    let f = |x: f32| 0.5 * x * (1.0 + (0.7978846f32 * (x + 0.044715 * x * x * x)).tanh());
    near(&floats(&y), &[0.0, f(1.0), f(-1.0), f(3.0)]);
    let y = gemma_rms_norm(&of(&[3.0, 4.0], &[1, 1, 2]), &of(&[0.0, 1.0], &[2]), 0.0f64.to_bits()).unwrap();
    let r = 12.5f32.sqrt();
    near(&floats(&y), &[3.0 / r, 8.0 / r]);
}

fn small_gemma() -> Gemma3Config {
    let mut cfg = Gemma3Config::default();
    cfg.hidden_size = 6;
    cfg.num_hidden_layers = 2;
    cfg.num_attention_heads = 2;
    cfg.num_key_value_heads = 1;
    cfg.head_dim = 4;
    cfg.intermediate_size = 8;
    cfg.sliding_window = 2;
    cfg.sliding_window_pattern = 2;
    cfg.vocab_size = 6;
    cfg
}

fn tokens(values: &[u32]) -> Array {
    array(Tensor::from_vec(values.to_vec(), (1, values.len()), &Device::Cpu).unwrap())
}

#[test]
fn the_language_model_gives_all_hidden_states() {
    let cfg = small_gemma();
    let mut s = Store::new();
    s.gemma(&cfg);
    let m = Gemma3TextModel::new(&cfg, 8, &s.weights()).unwrap();
    let states = m.forward(&tokens(&[2, 2, 0, 1]), &tokens(&[0, 0, 1, 1])).unwrap();
    assert_eq!(states.len(), 3);
    for state in &states {
        assert_eq!(state.dims(), vec![1, 4, 6]);
        assert!(floats(state).iter().all(|x| x.is_finite()));
    }
    // The first state is the scaled embedding of each token.
    let rows = s.tensors["embed_tokens.weight"].to_vec2::<f32>().unwrap();
    let scaled: Vec<f32> = rows[2].iter().map(|x| x * 6.0f32.sqrt()).collect();
    near(&floats(&states[0])[0..6], &scaled);
    // What comes later does not change what came before.
    let other = m.forward(&tokens(&[2, 2, 0, 3]), &tokens(&[0, 0, 1, 1])).unwrap();
    near(&floats(&states[2])[12..18], &floats(&other[2])[12..18]);
    assert!(floats(&states[2])[18..] != floats(&other[2])[18..]);
    assert!(matches!(m.forward(&of(&[0.0], &[1]), &of(&[0.0], &[1])), Err(Failure::Rank { expected: 2, got: 1 })));
}

#[test]
fn features_from_hidden_states() {
    let mut s = Store::new();
    s.add("aggregate_embed.weight", &[6, 12]);
    let single = GemmaFeatureExtractor::new(6, 2, &s.weights()).unwrap();
    let states = vec![wave(&[1, 4, 6]), of(&[1.0; 24], &[1, 4, 6])];
    let mask = tokens(&[0, 0, 1, 1]);
    let (v, a) = single.forward_av(&states, &mask, "left").unwrap();
    assert_eq!(v.dims(), vec![1, 4, 6]);
    assert_eq!(floats(&v), floats(&a));
    assert_eq!(floats(&v), floats(&single.forward(&states, &mask, "left").unwrap()));

    let mut s = Store::new();
    s.linear("video_aggregate_embed", 12, 5);
    s.linear("audio_aggregate_embed", 12, 3);
    let dual = GemmaFeatureExtractor::new_dual(6, 2, 5, 3, &s.weights()).unwrap();
    let (v, a) = dual.forward_av(&states, &mask, "left").unwrap();
    assert_eq!(v.dims(), vec![1, 4, 5]);
    assert_eq!(a.dims(), vec![1, 4, 3]);
    let short = vec![wave(&[1, 4, 6])];
    assert!(matches!(
        dual.forward_av(&short, &mask, "left"),
        Err(Failure::HiddenStates { expected: 2, got: 1 })
    ));
}

#[test]
fn hidden_states_are_normalised() {
    let x = of(&[3.0, 4.0, 7.0, 7.0], &[1, 2, 2, 1]);
    let y = norm_and_concat_per_token_rms(&x, &tokens(&[1, 0])).unwrap();
    assert_eq!(y.dims(), vec![1, 2, 2]);
    let r = 12.5f32.sqrt();
    near(&floats(&y), &[3.0 / r, 4.0 / r, 0.0, 0.0]);
    // One layer with values from 1 to 5 around a mean of 3 becomes -4 to 4.
    let x = of(&[9.0, 1.0, 3.0, 5.0], &[1, 4, 1, 1]);
    let y = norm_and_concat_padded_batch(&x, &tokens(&[0, 1, 1, 1]), "left").unwrap();
    assert_eq!(y.dims(), vec![1, 4, 1]);
    let v = floats(&y);
    assert_eq!(v[0], 0.0);
    assert!((v[1] + 4.0).abs() < 1e-3 && v[2].abs() < 1e-3 && (v[3] - 4.0).abs() < 1e-3);
}

#[test]
fn registers_stand_in_for_padding() {
    let x = of(&[9.0, 9.0, 1.0, 2.0], &[1, 4, 1]);
    let mask = to_additive_mask(&tokens(&[0, 0, 1, 1]), Dtype::F32).unwrap();
    assert_eq!(mask.dims(), vec![1, 1, 1, 4]);
    assert_eq!(floats(&mask), vec![-10000.0, -10000.0, 0.0, 0.0]);
    let registers = of(&[5.0, 6.0], &[2, 1]);
    let (y, open) = replace_padded_with_registers(&x, &mask, &registers, 2).unwrap();
    assert_eq!(floats(&y), vec![1.0, 2.0, 5.0, 6.0]);
    assert_eq!(floats(&open), vec![0.0; 4]);
    assert!(matches!(
        replace_padded_with_registers(&x, &mask, &of(&[5.0, 6.0, 7.0], &[3, 1]), 3),
        Err(Failure::NotDivisible { size: 4, part: 3 })
    ));
    assert_eq!(parse_rope_type("interleaved"), LTXRopeType::Interleaved);
    assert_eq!(parse_rope_type("split"), LTXRopeType::Split);
    assert_eq!(parse_rope_type("other"), LTXRopeType::Split);
}

fn connector(dim: usize) -> Embeddings1DConnector {
    let mut s = Store::new();
    s.connector(dim, 2);
    Embeddings1DConnector::new(
        dim / 2,
        2,
        1,
        10000.0f64.to_bits(),
        vec![1],
        2,
        LTXRopeType::Split,
        false,
        false,
        "transformer_1d_blocks",
        &s.weights(),
    )
    .unwrap()
}

#[test]
fn connectors_keep_the_shape_of_features() {
    let c = connector(8);
    let (y, mask) = c.forward(&wave(&[1, 4, 8]), &tokens(&[0, 0, 1, 1])).unwrap();
    assert_eq!(y.dims(), vec![1, 4, 8]);
    assert_eq!(floats(&mask), vec![0.0; 4]);
    let trace = c.forward_trace(&wave(&[1, 4, 8]), &tokens(&[0, 0, 1, 1])).unwrap();
    assert_eq!(floats(&trace.output), floats(&y));
    assert_eq!(trace.block_outputs.len(), 1);
}

fn encoder() -> AVGemmaTextEncoder {
    let cfg = small_gemma();
    let mut g = Store::new();
    g.gemma(&cfg);
    let mut f = Store::new();
    f.linear("video_aggregate_embed", 18, 8);
    f.linear("audio_aggregate_embed", 18, 4);
    AVGemmaTextEncoder {
        gemma: Gemma3TextModel::new(&cfg, 4, &g.weights()).unwrap(),
        feature_extractor: GemmaFeatureExtractor::new_dual(6, 3, 8, 4, &f.weights()).unwrap(),
        video_connector: connector(8),
        audio_connector: connector(4),
        tokenizer: GemmaTokenizer::from_bytes(DESCRIPTION.as_bytes(), 4).unwrap(),
    }
}

#[test]
fn prompts_become_context_for_both_streams() {
    let e = encoder();
    let trace = e.forward_trace("hello world").unwrap();
    assert_eq!(ids(&trace.input_ids), vec![2, 2, 0, 1]);
    assert_eq!(trace.output.video_encoding.dims(), vec![1, 4, 8]);
    assert_eq!(trace.output.audio_encoding.dims(), vec![1, 4, 4]);
    assert_eq!(floats(&trace.output.attention_mask), vec![1.0; 4]);
    let same = e.encode_tokens(tokens(&[2, 2, 0, 1]), tokens(&[0, 0, 1, 1])).unwrap();
    assert_eq!(floats(&same.output.video_encoding), floats(&trace.output.video_encoding));
    let (wanted, unwanted) = encode_prompts(&e, "hello world", Some("world")).unwrap();
    assert_eq!(floats(&wanted.video_encoding), floats(&trace.output.video_encoding));
    assert!(floats(&unwanted.unwrap().video_encoding) != floats(&wanted.video_encoding));
    assert!(encode_prompts(&e, "hello", None).unwrap().1.is_none());
}

#[test]
fn an_encoder_needs_its_weights() {
    let empty = Store::new().weights();
    let cfg = TransformerConfig::default();
    let r = AVGemmaTextEncoder::new_with_transformer_config(DESCRIPTION.as_bytes(), &cfg, &empty, &empty, &empty, &empty);
    assert!(r.is_err());
    assert!(AVGemmaTextEncoder::new(DESCRIPTION.as_bytes(), &empty, &empty, &empty, &empty).is_err());
}

#[test]
fn small_heads_have_no_frequencies() {
    for head_dim in [0, 1] {
        let f = compute_inv_freq(head_dim, 10000.0f64.to_bits(), 1.0f64.to_bits(), &Device::Cpu).unwrap();
        assert_eq!(f.dims(), vec![0]);
        let (cos, sin) = precompute_rope_tables(3, &f, &Device::Cpu).unwrap();
        assert_eq!((cos.dims(), sin.dims()), (vec![3, 0], vec![3, 0]));
    }
}
