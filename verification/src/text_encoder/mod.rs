//! From a prompt to the context of the transformer.
pub mod connector;
pub mod encoder;
pub mod feature_extractor;
pub mod gemma3;
pub mod tokenizer;
