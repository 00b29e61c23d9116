//! Verified core of a CUDA inference stack: model-file parsers (ONNX, safetensors,
//! model configuration JSON), tokenizers, and profiling records.
pub mod dtypes;
pub mod text;
pub mod onnx;
pub mod json;
pub mod model;
pub mod safetensors;
pub mod profiling;
pub mod trace;
pub mod profile_json;
pub mod qwen_ops;
pub mod byte_level;
pub mod pretokenize;
pub mod byte_table;
pub mod tekken;
pub mod qwen_tokenizer;
pub mod rowwise_scaled;
pub mod export;
pub mod safetensors_file;
pub mod accredited;
pub mod text_config;
pub mod qwen_roundtrip;
pub mod weights;
pub mod smoke;
pub mod skip_special;
pub mod layer_checks;
pub mod host_reference;
pub mod generation;
pub mod layout_laws;
pub mod onnx_laws;
