use nn_rust_verified::dtypes::DType;
use nn_rust_verified::model::{ModelError, Qwen35AttentionWeightLayout};
use nn_rust_verified::safetensors_file::{SafetensorsHeader, ShardIndex, TensorLookupError};
use nn_rust_verified::text_config::TextConfigCore;
use nn_rust_verified::weights::{qwen35_layout_dims_fit, ModelTensors, WeightLayoutError};

fn header_text(entries: &[(String, Vec<usize>)]) -> String {
    let mut offset = 0u64;
    let mut parts = Vec::new();
    for (name, shape) in entries {
        let elements: usize = shape.iter().product();
        let bytes = elements as u64 * 2;
        let dims: Vec<String> = shape.iter().map(|d| d.to_string()).collect();
        parts.push(format!(
            r#""{name}":{{"dtype":"BF16","shape":[{}],"data_offsets":[{offset},{}]}}"#,
            dims.join(","),
            offset + bytes
        ));
        offset += bytes;
    }
    format!("{{{}}}", parts.join(","))
}

fn tiny_qwen35_config() -> TextConfigCore {
    let json = r#"{
        "model_type": "qwen3_5",
        "text_config": {
            "model_type": "qwen3_5_text",
            "hidden_size": 8,
            "intermediate_size": 12,
            "num_hidden_layers": 2,
            "num_attention_heads": 2,
            "num_key_value_heads": 1,
            "head_dim": 4,
            "max_position_embeddings": 16,
            "vocab_size": 10,
            "eos_token_id": 9,
            "linear_conv_kernel_dim": 4,
            "linear_key_head_dim": 2,
            "linear_value_head_dim": 3,
            "linear_num_key_heads": 1,
            "linear_num_value_heads": 2,
            "layer_types": ["linear_attention", "full_attention"]
        }
    }"#;
    TextConfigCore::from_config_json(json.as_bytes()).unwrap()
}

fn tiny_qwen35_tensors() -> Vec<(String, Vec<usize>)> {
    let mut t: Vec<(String, Vec<usize>)> = vec![
        ("model.language_model.embed_tokens.weight".into(), vec![10, 8]),
        ("model.language_model.norm.weight".into(), vec![8]),
        ("lm_head.weight".into(), vec![10, 8]),
    ];
    for layer in 0..2 {
        let p = format!("model.language_model.layers.{layer}");
        t.push((format!("{p}.input_layernorm.weight"), vec![8]));
        t.push((format!("{p}.post_attention_layernorm.weight"), vec![8]));
        t.push((format!("{p}.mlp.gate_proj.weight"), vec![12, 8]));
        t.push((format!("{p}.mlp.up_proj.weight"), vec![12, 8]));
        t.push((format!("{p}.mlp.down_proj.weight"), vec![8, 12]));
    }
    let p = "model.language_model.layers.0.linear_attn";
    t.push((format!("{p}.in_proj_qkv.weight"), vec![10, 8]));
    t.push((format!("{p}.in_proj_z.weight"), vec![6, 8]));
    t.push((format!("{p}.in_proj_a.weight"), vec![2, 8]));
    t.push((format!("{p}.in_proj_b.weight"), vec![2, 8]));
    t.push((format!("{p}.conv1d.weight"), vec![10, 1, 4]));
    t.push((format!("{p}.A_log"), vec![2]));
    t.push((format!("{p}.dt_bias"), vec![2]));
    t.push((format!("{p}.norm.weight"), vec![3]));
    t.push((format!("{p}.out_proj.weight"), vec![8, 6]));
    let p = "model.language_model.layers.1.self_attn";
    t.push((format!("{p}.q_proj.weight"), vec![16, 8]));
    t.push((format!("{p}.k_proj.weight"), vec![4, 8]));
    t.push((format!("{p}.v_proj.weight"), vec![4, 8]));
    t.push((format!("{p}.o_proj.weight"), vec![8, 8]));
    t.push((format!("{p}.q_norm.weight"), vec![4]));
    t.push((format!("{p}.k_norm.weight"), vec![4]));
    t
}

fn consolidated(entries: &[(String, Vec<usize>)]) -> ModelTensors {
    let text = header_text(entries);
    ModelTensors::consolidated(SafetensorsHeader::from_header_text(text.len() as u64, &text).unwrap())
}

#[test]
fn consolidated_lookup_resolves_names_and_aliases() {
    let tensors = consolidated(&[
        ("language_model.model.norm.weight".to_string(), vec![4]),
        ("a".to_string(), vec![2, 3]),
    ]);
    let (file, norm) = tensors.tensor("norm.weight").unwrap();
    assert_eq!(file, 0);
    assert_eq!(norm.name, "language_model.model.norm.weight");
    assert_eq!(tensors.tensor("a").unwrap().1.shape, vec![2, 3]);
    assert!(tensors.tensor_opt("missing").unwrap().is_none());
    assert_eq!(tensors.tensor("missing").unwrap_err(), TensorLookupError::MissingTensor);
    assert_eq!(tensors.first_existing_tensor(&["x", "a"]).unwrap().1.name, "a");
    assert_eq!(
        tensors.first_existing_tensor(&["x", "y"]).unwrap_err(),
        TensorLookupError::NoneExist
    );
    assert!(tensors.offsets_in_order());
}

#[test]
fn sharded_lookup_goes_through_the_index() {
    let first = header_text(&[("a".to_string(), vec![2])]);
    let second = header_text(&[("lm_head.weight".to_string(), vec![3])]);
    let map = vec![
        ("a".to_string(), "one.safetensors".to_string()),
        ("lm_head.weight".to_string(), "two.safetensors".to_string()),
    ];
    let index = ShardIndex::from_weight_map(&map).unwrap();
    let headers = vec![
        SafetensorsHeader::from_header_text(first.len() as u64, &first).unwrap(),
        SafetensorsHeader::from_header_text(second.len() as u64, &second).unwrap(),
    ];
    let tensors = ModelTensors::sharded(index, headers).unwrap();
    let (file, output) = tensors.tensor("output.weight").unwrap();
    assert_eq!(file, 1);
    assert_eq!(output.name, "lm_head.weight");
    assert_eq!(tensors.tensor("a").unwrap().0, 0);
    assert!(tensors.tensor_opt("b").unwrap().is_none());

    let index = ShardIndex::from_weight_map(&map).unwrap();
    let wrong = vec![
        SafetensorsHeader::from_header_text(first.len() as u64, &first).unwrap(),
        SafetensorsHeader::from_header_text(first.len() as u64, &first).unwrap(),
    ];
    assert!(matches!(
        ModelTensors::sharded(index, wrong),
        Err(TensorLookupError::MissingTensor)
    ));
}

#[test]
fn qwen35_layout_reports_every_tensor() {
    let core = tiny_qwen35_config();
    let tensors = consolidated(&tiny_qwen35_tensors());
    assert!(qwen35_layout_dims_fit(&core));
    assert!(tensors.offsets_in_order());
    let layout = tensors.qwen35_weight_layout(&core).unwrap();
    assert_eq!(layout.embedding.shape, vec![10, 8]);
    assert_eq!(layout.embedding.byte_len, 160);
    assert_eq!(layout.embedding.dtype, DType::Bf16);
    assert_eq!(layout.output.name, "lm_head.weight");
    assert_eq!(layout.layers.len(), 2);
    match &layout.layers[0].attention {
        Qwen35AttentionWeightLayout::Linear(l) => {
            assert_eq!(l.in_proj_qkv.shape, vec![10, 8]);
            assert_eq!(l.conv1d.shape, vec![10, 1, 4]);
            assert_eq!(l.norm.name, "model.language_model.layers.0.linear_attn.norm.weight");
        }
        Qwen35AttentionWeightLayout::Full(_) => panic!("layer 0 is a linear-attention layer"),
    }
    match &layout.layers[1].attention {
        Qwen35AttentionWeightLayout::Full(f) => {
            assert_eq!(f.q_proj.shape, vec![16, 8]);
            assert_eq!(f.k_norm.byte_len, 8);
        }
        Qwen35AttentionWeightLayout::Linear(_) => panic!("layer 1 is a full-attention layer"),
    }
    assert_eq!(layout.layers[1].layer, 1);
    assert_eq!(layout.layers[1].mlp.down_proj.shape, vec![8, 12]);
}

#[test]
fn qwen35_layout_names_the_first_fault() {
    let core = tiny_qwen35_config();
    let mut entries = tiny_qwen35_tensors();
    entries.retain(|(name, _)| name != "model.language_model.layers.1.self_attn.v_proj.weight");
    let tensors = consolidated(&entries);
    assert_eq!(
        tensors.qwen35_weight_layout(&core).unwrap_err(),
        WeightLayoutError::Tensor(TensorLookupError::MissingTensor)
    );

    let mut entries = tiny_qwen35_tensors();
    entries[1].1 = vec![9];
    let tensors = consolidated(&entries);
    assert_eq!(
        tensors.qwen35_weight_layout(&core).unwrap_err(),
        WeightLayoutError::Model(ModelError::ShapeMismatch)
    );

    let mut other = core;
    other.model_kind = nn_rust_verified::model::TextModelKind::FullAttentionDecoder;
    let tensors = consolidated(&tiny_qwen35_tensors());
    assert_eq!(tensors.qwen35_weight_layout(&other).unwrap_err(), WeightLayoutError::NotQwen35);
}

#[test]
fn headers_are_reached_by_file_position() {
    let tensors = consolidated(&[("a".to_string(), vec![2])]);
    assert_eq!(tensors.file_count(), 1);
    assert_eq!(tensors.header(0).unwrap().tensors().len(), 1);
    assert!(tensors.header(1).is_none());

    let first = header_text(&[("a".to_string(), vec![2])]);
    let second = header_text(&[("b".to_string(), vec![3]), ("c".to_string(), vec![1])]);
    let map = vec![
        ("a".to_string(), "one.safetensors".to_string()),
        ("b".to_string(), "two.safetensors".to_string()),
    ];
    let index = ShardIndex::from_weight_map(&map).unwrap();
    let headers = vec![
        SafetensorsHeader::from_header_text(first.len() as u64, &first).unwrap(),
        SafetensorsHeader::from_header_text(second.len() as u64, &second).unwrap(),
    ];
    let sharded = ModelTensors::sharded(index, headers).unwrap();
    assert_eq!(sharded.file_count(), 2);
    assert_eq!(sharded.header(1).unwrap().tensors().len(), 2);
    assert!(sharded.header(2).is_none());
    assert!(sharded.tensor_opt("c").unwrap().is_none());
}
