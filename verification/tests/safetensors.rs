use nn_rust_verified::dtypes::DType;
use nn_rust_verified::json::JsonError;
use nn_rust_verified::safetensors::{
    model_tensor_alias, model_tensor_aliases, parse_header, parse_weight_map, SafetensorsError,
    TensorInfo,
};

#[test]
fn model_tensor_alias_maps_internal_ministral_names_to_hf_names() {
    assert_eq!(
        model_tensor_alias("tok_embeddings.weight").as_deref(),
        Some("language_model.model.embed_tokens.weight")
    );
    assert_eq!(
        model_tensor_alias("norm.weight").as_deref(),
        Some("language_model.model.norm.weight")
    );
    assert_eq!(
        model_tensor_alias("output.weight").as_deref(),
        Some("language_model.lm_head.weight")
    );
    assert_eq!(
        model_tensor_alias("layers.12.attention.wq.weight").as_deref(),
        Some("language_model.model.layers.12.self_attn.q_proj.weight")
    );
    assert_eq!(
        model_tensor_alias("layers.12.attention.wk.weight").as_deref(),
        Some("language_model.model.layers.12.self_attn.k_proj.weight")
    );
    assert_eq!(
        model_tensor_alias("layers.12.attention.wv.weight").as_deref(),
        Some("language_model.model.layers.12.self_attn.v_proj.weight")
    );
    assert_eq!(
        model_tensor_alias("layers.12.attention.wo.weight").as_deref(),
        Some("language_model.model.layers.12.self_attn.o_proj.weight")
    );
    assert_eq!(
        model_tensor_alias("layers.12.attention_norm.weight").as_deref(),
        Some("language_model.model.layers.12.input_layernorm.weight")
    );
    assert_eq!(
        model_tensor_alias("layers.12.ffn_norm.weight").as_deref(),
        Some("language_model.model.layers.12.post_attention_layernorm.weight")
    );
    assert_eq!(
        model_tensor_alias("layers.12.feed_forward.w1.weight").as_deref(),
        Some("language_model.model.layers.12.mlp.gate_proj.weight")
    );
    assert_eq!(
        model_tensor_alias("layers.12.feed_forward.w2.weight").as_deref(),
        Some("language_model.model.layers.12.mlp.down_proj.weight")
    );
    assert_eq!(
        model_tensor_alias("layers.12.feed_forward.w3.weight").as_deref(),
        Some("language_model.model.layers.12.mlp.up_proj.weight")
    );
}

#[test]
fn model_tensor_aliases_include_qwen_names() {
    assert!(model_tensor_aliases("tok_embeddings.weight")
        .iter()
        .any(|alias| alias == "model.embed_tokens.weight"));
    assert!(model_tensor_aliases("layers.2.attention.wq.weight")
        .iter()
        .any(|alias| alias == "model.layers.2.self_attn.q_proj.weight"));
    assert!(model_tensor_aliases("layers.2.attention.q_norm.weight")
        .iter()
        .any(|alias| alias == "model.layers.2.self_attn.q_norm.weight"));
    assert!(model_tensor_aliases("layers.2.attention.wq.weight")
        .iter()
        .any(|alias| alias == "model.language_model.layers.2.self_attn.q_proj.weight"));
    assert!(model_tensor_aliases("output.weight")
        .iter()
        .any(|alias| alias == "lm_head.weight"));
}

#[test]
fn parses_safetensors_index_weight_map() {
    let index = r#"{
            "metadata": {"total_size": 10},
            "weight_map": {
                "language_model.lm_head.weight": "model-00002-of-00002.safetensors",
                "language_model.model.embed_tokens.weight": "model-00001-of-00002.safetensors"
            }
        }"#;

    let weight_map = parse_weight_map(index).expect("weight map parses");
    assert_eq!(
        weight_map,
        vec![
            (
                "language_model.lm_head.weight".to_string(),
                "model-00002-of-00002.safetensors".to_string()
            ),
            (
                "language_model.model.embed_tokens.weight".to_string(),
                "model-00001-of-00002.safetensors".to_string()
            ),
        ]
    );
}

#[test]
fn aliases_of_unknown_names_are_empty() {
    assert!(model_tensor_aliases("layers.3.attention.unknown.weight").is_empty());
    assert!(model_tensor_aliases("layers.3").is_empty());
    assert!(model_tensor_aliases("embed.weight").is_empty());
    assert_eq!(model_tensor_alias("something.else"), None);
    assert_eq!(
        model_tensor_aliases("output.weight"),
        vec!["language_model.lm_head.weight".to_string(), "lm_head.weight".to_string()]
    );
    assert_eq!(
        model_tensor_aliases("layers.0.attention.k_norm.weight"),
        vec![
            "language_model.model.layers.0.self_attn.k_norm.weight".to_string(),
            "model.layers.0.self_attn.k_norm.weight".to_string(),
            "model.language_model.layers.0.self_attn.k_norm.weight".to_string(),
        ]
    );
}

#[test]
fn weight_map_errors_name_their_cause() {
    assert_eq!(
        parse_weight_map(r#"{"metadata": {}}"#),
        Err(SafetensorsError::Json(JsonError::MissingField))
    );
    assert_eq!(
        parse_weight_map(r#"{"weight_map": {"a": "b","#),
        Err(SafetensorsError::UnterminatedWeightMap)
    );
    assert_eq!(
        parse_weight_map(r#"{"weight_map": {"a": "b""#),
        Err(SafetensorsError::ExpectedCommaOrBrace)
    );
    assert_eq!(
        parse_weight_map(r#"{"weight_map": {"a": "b" "c": "d"}}"#),
        Err(SafetensorsError::ExpectedCommaOrBrace)
    );
    assert_eq!(parse_weight_map(r#"{"weight_map": {}}"#), Ok(vec![]));
}

#[test]
fn header_lists_tensors_and_skips_metadata() {
    let header = r#"{"__metadata__": {"format": "pt"},
        "a.weight": {"dtype": "BF16", "shape": [2, 3], "data_offsets": [0, 12]},
        "b.bias": {"dtype": "F32", "shape": [3], "data_offsets": [12, 24]}}"#;
    let tensors = parse_header(header).expect("header parses");
    assert_eq!(tensors.len(), 2);
    assert_eq!(tensors[0].name, "a.weight");
    assert_eq!(tensors[0].dtype, DType::Bf16);
    assert_eq!(tensors[0].shape, vec![2, 3]);
    assert_eq!(tensors[0].data_offsets, [0, 12]);
    assert_eq!(tensors[0].element_count(), 6);
    assert_eq!(tensors[0].byte_len(), 12);
    assert_eq!(tensors[0].typed_element_count(DType::Bf16), Ok(6));
    assert_eq!(
        tensors[0].typed_element_count(DType::F32),
        Err(SafetensorsError::DtypeMismatch {
            name: "a.weight".to_string(),
            actual: DType::Bf16,
            expected: DType::F32
        })
    );
    assert_eq!(tensors[1].name, "b.bias");
    assert_eq!(tensors[1].typed_element_count(DType::F32), Ok(3));
    assert_eq!(tensors[1].expect_dtype(DType::F32), Ok(()));
}

#[test]
fn header_errors_name_their_cause() {
    assert_eq!(
        parse_header(r#"{"a": {"dtype": "Q9", "shape": [1], "data_offsets": [0, 1]}}"#).err(),
        Some(SafetensorsError::UnsupportedDtype)
    );
    assert_eq!(
        parse_header(r#"{"a": {"dtype": "U8", "shape": [1], "data_offsets": [0]}}"#).err(),
        Some(SafetensorsError::WrongOffsetCount { count: 1 })
    );
    assert_eq!(
        parse_header(r#"{"a": {"dtype": "U8", "shape": [x], "data_offsets": [0, 1]}}"#).err(),
        Some(SafetensorsError::ExpectedNumber)
    );
    assert_eq!(
        parse_header(r#"{"a": 3}"#).err(),
        Some(SafetensorsError::FieldNotObject)
    );
    assert_eq!(parse_header(r#"{"#).err(), Some(SafetensorsError::UnterminatedHeader));
    assert_eq!(
        parse_header(r#"{"a": {"dtype": "U8", "shape": [99999999999999999999], "data_offsets": [0, 1]}}"#)
            .err(),
        Some(SafetensorsError::InvalidNumber)
    );
}

#[test]
fn tensor_counts_elements_of_an_empty_shape() {
    let info = TensorInfo {
        name: "scalar".to_string(),
        dtype: DType::F32,
        shape: vec![],
        data_offsets: [8, 12],
    };
    assert_eq!(info.element_count(), 1);
    assert_eq!(info.byte_len(), 4);
}

#[test]
fn dtype_mismatch_names_the_tensor() {
    let tensor = TensorInfo {
        name: "w".to_string(),
        dtype: DType::Bf16,
        shape: vec![2],
        data_offsets: [0, 4],
    };
    let err = tensor.expect_dtype(DType::F32).unwrap_err();
    assert_eq!(err.message(), "tensor w has dtype BF16, expected F32");
    assert_eq!(
        SafetensorsError::WrongOffsetCount { count: 3 }.message(),
        "tensor has 3 data offsets, expected 2"
    );
    assert_eq!(SafetensorsError::UnterminatedHeader.message(), "unterminated safetensors header");
}
