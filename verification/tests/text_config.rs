use nn_rust_verified::json::{json_number_text_field, unicode_escapes_end_whole};
use nn_rust_verified::model::{validate_runtime_max_seq_len, ModelError, TextLayerKind, TextModelKind};
use nn_rust_verified::text_config::{check_rotary_dim, TextConfigCore};

fn partial_rope_config_json(partial_rotary_factor: f32) -> String {
    format!(
        r#"{{
            "hidden_size": 4096,
            "intermediate_size": 11008,
            "num_hidden_layers": 2,
            "num_attention_heads": 32,
            "num_key_value_heads": 8,
            "head_dim": 256,
            "rope_theta": 10000.0,
            "partial_rotary_factor": {partial_rotary_factor},
            "max_position_embeddings": 32768,
            "vocab_size": 151936,
            "rms_norm_eps": 0.000001,
            "eos_token_id": 151645
        }}"#
    )
}

fn qwen35_config_json(layer_types: Option<&str>) -> String {
    let layer_types_json = layer_types.unwrap_or(
        r#""layer_types": ["linear_attention", "linear_attention", "linear_attention", "full_attention"],"#,
    );
    format!(
        r#"{{
            "model_type": "qwen3_5",
            "text_config": {{
                "model_type": "qwen3_5_text",
                "hidden_size": 5120,
                "intermediate_size": 17408,
                "num_hidden_layers": 4,
                "num_attention_heads": 24,
                "num_key_value_heads": 4,
                "head_dim": 256,
                "rope_theta": 10000000.0,
                "partial_rotary_factor": 0.25,
                "max_position_embeddings": 262144,
                "vocab_size": 248320,
                "rms_norm_eps": 0.000001,
                "eos_token_id": 248044,
                "linear_conv_kernel_dim": 4,
                "linear_key_head_dim": 128,
                "linear_value_head_dim": 128,
                "linear_num_key_heads": 16,
                "linear_num_value_heads": 48,
                {layer_types_json}
                "tie_word_embeddings": false
            }}
        }}"#
    )
}

#[test]
fn core_reads_a_full_attention_config() {
    let core = TextConfigCore::from_config_json(partial_rope_config_json(0.25).as_bytes()).unwrap();
    assert_eq!(core.dims.head_dim, 256);
    assert_eq!(core.dims.dim, 4096);
    assert_eq!(core.dims.n_layers, 2);
    assert_eq!(core.dims.vocab_size, 151936);
    assert_eq!(core.eos_token_id, Some(151645));
    assert_eq!(core.model_kind, TextModelKind::FullAttentionDecoder);
    assert_eq!(core.layer_kinds.len(), 2);
    assert!(!core.layer_kinds.has_linear_attention());
    assert!(core.qwen3_5.is_none());
    assert_eq!(core.validate_dims(64), Ok(()));
    assert_eq!(core.validate_eos(), Ok(()));
    assert_eq!(core.validate_linear_params(), Ok(()));
}

#[test]
fn text_config_parses_qwen35_layer_types() {
    let core = TextConfigCore::from_config_json(qwen35_config_json(None).as_bytes()).unwrap();
    assert_eq!(core.model_kind, TextModelKind::Qwen35Text);
    assert_eq!(core.layer_kinds.len(), 4);
    assert_eq!(core.layer_kinds.full_attention_count(), 1);
    assert_eq!(core.layer_kinds.linear_attention_count(), 3);
    assert_eq!(core.layer_kinds.kind(0).unwrap(), TextLayerKind::LinearAttention);
    assert_eq!(core.layer_kinds.kind(3).unwrap(), TextLayerKind::FullAttention);
    let rotary_dim = (core.dims.head_dim as f32 * 0.25) as usize;
    assert_eq!(check_rotary_dim(core.dims.head_dim, rotary_dim), Ok(()));
    assert_eq!(rotary_dim, 64);
    assert_eq!(core.eos_token_id, Some(248044));
    let params = core.qwen3_5.unwrap();
    assert_eq!(params.key_dim(), 2048);
    assert_eq!(params.value_dim(), 6144);
    assert_eq!(params.qkv_dim(), 10240);
    assert_eq!(core.validate_linear_params(), Ok(()));
}

#[test]
fn text_config_derives_qwen35_default_attention_interval() {
    let core = TextConfigCore::from_config_json(qwen35_config_json(Some("")).as_bytes()).unwrap();
    assert_eq!(core.layer_kinds.full_attention_count(), 1);
    assert_eq!(core.layer_kinds.linear_attention_count(), 3);
    assert_eq!(core.layer_kinds.kind(0).unwrap(), TextLayerKind::LinearAttention);
    assert_eq!(core.layer_kinds.kind(3).unwrap(), TextLayerKind::FullAttention);
}

#[test]
fn core_rejects_unknown_layer_types_and_missing_fields() {
    let json = qwen35_config_json(Some(r#""layer_types": ["linear_attention", "sliding"],"#));
    assert!(matches!(
        TextConfigCore::from_config_json(json.as_bytes()),
        Err(ModelError::UnsupportedLayerType { layer: 1 })
    ));
    assert!(matches!(
        TextConfigCore::from_config_json(br#"{"hidden_size": 4}"#),
        Err(ModelError::Json(_))
    ));
}

#[test]
fn core_dimension_checks_come_in_order() {
    let core = TextConfigCore::from_config_json(partial_rope_config_json(1.0).as_bytes()).unwrap();
    assert_eq!(
        core.validate_dims(3),
        Err(ModelError::BadRotaryDim {
            rotary_dim: 3,
            head_dim: 256
        })
    );
    assert_eq!(
        check_rotary_dim(8, 10),
        Err(ModelError::BadRotaryDim {
            rotary_dim: 10,
            head_dim: 8
        })
    );
    assert_eq!(check_rotary_dim(8, 4), Ok(()));
    let mut bad = core;
    bad.dims.n_kv_heads = 5;
    assert_eq!(
        bad.validate_dims(64),
        Err(ModelError::HeadsNotDivisible {
            n_heads: 32,
            n_kv_heads: 5
        })
    );
    bad.eos_token_id = Some(151936);
    assert_eq!(
        bad.validate_eos(),
        Err(ModelError::EosOutOfRange {
            eos_token_id: 151936,
            vocab_size: 151936
        })
    );
    bad.model_kind = TextModelKind::Qwen35Text;
    assert_eq!(bad.validate_linear_params(), Err(ModelError::MissingQwenParams));
}

#[test]
fn text_config_accepts_partial_rotary_factor() {
    let core = TextConfigCore::from_config_json(partial_rope_config_json(0.25).as_bytes()).unwrap();
    let rotary_dim = (core.dims.head_dim as f32 * 0.25) as usize;

    assert_eq!(core.dims.head_dim, 256);
    assert_eq!(check_rotary_dim(core.dims.head_dim, rotary_dim), Ok(()));
    assert_eq!(core.validate_dims(rotary_dim), Ok(()));
    assert_eq!(rotary_dim, 64);
    assert_eq!(core.eos_token_id, Some(151645));
}

#[test]
fn runtime_max_seq_len_respects_model_position_limit() {
    let mut core = TextConfigCore::from_config_json(partial_rope_config_json(0.25).as_bytes()).unwrap();
    core.dims.max_position_embeddings = 8;

    assert!(validate_runtime_max_seq_len(&core.dims, 8).is_ok());
    let error = validate_runtime_max_seq_len(&core.dims, 9).unwrap_err();
    assert_eq!(
        error.message(),
        "runtime max_seq_len 9 exceeds model max_position_embeddings 8"
    );
}

#[test]
fn model_errors_read_as_sentences() {
    assert_eq!(
        ModelError::BadRotaryDim { rotary_dim: 3, head_dim: 256 }.message(),
        "text config rotary_dim must be even, nonzero, and <= head_dim; got rotary_dim 3 head_dim 256"
    );
    assert_eq!(
        ModelError::TokenOutOfRange { token: 12, vocab_size: 10 }.message(),
        "token 12 is out of range for vocab size 10"
    );
    assert_eq!(ModelError::ZeroVocabSize.message(), "text config vocab_size must be nonzero");
}

#[test]
fn number_fields_are_read_as_text() {
    let json = br#"{"rope_theta": 1e6, "rms_norm_eps": 0.000001, "name": "x"}"#;
    assert_eq!(json_number_text_field(json, b"rope_theta").unwrap(), b"1e6");
    assert_eq!(json_number_text_field(json, b"rms_norm_eps").unwrap(), b"0.000001");
    assert!(json_number_text_field(json, b"name").is_err());
    assert!(json_number_text_field(json, b"missing").is_err());
}

#[test]
fn escapes_that_split_characters_are_found() {
    assert!(unicode_escapes_end_whole(br#"{"a": "\u00e9x"}"#));
    assert!(unicode_escapes_end_whole("{\"a\": \"é\"}".as_bytes()));
    let split = "\"\\u00aé\"";
    assert!(!unicode_escapes_end_whole(split.as_bytes()));
    assert!(unicode_escapes_end_whole(b"\\u12"));
}
