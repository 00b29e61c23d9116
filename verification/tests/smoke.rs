use nn_rust_verified::model::{ModelError, TextModelKind};
use nn_rust_verified::smoke::{
    linear_smoke_widths_fit, qwen35_full_layer_smoke_check, qwen35_linear_layer_smoke_check,
    LayerSmokeError, LinearSmokeShapes,
};
use nn_rust_verified::text_config::TextConfigCore;

fn config() -> TextConfigCore {
    let json = r#"{
        "model_type": "qwen3_5",
        "text_config": {
            "model_type": "qwen3_5_text",
            "hidden_size": 8,
            "intermediate_size": 12,
            "num_hidden_layers": 2,
            "num_attention_heads": 2,
            "num_key_value_heads": 1,
            "head_dim": 4,
            "max_position_embeddings": 16,
            "vocab_size": 10,
            "linear_conv_kernel_dim": 4,
            "linear_key_head_dim": 2,
            "linear_value_head_dim": 3,
            "linear_num_key_heads": 1,
            "linear_num_value_heads": 2,
            "layer_types": ["linear_attention", "full_attention"]
        }
    }"#;
    TextConfigCore::from_config_json(json.as_bytes()).unwrap()
}

#[test]
fn full_layer_smoke_checks_come_in_order() {
    let core = config();
    assert_eq!(qwen35_full_layer_smoke_check(&core, 1, 3, 0), Ok(1));
    assert_eq!(
        qwen35_full_layer_smoke_check(&core, 0, 3, 0),
        Err(LayerSmokeError::NotFullAttention { layer: 0 })
    );
    assert_eq!(
        qwen35_full_layer_smoke_check(&core, 2, 3, 0),
        Err(LayerSmokeError::Model(ModelError::LayerIndexOutOfRange { layer: 2, len: 2 }))
    );
    assert_eq!(
        qwen35_full_layer_smoke_check(&core, 1, 3, 5),
        Err(LayerSmokeError::NonzeroPosition)
    );
    assert_eq!(
        qwen35_full_layer_smoke_check(&core, 1, 10, 0),
        Err(LayerSmokeError::Model(ModelError::TokenOutOfRange { token: 10, vocab_size: 10 }))
    );
    let mut other = config();
    other.model_kind = TextModelKind::FullAttentionDecoder;
    assert_eq!(
        qwen35_full_layer_smoke_check(&other, 1, 3, 0),
        Err(LayerSmokeError::NotQwen35)
    );
}

#[test]
fn linear_layer_smoke_gives_state_shapes() {
    let core = config();
    assert!(linear_smoke_widths_fit(&core));
    assert_eq!(
        qwen35_linear_layer_smoke_check(&core, 0, 3, 0),
        Ok(LinearSmokeShapes {
            qkv_dim: 10,
            value_dim: 6,
            key_state_dim: 4,
            conv_state_len: 40,
            recurrent_state_len: 12,
        })
    );
    assert_eq!(
        qwen35_linear_layer_smoke_check(&core, 1, 3, 0),
        Err(LayerSmokeError::NotLinearAttention { layer: 1 })
    );
    let mut no_params = config();
    no_params.qwen3_5 = None;
    assert_eq!(
        qwen35_linear_layer_smoke_check(&no_params, 0, 3, 0),
        Err(LayerSmokeError::MissingLinearParams)
    );
}
