use nn_rust_verified::layer_checks::{
    incremental_layer_check, prefill_hidden_states_check, prefill_layer_shapes, LayerRunError, PrefillShapes,
};
use nn_rust_verified::model::{ModelError, TextDims};

fn dims() -> TextDims {
    TextDims {
        dim: 8,
        hidden_dim: 16,
        n_layers: 2,
        n_heads: 4,
        n_kv_heads: 2,
        head_dim: 2,
        max_position_embeddings: 8,
        vocab_size: 10,
    }
}

#[test]
fn prefill_shapes_follow_the_sequence_length() {
    assert_eq!(
        prefill_layer_shapes(&dims(), 3, 2, 24, 24, 12, 12),
        Ok(PrefillShapes {
            q_len: 8,
            kv_len: 4,
            hidden_batch_len: 24,
            q_batch_len: 24,
            kv_batch_len: 12,
            cache_len: 12,
        })
    );
    assert_eq!(
        prefill_layer_shapes(&dims(), 3, 0, 24, 24, 12, 12),
        Err(LayerRunError::PromptLength { prompt_len: 0, max_seq_len: 3 })
    );
    assert_eq!(
        prefill_layer_shapes(&dims(), 3, 4, 24, 24, 12, 12),
        Err(LayerRunError::PromptLength { prompt_len: 4, max_seq_len: 3 })
    );
    assert_eq!(
        prefill_layer_shapes(&dims(), 3, 2, 24, 16, 12, 12),
        Err(LayerRunError::HiddenBatchLen { input: 24, output: 16, expected: 24 })
    );
    assert_eq!(
        prefill_layer_shapes(&dims(), 3, 2, 24, 24, 12, 11),
        Err(LayerRunError::CacheLen { key: 12, value: 11, expected: 12 })
    );
    assert_eq!(
        prefill_layer_shapes(&dims(), usize::MAX, 2, 24, 24, 12, 12),
        Err(LayerRunError::HiddenBatchOverflow)
    );
}

#[test]
fn incremental_step_checks_caches_then_output() {
    assert_eq!(incremental_layer_check(&dims(), 3, 12, 12, 8), Ok(()));
    assert_eq!(
        incremental_layer_check(&dims(), 3, 12, 13, 8),
        Err(LayerRunError::CacheLen { key: 12, value: 13, expected: 12 })
    );
    assert_eq!(
        incremental_layer_check(&dims(), 3, 12, 12, 7),
        Err(LayerRunError::OutputLen { len: 7, expected: 8 })
    );
}

#[test]
fn prefill_hidden_states_must_pair_up() {
    assert_eq!(prefill_hidden_states_check(&dims(), &[8, 8], &[8, 8]), Ok(()));
    assert_eq!(
        prefill_hidden_states_check(&dims(), &[], &[8]),
        Err(LayerRunError::HiddenStates(ModelError::NoHiddenStates))
    );
    assert_eq!(
        prefill_hidden_states_check(&dims(), &[8, 8], &[8, 5]),
        Err(LayerRunError::HiddenStates(ModelError::HiddenStateLen { index: 1, len: 5, expected: 8 }))
    );
    assert_eq!(
        prefill_hidden_states_check(&dims(), &[8, 8], &[8]),
        Err(LayerRunError::OutputCount { actual: 1, expected: 2 })
    );
}
