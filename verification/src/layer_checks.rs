//! The checks that come before a decoder layer runs on the device: the prompt length,
//! the lengths of the hidden-state, cache and output buffers, and the batch lengths a
//! batched prefill works with. Running the layer is left to the caller.
use vstd::prelude::*;

use crate::model::{first_bad_hidden_len, validate_hidden_states, ModelError, TextDims};

verus! {

/// Why a layer cannot run on the buffers it was given.
#[derive(Debug, Clone, Copy, PartialEq, Eq, Structural)]
pub enum LayerRunError {
    /// The prompt is empty or longer than the sequence length.
    PromptLength { prompt_len: usize, max_seq_len: usize },
    /// The hidden batch length overflows `usize`.
    HiddenBatchOverflow,
    /// The query batch length overflows `usize`.
    QueryBatchOverflow,
    /// The key/value batch length overflows `usize`.
    KvBatchOverflow,
    /// The input or output hidden batch does not have the batch length.
    HiddenBatchLen { input: usize, output: usize, expected: usize },
    /// The key or value cache does not have the cache length.
    CacheLen { key: usize, value: usize, expected: usize },
    /// The output does not have the model dimension.
    OutputLen { len: usize, expected: usize },
    /// A list of hidden states is empty or holds one of the wrong length.
    HiddenStates(ModelError),
    /// The output list has another number of hidden states than the input list.
    OutputCount { actual: usize, expected: usize },
}

/// The query and key/value widths fit `usize`.
pub open spec fn head_widths_fit(dims: TextDims) -> bool {
    &&& dims.n_heads * dims.head_dim <= usize::MAX
    &&& dims.n_kv_heads * dims.head_dim <= usize::MAX
}

/// The buffer lengths of a batched prefill: the query and key/value widths, the
/// batches of hidden states, queries and keys/values over the sequence length, and the
/// cache length.
#[derive(Debug, Clone, Copy, PartialEq, Eq, Structural)]
pub struct PrefillShapes {
    pub q_len: usize,
    pub kv_len: usize,
    pub hidden_batch_len: usize,
    pub q_batch_len: usize,
    pub kv_batch_len: usize,
    pub cache_len: usize,
}

/// The checks of a batched prefill of one layer, in order: the prompt length, the
/// three batch lengths, the hidden batches, the caches.
pub open spec fn spec_prefill_layer_shapes(
    dims: TextDims,
    max_seq_len: usize,
    prompt_len: usize,
    hidden_len: usize,
    next_hidden_len: usize,
    key_cache_len: usize,
    value_cache_len: usize,
) -> Result<PrefillShapes, LayerRunError> {
    let q_len = (dims.n_heads * dims.head_dim) as usize;
    let kv_len = (dims.n_kv_heads * dims.head_dim) as usize;
    if prompt_len == 0 || prompt_len > max_seq_len {
        Err(LayerRunError::PromptLength { prompt_len, max_seq_len })
    } else if max_seq_len * dims.dim > usize::MAX {
        Err(LayerRunError::HiddenBatchOverflow)
    } else if max_seq_len * q_len > usize::MAX {
        Err(LayerRunError::QueryBatchOverflow)
    } else if max_seq_len * kv_len > usize::MAX {
        Err(LayerRunError::KvBatchOverflow)
    } else {
        let hidden_batch_len = (max_seq_len * dims.dim) as usize;
        let kv_batch_len = (max_seq_len * kv_len) as usize;
        if hidden_len != hidden_batch_len || next_hidden_len != hidden_batch_len {
            Err(
                LayerRunError::HiddenBatchLen { input: hidden_len, output: next_hidden_len, expected: hidden_batch_len },
            )
        } else if key_cache_len != kv_batch_len || value_cache_len != kv_batch_len {
            Err(LayerRunError::CacheLen { key: key_cache_len, value: value_cache_len, expected: kv_batch_len })
        } else {
            Ok(
                PrefillShapes {
                    q_len,
                    kv_len,
                    hidden_batch_len,
                    q_batch_len: (max_seq_len * q_len) as usize,
                    kv_batch_len,
                    cache_len: kv_batch_len,
                },
            )
        }
    }
}

/// Checks the buffers of a batched prefill of one layer over `prompt_len` tokens of a
/// sequence of `max_seq_len`, and gives the lengths it works with.
pub fn prefill_layer_shapes(
    dims: &TextDims,
    max_seq_len: usize,
    prompt_len: usize,
    hidden_len: usize,
    next_hidden_len: usize,
    key_cache_len: usize,
    value_cache_len: usize,
) -> (r: Result<PrefillShapes, LayerRunError>)
    requires
        head_widths_fit(*dims),
    ensures
        r == spec_prefill_layer_shapes(
            *dims,
            max_seq_len,
            prompt_len,
            hidden_len,
            next_hidden_len,
            key_cache_len,
            value_cache_len,
        ),
{
    if prompt_len == 0 || prompt_len > max_seq_len {
        return Err(LayerRunError::PromptLength { prompt_len, max_seq_len });
    }
    let q_len = dims.n_heads * dims.head_dim;
    let kv_len = dims.n_kv_heads * dims.head_dim;
    let hidden_batch_len = match max_seq_len.checked_mul(dims.dim) {
        Some(n) => n,
        None => {
            return Err(LayerRunError::HiddenBatchOverflow);
        },
    };
    let q_batch_len = match max_seq_len.checked_mul(q_len) {
        Some(n) => n,
        None => {
            return Err(LayerRunError::QueryBatchOverflow);
        },
    };
    let kv_batch_len = match max_seq_len.checked_mul(kv_len) {
        Some(n) => n,
        None => {
            return Err(LayerRunError::KvBatchOverflow);
        },
    };
    if hidden_len != hidden_batch_len || next_hidden_len != hidden_batch_len {
        return Err(
            LayerRunError::HiddenBatchLen { input: hidden_len, output: next_hidden_len, expected: hidden_batch_len },
        );
    }
    if key_cache_len != kv_batch_len || value_cache_len != kv_batch_len {
        return Err(LayerRunError::CacheLen { key: key_cache_len, value: value_cache_len, expected: kv_batch_len });
    }
    Ok(PrefillShapes { q_len, kv_len, hidden_batch_len, q_batch_len, kv_batch_len, cache_len: kv_batch_len })
}

/// Checks the buffers of one incremental step of a layer: both caches hold the sequence
/// length of keys/values, and the output has the model dimension.
pub fn incremental_layer_check(
    dims: &TextDims,
    max_seq_len: usize,
    key_cache_len: usize,
    value_cache_len: usize,
    output_len: usize,
) -> (r: Result<(), LayerRunError>)
    requires
        dims.n_kv_heads * dims.head_dim <= usize::MAX,
        max_seq_len * (dims.n_kv_heads * dims.head_dim) <= usize::MAX,
    ensures
        ({
            let expected = (max_seq_len * (dims.n_kv_heads * dims.head_dim)) as usize;
            r == if key_cache_len != expected || value_cache_len != expected {
                Err(LayerRunError::CacheLen { key: key_cache_len, value: value_cache_len, expected })
            } else if output_len != dims.dim {
                Err(LayerRunError::OutputLen { len: output_len, expected: dims.dim })
            } else {
                Ok::<(), LayerRunError>(())
            }
        }),
{
    let kv_len = dims.n_kv_heads * dims.head_dim;
    let expected = max_seq_len * kv_len;
    if key_cache_len != expected || value_cache_len != expected {
        return Err(LayerRunError::CacheLen { key: key_cache_len, value: value_cache_len, expected });
    }
    if output_len != dims.dim {
        return Err(LayerRunError::OutputLen { len: output_len, expected: dims.dim });
    }
    Ok(())
}

/// What checking a list of hidden-state lengths answers: empty lists and states of the
/// wrong length are refused.
pub open spec fn hidden_states_check(dims: TextDims, lens: Seq<usize>) -> Result<(), ModelError> {
    if lens.len() == 0 {
        Err(ModelError::NoHiddenStates)
    } else {
        match first_bad_hidden_len(lens, dims.dim, lens.len() as int) {
            Some(i) => Err(ModelError::HiddenStateLen { index: i as usize, len: lens[i], expected: dims.dim }),
            None => Ok(()),
        }
    }
}

/// Checks the hidden states a layer reads, token by token, and those it writes: both
/// lists are checked, then their lengths must agree.
pub fn prefill_hidden_states_check(dims: &TextDims, hidden_lens: &[usize], next_hidden_lens: &[usize]) -> (r: Result<
    (),
    LayerRunError,
>)
    ensures
        r == match hidden_states_check(*dims, hidden_lens@) {
            Err(e) => Err(LayerRunError::HiddenStates(e)),
            Ok(_) => match hidden_states_check(*dims, next_hidden_lens@) {
                Err(e) => Err(LayerRunError::HiddenStates(e)),
                Ok(_) => if next_hidden_lens@.len() != hidden_lens@.len() {
                    Err(
                        LayerRunError::OutputCount {
                            actual: next_hidden_lens@.len() as usize,
                            expected: hidden_lens@.len() as usize,
                        },
                    )
                } else {
                    Ok::<(), LayerRunError>(())
                },
            },
        },
{
    match validate_hidden_states(dims, hidden_lens) {
        Ok(()) => {},
        Err(e) => {
            return Err(LayerRunError::HiddenStates(e));
        },
    }
    match validate_hidden_states(dims, next_hidden_lens) {
        Ok(()) => {},
        Err(e) => {
            return Err(LayerRunError::HiddenStates(e));
        },
    }
    if next_hidden_lens.len() != hidden_lens.len() {
        return Err(LayerRunError::OutputCount { actual: next_hidden_lens.len(), expected: hidden_lens.len() });
    }
    Ok(())
}

} // verus!
