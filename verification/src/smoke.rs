//! The checks that come before a single-layer Qwen3.5 smoke run: the configuration,
//! the layer's kind, the position and the token, and the shapes of the state buffers a
//! linear-attention layer needs. Running the layer on the device is left to the caller.
use vstd::prelude::*;

use crate::model::{validate_token, ModelError, TextLayerKind, TextModelKind};
use crate::text_config::TextConfigCore;

verus! {

/// Why a single-layer smoke run cannot start.
#[derive(Debug, Clone, Copy, PartialEq, Eq, Structural)]
pub enum LayerSmokeError {
    /// The configuration is not a Qwen3.5 text configuration.
    NotQwen35,
    /// The layer index is out of range, or the token is not in the vocabulary.
    Model(ModelError),
    /// The layer is not a full-attention layer.
    NotFullAttention { layer: usize },
    /// The layer is not a linear-attention layer.
    NotLinearAttention { layer: usize },
    /// Only position 0 is supported.
    NonzeroPosition,
    /// The linear-attention parameters are missing.
    MissingLinearParams,
    /// The convolution state's length overflows `usize`.
    ConvStateOverflow,
    /// The recurrent state's length overflows `usize`.
    RecurrentStateOverflow,
}

/// The checks both smoke runs share, in order: the configuration's kind, the layer's
/// kind, the position, the token.
pub open spec fn spec_smoke_check(core: TextConfigCore, layer: usize, token_id: u32, position: usize, full: bool) -> Result<
    (),
    LayerSmokeError,
> {
    if core.model_kind != TextModelKind::Qwen35Text {
        Err(LayerSmokeError::NotQwen35)
    } else if layer >= core.layer_kinds.spec_len() {
        Err(
            LayerSmokeError::Model(ModelError::LayerIndexOutOfRange { layer, len: core.layer_kinds.spec_len() }),
        )
    } else if full && core.layer_kinds.spec_kind(layer as int) != TextLayerKind::FullAttention {
        Err(LayerSmokeError::NotFullAttention { layer })
    } else if !full && core.layer_kinds.spec_kind(layer as int) != TextLayerKind::LinearAttention {
        Err(LayerSmokeError::NotLinearAttention { layer })
    } else if position != 0 {
        Err(LayerSmokeError::NonzeroPosition)
    } else if token_id >= core.dims.vocab_size {
        Err(LayerSmokeError::Model(ModelError::TokenOutOfRange { token: token_id, vocab_size: core.dims.vocab_size }))
    } else {
        Ok(())
    }
}

fn smoke_check(core: &TextConfigCore, layer: usize, token_id: u32, position: usize, full: bool) -> (r: Result<
    (),
    LayerSmokeError,
>)
    ensures
        r == spec_smoke_check(*core, layer, token_id, position, full),
{
    if core.model_kind != TextModelKind::Qwen35Text {
        return Err(LayerSmokeError::NotQwen35);
    }
    let kind = match core.layer_kinds.kind(layer) {
        Ok(k) => k,
        Err(e) => {
            return Err(LayerSmokeError::Model(e));
        },
    };
    if full && kind != TextLayerKind::FullAttention {
        return Err(LayerSmokeError::NotFullAttention { layer });
    }
    if !full && kind != TextLayerKind::LinearAttention {
        return Err(LayerSmokeError::NotLinearAttention { layer });
    }
    if position != 0 {
        return Err(LayerSmokeError::NonzeroPosition);
    }
    match validate_token(&core.dims, token_id) {
        Ok(()) => Ok(()),
        Err(e) => Err(LayerSmokeError::Model(e)),
    }
}

/// Checks a full-attention smoke run of `layer` on `token_id` at `position`, and gives
/// the sequence length its cache needs: one past the position.
pub fn qwen35_full_layer_smoke_check(core: &TextConfigCore, layer: usize, token_id: u32, position: usize) -> (r:
    Result<usize, LayerSmokeError>)
    ensures
        match spec_smoke_check(*core, layer, token_id, position, true) {
            Err(e) => r == Err::<usize, LayerSmokeError>(e),
            Ok(()) => r == Ok::<usize, LayerSmokeError>((position + 1) as usize),
        },
{
    match smoke_check(core, layer, token_id, position, true) {
        Err(e) => Err(e),
        Ok(()) => Ok(position + 1),
    }
}

/// The buffer lengths a linear-attention smoke run needs.
#[derive(Debug, Clone, Copy, PartialEq, Eq, Structural)]
pub struct LinearSmokeShapes {
    /// The fused query/key/value width.
    pub qkv_dim: usize,
    /// The value width.
    pub value_dim: usize,
    /// The width of the queries and keys once spread over the value heads.
    pub key_state_dim: usize,
    /// The convolution state: the fused width times the kernel length.
    pub conv_state_len: usize,
    /// The recurrent state: a key-by-value matrix per value head.
    pub recurrent_state_len: usize,
}

/// The widths of the linear-attention parameters fit `usize`.
pub open spec fn linear_widths_fit(core: TextConfigCore) -> bool {
    core.qwen3_5 matches Some(p) ==> {
        &&& p.linear_num_key_heads * p.linear_key_head_dim * 2 + p.linear_num_value_heads * p.linear_value_head_dim
            <= usize::MAX
        &&& p.linear_num_value_heads * p.linear_key_head_dim <= usize::MAX
    }
}

/// Checks a linear-attention smoke run of `layer` on `token_id` at `position`, and gives
/// the lengths of the buffers it needs; the two state lengths are checked for overflow.
pub fn qwen35_linear_layer_smoke_check(core: &TextConfigCore, layer: usize, token_id: u32, position: usize) -> (r:
    Result<LinearSmokeShapes, LayerSmokeError>)
    requires
        linear_widths_fit(*core),
    ensures
        match spec_smoke_check(*core, layer, token_id, position, false) {
            Err(e) => r == Err::<LinearSmokeShapes, LayerSmokeError>(e),
            Ok(()) => match core.qwen3_5 {
                None => r == Err::<LinearSmokeShapes, LayerSmokeError>(LayerSmokeError::MissingLinearParams),
                Some(p) => {
                    let qkv = p.linear_num_key_heads * p.linear_key_head_dim * 2 + p.linear_num_value_heads
                        * p.linear_value_head_dim;
                    if qkv * p.linear_conv_kernel_dim > usize::MAX {
                        r == Err::<LinearSmokeShapes, LayerSmokeError>(LayerSmokeError::ConvStateOverflow)
                    } else if p.linear_num_value_heads * p.linear_key_head_dim * p.linear_value_head_dim > usize::MAX {
                        r == Err::<LinearSmokeShapes, LayerSmokeError>(LayerSmokeError::RecurrentStateOverflow)
                    } else {
                        r == Ok::<LinearSmokeShapes, LayerSmokeError>(
                            LinearSmokeShapes {
                                qkv_dim: qkv as usize,
                                value_dim: (p.linear_num_value_heads * p.linear_value_head_dim) as usize,
                                key_state_dim: (p.linear_num_value_heads * p.linear_key_head_dim) as usize,
                                conv_state_len: (qkv * p.linear_conv_kernel_dim) as usize,
                                recurrent_state_len: (p.linear_num_value_heads * p.linear_key_head_dim
                                    * p.linear_value_head_dim) as usize,
                            },
                        )
                    }
                },
            },
        },
{
    match smoke_check(core, layer, token_id, position, false) {
        Err(e) => {
            return Err(e);
        },
        Ok(()) => {},
    }
    let params = match core.qwen3_5 {
        Some(p) => p,
        None => {
            return Err(LayerSmokeError::MissingLinearParams);
        },
    };
    let qkv_dim = params.qkv_dim();
    assert(params.linear_num_value_heads * params.linear_value_head_dim <= usize::MAX) by (nonlinear_arith)
        requires
            params.linear_num_key_heads * params.linear_key_head_dim * 2 + params.linear_num_value_heads
                * params.linear_value_head_dim <= usize::MAX,
    ;
    let value_dim = params.value_dim();
    let key_state_dim = params.linear_num_value_heads * params.linear_key_head_dim;
    let conv_state_len = match qkv_dim.checked_mul(params.linear_conv_kernel_dim) {
        Some(n) => n,
        None => {
            return Err(LayerSmokeError::ConvStateOverflow);
        },
    };
    let recurrent_state_len = match key_state_dim.checked_mul(params.linear_value_head_dim) {
        Some(n) => n,
        None => {
            return Err(LayerSmokeError::RecurrentStateOverflow);
        },
    };
    Ok(LinearSmokeShapes { qkv_dim, value_dim, key_state_dim, conv_state_len, recurrent_state_len })
}

/// Whether the linear-attention widths fit `usize`.
pub fn linear_smoke_widths_fit(core: &TextConfigCore) -> (r: bool)
    ensures
        r == linear_widths_fit(*core),
{
    match core.qwen3_5 {
        None => true,
        Some(p) => {
            let key = match p.linear_num_key_heads.checked_mul(p.linear_key_head_dim) {
                Some(k) => k,
                None => {
                    assert(p.linear_num_key_heads * p.linear_key_head_dim * 2 + p.linear_num_value_heads
                        * p.linear_value_head_dim > usize::MAX) by (nonlinear_arith)
                        requires
                            p.linear_num_key_heads * p.linear_key_head_dim > usize::MAX,
                    ;
                    return false;
                },
            };
            let value = match p.linear_num_value_heads.checked_mul(p.linear_value_head_dim) {
                Some(v) => v,
                None => {
                    assert(p.linear_num_key_heads * p.linear_key_head_dim * 2 + p.linear_num_value_heads
                        * p.linear_value_head_dim > usize::MAX) by (nonlinear_arith)
                        requires
                            p.linear_num_value_heads * p.linear_value_head_dim > usize::MAX,
                    ;
                    return false;
                },
            };
            let key2 = match key.checked_mul(2) {
                Some(k) => k,
                None => {
                    return false;
                },
            };
            key2.checked_add(value).is_some() && p.linear_num_value_heads.checked_mul(p.linear_key_head_dim).is_some()
        },
    }
}

} // verus!
