//! Text-model configuration: which decoder layers use full or linear attention,
//! the Qwen3.5 linear-attention dimensions, and the bookkeeping types of the runtime.
use vstd::prelude::*;

use crate::dtypes::DType;
use crate::json::{parse_json_usize_field, spec_json_usize_field, JsonError};
use crate::profile_json::{decimal, push_decimal};
use crate::text::{chars_eq, push_str};

verus! {

/// Why a model configuration was refused.
#[derive(Debug, Clone, Copy, PartialEq, Eq, Structural)]
pub enum ModelError {
    Json(JsonError),
    /// `full_attention_interval` is zero.
    ZeroFullAttentionInterval,
    /// Layer kinds are kept in a 128-bit mask; more layers cannot be described.
    TooManyLayerTypes { len: usize },
    /// `layer_types[layer]` is neither `full_attention` nor `linear_attention`.
    UnsupportedLayerType { layer: usize },
    /// The number of layer kinds differs from `num_hidden_layers`.
    LayerCountMismatch { layer_types: usize, n_layers: usize },
    /// A layer index at or beyond the number of layers.
    LayerIndexOutOfRange { layer: usize, len: usize },
    ZeroLinearConvKernelDim,
    ZeroLinearHeadDim,
    ZeroLinearHeadCount,
    /// `linear_num_value_heads` is not a multiple of `linear_num_key_heads`.
    LinearHeadsNotDivisible { value_heads: usize, key_heads: usize },
    /// An export file length does not fit `usize`.
    ExportLenOverflow,
    /// A layer index at or beyond the model's number of layers.
    LayerOutOfRange { layer: usize, n_layers: usize },
    /// A token id at or beyond the vocabulary size.
    TokenOutOfRange { token: u32, vocab_size: usize },
    /// A runtime sequence length beyond the model's position limit.
    MaxSeqLenTooLong { max_seq_len: usize, max_position_embeddings: usize },
    /// No hidden states were given.
    NoHiddenStates,
    /// A hidden state whose length is not the model dimension.
    HiddenStateLen { index: usize, len: usize, expected: usize },
    /// A tensor whose shape is not the expected one.
    ShapeMismatch,
    /// `hidden_size` is zero.
    ZeroHiddenSize,
    /// `intermediate_size` is zero.
    ZeroIntermediateSize,
    /// `num_hidden_layers` is zero.
    ZeroLayers,
    /// `num_attention_heads` is zero.
    ZeroHeads,
    /// `num_key_value_heads` is zero.
    ZeroKvHeads,
    /// `head_dim` is zero or odd.
    BadHeadDim { head_dim: usize },
    /// The rotary dimension is zero, odd, or beyond `head_dim`.
    BadRotaryDim { rotary_dim: usize, head_dim: usize },
    /// `num_attention_heads` is not a multiple of `num_key_value_heads`.
    HeadsNotDivisible { n_heads: usize, n_kv_heads: usize },
    /// `max_position_embeddings` is zero.
    ZeroMaxPositions,
    /// `vocab_size` is zero.
    ZeroVocabSize,
    /// `eos_token_id` is not below `vocab_size`.
    EosOutOfRange { eos_token_id: u32, vocab_size: usize },
    /// A Qwen3.5 config without linear-attention parameters.
    MissingQwenParams,
    /// Linear-attention layers without linear-attention parameters.
    LinearLayersNeedParams,
}

/// The message that describes a configuration fault.
pub open spec fn model_error_message(e: ModelError) -> Seq<char> {
    match e {
            ModelError::Json(_) => "text config JSON could not be read"@,
            ModelError::ZeroFullAttentionInterval => "Qwen3.5 full_attention_interval must be nonzero"@,
            ModelError::TooManyLayerTypes { len } => "explicit layer type masks support at most 128 layers, got "@ + decimal(len as nat),
            ModelError::UnsupportedLayerType { layer } => "unsupported text_config.layer_types["@ + decimal(layer as nat) + "] value"@,
            ModelError::LayerCountMismatch { layer_types, n_layers } => "text layer type count "@ + decimal(layer_types as nat) + " does not match num_hidden_layers "@ + decimal(n_layers as nat),
            ModelError::LayerIndexOutOfRange { layer, len } => "layer index "@ + decimal(layer as nat) + " exceeds text layer count "@ + decimal(len as nat),
            ModelError::ZeroLinearConvKernelDim => "Qwen3.5 linear_conv_kernel_dim must be nonzero"@,
            ModelError::ZeroLinearHeadDim => "Qwen3.5 linear key/value head dims must be nonzero"@,
            ModelError::ZeroLinearHeadCount => "Qwen3.5 linear key/value head counts must be nonzero"@,
            ModelError::LinearHeadsNotDivisible { value_heads, key_heads } => "Qwen3.5 linear_num_value_heads "@ + decimal(value_heads as nat) + " must be divisible by linear_num_key_heads "@ + decimal(key_heads as nat),
            ModelError::ExportLenOverflow => "export file byte count overflows usize"@,
            ModelError::LayerOutOfRange { layer, n_layers } => "layer "@ + decimal(layer as nat) + " is out of range for "@ + decimal(n_layers as nat) + " layers"@,
            ModelError::TokenOutOfRange { token, vocab_size } => "token "@ + decimal(token as nat) + " is out of range for vocab size "@ + decimal(vocab_size as nat),
            ModelError::MaxSeqLenTooLong { max_seq_len, max_position_embeddings } => "runtime max_seq_len "@ + decimal(max_seq_len as nat) + " exceeds model max_position_embeddings "@ + decimal(max_position_embeddings as nat),
            ModelError::NoHiddenStates => "hidden state list must be nonempty"@,
            ModelError::HiddenStateLen { index, len, expected } => "hidden state "@ + decimal(index as nat) + " has length "@ + decimal(len as nat) + ", expected "@ + decimal(expected as nat),
            ModelError::ShapeMismatch => "tensor shape does not match the expected shape"@,
            ModelError::ZeroHiddenSize => "text config hidden_size must be nonzero"@,
            ModelError::ZeroIntermediateSize => "text config intermediate_size must be nonzero"@,
            ModelError::ZeroLayers => "text config num_hidden_layers must be nonzero"@,
            ModelError::ZeroHeads => "text config num_attention_heads must be nonzero"@,
            ModelError::ZeroKvHeads => "text config num_key_value_heads must be nonzero"@,
            ModelError::BadHeadDim { head_dim } => "text config head_dim must be nonzero and even, got "@ + decimal(head_dim as nat),
            ModelError::BadRotaryDim { rotary_dim, head_dim } => "text config rotary_dim must be even, nonzero, and <= head_dim; got rotary_dim "@ + decimal(rotary_dim as nat) + " head_dim "@ + decimal(head_dim as nat),
            ModelError::HeadsNotDivisible { n_heads, n_kv_heads } => "text config num_attention_heads "@ + decimal(n_heads as nat) + " must be divisible by num_key_value_heads "@ + decimal(n_kv_heads as nat),
            ModelError::ZeroMaxPositions => "text config max_position_embeddings must be nonzero"@,
            ModelError::ZeroVocabSize => "text config vocab_size must be nonzero"@,
            ModelError::EosOutOfRange { eos_token_id, vocab_size } => "text config eos_token_id "@ + decimal(eos_token_id as nat) + " must be less than vocab_size "@ + decimal(vocab_size as nat),
            ModelError::MissingQwenParams => "Qwen3.5 text config is missing linear-attention parameters"@,
            ModelError::LinearLayersNeedParams => "Qwen3.5 linear attention parameters are missing"@,
    }
}

impl ModelError {
    /// The error as a sentence.
    pub fn message(&self) -> (r: String)
        ensures
            r@ == model_error_message(*self),
    {
        let mut out = String::new();
        match *self {
            ModelError::Json(_) => {
                push_str(&mut out, "text config JSON could not be read");
            },
            ModelError::ZeroFullAttentionInterval => {
                push_str(&mut out, "Qwen3.5 full_attention_interval must be nonzero");
            },
            ModelError::TooManyLayerTypes { len } => {
                push_str(&mut out, "explicit layer type masks support at most 128 layers, got ");
                push_decimal(&mut out, len as u128);
            },
            ModelError::UnsupportedLayerType { layer } => {
                push_str(&mut out, "unsupported text_config.layer_types[");
                push_decimal(&mut out, layer as u128);
                push_str(&mut out, "] value");
            },
            ModelError::LayerCountMismatch { layer_types, n_layers } => {
                push_str(&mut out, "text layer type count ");
                push_decimal(&mut out, layer_types as u128);
                push_str(&mut out, " does not match num_hidden_layers ");
                push_decimal(&mut out, n_layers as u128);
            },
            ModelError::LayerIndexOutOfRange { layer, len } => {
                push_str(&mut out, "layer index ");
                push_decimal(&mut out, layer as u128);
                push_str(&mut out, " exceeds text layer count ");
                push_decimal(&mut out, len as u128);
            },
            ModelError::ZeroLinearConvKernelDim => {
                push_str(&mut out, "Qwen3.5 linear_conv_kernel_dim must be nonzero");
            },
            ModelError::ZeroLinearHeadDim => {
                push_str(&mut out, "Qwen3.5 linear key/value head dims must be nonzero");
            },
            ModelError::ZeroLinearHeadCount => {
                push_str(&mut out, "Qwen3.5 linear key/value head counts must be nonzero");
            },
            ModelError::LinearHeadsNotDivisible { value_heads, key_heads } => {
                push_str(&mut out, "Qwen3.5 linear_num_value_heads ");
                push_decimal(&mut out, value_heads as u128);
                push_str(&mut out, " must be divisible by linear_num_key_heads ");
                push_decimal(&mut out, key_heads as u128);
            },
            ModelError::ExportLenOverflow => {
                push_str(&mut out, "export file byte count overflows usize");
            },
            ModelError::LayerOutOfRange { layer, n_layers } => {
                push_str(&mut out, "layer ");
                push_decimal(&mut out, layer as u128);
                push_str(&mut out, " is out of range for ");
                push_decimal(&mut out, n_layers as u128);
                push_str(&mut out, " layers");
            },
            ModelError::TokenOutOfRange { token, vocab_size } => {
                push_str(&mut out, "token ");
                push_decimal(&mut out, token as u128);
                push_str(&mut out, " is out of range for vocab size ");
                push_decimal(&mut out, vocab_size as u128);
            },
            ModelError::MaxSeqLenTooLong { max_seq_len, max_position_embeddings } => {
                push_str(&mut out, "runtime max_seq_len ");
                push_decimal(&mut out, max_seq_len as u128);
                push_str(&mut out, " exceeds model max_position_embeddings ");
                push_decimal(&mut out, max_position_embeddings as u128);
            },
            ModelError::NoHiddenStates => {
                push_str(&mut out, "hidden state list must be nonempty");
            },
            ModelError::HiddenStateLen { index, len, expected } => {
                push_str(&mut out, "hidden state ");
                push_decimal(&mut out, index as u128);
                push_str(&mut out, " has length ");
                push_decimal(&mut out, len as u128);
                push_str(&mut out, ", expected ");
                push_decimal(&mut out, expected as u128);
            },
            ModelError::ShapeMismatch => {
                push_str(&mut out, "tensor shape does not match the expected shape");
            },
            ModelError::ZeroHiddenSize => {
                push_str(&mut out, "text config hidden_size must be nonzero");
            },
            ModelError::ZeroIntermediateSize => {
                push_str(&mut out, "text config intermediate_size must be nonzero");
            },
            ModelError::ZeroLayers => {
                push_str(&mut out, "text config num_hidden_layers must be nonzero");
            },
            ModelError::ZeroHeads => {
                push_str(&mut out, "text config num_attention_heads must be nonzero");
            },
            ModelError::ZeroKvHeads => {
                push_str(&mut out, "text config num_key_value_heads must be nonzero");
            },
            ModelError::BadHeadDim { head_dim } => {
                push_str(&mut out, "text config head_dim must be nonzero and even, got ");
                push_decimal(&mut out, head_dim as u128);
            },
            ModelError::BadRotaryDim { rotary_dim, head_dim } => {
                push_str(&mut out, "text config rotary_dim must be even, nonzero, and <= head_dim; got rotary_dim ");
                push_decimal(&mut out, rotary_dim as u128);
                push_str(&mut out, " head_dim ");
                push_decimal(&mut out, head_dim as u128);
            },
            ModelError::HeadsNotDivisible { n_heads, n_kv_heads } => {
                push_str(&mut out, "text config num_attention_heads ");
                push_decimal(&mut out, n_heads as u128);
                push_str(&mut out, " must be divisible by num_key_value_heads ");
                push_decimal(&mut out, n_kv_heads as u128);
            },
            ModelError::ZeroMaxPositions => {
                push_str(&mut out, "text config max_position_embeddings must be nonzero");
            },
            ModelError::ZeroVocabSize => {
                push_str(&mut out, "text config vocab_size must be nonzero");
            },
            ModelError::EosOutOfRange { eos_token_id, vocab_size } => {
                push_str(&mut out, "text config eos_token_id ");
                push_decimal(&mut out, eos_token_id as u128);
                push_str(&mut out, " must be less than vocab_size ");
                push_decimal(&mut out, vocab_size as u128);
            },
            ModelError::MissingQwenParams => {
                push_str(&mut out, "Qwen3.5 text config is missing linear-attention parameters");
            },
            ModelError::LinearLayersNeedParams => {
                push_str(&mut out, "Qwen3.5 linear attention parameters are missing");
            },
        }
        out
    }
}

#[derive(Debug, Clone, Copy, PartialEq, Eq, Structural)]
pub enum TextModelKind {
    FullAttentionDecoder,
    Qwen35Text,
}

#[derive(Debug, Clone, Copy, PartialEq, Eq, Structural)]
pub enum TextLayerKind {
    FullAttention,
    LinearAttention,
}

/// The attention kind of every decoder layer. Without an explicit list every layer
/// uses full attention; an explicit list is kept as a mask whose bit `l` marks
/// layer `l` as full attention.
#[derive(Debug, Clone, Copy, PartialEq, Eq, Structural)]
pub struct TextLayerKinds {
    len: usize,
    explicit: bool,
    full_attention_mask: u128,
}

/// Bit `l` of a mask.
pub open spec fn mask_bit(mask: u128, l: int) -> bool {
    ((mask >> (l as u128)) & 1u128) != 0
}

pub proof fn lemma_mask_set_bit(m: u128, i: u128, j: u128)
    by (bit_vector)
    requires
        i < 128,
        j < 128,
    ensures
        ((m | (1u128 << i)) >> j) & 1u128 == (if i == j {
            1u128
        } else {
            (m >> j) & 1u128
        }),
{
}

pub proof fn lemma_mask_zero(j: u128)
    by (bit_vector)
    requires
        j < 128,
    ensures
        (0u128 >> j) & 1u128 == 0,
{
}

/// The number of layers below `n` that use full attention.
pub open spec fn count_full(kinds: TextLayerKinds, n: int) -> nat
    decreases n,
{
    if n <= 0 {
        0
    } else {
        count_full(kinds, n - 1) + if kinds.spec_is_full(n - 1) {
            1nat
        } else {
            0nat
        }
    }
}

pub proof fn lemma_count_full_bounds(kinds: TextLayerKinds, n: int)
    requires
        n >= 0,
    ensures
        count_full(kinds, n) <= n,
        !kinds.spec_explicit() ==> count_full(kinds, n) == n,
    decreases n,
{
    if n > 0 {
        lemma_count_full_bounds(kinds, n - 1);
    }
}

impl TextLayerKinds {
    #[verifier::type_invariant]
    spec fn inv(self) -> bool {
        &&& self.explicit ==> self.len <= 128
        &&& self.explicit ==> forall|l: int| self.len <= l < 128 ==> !#[trigger] mask_bit(
            self.full_attention_mask,
            l,
        )
        &&& !self.explicit ==> self.full_attention_mask == 0
    }

    pub closed spec fn spec_len(self) -> usize {
        self.len
    }

    pub closed spec fn spec_explicit(self) -> bool {
        self.explicit
    }

    /// True when layer `l` uses full attention.
    pub closed spec fn spec_is_full(self, l: int) -> bool {
        !self.explicit || mask_bit(self.full_attention_mask, l)
    }

    /// The kind of layer `l`.
    pub open spec fn spec_kind(self, l: int) -> TextLayerKind {
        if self.spec_is_full(l) {
            TextLayerKind::FullAttention
        } else {
            TextLayerKind::LinearAttention
        }
    }

    /// `len` layers, all with full attention.
    pub fn all_full_attention(len: usize) -> (r: Self)
        ensures
            r.spec_len() == len,
            !r.spec_explicit(),
            forall|l: int| 0 <= l < len ==> #[trigger] r.spec_is_full(l),
    {
        Self { len, explicit: false, full_attention_mask: 0 }
    }

    /// Qwen3.5's default layout: every `interval`-th layer (the last of each group)
    /// uses full attention, the others linear attention.
    pub fn from_qwen_full_attention_interval(len: usize, interval: usize) -> (r: Result<Self, ModelError>)
        ensures
            interval == 0 ==> r == Err::<Self, ModelError>(ModelError::ZeroFullAttentionInterval),
            interval != 0 && len > 128 ==> r == Err::<Self, ModelError>(
                ModelError::TooManyLayerTypes { len },
            ),
            interval != 0 && len <= 128 ==> (r matches Ok(k) && k.spec_len() == len && k.spec_explicit()
                && forall|l: int| 0 <= l < len ==> #[trigger] k.spec_is_full(l) == ((l + 1) % (
                interval as int) == 0)),
    {
        if interval == 0 {
            return Err(ModelError::ZeroFullAttentionInterval);
        }
        if len > 128 {
            return Err(ModelError::TooManyLayerTypes { len });
        }
        let mut mask: u128 = 0;
        let mut layer: usize = 0;
        proof {
            assert forall|l: int| 0 <= l < 128 implies !#[trigger] mask_bit(mask, l) by {
                lemma_mask_zero(l as u128);
            }
        }
        while layer < len
            invariant
                len <= 128,
                interval != 0,
                layer <= len,
                forall|l: int| 0 <= l < layer ==> #[trigger] mask_bit(mask, l) == ((l + 1) % (
                interval as int) == 0),
                forall|l: int| layer <= l < 128 ==> !#[trigger] mask_bit(mask, l),
            decreases len - layer,
        {
            if (layer + 1) % interval == 0 {
                let ghost old_mask = mask;
                mask = mask | (1u128 << (layer as u128));
                proof {
                    assert forall|l: int| 0 <= l < 128 implies #[trigger] mask_bit(mask, l) == (l
                        == layer || mask_bit(old_mask, l)) by {
                        lemma_mask_set_bit(old_mask, layer as u128, l as u128);
                    }
                }
            }
            layer = layer + 1;
        }
        Self::explicit(len, mask)
    }

    /// Layer kinds read from `layer_types`: `full_attention` or `linear_attention`
    /// for each layer, in order.
    pub fn from_layer_type_names(names: &[String]) -> (r: Result<Self, ModelError>)
        ensures
            names@.len() > 128 ==> r == Err::<Self, ModelError>(
                ModelError::TooManyLayerTypes { len: names@.len() as usize },
            ),
            names@.len() <= 128 ==> match r {
                Ok(k) => k.spec_len() == names@.len() && k.spec_explicit() && (forall|l: int|
                    0 <= l < names@.len() ==> (names@[l]@ == "full_attention"@ || names@[l]@
                        == "linear_attention"@)) && (forall|l: int|
                    0 <= l < names@.len() ==> #[trigger] k.spec_is_full(l) == (names@[l]@
                        == "full_attention"@)),
                Err(e) => e matches ModelError::UnsupportedLayerType { layer } && layer
                    < names@.len() && names@[layer as int]@ != "full_attention"@ && names@[layer as int]@
                    != "linear_attention"@ && forall|l: int|
                    0 <= l < layer ==> (names@[l]@ == "full_attention"@ || names@[l]@
                        == "linear_attention"@),
            },
    {
        if names.len() > 128 {
            return Err(ModelError::TooManyLayerTypes { len: names.len() });
        }
        let mut mask: u128 = 0;
        let mut layer: usize = 0;
        proof {
            assert forall|l: int| 0 <= l < 128 implies !#[trigger] mask_bit(mask, l) by {
                lemma_mask_zero(l as u128);
            }
        }
        while layer < names.len()
            invariant
                names@.len() <= 128,
                layer <= names@.len(),
                forall|l: int|
                    0 <= l < layer ==> (names@[l]@ == "full_attention"@ || names@[l]@
                        == "linear_attention"@),
                forall|l: int| 0 <= l < layer ==> #[trigger] mask_bit(mask, l) == (names@[l]@
                    == "full_attention"@),
                forall|l: int| layer <= l < 128 ==> !#[trigger] mask_bit(mask, l),
            decreases names@.len() - layer,
        {
            let name = names[layer].as_str();
            if chars_eq(name, "full_attention") {
                let ghost old_mask = mask;
                mask = mask | (1u128 << (layer as u128));
                proof {
                    assert forall|l: int| 0 <= l < 128 implies #[trigger] mask_bit(mask, l) == (l
                        == layer || mask_bit(old_mask, l)) by {
                        lemma_mask_set_bit(old_mask, layer as u128, l as u128);
                    }
                }
            } else if chars_eq(name, "linear_attention") {
            } else {
                return Err(ModelError::UnsupportedLayerType { layer });
            }
            layer = layer + 1;
        }
        Self::explicit(names.len(), mask)
    }

    fn explicit(len: usize, full_attention_mask: u128) -> (r: Result<Self, ModelError>)
        requires
            len <= 128 ==> forall|l: int| len <= l < 128 ==> !#[trigger] mask_bit(
                full_attention_mask,
                l,
            ),
        ensures
            len > 128 ==> r == Err::<Self, ModelError>(ModelError::TooManyLayerTypes { len }),
            len <= 128 ==> (r matches Ok(k) && k.spec_len() == len && k.spec_explicit() && forall|
                l: int,
            | #[trigger] k.spec_is_full(l) == mask_bit(full_attention_mask, l)),
    {
        if len > 128 {
            return Err(ModelError::TooManyLayerTypes { len });
        }
        Ok(Self { len, explicit: true, full_attention_mask })
    }

    /// Checks that there is one kind for each of `n_layers` layers.
    pub fn validate_for_layers(&self, n_layers: usize) -> (r: Result<(), ModelError>)
        ensures
            r == (if self.spec_len() == n_layers {
                Ok::<(), ModelError>(())
            } else {
                Err(ModelError::LayerCountMismatch { layer_types: self.spec_len(), n_layers })
            }),
    {
        if self.len != n_layers {
            return Err(ModelError::LayerCountMismatch { layer_types: self.len, n_layers });
        }
        Ok(())
    }

    /// The attention kind of layer `layer`.
    pub fn kind(self, layer: usize) -> (r: Result<TextLayerKind, ModelError>)
        ensures
            r == (if layer < self.spec_len() {
                Ok::<TextLayerKind, ModelError>(self.spec_kind(layer as int))
            } else {
                Err(ModelError::LayerIndexOutOfRange { layer, len: self.spec_len() })
            }),
    {
        proof {
            use_type_invariant(&self);
        }
        if layer >= self.len {
            return Err(ModelError::LayerIndexOutOfRange { layer, len: self.len });
        }
        if !self.explicit || ((self.full_attention_mask >> (layer as u128)) & 1u128) != 0 {
            Ok(TextLayerKind::FullAttention)
        } else {
            Ok(TextLayerKind::LinearAttention)
        }
    }

    pub fn len(self) -> (r: usize)
        ensures
            r == self.spec_len(),
    {
        self.len
    }

    /// The number of layers that use full attention.
    pub fn full_attention_count(self) -> (r: usize)
        ensures
            r == count_full(self, self.spec_len() as int),
    {
        proof {
            use_type_invariant(&self);
            lemma_count_full_bounds(self, self.len as int);
        }
        if !self.explicit {
            return self.len;
        }
        let mut count: usize = 0;
        let mut layer: usize = 0;
        while layer < self.len
            invariant
                self.explicit,
                self.len <= 128,
                layer <= self.len,
                count == count_full(self, layer as int),
                count <= layer,
            decreases self.len - layer,
        {
            if ((self.full_attention_mask >> (layer as u128)) & 1u128) != 0 {
                count = count + 1;
            }
            layer = layer + 1;
        }
        count
    }

    /// The number of layers that use linear attention.
    pub fn linear_attention_count(self) -> (r: usize)
        ensures
            r == self.spec_len() - count_full(self, self.spec_len() as int),
    {
        proof {
            lemma_count_full_bounds(self, self.len as int);
        }
        self.len - self.full_attention_count()
    }

    pub fn has_linear_attention(self) -> (r: bool)
        ensures
            r == (count_full(self, self.spec_len() as int) < self.spec_len()),
    {
        self.linear_attention_count() > 0
    }
}

/// The dimensions of Qwen3.5's linear-attention (gated delta) layers.
#[derive(Debug, Clone, Copy)]
pub struct Qwen35TextParams {
    pub linear_conv_kernel_dim: usize,
    pub linear_key_head_dim: usize,
    pub linear_value_head_dim: usize,
    pub linear_num_key_heads: usize,
    pub linear_num_value_heads: usize,
}

/// The parameters a `text_config` object gives, or the first field that is missing
/// or malformed, in the order they are read.
pub open spec fn spec_qwen35_params(text_config: Seq<u8>) -> Result<(usize, usize, usize, usize, usize), JsonError> {
    match spec_json_usize_field(text_config, vstd::utf8::encode_utf8("linear_conv_kernel_dim"@)) {
        Err(e) => Err(e),
        Ok(a) => match spec_json_usize_field(text_config, vstd::utf8::encode_utf8("linear_key_head_dim"@)) {
            Err(e) => Err(e),
            Ok(b) => match spec_json_usize_field(text_config, vstd::utf8::encode_utf8("linear_value_head_dim"@)) {
                Err(e) => Err(e),
                Ok(c) => match spec_json_usize_field(text_config, vstd::utf8::encode_utf8("linear_num_key_heads"@)) {
                    Err(e) => Err(e),
                    Ok(d) => match spec_json_usize_field(
                        text_config,
                        vstd::utf8::encode_utf8("linear_num_value_heads"@),
                    ) {
                        Err(e) => Err(e),
                        Ok(f) => Ok((a, b, c, d, f)),
                    },
                },
            },
        },
    }
}

impl Qwen35TextParams {
    /// Reads the linear-attention parameters of a `text_config` object.
    pub fn from_text_config_json(text_config: &[u8]) -> (r: Result<Self, JsonError>)
        ensures
            match spec_qwen35_params(text_config@) {
                Ok((a, b, c, d, f)) => r matches Ok(p) && p.linear_conv_kernel_dim == a
                    && p.linear_key_head_dim == b && p.linear_value_head_dim == c
                    && p.linear_num_key_heads == d && p.linear_num_value_heads == f,
                Err(e) => r == Err::<Self, JsonError>(e),
            },
    {
        let linear_conv_kernel_dim = parse_json_usize_field(text_config, "linear_conv_kernel_dim".as_bytes())?;
        let linear_key_head_dim = parse_json_usize_field(text_config, "linear_key_head_dim".as_bytes())?;
        let linear_value_head_dim = parse_json_usize_field(text_config, "linear_value_head_dim".as_bytes())?;
        let linear_num_key_heads = parse_json_usize_field(text_config, "linear_num_key_heads".as_bytes())?;
        let linear_num_value_heads = parse_json_usize_field(text_config, "linear_num_value_heads".as_bytes())?;
        Ok(Self {
            linear_conv_kernel_dim,
            linear_key_head_dim,
            linear_value_head_dim,
            linear_num_key_heads,
            linear_num_value_heads,
        })
    }

    /// Checks that every dimension is nonzero and that value heads divide evenly
    /// among key heads.
    pub fn validate_for_inference(self) -> (r: Result<(), ModelError>)
        ensures
            r == (if self.linear_conv_kernel_dim == 0 {
                Err(ModelError::ZeroLinearConvKernelDim)
            } else if self.linear_key_head_dim == 0 || self.linear_value_head_dim == 0 {
                Err(ModelError::ZeroLinearHeadDim)
            } else if self.linear_num_key_heads == 0 || self.linear_num_value_heads == 0 {
                Err(ModelError::ZeroLinearHeadCount)
            } else if self.linear_num_value_heads % self.linear_num_key_heads != 0 {
                Err(
                    ModelError::LinearHeadsNotDivisible {
                        value_heads: self.linear_num_value_heads,
                        key_heads: self.linear_num_key_heads,
                    },
                )
            } else {
                Ok::<(), ModelError>(())
            }),
    {
        if self.linear_conv_kernel_dim == 0 {
            return Err(ModelError::ZeroLinearConvKernelDim);
        }
        if self.linear_key_head_dim == 0 || self.linear_value_head_dim == 0 {
            return Err(ModelError::ZeroLinearHeadDim);
        }
        if self.linear_num_key_heads == 0 || self.linear_num_value_heads == 0 {
            return Err(ModelError::ZeroLinearHeadCount);
        }
        if self.linear_num_value_heads % self.linear_num_key_heads != 0 {
            return Err(
                ModelError::LinearHeadsNotDivisible {
                    value_heads: self.linear_num_value_heads,
                    key_heads: self.linear_num_key_heads,
                },
            );
        }
        Ok(())
    }

    /// Width of the query and key projections: key heads times key head width.
    pub fn key_dim(self) -> (r: usize)
        requires
            self.linear_num_key_heads * self.linear_key_head_dim <= usize::MAX,
        ensures
            r == self.linear_num_key_heads * self.linear_key_head_dim,
    {
        self.linear_num_key_heads * self.linear_key_head_dim
    }

    /// Width of the value projection: value heads times value head width.
    pub fn value_dim(self) -> (r: usize)
        requires
            self.linear_num_value_heads * self.linear_value_head_dim <= usize::MAX,
        ensures
            r == self.linear_num_value_heads * self.linear_value_head_dim,
    {
        self.linear_num_value_heads * self.linear_value_head_dim
    }

    /// Width of the fused query/key/value projection.
    pub fn qkv_dim(self) -> (r: usize)
        requires
            self.linear_num_key_heads * self.linear_key_head_dim * 2 + self.linear_num_value_heads
                * self.linear_value_head_dim <= usize::MAX,
        ensures
            r == self.linear_num_key_heads * self.linear_key_head_dim * 2 + self.linear_num_value_heads
                * self.linear_value_head_dim,
    {
        assert(self.linear_num_key_heads * self.linear_key_head_dim <= usize::MAX) by (nonlinear_arith)
            requires
                self.linear_num_key_heads * self.linear_key_head_dim * 2 + self.linear_num_value_heads
                    * self.linear_value_head_dim <= usize::MAX,
        ;
        assert(self.linear_num_value_heads * self.linear_value_head_dim <= usize::MAX) by (nonlinear_arith)
            requires
                self.linear_num_key_heads * self.linear_key_head_dim * 2 + self.linear_num_value_heads
                    * self.linear_value_head_dim <= usize::MAX,
        ;
        self.key_dim() * 2 + self.value_dim()
    }
}

/// Device memory the runtime keeps resident, by purpose.
#[derive(Debug, Clone, Copy)]
pub struct RuntimeMemoryStats {
    pub weights_bytes: usize,
    pub kv_cache_bytes: usize,
    pub scratch_bytes: usize,
    pub total_resident_bytes: usize,
}

/// How many output rows one thread block of the BF16 top-1 projection covers.
#[derive(Debug, Clone, Copy, PartialEq, Eq, Structural)]
pub enum Bf16Top1Plan {
    Rows1,
    Rows2,
    Rows4,
    Rows8,
}

impl Default for Bf16Top1Plan {
    fn default() -> (r: Self)
        ensures
            r == Bf16Top1Plan::Rows4,
    {
        Self::Rows4
    }
}

impl Bf16Top1Plan {
    pub fn label(self) -> (r: &'static str)
        ensures
            r@ == (match self {
                Bf16Top1Plan::Rows1 => "rows1"@,
                Bf16Top1Plan::Rows2 => "rows2"@,
                Bf16Top1Plan::Rows4 => "rows4"@,
                Bf16Top1Plan::Rows8 => "rows8"@,
            }),
    {
        match self {
            Self::Rows1 => "rows1",
            Self::Rows2 => "rows2",
            Self::Rows4 => "rows4",
            Self::Rows8 => "rows8",
        }
    }
}

/// Name, dtype, shape and stored size of one Qwen3.5 weight tensor.
#[derive(Debug, Clone)]
pub struct Qwen35TensorLayout {
    pub name: String,
    pub dtype: DType,
    pub shape: Vec<usize>,
    pub byte_len: u64,
}

#[derive(Debug, Clone)]
pub struct Qwen35FullAttentionWeightLayout {
    pub q_proj: Qwen35TensorLayout,
    pub k_proj: Qwen35TensorLayout,
    pub v_proj: Qwen35TensorLayout,
    pub o_proj: Qwen35TensorLayout,
    pub q_norm: Qwen35TensorLayout,
    pub k_norm: Qwen35TensorLayout,
}

#[derive(Debug, Clone)]
pub struct Qwen35LinearAttentionWeightLayout {
    pub in_proj_qkv: Qwen35TensorLayout,
    pub in_proj_z: Qwen35TensorLayout,
    pub in_proj_a: Qwen35TensorLayout,
    pub in_proj_b: Qwen35TensorLayout,
    pub conv1d: Qwen35TensorLayout,
    pub a_log: Qwen35TensorLayout,
    pub dt_bias: Qwen35TensorLayout,
    pub norm: Qwen35TensorLayout,
    pub out_proj: Qwen35TensorLayout,
}

#[derive(Debug, Clone)]
pub enum Qwen35AttentionWeightLayout {
    Full(Qwen35FullAttentionWeightLayout),
    Linear(Qwen35LinearAttentionWeightLayout),
}

#[derive(Debug, Clone)]
pub struct Qwen35MlpWeightLayout {
    pub gate_proj: Qwen35TensorLayout,
    pub up_proj: Qwen35TensorLayout,
    pub down_proj: Qwen35TensorLayout,
}

#[derive(Debug, Clone)]
pub struct Qwen35LayerWeightLayout {
    pub layer: usize,
    pub input_layernorm: Qwen35TensorLayout,
    pub attention: Qwen35AttentionWeightLayout,
    pub post_attention_layernorm: Qwen35TensorLayout,
    pub mlp: Qwen35MlpWeightLayout,
}

/// What loading one Qwen3.5 layer to the device cost.
#[derive(Debug, Clone, Copy)]
pub struct Qwen35LayerLoadSmoke {
    pub layer: usize,
    pub kind: TextLayerKind,
    pub host_weight_bytes: usize,
    pub device_weight_bytes: usize,
}

/// The byte length `lhs * rhs` of an exported tensor file; an error when it overflows.
pub fn checked_export_file_len(lhs: usize, rhs: usize) -> (r: Result<usize, ModelError>)
    ensures
        lhs * rhs <= usize::MAX ==> r == Ok::<usize, ModelError>((lhs * rhs) as usize),
        lhs * rhs > usize::MAX ==> r == Err::<usize, ModelError>(ModelError::ExportLenOverflow),
{
    match lhs.checked_mul(rhs) {
        Some(len) => Ok(len),
        None => Err(ModelError::ExportLenOverflow),
    }
}

/// Index of the tensor at `offset` (0..7) of decoder layer `layer` in an
/// all-linear int8 export archive; index 0 is the output projection.
pub fn exported_int8_layer_tensor_index(layer: usize, offset: usize) -> (r: usize)
    requires
        1 + layer * 7 + offset <= usize::MAX,
    ensures
        r == 1 + layer * 7 + offset,
{
    1 + layer * 7 + offset
}

/// The integer dimensions of a text model.
#[derive(Debug, Clone, Copy, PartialEq, Eq, Structural)]
pub struct TextDims {
    pub dim: usize,
    pub hidden_dim: usize,
    pub n_layers: usize,
    pub n_heads: usize,
    pub n_kv_heads: usize,
    pub head_dim: usize,
    pub max_position_embeddings: usize,
    pub vocab_size: usize,
}

/// Checks that `layer` is a layer of the model and `token_id` a token of it.
pub fn validate_layer_token(dims: &TextDims, layer: usize, token_id: u32) -> (r: Result<(), ModelError>)
    ensures
        layer >= dims.n_layers ==> r == Err::<(), ModelError>(
            ModelError::LayerOutOfRange { layer, n_layers: dims.n_layers },
        ),
        layer < dims.n_layers && token_id >= dims.vocab_size ==> r == Err::<(), ModelError>(
            ModelError::TokenOutOfRange { token: token_id, vocab_size: dims.vocab_size },
        ),
        layer < dims.n_layers && token_id < dims.vocab_size ==> r is Ok,
{
    if layer >= dims.n_layers {
        return Err(ModelError::LayerOutOfRange { layer, n_layers: dims.n_layers });
    }
    validate_token(dims, token_id)
}

/// Checks that `token_id` is a token of the model's vocabulary.
pub fn validate_token(dims: &TextDims, token_id: u32) -> (r: Result<(), ModelError>)
    ensures
        token_id >= dims.vocab_size ==> r == Err::<(), ModelError>(
            ModelError::TokenOutOfRange { token: token_id, vocab_size: dims.vocab_size },
        ),
        token_id < dims.vocab_size ==> r is Ok,
{
    if token_id as usize >= dims.vocab_size {
        return Err(ModelError::TokenOutOfRange { token: token_id, vocab_size: dims.vocab_size });
    }
    Ok(())
}

/// Checks that a runtime's sequence length stays within the model's position limit.
pub fn validate_runtime_max_seq_len(dims: &TextDims, max_seq_len: usize) -> (r: Result<(), ModelError>)
    ensures
        max_seq_len > dims.max_position_embeddings ==> r == Err::<(), ModelError>(
            ModelError::MaxSeqLenTooLong { max_seq_len, max_position_embeddings: dims.max_position_embeddings },
        ),
        max_seq_len <= dims.max_position_embeddings ==> r is Ok,
{
    if max_seq_len > dims.max_position_embeddings {
        return Err(
            ModelError::MaxSeqLenTooLong { max_seq_len, max_position_embeddings: dims.max_position_embeddings },
        );
    }
    Ok(())
}

/// The first hidden state, among the first `n`, whose length is not `dim`.
pub open spec fn first_bad_hidden_len(lens: Seq<usize>, dim: usize, n: int) -> Option<int>
    decreases n,
{
    if n <= 0 {
        None
    } else {
        match first_bad_hidden_len(lens, dim, n - 1) {
            Some(i) => Some(i),
            None => if lens[n - 1] != dim {
                Some(n - 1)
            } else {
                None
            },
        }
    }
}

/// Checks a non-empty list of hidden states, given by their lengths, against the
/// model dimension.
pub fn validate_hidden_states(dims: &TextDims, hidden_lens: &[usize]) -> (r: Result<(), ModelError>)
    ensures
        hidden_lens@.len() == 0 ==> r == Err::<(), ModelError>(ModelError::NoHiddenStates),
        hidden_lens@.len() > 0 ==> match first_bad_hidden_len(hidden_lens@, dims.dim, hidden_lens@.len() as int) {
            None => r is Ok,
            Some(i) => r == Err::<(), ModelError>(
                ModelError::HiddenStateLen { index: i as usize, len: hidden_lens@[i], expected: dims.dim },
            ),
        },
{
    if hidden_lens.len() == 0 {
        return Err(ModelError::NoHiddenStates);
    }
    let mut i: usize = 0;
    while i < hidden_lens.len()
        invariant
            i <= hidden_lens@.len(),
            first_bad_hidden_len(hidden_lens@, dims.dim, i as int) is None,
        decreases hidden_lens@.len() - i,
    {
        if hidden_lens[i] != dims.dim {
            proof {
                lemma_first_bad_hidden_len_sticks(hidden_lens@, dims.dim, i + 1, hidden_lens@.len() as int);
            }
            return Err(ModelError::HiddenStateLen { index: i, len: hidden_lens[i], expected: dims.dim });
        }
        i = i + 1;
    }
    Ok(())
}

proof fn lemma_first_bad_hidden_len_sticks(lens: Seq<usize>, dim: usize, k: int, n: int)
    requires
        k <= n,
        first_bad_hidden_len(lens, dim, k) is Some,
    ensures
        first_bad_hidden_len(lens, dim, n) == first_bad_hidden_len(lens, dim, k),
    decreases n - k,
{
    if k < n {
        lemma_first_bad_hidden_len_sticks(lens, dim, k, n - 1);
    }
}

/// Checks that a tensor has exactly the expected shape.
pub fn expect_shape(tensor: &crate::safetensors::TensorInfo, expected: &[usize]) -> (r: Result<(), ModelError>)
    ensures
        r is Ok <==> tensor.shape@ == expected@,
        r is Err ==> r == Err::<(), ModelError>(ModelError::ShapeMismatch),
{
    if tensor.shape.len() != expected.len() {
        return Err(ModelError::ShapeMismatch);
    }
    let mut i: usize = 0;
    while i < expected.len()
        invariant
            tensor.shape@.len() == expected@.len(),
            i <= expected@.len(),
            forall|k: int| 0 <= k < i ==> tensor.shape@[k] == expected@[k],
        decreases expected@.len() - i,
    {
        if tensor.shape[i] != expected[i] {
            return Err(ModelError::ShapeMismatch);
        }
        i = i + 1;
    }
    proof {
        assert(tensor.shape@ =~= expected@);
    }
    Ok(())
}

} // verus!
