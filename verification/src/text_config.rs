//! The integer part of a text model's `config.json`: its dimensions, which layers
//! use linear attention, the Qwen3.5 linear-attention parameters, and the checks of
//! those values. The floating-point settings (RoPE, norm epsilon) are read by the caller.
use vstd::prelude::*;

use crate::json::{
    optional_string_array_escapes_whole, object_field_escapes_whole, parse_json_object_field,
    parse_json_usize_field, parse_optional_json_string_array_field, parse_optional_json_string_field,
    parse_optional_json_usize_field, spec_json_object_field, spec_json_string_field, spec_json_usize_field,
    spec_optional_string_array_field, JsonError,
};
use crate::model::{
    count_full, lemma_count_full_bounds, spec_qwen35_params, ModelError, Qwen35TextParams, TextDims, TextLayerKinds,
    TextModelKind,
};

verus! {

/// The bytes of a field name.
pub open spec fn key(name: Seq<char>) -> Seq<u8> {
    vstd::utf8::encode_utf8(name)
}

/// The `text_config` object when the document has one, else the whole document.
pub open spec fn text_config_object(json: Seq<u8>) -> Seq<u8> {
    match spec_json_object_field(json, key("text_config"@)) {
        Ok((a, b)) => json.subrange(a, b + 1),
        Err(_) => json,
    }
}

/// The `model_type` of the text config, else of the document.
pub open spec fn spec_model_type(json: Seq<u8>, tc: Seq<u8>) -> Option<Seq<char>> {
    match spec_json_string_field(tc, key("model_type"@)) {
        Ok(v) => Some(v),
        Err(_) => match spec_json_string_field(json, key("model_type"@)) {
            Ok(v) => Some(v),
            Err(_) => None,
        },
    }
}

/// True for the model types of Qwen3.5 text models.
pub open spec fn names_qwen35(model_type: Option<Seq<char>>) -> bool {
    model_type == Some("qwen3_5_text"@) || model_type == Some("qwen3_5"@)
}

/// The first layer name, from the `k`-th on, that is no layer kind.
pub open spec fn first_bad_layer_name(names: Seq<Seq<char>>, k: int) -> Option<int>
    decreases names.len() - k,
{
    if k < 0 || k >= names.len() {
        None
    } else if names[k] != "full_attention"@ && names[k] != "linear_attention"@ {
        Some(k)
    } else {
        first_bad_layer_name(names, k + 1)
    }
}

/// How a config gives its layer kinds.
pub enum LayerPlan {
    /// One name per layer in `layer_types`.
    Names(Seq<Seq<char>>),
    /// Every `interval`-th layer uses full attention (Qwen3.5's default).
    Interval(usize),
    /// Every layer uses full attention.
    AllFull,
}

/// The layer plan of a text config with `n_layers` layers, or why it has none.
pub open spec fn spec_layer_plan(tc: Seq<u8>, n_layers: usize, qwen35: bool) -> Result<LayerPlan, ModelError> {
    match spec_optional_string_array_field(tc, key("layer_types"@)) {
        Err(e) => Err(ModelError::Json(e)),
        Ok(Some(names)) => if names.len() > 128 {
            Err(ModelError::TooManyLayerTypes { len: names.len() as usize })
        } else {
            match first_bad_layer_name(names, 0) {
                Some(l) => Err(ModelError::UnsupportedLayerType { layer: l as usize }),
                None => Ok(LayerPlan::Names(names)),
            }
        },
        Ok(None) => if qwen35 {
            let interval = match spec_json_usize_field(tc, key("full_attention_interval"@)) {
                Ok(v) => v,
                Err(_) => 4,
            };
            if interval == 0 {
                Err(ModelError::ZeroFullAttentionInterval)
            } else if n_layers > 128 {
                Err(ModelError::TooManyLayerTypes { len: n_layers })
            } else {
                Ok(LayerPlan::Interval(interval))
            }
        } else {
            Ok(LayerPlan::AllFull)
        },
    }
}

/// The layer kinds follow the plan.
pub open spec fn kinds_follow(kinds: TextLayerKinds, plan: LayerPlan, n_layers: usize) -> bool {
    match plan {
        LayerPlan::Names(names) => {
            &&& kinds.spec_len() == names.len()
            &&& kinds.spec_explicit()
            &&& forall|l: int| 0 <= l < names.len() ==> #[trigger] kinds.spec_is_full(l) == (names[l] == "full_attention"@)
        },
        LayerPlan::Interval(interval) => {
            &&& kinds.spec_len() == n_layers
            &&& kinds.spec_explicit()
            &&& forall|l: int| 0 <= l < n_layers ==> #[trigger] kinds.spec_is_full(l) == ((l + 1) % (interval as int) == 0)
        },
        LayerPlan::AllFull => {
            &&& kinds.spec_len() == n_layers
            &&& !kinds.spec_explicit()
            &&& forall|l: int| 0 <= l < n_layers ==> #[trigger] kinds.spec_is_full(l)
        },
    }
}

/// The plan gives some layer linear attention.
pub open spec fn plan_has_linear(plan: LayerPlan, n_layers: usize) -> bool {
    match plan {
        LayerPlan::Names(names) => exists|l: int| 0 <= l < names.len() && names[l] != "full_attention"@,
        LayerPlan::Interval(interval) => n_layers >= 1 && interval >= 2,
        LayerPlan::AllFull => false,
    }
}

/// The integer settings a config gives, read in the order the reader reads them:
/// `(dims, Qwen3.5 kind, layer plan, linear-attention parameters, eos token id)`.
pub open spec fn spec_text_config_core(json: Seq<u8>) -> Result<
    (TextDims, bool, LayerPlan, Option<(usize, usize, usize, usize, usize)>, Option<u32>),
    ModelError,
> {
    let tc = text_config_object(json);
    let raw_qwen = names_qwen35(spec_model_type(json, tc));
    match spec_json_usize_field(tc, key("head_dim"@)) {
        Err(e) => Err(ModelError::Json(e)),
        Ok(head_dim) => match spec_json_usize_field(tc, key("num_hidden_layers"@)) {
            Err(e) => Err(ModelError::Json(e)),
            Ok(n_layers) => match spec_layer_plan(tc, n_layers, raw_qwen) {
                Err(e) => Err(e),
                Ok(plan) => {
                    let qwen = raw_qwen || plan_has_linear(plan, n_layers);
                    let params: Result<Option<(usize, usize, usize, usize, usize)>, ModelError> = if qwen {
                        match spec_qwen35_params(tc) {
                            Ok(p) => Ok(Some(p)),
                            Err(e) => Err(ModelError::Json(e)),
                        }
                    } else {
                        Ok(None)
                    };
                    match params {
                        Err(e) => Err(e),
                        Ok(params) => spec_text_dims(json, tc, head_dim, n_layers, qwen, plan, params),
                    }
                },
            },
        },
    }
}

/// The dimensions after the layer plan, and the eos token id.
pub open spec fn spec_text_dims(
    json: Seq<u8>,
    tc: Seq<u8>,
    head_dim: usize,
    n_layers: usize,
    qwen: bool,
    plan: LayerPlan,
    params: Option<(usize, usize, usize, usize, usize)>,
) -> Result<(TextDims, bool, LayerPlan, Option<(usize, usize, usize, usize, usize)>, Option<u32>), ModelError> {
    match spec_json_usize_field(tc, key("hidden_size"@)) {
        Err(e) => Err(ModelError::Json(e)),
        Ok(dim) => match spec_json_usize_field(tc, key("intermediate_size"@)) {
            Err(e) => Err(ModelError::Json(e)),
            Ok(hidden_dim) => match spec_json_usize_field(tc, key("num_attention_heads"@)) {
                Err(e) => Err(ModelError::Json(e)),
                Ok(n_heads) => match spec_json_usize_field(tc, key("num_key_value_heads"@)) {
                    Err(e) => Err(ModelError::Json(e)),
                    Ok(n_kv_heads) => match spec_json_usize_field(tc, key("max_position_embeddings"@)) {
                        Err(e) => Err(ModelError::Json(e)),
                        Ok(max_position_embeddings) => match spec_json_usize_field(tc, key("vocab_size"@)) {
                            Err(e) => Err(ModelError::Json(e)),
                            Ok(vocab_size) => {
                                let eos = match spec_json_usize_field(tc, key("eos_token_id"@)) {
                                    Ok(v) => Some(v as u32),
                                    Err(_) => match spec_json_usize_field(json, key("eos_token_id"@)) {
                                        Ok(v) => Some(v as u32),
                                        Err(_) => None,
                                    },
                                };
                                Ok(
                                    (
                                        TextDims {
                                            dim,
                                            hidden_dim,
                                            n_layers,
                                            n_heads,
                                            n_kv_heads,
                                            head_dim,
                                            max_position_embeddings,
                                            vocab_size,
                                        },
                                        qwen,
                                        plan,
                                        params,
                                        eos,
                                    ),
                                )
                            },
                        },
                    },
                },
            },
        },
    }
}

/// The documents this reader takes: no string or object it reads ends inside an
/// escape that splits a character.
pub open spec fn text_config_readable(json: Seq<u8>) -> bool {
    let tc = text_config_object(json);
    &&& object_field_escapes_whole(json, key("text_config"@))
    &&& spec_json_string_field(tc, key("model_type"@)) != Err::<Seq<char>, JsonError>(JsonError::EscapeSplitsCharacter)
    &&& spec_json_string_field(json, key("model_type"@)) != Err::<Seq<char>, JsonError>(JsonError::EscapeSplitsCharacter)
    &&& optional_string_array_escapes_whole(tc, key("layer_types"@))
}

/// Counting full-attention layers finds them all exactly when no layer is linear.
pub proof fn lemma_count_full_all(kinds: TextLayerKinds, n: int)
    requires
        n >= 0,
    ensures
        (count_full(kinds, n) == n) == (forall|l: int| 0 <= l < n ==> #[trigger] kinds.spec_is_full(l)),
    decreases n,
{
    lemma_count_full_bounds(kinds, n);
    if n > 0 {
        lemma_count_full_all(kinds, n - 1);
        lemma_count_full_bounds(kinds, n - 1);
        if !kinds.spec_is_full(n - 1) {
            assert(!(forall|l: int| 0 <= l < n ==> #[trigger] kinds.spec_is_full(l)));
        }
    }
}

/// Layer kinds that follow a plan have a linear-attention layer exactly when the plan
/// gives one.
pub proof fn lemma_plan_linear(kinds: TextLayerKinds, plan: LayerPlan, n_layers: usize)
    requires
        kinds_follow(kinds, plan, n_layers),
        plan matches LayerPlan::Interval(i) ==> i >= 1,
    ensures
        (count_full(kinds, kinds.spec_len() as int) < kinds.spec_len()) == plan_has_linear(plan, n_layers),
{
    let n = kinds.spec_len() as int;
    lemma_count_full_all(kinds, n);
    lemma_count_full_bounds(kinds, n);
    match plan {
        LayerPlan::Names(names) => {
            if plan_has_linear(plan, n_layers) {
                let l = choose|l: int| 0 <= l < names.len() && names[l] != "full_attention"@;
                assert(!kinds.spec_is_full(l));
            } else {
                assert forall|l: int| 0 <= l < n implies #[trigger] kinds.spec_is_full(l) by {
                    assert(!(0 <= l < names.len() && names[l] != "full_attention"@));
                }
            }
        },
        LayerPlan::Interval(interval) => {
            if n_layers >= 1 && interval >= 2 {
                assert(1int % (interval as int) == 1) by (nonlinear_arith)
                    requires
                        interval >= 2,
                ;
                assert(!kinds.spec_is_full(0));
            } else if n_layers >= 1 {
                assert forall|l: int| 0 <= l < n implies #[trigger] kinds.spec_is_full(l) by {
                    assert((l + 1) % 1 == 0);
                }
            }
        },
        LayerPlan::AllFull => {},
    }
}

/// The first bad name is the one a scan that stops at it finds.
proof fn lemma_first_bad_layer_name(names: Seq<Seq<char>>, k: int, bad: Option<int>)
    requires
        0 <= k <= names.len(),
        forall|l: int| k <= l < names.len() && (bad matches Some(b) ==> l < b) ==> (#[trigger] names[l]
            == "full_attention"@ || names[l] == "linear_attention"@),
        bad matches Some(b) ==> k <= b < names.len() && names[b] != "full_attention"@ && names[b]
            != "linear_attention"@,
    ensures
        first_bad_layer_name(names, k) == bad,
    decreases names.len() - k,
{
    if k < names.len() {
        if bad != Some(k) {
            lemma_first_bad_layer_name(names, k + 1, bad);
        }
    }
}

/// The integer settings of a text model.
#[derive(Debug, Clone, Copy)]
pub struct TextConfigCore {
    pub dims: TextDims,
    pub model_kind: TextModelKind,
    pub layer_kinds: TextLayerKinds,
    pub eos_token_id: Option<u32>,
    pub qwen3_5: Option<Qwen35TextParams>,
}

/// The linear-attention parameters as a tuple.
pub open spec fn params_view(params: Option<Qwen35TextParams>) -> Option<(usize, usize, usize, usize, usize)> {
    match params {
        Some(p) => Some(
            (
                p.linear_conv_kernel_dim,
                p.linear_key_head_dim,
                p.linear_value_head_dim,
                p.linear_num_key_heads,
                p.linear_num_value_heads,
            ),
        ),
        None => None,
    }
}

impl TextConfigCore {
    /// Reads the integer settings of a `config.json` (or of its `text_config`).
    pub fn from_config_json(json: &[u8]) -> (r: Result<Self, ModelError>)
        requires
            text_config_readable(json@),
        ensures
            match spec_text_config_core(json@) {
                Err(e) => r matches Err(x) && x == e,
                Ok((dims, qwen, plan, params, eos)) => r matches Ok(c) && c.dims == dims && c.model_kind == (if qwen {
                    TextModelKind::Qwen35Text
                } else {
                    TextModelKind::FullAttentionDecoder
                }) && kinds_follow(c.layer_kinds, plan, dims.n_layers) && params_view(c.qwen3_5) == params
                    && c.eos_token_id == eos,
            },
    {
        let tc: &[u8] = match parse_json_object_field(json, "text_config".as_bytes()) {
            Ok(obj) => obj,
            Err(_) => json,
        };
        proof {
            assert(tc@ == text_config_object(json@));
        }
        let model_type = match parse_optional_json_string_field(tc, "model_type".as_bytes()) {
            Some(v) => Some(v),
            None => parse_optional_json_string_field(json, "model_type".as_bytes()),
        };
        let raw_qwen = match &model_type {
            Some(t) => crate::text::chars_eq(t.as_str(), "qwen3_5_text") || crate::text::chars_eq(t.as_str(), "qwen3_5"),
            None => false,
        };
        proof {
            assert(raw_qwen == names_qwen35(spec_model_type(json@, tc@)));
        }
        let head_dim = match parse_json_usize_field(tc, "head_dim".as_bytes()) {
            Ok(v) => v,
            Err(e) => {
                return Err(ModelError::Json(e));
            },
        };
        let n_layers = match parse_json_usize_field(tc, "num_hidden_layers".as_bytes()) {
            Ok(v) => v,
            Err(e) => {
                return Err(ModelError::Json(e));
            },
        };
        let names = match parse_optional_json_string_array_field(tc, "layer_types".as_bytes()) {
            Ok(v) => v,
            Err(e) => {
                return Err(ModelError::Json(e));
            },
        };
        let ghost plan = spec_layer_plan(tc@, n_layers, raw_qwen);
        let layer_kinds = match names {
            Some(names) => {
                let ghost view = names@.map_values(|x: String| x@);
                match TextLayerKinds::from_layer_type_names(names.as_slice()) {
                    Ok(k) => {
                        proof {
                            lemma_first_bad_layer_name(view, 0, None);
                            assert(plan == Ok::<LayerPlan, ModelError>(LayerPlan::Names(view)));
                        }
                        k
                    },
                    Err(e) => {
                        proof {
                            if view.len() <= 128 {
                                let layer = e->UnsupportedLayerType_layer;
                                lemma_first_bad_layer_name(view, 0, Some(layer as int));
                            }
                        }
                        return Err(e);
                    },
                }
            },
            None => {
                if raw_qwen {
                    let interval = match parse_optional_json_usize_field(tc, "full_attention_interval".as_bytes()) {
                        Some(v) => v,
                        None => 4,
                    };
                    match TextLayerKinds::from_qwen_full_attention_interval(n_layers, interval) {
                        Ok(k) => k,
                        Err(e) => {
                            return Err(e);
                        },
                    }
                } else {
                    TextLayerKinds::all_full_attention(n_layers)
                }
            },
        };
        let ghost the_plan = plan->Ok_0;
        proof {
            assert(kinds_follow(layer_kinds, the_plan, n_layers));
            lemma_plan_linear(layer_kinds, the_plan, n_layers);
        }
        let has_linear = layer_kinds.has_linear_attention();
        let model_kind = if raw_qwen || has_linear {
            TextModelKind::Qwen35Text
        } else {
            TextModelKind::FullAttentionDecoder
        };
        let qwen3_5 = if raw_qwen || has_linear {
            match Qwen35TextParams::from_text_config_json(tc) {
                Ok(p) => Some(p),
                Err(e) => {
                    return Err(ModelError::Json(e));
                },
            }
        } else {
            None
        };
        let dim = match parse_json_usize_field(tc, "hidden_size".as_bytes()) {
            Ok(v) => v,
            Err(e) => {
                return Err(ModelError::Json(e));
            },
        };
        let hidden_dim = match parse_json_usize_field(tc, "intermediate_size".as_bytes()) {
            Ok(v) => v,
            Err(e) => {
                return Err(ModelError::Json(e));
            },
        };
        let n_heads = match parse_json_usize_field(tc, "num_attention_heads".as_bytes()) {
            Ok(v) => v,
            Err(e) => {
                return Err(ModelError::Json(e));
            },
        };
        let n_kv_heads = match parse_json_usize_field(tc, "num_key_value_heads".as_bytes()) {
            Ok(v) => v,
            Err(e) => {
                return Err(ModelError::Json(e));
            },
        };
        let max_position_embeddings = match parse_json_usize_field(tc, "max_position_embeddings".as_bytes()) {
            Ok(v) => v,
            Err(e) => {
                return Err(ModelError::Json(e));
            },
        };
        let vocab_size = match parse_json_usize_field(tc, "vocab_size".as_bytes()) {
            Ok(v) => v,
            Err(e) => {
                return Err(ModelError::Json(e));
            },
        };
        let eos_token_id = match parse_optional_json_usize_field(tc, "eos_token_id".as_bytes()) {
            Some(v) => Some(v as u32),
            None => match parse_optional_json_usize_field(json, "eos_token_id".as_bytes()) {
                Some(v) => Some(v as u32),
                None => None,
            },
        };
        Ok(TextConfigCore {
            dims: TextDims { dim, hidden_dim, n_layers, n_heads, n_kv_heads, head_dim, max_position_embeddings, vocab_size },
            model_kind,
            layer_kinds,
            eos_token_id,
            qwen3_5,
        })
    }
}

/// Checks a rotary dimension against the head dimension: even, nonzero, no larger.
pub fn check_rotary_dim(head_dim: usize, rotary_dim: usize) -> (r: Result<(), ModelError>)
    ensures
        r == (if rotary_dim == 0 || rotary_dim % 2 != 0 || rotary_dim > head_dim {
            Err(ModelError::BadRotaryDim { rotary_dim, head_dim })
        } else {
            Ok::<(), ModelError>(())
        }),
{
    if rotary_dim == 0 || rotary_dim % 2 != 0 || rotary_dim > head_dim {
        return Err(ModelError::BadRotaryDim { rotary_dim, head_dim });
    }
    Ok(())
}

/// The result of the dimension checks, in the order they are made.
pub open spec fn spec_validate_dims(c: TextConfigCore, rotary_dim: usize) -> Result<(), ModelError> {
    let d = c.dims;
    if d.dim == 0 {
        Err(ModelError::ZeroHiddenSize)
    } else if d.hidden_dim == 0 {
        Err(ModelError::ZeroIntermediateSize)
    } else if d.n_layers == 0 {
        Err(ModelError::ZeroLayers)
    } else if c.layer_kinds.spec_len() != d.n_layers {
        Err(ModelError::LayerCountMismatch { layer_types: c.layer_kinds.spec_len(), n_layers: d.n_layers })
    } else if d.n_heads == 0 {
        Err(ModelError::ZeroHeads)
    } else if d.n_kv_heads == 0 {
        Err(ModelError::ZeroKvHeads)
    } else if d.head_dim == 0 || d.head_dim % 2 != 0 {
        Err(ModelError::BadHeadDim { head_dim: d.head_dim })
    } else if rotary_dim == 0 || rotary_dim % 2 != 0 || rotary_dim > d.head_dim {
        Err(ModelError::BadRotaryDim { rotary_dim, head_dim: d.head_dim })
    } else if d.n_heads % d.n_kv_heads != 0 {
        Err(ModelError::HeadsNotDivisible { n_heads: d.n_heads, n_kv_heads: d.n_kv_heads })
    } else if d.max_position_embeddings == 0 {
        Err(ModelError::ZeroMaxPositions)
    } else if d.vocab_size == 0 {
        Err(ModelError::ZeroVocabSize)
    } else {
        Ok(())
    }
}

/// The result of the linear-attention checks.
pub open spec fn spec_validate_linear(c: TextConfigCore) -> Result<(), ModelError> {
    let has_linear = count_full(c.layer_kinds, c.layer_kinds.spec_len() as int) < c.layer_kinds.spec_len();
    let params_check: Result<(), ModelError> = match c.qwen3_5 {
        Some(p) => {
            if p.linear_conv_kernel_dim == 0 {
                Err(ModelError::ZeroLinearConvKernelDim)
            } else if p.linear_key_head_dim == 0 || p.linear_value_head_dim == 0 {
                Err(ModelError::ZeroLinearHeadDim)
            } else if p.linear_num_key_heads == 0 || p.linear_num_value_heads == 0 {
                Err(ModelError::ZeroLinearHeadCount)
            } else if p.linear_num_value_heads % p.linear_num_key_heads != 0 {
                Err(
                    ModelError::LinearHeadsNotDivisible {
                        value_heads: p.linear_num_value_heads,
                        key_heads: p.linear_num_key_heads,
                    },
                )
            } else {
                Ok(())
            }
        },
        None => if c.model_kind == TextModelKind::Qwen35Text {
            Err(ModelError::MissingQwenParams)
        } else {
            Ok(())
        },
    };
    match params_check {
        Err(e) => Err(e),
        Ok(()) => if has_linear && c.qwen3_5 is None {
            Err(ModelError::LinearLayersNeedParams)
        } else {
            Ok(())
        },
    }
}

impl TextConfigCore {
    /// The checks of the dimensions that come before the floating-point settings are
    /// checked; `rotary_dim` is the rotary dimension the caller derived.
    pub fn validate_dims(&self, rotary_dim: usize) -> (r: Result<(), ModelError>)
        ensures
            r == spec_validate_dims(*self, rotary_dim),
    {
        let d = self.dims;
        if d.dim == 0 {
            return Err(ModelError::ZeroHiddenSize);
        }
        if d.hidden_dim == 0 {
            return Err(ModelError::ZeroIntermediateSize);
        }
        if d.n_layers == 0 {
            return Err(ModelError::ZeroLayers);
        }
        match self.layer_kinds.validate_for_layers(d.n_layers) {
            Ok(()) => {},
            Err(e) => {
                return Err(e);
            },
        }
        if d.n_heads == 0 {
            return Err(ModelError::ZeroHeads);
        }
        if d.n_kv_heads == 0 {
            return Err(ModelError::ZeroKvHeads);
        }
        if d.head_dim == 0 || d.head_dim % 2 != 0 {
            return Err(ModelError::BadHeadDim { head_dim: d.head_dim });
        }
        match check_rotary_dim(d.head_dim, rotary_dim) {
            Ok(()) => {},
            Err(e) => {
                return Err(e);
            },
        }
        if d.n_heads % d.n_kv_heads != 0 {
            return Err(ModelError::HeadsNotDivisible { n_heads: d.n_heads, n_kv_heads: d.n_kv_heads });
        }
        if d.max_position_embeddings == 0 {
            return Err(ModelError::ZeroMaxPositions);
        }
        if d.vocab_size == 0 {
            return Err(ModelError::ZeroVocabSize);
        }
        Ok(())
    }

    /// Checks that the eos token, when given, is in the vocabulary.
    pub fn validate_eos(&self) -> (r: Result<(), ModelError>)
        ensures
            r == (match self.eos_token_id {
                Some(eos) => if eos >= self.dims.vocab_size {
                    Err(ModelError::EosOutOfRange { eos_token_id: eos, vocab_size: self.dims.vocab_size })
                } else {
                    Ok::<(), ModelError>(())
                },
                None => Ok::<(), ModelError>(()),
            }),
    {
        match self.eos_token_id {
            Some(eos) => {
                if eos as usize >= self.dims.vocab_size {
                    return Err(ModelError::EosOutOfRange { eos_token_id: eos, vocab_size: self.dims.vocab_size });
                }
                Ok(())
            },
            None => Ok(()),
        }
    }

    /// Checks the linear-attention parameters: valid when present, present for
    /// Qwen3.5 models and whenever a layer uses linear attention.
    pub fn validate_linear_params(&self) -> (r: Result<(), ModelError>)
        ensures
            r == spec_validate_linear(*self),
    {
        match self.qwen3_5 {
            Some(p) => {
                match p.validate_for_inference() {
                    Ok(()) => {},
                    Err(e) => {
                        return Err(e);
                    },
                }
            },
            None => {
                if self.model_kind == TextModelKind::Qwen35Text {
                    return Err(ModelError::MissingQwenParams);
                }
            },
        }
        if self.layer_kinds.has_linear_attention() && self.qwen3_5.is_none() {
            return Err(ModelError::LinearLayersNeedParams);
        }
        Ok(())
    }
}

/// A configuration that passes the dimension checks has one layer kind per layer, and
/// at least one layer.
pub proof fn lemma_validated_layer_count(c: TextConfigCore, rotary_dim: usize)
    requires
        spec_validate_dims(c, rotary_dim) is Ok,
    ensures
        c.layer_kinds.spec_len() == c.dims.n_layers,
        c.dims.n_layers > 0,
{
}

/// A configuration text whose `\u` escapes all end on character boundaries is one
/// that `TextConfigCore::from_config_json` reads.
pub proof fn lemma_text_config_readable(json: Seq<u8>)
    requires
        crate::json::escapes_end_whole(json),
    ensures
        text_config_readable(json),
{
    crate::json::lemma_object_field_whole(json, key("text_config"@));
    crate::json::lemma_object_field_bounds(json, key("text_config"@));
    let tc = text_config_object(json);
    if let Ok((a, b)) = spec_json_object_field(json, key("text_config"@)) {
        crate::json::lemma_escapes_end_whole_subrange(json, a, b + 1);
    }
    crate::json::lemma_string_field_whole(tc, key("model_type"@));
    crate::json::lemma_string_field_whole(json, key("model_type"@));
    crate::json::lemma_string_array_field_whole(tc, key("layer_types"@));
}

} // verus!
