//! What a Qwen3.5 weight layout holds: each layer weight is the tensor named after it.
use vstd::prelude::*;

use crate::model::{Qwen35TextParams, TextLayerKind, TextModelKind};
use crate::text_config::TextConfigCore;
use crate::profile_json::decimal;
use crate::weights::{
    full_wanted, layout_of, linear_qkv_dim, linear_value_dim, linear_wanted, mlp_wanted, qwen35_layer_prefix,
    source_tensor, spec_attention_layout, spec_layer_layout, spec_layers_layout, spec_tensor_layout,
    spec_tensor_layouts, spec_weight_layout, LayerView, LayoutView, TensorSourceView, WeightLayoutError,
};

verus! {

/// Each layout that `spec_tensor_layouts` gives is that of the wanted tensor at the
/// same position.
proof fn lemma_tensor_layouts_each(src: TensorSourceView, wanted: Seq<(Seq<char>, Seq<usize>)>, n: int)
    requires
        n >= 0,
    ensures
        spec_tensor_layouts(src, wanted, n) matches Ok(ls) ==> ls.len() == n && forall|i: int|
            0 <= i < n ==> spec_tensor_layout(src, wanted[i].0, wanted[i].1) == Ok::<LayoutView, WeightLayoutError>(
                #[trigger] ls[i],
            ),
    decreases n,
{
    if n > 0 {
        lemma_tensor_layouts_each(src, wanted, n - 1);
    }
}

/// Each layer layout that `spec_layers_layout` gives is that of its layer.
proof fn lemma_layers_layout_each(src: TensorSourceView, core: TextConfigCore, n: int)
    requires
        n >= 0,
    ensures
        spec_layers_layout(src, core, n) matches Ok(ls) ==> ls.len() == n && forall|l: int|
            0 <= l < n ==> spec_layer_layout(src, core, l as usize) == Ok::<LayerView, WeightLayoutError>(
                #[trigger] ls[l],
            ),
    decreases n,
{
    if n > 0 {
        lemma_layers_layout_each(src, core, n - 1);
    }
}

/// The layout of the tensor `name` stands for, when it has the shape `expected`.
#[verifier::opaque]
pub open spec fn found_with_shape(src: TensorSourceView, name: Seq<char>, expected: Seq<usize>, l: LayoutView) -> bool {
    source_tensor(src, name) matches Ok((_, t)) && t.shape == expected && l == layout_of(t)
}

/// The layers of a weight layout are those `spec_layers_layout` gives.
proof fn lemma_weight_layout_layers(src: TensorSourceView, core: TextConfigCore)
    requires
        spec_weight_layout(src, core) is Ok,
    ensures
        spec_layers_layout(src, core, core.dims.n_layers as int) == Ok::<Seq<LayerView>, WeightLayoutError>(
            spec_weight_layout(src, core)->Ok_0.3,
        ),
{
}

/// What the layout of one layer holds.
pub open spec fn layer_named_after(src: TensorSourceView, core: TextConfigCore, l: int, lv: LayerView) -> bool {
    let p = "model.language_model.layers."@ + decimal(l as nat);
    let d = core.dims;
    &&& lv.0 == l
    &&& found_with_shape(src, p + ".input_layernorm.weight"@, seq![d.dim], lv.1)
    &&& found_with_shape(src, p + ".post_attention_layernorm.weight"@, seq![d.dim], lv.3)
    &&& lv.4.len() == 3
    &&& found_with_shape(src, p + ".mlp.gate_proj.weight"@, seq![d.hidden_dim, d.dim], lv.4[0])
    &&& found_with_shape(src, p + ".mlp.up_proj.weight"@, seq![d.hidden_dim, d.dim], lv.4[1])
    &&& found_with_shape(src, p + ".mlp.down_proj.weight"@, seq![d.dim, d.hidden_dim], lv.4[2])
    &&& core.layer_kinds.spec_kind(l) == TextLayerKind::FullAttention ==> full_attention_named_after(src, core, l, lv.2)
    &&& core.layer_kinds.spec_kind(l) != TextLayerKind::FullAttention ==> core.qwen3_5 is Some
        && linear_attention_named_after(src, core, core.qwen3_5->0, l, lv.2)
}

/// A layout that `spec_tensor_layout` gives is that of the tensor the name stands for.
proof fn lemma_found(src: TensorSourceView, name: Seq<char>, expected: Seq<usize>, x: LayoutView)
    requires
        spec_tensor_layout(src, name, expected) == Ok::<LayoutView, WeightLayoutError>(x),
    ensures
        found_with_shape(src, name, expected, x),
{
    reveal(found_with_shape);
}

/// The parts of a layer layout.
proof fn lemma_layer_parts(src: TensorSourceView, core: TextConfigCore, l: usize, lv: LayerView)
    requires
        spec_layer_layout(src, core, l) == Ok::<LayerView, WeightLayoutError>(lv),
    ensures
        lv.0 == l,
        spec_tensor_layout(src, qwen35_layer_prefix(l) + ".input_layernorm.weight"@, seq![core.dims.dim])
            == Ok::<LayoutView, WeightLayoutError>(lv.1),
        spec_tensor_layout(src, qwen35_layer_prefix(l) + ".post_attention_layernorm.weight"@, seq![core.dims.dim])
            == Ok::<LayoutView, WeightLayoutError>(lv.3),
        spec_tensor_layouts(src, mlp_wanted(core.dims, l), 3) == Ok::<Seq<LayoutView>, WeightLayoutError>(lv.4),
        spec_attention_layout(src, core, l) == Ok::<(bool, Seq<LayoutView>), WeightLayoutError>(lv.2),
{
    reveal(spec_layer_layout);
}

/// The tensors a layer's feed-forward layouts stand for.
proof fn lemma_mlp_found(src: TensorSourceView, core: TextConfigCore, l: usize, mlp: Seq<LayoutView>)
    requires
        spec_tensor_layouts(src, mlp_wanted(core.dims, l), 3) == Ok::<Seq<LayoutView>, WeightLayoutError>(mlp),
    ensures
        mlp.len() == 3,
        found_with_shape(src, qwen35_layer_prefix(l) + ".mlp.gate_proj.weight"@, seq![core.dims.hidden_dim, core.dims.dim], mlp[0]),
        found_with_shape(src, qwen35_layer_prefix(l) + ".mlp.up_proj.weight"@, seq![core.dims.hidden_dim, core.dims.dim], mlp[1]),
        found_with_shape(src, qwen35_layer_prefix(l) + ".mlp.down_proj.weight"@, seq![core.dims.dim, core.dims.hidden_dim], mlp[2]),
{
    let w = mlp_wanted(core.dims, l);
    lemma_layouts_found(src, w, 3, mlp);
    assert(found_with_shape(src, w[0].0, w[0].1, mlp[0]));
    assert(found_with_shape(src, w[1].0, w[1].1, mlp[1]));
    assert(found_with_shape(src, w[2].0, w[2].1, mlp[2]));
}

proof fn lemma_one_layer_named(src: TensorSourceView, core: TextConfigCore, l: usize, lv: LayerView)
    requires
        spec_layer_layout(src, core, l) == Ok::<LayerView, WeightLayoutError>(lv),
    ensures
        layer_named_after(src, core, l as int, lv),
{
    lemma_layer_parts(src, core, l, lv);
    lemma_mlp_found(src, core, l, lv.4);
    lemma_attention_layout_names(src, core, l);
    let p = qwen35_layer_prefix(l);
    lemma_found(src, p + ".input_layernorm.weight"@, seq![core.dims.dim], lv.1);
    lemma_found(src, p + ".post_attention_layernorm.weight"@, seq![core.dims.dim], lv.3);
}

/// In a Qwen3.5 weight layout, layer `l` is described by the tensors named after it:
/// its input and post-attention norms are `<prefix>.input_layernorm.weight` and
/// `<prefix>.post_attention_layernorm.weight`, and its feed-forward gate, up and down
/// projections are `<prefix>.mlp.gate_proj.weight`, `<prefix>.mlp.up_proj.weight` and
/// `<prefix>.mlp.down_proj.weight`, with `<prefix>` = `model.language_model.layers.<l>`,
/// each with its expected shape; its attention tensors follow its kind.
pub proof fn lemma_layer_layout_names(src: TensorSourceView, core: TextConfigCore, l: int)
    requires
        spec_weight_layout(src, core) is Ok,
        0 <= l < core.dims.n_layers,
    ensures
        spec_weight_layout(src, core)->Ok_0.3.len() == core.dims.n_layers,
        layer_named_after(src, core, l, spec_weight_layout(src, core)->Ok_0.3[l]),
{
    let n = core.dims.n_layers as int;
    lemma_weight_layout_layers(src, core);
    lemma_layers_layout_each(src, core, n);
    let ls = spec_layers_layout(src, core, n)->Ok_0;
    assert(spec_layer_layout(src, core, l as usize) == Ok::<LayerView, WeightLayoutError>(ls[l]));
    lemma_one_layer_named(src, core, l as usize, ls[l]);
}

/// Each layout a list of wanted tensors gives is that of the tensor its name stands for.
proof fn lemma_layouts_found(src: TensorSourceView, wanted: Seq<(Seq<char>, Seq<usize>)>, n: int, ls: Seq<LayoutView>)
    requires
        n >= 0,
        spec_tensor_layouts(src, wanted, n) == Ok::<Seq<LayoutView>, WeightLayoutError>(ls),
    ensures
        ls.len() == n,
        forall|i: int| 0 <= i < n ==> #[trigger] found_with_shape(src, wanted[i].0, wanted[i].1, ls[i]),
{
    lemma_tensor_layouts_each(src, wanted, n);
    assert forall|i: int| 0 <= i < n implies #[trigger] found_with_shape(src, wanted[i].0, wanted[i].1, ls[i]) by {
        lemma_found(src, wanted[i].0, wanted[i].1, ls[i]);
    }
}

/// What the attention layout of a full-attention layer holds: its query (with gates,
/// twice the query width), key, value and output projections and its query and key
/// norms, each the tensor named after it.
pub open spec fn full_attention_named_after(src: TensorSourceView, core: TextConfigCore, l: int, a: (bool, Seq<LayoutView>)) -> bool {
    let p = "model.language_model.layers."@ + decimal(l as nat);
    let d = core.dims;
    let q_dim = (d.n_heads * d.head_dim) as usize;
    let kv_dim = (d.n_kv_heads * d.head_dim) as usize;
    &&& a.0
    &&& a.1.len() == 6
    &&& found_with_shape(src, p + ".self_attn.q_proj.weight"@, seq![(q_dim * 2) as usize, d.dim], a.1[0])
    &&& found_with_shape(src, p + ".self_attn.k_proj.weight"@, seq![kv_dim, d.dim], a.1[1])
    &&& found_with_shape(src, p + ".self_attn.v_proj.weight"@, seq![kv_dim, d.dim], a.1[2])
    &&& found_with_shape(src, p + ".self_attn.o_proj.weight"@, seq![d.dim, q_dim], a.1[3])
    &&& found_with_shape(src, p + ".self_attn.q_norm.weight"@, seq![d.head_dim], a.1[4])
    &&& found_with_shape(src, p + ".self_attn.k_norm.weight"@, seq![d.head_dim], a.1[5])
}

/// What the attention layout of a linear-attention layer holds, with the model's
/// linear-attention parameters `params`: its fused query/key/value, gate (`z`), `a`
/// and `b` input projections, convolution, `A_log`, `dt_bias`, norm and output
/// projection, each the tensor named after it.
pub open spec fn linear_attention_named_after(
    src: TensorSourceView,
    core: TextConfigCore,
    params: Qwen35TextParams,
    l: int,
    a: (bool, Seq<LayoutView>),
) -> bool {
    let p = "model.language_model.layers."@ + decimal(l as nat);
    let d = core.dims;
    let qkv = linear_qkv_dim(params);
    let value = linear_value_dim(params);
    let heads = params.linear_num_value_heads;
    &&& !a.0
    &&& a.1.len() == 9
    &&& found_with_shape(src, p + ".linear_attn.in_proj_qkv.weight"@, seq![qkv, d.dim], a.1[0])
    &&& found_with_shape(src, p + ".linear_attn.in_proj_z.weight"@, seq![value, d.dim], a.1[1])
    &&& found_with_shape(src, p + ".linear_attn.in_proj_a.weight"@, seq![heads, d.dim], a.1[2])
    &&& found_with_shape(src, p + ".linear_attn.in_proj_b.weight"@, seq![heads, d.dim], a.1[3])
    &&& found_with_shape(src, p + ".linear_attn.conv1d.weight"@, seq![qkv, 1usize, params.linear_conv_kernel_dim], a.1[4])
    &&& found_with_shape(src, p + ".linear_attn.A_log"@, seq![heads], a.1[5])
    &&& found_with_shape(src, p + ".linear_attn.dt_bias"@, seq![heads], a.1[6])
    &&& found_with_shape(src, p + ".linear_attn.norm.weight"@, seq![params.linear_value_head_dim], a.1[7])
    &&& found_with_shape(src, p + ".linear_attn.out_proj.weight"@, seq![d.dim, value], a.1[8])
}

proof fn lemma_full_found(src: TensorSourceView, core: TextConfigCore, l: usize, ls: Seq<LayoutView>)
    requires
        spec_tensor_layouts(src, full_wanted(core.dims, l), 6) == Ok::<Seq<LayoutView>, WeightLayoutError>(ls),
    ensures
        full_attention_named_after(src, core, l as int, (true, ls)),
{
    let w = full_wanted(core.dims, l);
    lemma_layouts_found(src, w, 6, ls);
    assert(found_with_shape(src, w[0].0, w[0].1, ls[0]));
    assert(found_with_shape(src, w[1].0, w[1].1, ls[1]));
    assert(found_with_shape(src, w[2].0, w[2].1, ls[2]));
    assert(found_with_shape(src, w[3].0, w[3].1, ls[3]));
    assert(found_with_shape(src, w[4].0, w[4].1, ls[4]));
    assert(found_with_shape(src, w[5].0, w[5].1, ls[5]));
}

proof fn lemma_linear_found(src: TensorSourceView, core: TextConfigCore, params: Qwen35TextParams, l: usize, ls: Seq<LayoutView>)
    requires
        spec_tensor_layouts(src, linear_wanted(core.dims, params, l), 9) == Ok::<Seq<LayoutView>, WeightLayoutError>(ls),
    ensures
        linear_attention_named_after(src, core, params, l as int, (false, ls)),
{
    let w = linear_wanted(core.dims, params, l);
    lemma_layouts_found(src, w, 9, ls);
    assert(found_with_shape(src, w[0].0, w[0].1, ls[0]));
    assert(found_with_shape(src, w[1].0, w[1].1, ls[1]));
    assert(found_with_shape(src, w[2].0, w[2].1, ls[2]));
    assert(found_with_shape(src, w[3].0, w[3].1, ls[3]));
    assert(found_with_shape(src, w[4].0, w[4].1, ls[4]));
    assert(found_with_shape(src, w[5].0, w[5].1, ls[5]));
    assert(found_with_shape(src, w[6].0, w[6].1, ls[6]));
    assert(found_with_shape(src, w[7].0, w[7].1, ls[7]));
    assert(found_with_shape(src, w[8].0, w[8].1, ls[8]));
}

/// A layer's attention layout follows its kind: a full-attention layer has the six
/// full-attention tensors named after it, a linear-attention layer the nine
/// linear-attention ones.
pub proof fn lemma_attention_layout_names(src: TensorSourceView, core: TextConfigCore, l: usize)
    requires
        spec_attention_layout(src, core, l) is Ok,
    ensures
        l < core.layer_kinds.spec_len(),
        core.layer_kinds.spec_kind(l as int) == TextLayerKind::FullAttention ==> full_attention_named_after(
            src,
            core,
            l as int,
            spec_attention_layout(src, core, l)->Ok_0,
        ),
        core.layer_kinds.spec_kind(l as int) != TextLayerKind::FullAttention ==> core.qwen3_5 is Some
            && linear_attention_named_after(
            src,
            core,
            core.qwen3_5->0,
            l as int,
            spec_attention_layout(src, core, l)->Ok_0,
        ),
{
    if core.layer_kinds.spec_kind(l as int) == TextLayerKind::FullAttention {
        lemma_full_found(src, core, l, spec_attention_layout(src, core, l)->Ok_0.1);
    } else {
        lemma_linear_found(src, core, core.qwen3_5->0, l, spec_attention_layout(src, core, l)->Ok_0.1);
    }
}

/// The embedding, final norm and output projection of a Qwen3.5 weight layout are the
/// tensors `model.language_model.embed_tokens.weight`, `model.language_model.norm.weight`
/// and `lm_head.weight`, and only a Qwen3.5 configuration has one.
pub proof fn lemma_top_level_names(src: TensorSourceView, core: TextConfigCore)
    requires
        spec_weight_layout(src, core) is Ok,
    ensures
        core.model_kind == TextModelKind::Qwen35Text,
        found_with_shape(
            src,
            "model.language_model.embed_tokens.weight"@,
            seq![core.dims.vocab_size, core.dims.dim],
            spec_weight_layout(src, core)->Ok_0.0,
        ),
        found_with_shape(src, "model.language_model.norm.weight"@, seq![core.dims.dim], spec_weight_layout(src, core)->Ok_0.1),
        found_with_shape(
            src,
            "lm_head.weight"@,
            seq![core.dims.vocab_size, core.dims.dim],
            spec_weight_layout(src, core)->Ok_0.2,
        ),
{
    let w = spec_weight_layout(src, core)->Ok_0;
    lemma_found(src, "model.language_model.embed_tokens.weight"@, seq![core.dims.vocab_size, core.dims.dim], w.0);
    lemma_found(src, "model.language_model.norm.weight"@, seq![core.dims.dim], w.1);
    lemma_found(src, "lm_head.weight"@, seq![core.dims.vocab_size, core.dims.dim], w.2);
}

} // verus!
