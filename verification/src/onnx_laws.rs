//! What the ONNX readers take from a message: each value is read from the fields of
//! its own number, the last such field for a single value and every such field, in
//! order, for a repeated one.
use vstd::prelude::*;

use crate::onnx::{
    empty_graph, empty_model, empty_tensor, spec_model_fields, spec_parse_model, spec_parse_opset,
    spec_parse_string_entry, SpecOnnxModel, SpecOnnxOpset, empty_opset, spec_opset_fields,
    spec_string_entry_fields, lemma_next_field_advances, proto_fields, spec_expect_bytes, spec_expect_string,
    spec_expect_varint, spec_from_onnx_code, spec_graph_fields, spec_next_field, spec_parse_graph, spec_parse_node,
    spec_parse_tensor, spec_parse_value_info_name, spec_tensor_fields, OnnxTensorElementType, SpecOnnxGraph,
    SpecOnnxNode, SpecOnnxTensorInfo, SpecProtoField,
};

verus! {

/// The values `pick` takes from `fields`, in order.
pub open spec fn picked<T>(fields: Seq<SpecProtoField>, pick: spec_fn(SpecProtoField) -> Option<T>) -> Seq<T>
    decreases fields.len(),
{
    if fields.len() == 0 {
        seq![]
    } else {
        let rest = picked(fields.drop_last(), pick);
        match pick(fields.last()) {
            Some(x) => rest.push(x),
            None => rest,
        }
    }
}

/// The value `pick` takes from the last field it takes one from, if any.
pub open spec fn last_picked<T>(fields: Seq<SpecProtoField>, pick: spec_fn(SpecProtoField) -> Option<T>) -> Option<T>
    decreases fields.len(),
{
    if fields.len() == 0 {
        None
    } else {
        match pick(fields.last()) {
            Some(x) => Some(x),
            None => last_picked(fields.drop_last(), pick),
        }
    }
}

proof fn lemma_picked_prepend<T>(f: SpecProtoField, rest: Seq<SpecProtoField>, pick: spec_fn(SpecProtoField) -> Option<T>)
    ensures
        picked(seq![f] + rest, pick) == picked(seq![f], pick) + picked(rest, pick),
    decreases rest.len(),
{
    let all = seq![f] + rest;
    let one = seq![f];
    assert(one.drop_last() =~= Seq::<SpecProtoField>::empty());
    if rest.len() > 0 {
        assert(all.drop_last() =~= seq![f] + rest.drop_last());
        assert(all.last() == rest.last());
        lemma_picked_prepend(f, rest.drop_last(), pick);
        let a = picked(one, pick);
        let b = picked(rest.drop_last(), pick);
        if let Some(x) = pick(rest.last()) {
            assert((a + b).push(x) =~= a + b.push(x));
        }
    } else {
        assert(all =~= one);
        assert(picked(rest, pick) =~= Seq::<T>::empty());
        assert(picked(one, pick) + Seq::<T>::empty() =~= picked(one, pick));
    }
}

proof fn lemma_last_picked_prepend<T>(f: SpecProtoField, rest: Seq<SpecProtoField>, pick: spec_fn(SpecProtoField) -> Option<T>)
    ensures
        last_picked(seq![f] + rest, pick) == (match last_picked(rest, pick) {
            Some(x) => Some(x),
            None => pick(f),
        }),
    decreases rest.len(),
{
    let all = seq![f] + rest;
    let one = seq![f];
    assert(one.drop_last() =~= Seq::<SpecProtoField>::empty());
    if rest.len() > 0 {
        assert(all.drop_last() =~= seq![f] + rest.drop_last());
        assert(all.last() == rest.last());
        lemma_last_picked_prepend(f, rest.drop_last(), pick);
    } else {
        assert(all =~= one);
        assert(last_picked(one.drop_last(), pick) is None);
        assert(last_picked(rest, pick) is None);
    }
}

/// The picked value or, when nothing was picked, `default`.
pub open spec fn or_default<T>(x: Option<T>, default: T) -> T {
    match x {
        Some(v) => v,
        None => default,
    }
}

// ---------------------------------------------------------------------------
// TensorProto
// ---------------------------------------------------------------------------

/// The string a field numbered `number` holds.
pub open spec fn string_of_field(s: Seq<u8>, number: u32) -> spec_fn(SpecProtoField) -> Option<Seq<char>> {
    |f: SpecProtoField|
        if f.number == number && spec_expect_string(s, f) is Ok {
            Some(spec_expect_string(s, f)->Ok_0)
        } else {
            None
        }
}

/// The number a varint field numbered `number` holds.
pub open spec fn varint_of_field(number: u32) -> spec_fn(SpecProtoField) -> Option<u64> {
    |f: SpecProtoField|
        if f.number == number && spec_expect_varint(f) is Ok {
            Some(spec_expect_varint(f)->Ok_0)
        } else {
            None
        }
}

/// The dimension a `dims` field (1) holds.
pub open spec fn dim_of_field() -> spec_fn(SpecProtoField) -> Option<i64> {
    |f: SpecProtoField|
        if f.number == 1 && spec_expect_varint(f) is Ok {
            Some(spec_expect_varint(f)->Ok_0 as i64)
        } else {
            None
        }
}

/// The byte range of the raw data a field 9 holds.
pub open spec fn raw_of_field() -> spec_fn(SpecProtoField) -> Option<(usize, usize)> {
    |f: SpecProtoField|
        if f.number == 9 && spec_expect_bytes(f) is Ok {
            Some((spec_expect_bytes(f)->Ok_0.0 as usize, spec_expect_bytes(f)->Ok_0.1 as usize))
        } else {
            None
        }
}

/// The external-data entry a field 13 holds.
pub open spec fn external_of_field(s: Seq<u8>) -> spec_fn(SpecProtoField) -> Option<(Seq<char>, Seq<char>)> {
    |f: SpecProtoField|
        if f.number == 13 && spec_expect_bytes(f) is Ok && spec_parse_string_entry(
            s,
            spec_expect_bytes(f)->Ok_0.0,
            spec_expect_bytes(f)->Ok_0.1,
        ) is Ok {
            Some(spec_parse_string_entry(s, spec_expect_bytes(f)->Ok_0.0, spec_expect_bytes(f)->Ok_0.1)->Ok_0)
        } else {
            None
        }
}

/// What a tensor read from the fields `fs`, starting from `acc`, holds: its name is the
/// last field 8, its dims the fields 1 in order, its element type the last field 2,
/// its data location the last field 14, its raw data the last field 9, and its
/// external-data entries the fields 13 in order.
pub open spec fn tensor_takes_fields(s: Seq<u8>, fs: Seq<SpecProtoField>, acc: SpecOnnxTensorInfo, t: SpecOnnxTensorInfo) -> bool {
    &&& t.name == or_default(last_picked(fs, string_of_field(s, 8)), acc.name)
    &&& t.shape == acc.shape + picked(fs, dim_of_field())
    &&& t.element_type == (match last_picked(fs, varint_of_field(2)) {
        Some(v) => spec_from_onnx_code(v as i32),
        None => acc.element_type,
    })
    &&& t.data_location == (match last_picked(fs, varint_of_field(14)) {
        Some(v) => Some(v as i32),
        None => acc.data_location,
    })
    &&& t.raw_data_offsets == or_keep(last_picked(fs, raw_of_field()), acc.raw_data_offsets)
    &&& t.external_data == acc.external_data + picked(fs, external_of_field(s))
}

proof fn lemma_tensor_fields_from(s: Seq<u8>, start: int, pos: int, end: int, acc: SpecOnnxTensorInfo)
    ensures
        spec_tensor_fields(s, start, pos, end, acc) matches Ok(t) ==> proto_fields(s, start, pos, end) matches Ok(fs)
            && tensor_takes_fields(s, fs, acc, t),
    decreases end - pos,
{
    if pos >= end {
        assert(acc.shape + Seq::<i64>::empty() =~= acc.shape);
        assert(acc.external_data + Seq::<(Seq<char>, Seq<char>)>::empty() =~= acc.external_data);
    } else {
        lemma_next_field_advances(s, start, pos, end);
        if let Ok(f) = spec_next_field(s, start, pos, end) {
            let one = seq![f];
            assert(one.drop_last() =~= Seq::<SpecProtoField>::empty());
            assert(one.last() == f);
            let next_acc = if f.number == 1 || f.number == 2 || f.number == 14 {
                match spec_expect_varint(f) {
                    Ok(v) => if f.number == 1 {
                        SpecOnnxTensorInfo { shape: acc.shape.push(v as i64), ..acc }
                    } else if f.number == 2 {
                        SpecOnnxTensorInfo { element_type: spec_from_onnx_code(v as i32), ..acc }
                    } else {
                        SpecOnnxTensorInfo { data_location: Some(v as i32), ..acc }
                    },
                    Err(_) => acc,
                }
            } else if f.number == 8 {
                match spec_expect_string(s, f) {
                    Ok(x) => SpecOnnxTensorInfo { name: x, ..acc },
                    Err(_) => acc,
                }
            } else if f.number == 9 {
                match spec_expect_bytes(f) {
                    Ok((a, b)) => SpecOnnxTensorInfo { raw_data_offsets: Some((a as usize, b as usize)), ..acc },
                    Err(_) => acc,
                }
            } else if f.number == 13 {
                match spec_expect_bytes(f) {
                    Ok((a, b)) => match crate::onnx::spec_parse_string_entry(s, a, b) {
                        Ok(p) => SpecOnnxTensorInfo { external_data: acc.external_data.push(p), ..acc },
                        Err(_) => acc,
                    },
                    Err(_) => acc,
                }
            } else {
                acc
            };
            lemma_tensor_fields_from(s, start, f.next, end, next_acc);
            if spec_tensor_fields(s, start, pos, end, acc) is Ok {
                assert(spec_tensor_fields(s, start, pos, end, acc) == spec_tensor_fields(s, start, f.next, end, next_acc));
                let rest = proto_fields(s, start, f.next, end)->Ok_0;
                lemma_last_picked_prepend(f, rest, string_of_field(s, 8));
                lemma_last_picked_prepend(f, rest, varint_of_field(2));
                lemma_last_picked_prepend(f, rest, varint_of_field(14));
                lemma_picked_prepend(f, rest, dim_of_field());
                lemma_last_one(f, rest, raw_of_field(), acc.raw_data_offsets);
                lemma_many_one(f, rest, external_of_field(s), acc.external_data);
                assert(picked(one.drop_last(), dim_of_field()) =~= Seq::<i64>::empty());
                if f.number == 1 {
                    assert(picked(one, dim_of_field()) =~= seq![spec_expect_varint(f)->Ok_0 as i64]);
                    assert(acc.shape.push(spec_expect_varint(f)->Ok_0 as i64) + picked(rest, dim_of_field())
                        =~= acc.shape + (seq![spec_expect_varint(f)->Ok_0 as i64] + picked(rest, dim_of_field())));
                } else {
                    assert(picked(one, dim_of_field()) =~= Seq::<i64>::empty());
                    assert(Seq::<i64>::empty() + picked(rest, dim_of_field()) =~= picked(rest, dim_of_field()));
                }
            }
        }
    }
}

/// A tensor's name is the string of its last field 8, its dims the numbers of its
/// fields 1 in order, its element type the one its last field 2 names, its data
/// location its last field 14, its raw data the byte range of its last field 9, and
/// its external-data entries those of its fields 13, in order.
pub proof fn lemma_tensor_takes_its_fields(s: Seq<u8>, start: int, end: int)
    ensures
        spec_parse_tensor(s, start, end) matches Ok(t) ==> proto_fields(s, start, start, end) matches Ok(fs)
            && t.name == or_default(last_picked(fs, string_of_field(s, 8)), seq![]) && t.shape == picked(
            fs,
            dim_of_field(),
        ) && t.element_type == (match last_picked(fs, varint_of_field(2)) {
            Some(v) => spec_from_onnx_code(v as i32),
            None => OnnxTensorElementType::Unsupported(0),
        }) && t.data_location == (match last_picked(fs, varint_of_field(14)) {
            Some(v) => Some(v as i32),
            None => None,
        }) && t.raw_data_offsets == last_picked(fs, raw_of_field()) && t.external_data == picked(
            fs,
            external_of_field(s),
        ),
{
    lemma_tensor_fields_from(s, start, start, end, empty_tensor());
    if let Ok(fs) = proto_fields(s, start, start, end) {
        assert(Seq::<i64>::empty() + picked(fs, dim_of_field()) =~= picked(fs, dim_of_field()));
        assert(Seq::<(Seq<char>, Seq<char>)>::empty() + picked(fs, external_of_field(s)) =~= picked(
            fs,
            external_of_field(s),
        ));
    }
}

// ---------------------------------------------------------------------------
// GraphProto
// ---------------------------------------------------------------------------

/// The node a field 1 holds.
pub open spec fn node_of_field(s: Seq<u8>) -> spec_fn(SpecProtoField) -> Option<SpecOnnxNode> {
    |f: SpecProtoField|
        if f.number == 1 && spec_expect_bytes(f) is Ok && spec_parse_node(
            s,
            spec_expect_bytes(f)->Ok_0.0,
            spec_expect_bytes(f)->Ok_0.1,
        ) is Ok {
            Some(spec_parse_node(s, spec_expect_bytes(f)->Ok_0.0, spec_expect_bytes(f)->Ok_0.1)->Ok_0)
        } else {
            None
        }
}

/// The tensor a field 5 holds.
pub open spec fn tensor_of_field(s: Seq<u8>) -> spec_fn(SpecProtoField) -> Option<SpecOnnxTensorInfo> {
    |f: SpecProtoField|
        if f.number == 5 && spec_expect_bytes(f) is Ok && spec_parse_tensor(
            s,
            spec_expect_bytes(f)->Ok_0.0,
            spec_expect_bytes(f)->Ok_0.1,
        ) is Ok {
            Some(spec_parse_tensor(s, spec_expect_bytes(f)->Ok_0.0, spec_expect_bytes(f)->Ok_0.1)->Ok_0)
        } else {
            None
        }
}

/// The name of the value a field numbered `number` describes, when it has one.
pub open spec fn value_name_of_field(s: Seq<u8>, number: u32) -> spec_fn(SpecProtoField) -> Option<Seq<char>> {
    |f: SpecProtoField|
        if f.number == number && spec_expect_bytes(f) is Ok && spec_parse_value_info_name(
            s,
            spec_expect_bytes(f)->Ok_0.0,
            spec_expect_bytes(f)->Ok_0.1,
        ) matches Ok(Some(_)) {
            spec_parse_value_info_name(s, spec_expect_bytes(f)->Ok_0.0, spec_expect_bytes(f)->Ok_0.1)->Ok_0
        } else {
            None
        }
}

/// What a graph read from the fields `fs`, starting from `acc`, holds.
pub open spec fn graph_takes_fields(s: Seq<u8>, fs: Seq<SpecProtoField>, acc: SpecOnnxGraph, g: SpecOnnxGraph) -> bool {
    &&& g.name == (match last_picked(fs, string_of_field(s, 2)) {
        Some(x) => Some(x),
        None => acc.name,
    })
    &&& g.nodes == acc.nodes + picked(fs, node_of_field(s))
    &&& g.initializers == acc.initializers + picked(fs, tensor_of_field(s))
    &&& g.inputs == acc.inputs + picked(fs, value_name_of_field(s, 11))
    &&& g.outputs == acc.outputs + picked(fs, value_name_of_field(s, 12))
}

proof fn lemma_prepend_all(s: Seq<u8>, f: SpecProtoField, rest: Seq<SpecProtoField>)
    ensures
        last_picked(seq![f] + rest, string_of_field(s, 2)) == (match last_picked(rest, string_of_field(s, 2)) {
            Some(x) => Some(x),
            None => string_of_field(s, 2)(f),
        }),
        picked(seq![f] + rest, node_of_field(s)) == picked(seq![f], node_of_field(s)) + picked(rest, node_of_field(s)),
        picked(seq![f] + rest, tensor_of_field(s)) == picked(seq![f], tensor_of_field(s)) + picked(rest, tensor_of_field(s)),
        picked(seq![f] + rest, value_name_of_field(s, 11)) == picked(seq![f], value_name_of_field(s, 11)) + picked(
            rest,
            value_name_of_field(s, 11),
        ),
        picked(seq![f] + rest, value_name_of_field(s, 12)) == picked(seq![f], value_name_of_field(s, 12)) + picked(
            rest,
            value_name_of_field(s, 12),
        ),
        picked(seq![f], node_of_field(s)) == (match node_of_field(s)(f) {
            Some(x) => seq![x],
            None => seq![],
        }),
        picked(seq![f], tensor_of_field(s)) == (match tensor_of_field(s)(f) {
            Some(x) => seq![x],
            None => seq![],
        }),
        picked(seq![f], value_name_of_field(s, 11)) == (match value_name_of_field(s, 11)(f) {
            Some(x) => seq![x],
            None => seq![],
        }),
        picked(seq![f], value_name_of_field(s, 12)) == (match value_name_of_field(s, 12)(f) {
            Some(x) => seq![x],
            None => seq![],
        }),
{
    lemma_last_picked_prepend(f, rest, string_of_field(s, 2));
    lemma_picked_prepend(f, rest, node_of_field(s));
    lemma_picked_prepend(f, rest, tensor_of_field(s));
    lemma_picked_prepend(f, rest, value_name_of_field(s, 11));
    lemma_picked_prepend(f, rest, value_name_of_field(s, 12));
    let one = seq![f];
    assert(one.drop_last() =~= Seq::<SpecProtoField>::empty());
    assert(one.last() == f);
    assert(picked(one.drop_last(), node_of_field(s)) =~= Seq::<SpecOnnxNode>::empty());
    assert(picked(one.drop_last(), tensor_of_field(s)) =~= Seq::<SpecOnnxTensorInfo>::empty());
    assert(picked(one.drop_last(), value_name_of_field(s, 11)) =~= Seq::<Seq<char>>::empty());
    assert(picked(one.drop_last(), value_name_of_field(s, 12)) =~= Seq::<Seq<char>>::empty());
    assert(Seq::<SpecOnnxNode>::empty().push(node_of_field(s)(f)->0) =~= seq![node_of_field(s)(f)->0]);
    assert(Seq::<SpecOnnxTensorInfo>::empty().push(tensor_of_field(s)(f)->0) =~= seq![tensor_of_field(s)(f)->0]);
    assert(Seq::<Seq<char>>::empty().push(value_name_of_field(s, 11)(f)->0) =~= seq![value_name_of_field(s, 11)(f)->0]);
    assert(Seq::<Seq<char>>::empty().push(value_name_of_field(s, 12)(f)->0) =~= seq![value_name_of_field(s, 12)(f)->0]);
}

proof fn lemma_append_one<T>(acc: Seq<T>, x: Option<T>, rest: Seq<T>)
    ensures
        (match x {
            Some(v) => acc.push(v),
            None => acc,
        }) + rest == acc + ((match x {
            Some(v) => seq![v],
            None => seq![],
        }) + rest),
{
    match x {
        Some(v) => {
            assert(acc.push(v) + rest =~= acc + (seq![v] + rest));
        },
        None => {
            assert(acc + (Seq::<T>::empty() + rest) =~= acc + rest);
        },
    }
}

proof fn lemma_graph_fields_from(s: Seq<u8>, start: int, pos: int, end: int, acc: SpecOnnxGraph)
    ensures
        spec_graph_fields(s, start, pos, end, acc) matches Ok(g) ==> proto_fields(s, start, pos, end) matches Ok(fs)
            && graph_takes_fields(s, fs, acc, g),
    decreases end - pos,
{
    if pos >= end {
        assert(acc.nodes + Seq::<SpecOnnxNode>::empty() =~= acc.nodes);
        assert(acc.initializers + Seq::<SpecOnnxTensorInfo>::empty() =~= acc.initializers);
        assert(acc.inputs + Seq::<Seq<char>>::empty() =~= acc.inputs);
        assert(acc.outputs + Seq::<Seq<char>>::empty() =~= acc.outputs);
    } else {
        lemma_next_field_advances(s, start, pos, end);
        if let Ok(f) = spec_next_field(s, start, pos, end) {
            let nd = node_of_field(s)(f);
            let tn = tensor_of_field(s)(f);
            let vi = value_name_of_field(s, 11)(f);
            let vo = value_name_of_field(s, 12)(f);
            let next_acc = SpecOnnxGraph {
                name: match string_of_field(s, 2)(f) {
                    Some(x) => Some(x),
                    None => acc.name,
                },
                nodes: match nd {
                    Some(v) => acc.nodes.push(v),
                    None => acc.nodes,
                },
                initializers: match tn {
                    Some(v) => acc.initializers.push(v),
                    None => acc.initializers,
                },
                inputs: match vi {
                    Some(v) => acc.inputs.push(v),
                    None => acc.inputs,
                },
                outputs: match vo {
                    Some(v) => acc.outputs.push(v),
                    None => acc.outputs,
                },
            };
            lemma_graph_fields_from(s, start, f.next, end, next_acc);
            if spec_graph_fields(s, start, pos, end, acc) is Ok {
                assert(spec_graph_fields(s, start, pos, end, acc) == spec_graph_fields(s, start, f.next, end, next_acc));
                let rest = proto_fields(s, start, f.next, end)->Ok_0;
                lemma_prepend_all(s, f, rest);
                lemma_append_one(acc.nodes, nd, picked(rest, node_of_field(s)));
                lemma_append_one(acc.initializers, tn, picked(rest, tensor_of_field(s)));
                lemma_append_one(acc.inputs, vi, picked(rest, value_name_of_field(s, 11)));
                lemma_append_one(acc.outputs, vo, picked(rest, value_name_of_field(s, 12)));
            }
        }
    }
}

/// A graph's name is the string of its last field 2; its nodes are the nodes its
/// fields 1 hold and its initializers the tensors its fields 5 hold, in order; its
/// inputs and outputs are the names of the values its fields 11 and 12 describe.
pub proof fn lemma_graph_takes_its_fields(s: Seq<u8>, start: int, end: int)
    ensures
        spec_parse_graph(s, start, end) matches Ok(g) ==> proto_fields(s, start, start, end) matches Ok(fs)
            && g.name == last_picked(fs, string_of_field(s, 2)) && g.nodes == picked(fs, node_of_field(s))
            && g.initializers == picked(fs, tensor_of_field(s)) && g.inputs == picked(fs, value_name_of_field(s, 11))
            && g.outputs == picked(fs, value_name_of_field(s, 12)),
{
    lemma_graph_fields_from(s, start, start, end, empty_graph());
    if let Ok(fs) = proto_fields(s, start, start, end) {
        assert(Seq::<SpecOnnxNode>::empty() + picked(fs, node_of_field(s)) =~= picked(fs, node_of_field(s)));
        assert(Seq::<SpecOnnxTensorInfo>::empty() + picked(fs, tensor_of_field(s)) =~= picked(fs, tensor_of_field(s)));
        assert(Seq::<Seq<char>>::empty() + picked(fs, value_name_of_field(s, 11)) =~= picked(
            fs,
            value_name_of_field(s, 11),
        ));
        assert(Seq::<Seq<char>>::empty() + picked(fs, value_name_of_field(s, 12)) =~= picked(
            fs,
            value_name_of_field(s, 12),
        ));
    }
}

// ---------------------------------------------------------------------------
// ModelProto
// ---------------------------------------------------------------------------

/// The number a varint field numbered `number` holds, as a signed number.
pub open spec fn i64_of_field(number: u32) -> spec_fn(SpecProtoField) -> Option<i64> {
    |f: SpecProtoField|
        if f.number == number && spec_expect_varint(f) is Ok {
            Some(spec_expect_varint(f)->Ok_0 as i64)
        } else {
            None
        }
}

/// The graph a field 7 holds.
pub open spec fn graph_of_field(s: Seq<u8>) -> spec_fn(SpecProtoField) -> Option<SpecOnnxGraph> {
    |f: SpecProtoField|
        if f.number == 7 && spec_expect_bytes(f) is Ok && spec_parse_graph(
            s,
            spec_expect_bytes(f)->Ok_0.0,
            spec_expect_bytes(f)->Ok_0.1,
        ) is Ok {
            Some(spec_parse_graph(s, spec_expect_bytes(f)->Ok_0.0, spec_expect_bytes(f)->Ok_0.1)->Ok_0)
        } else {
            None
        }
}

/// The operator set a field 8 holds.
pub open spec fn opset_of_field(s: Seq<u8>) -> spec_fn(SpecProtoField) -> Option<SpecOnnxOpset> {
    |f: SpecProtoField|
        if f.number == 8 && spec_expect_bytes(f) is Ok && spec_parse_opset(
            s,
            spec_expect_bytes(f)->Ok_0.0,
            spec_expect_bytes(f)->Ok_0.1,
        ) is Ok {
            Some(spec_parse_opset(s, spec_expect_bytes(f)->Ok_0.0, spec_expect_bytes(f)->Ok_0.1)->Ok_0)
        } else {
            None
        }
}

/// The key and value a field 14 holds.
pub open spec fn entry_of_field(s: Seq<u8>) -> spec_fn(SpecProtoField) -> Option<(Seq<char>, Seq<char>)> {
    |f: SpecProtoField|
        if f.number == 14 && spec_expect_bytes(f) is Ok && spec_parse_string_entry(
            s,
            spec_expect_bytes(f)->Ok_0.0,
            spec_expect_bytes(f)->Ok_0.1,
        ) is Ok {
            Some(spec_parse_string_entry(s, spec_expect_bytes(f)->Ok_0.0, spec_expect_bytes(f)->Ok_0.1)->Ok_0)
        } else {
            None
        }
}

/// `x` when it holds a value, otherwise `d`.
pub open spec fn or_keep<T>(x: Option<T>, d: Option<T>) -> Option<T> {
    if x is Some {
        x
    } else {
        d
    }
}

/// What a model read from the fields `fs`, starting from `acc`, holds.
pub open spec fn model_takes_fields(s: Seq<u8>, fs: Seq<SpecProtoField>, acc: SpecOnnxModel, m: SpecOnnxModel) -> bool {
    &&& m.ir_version == or_keep(last_picked(fs, i64_of_field(1)), acc.ir_version)
    &&& m.model_version == or_keep(last_picked(fs, i64_of_field(5)), acc.model_version)
    &&& m.producer_name == or_keep(last_picked(fs, string_of_field(s, 2)), acc.producer_name)
    &&& m.producer_version == or_keep(last_picked(fs, string_of_field(s, 3)), acc.producer_version)
    &&& m.domain == or_keep(last_picked(fs, string_of_field(s, 4)), acc.domain)
    &&& m.doc_string == or_keep(last_picked(fs, string_of_field(s, 6)), acc.doc_string)
    &&& m.graph == or_default(last_picked(fs, graph_of_field(s)), acc.graph)
    &&& m.opsets == acc.opsets + picked(fs, opset_of_field(s))
    &&& m.metadata == acc.metadata + picked(fs, entry_of_field(s))
}

proof fn lemma_last_one<T>(f: SpecProtoField, rest: Seq<SpecProtoField>, pick: spec_fn(SpecProtoField) -> Option<T>, d: Option<T>)
    ensures
        or_keep(last_picked(seq![f] + rest, pick), d) == or_keep(last_picked(rest, pick), or_keep(pick(f), d)),
{
    lemma_last_picked_prepend(f, rest, pick);
}

proof fn lemma_last_one_default<T>(f: SpecProtoField, rest: Seq<SpecProtoField>, pick: spec_fn(SpecProtoField) -> Option<T>, d: T)
    ensures
        or_default(last_picked(seq![f] + rest, pick), d) == or_default(last_picked(rest, pick), or_default(pick(f), d)),
{
    lemma_last_picked_prepend(f, rest, pick);
}

proof fn lemma_many_one<T>(f: SpecProtoField, rest: Seq<SpecProtoField>, pick: spec_fn(SpecProtoField) -> Option<T>, acc: Seq<T>)
    ensures
        acc + picked(seq![f] + rest, pick) == (match pick(f) {
            Some(v) => acc.push(v),
            None => acc,
        }) + picked(rest, pick),
{
    lemma_picked_prepend(f, rest, pick);
    let one = seq![f];
    assert(one.drop_last() =~= Seq::<SpecProtoField>::empty());
    assert(one.last() == f);
    assert(picked(one.drop_last(), pick) =~= Seq::<T>::empty());
    match pick(f) {
        Some(v) => {
            assert(picked(one, pick) =~= seq![v]);
            assert(acc + (seq![v] + picked(rest, pick)) =~= acc.push(v) + picked(rest, pick));
        },
        None => {
            assert(picked(one, pick) =~= Seq::<T>::empty());
            assert(acc + (Seq::<T>::empty() + picked(rest, pick)) =~= acc + picked(rest, pick));
        },
    }
}

proof fn lemma_model_fields_from(s: Seq<u8>, start: int, pos: int, end: int, acc: SpecOnnxModel)
    ensures
        spec_model_fields(s, start, pos, end, acc) matches Ok(m) ==> proto_fields(s, start, pos, end) matches Ok(fs)
            && model_takes_fields(s, fs, acc, m),
    decreases end - pos,
{
    if pos >= end {
        assert(acc.opsets + Seq::<SpecOnnxOpset>::empty() =~= acc.opsets);
        assert(acc.metadata + Seq::<(Seq<char>, Seq<char>)>::empty() =~= acc.metadata);
    } else {
        lemma_next_field_advances(s, start, pos, end);
        if let Ok(f) = spec_next_field(s, start, pos, end) {
            let next_acc = SpecOnnxModel {
                ir_version: or_keep(i64_of_field(1)(f), acc.ir_version),
                model_version: or_keep(i64_of_field(5)(f), acc.model_version),
                producer_name: or_keep(string_of_field(s, 2)(f), acc.producer_name),
                producer_version: or_keep(string_of_field(s, 3)(f), acc.producer_version),
                domain: or_keep(string_of_field(s, 4)(f), acc.domain),
                doc_string: or_keep(string_of_field(s, 6)(f), acc.doc_string),
                graph: or_default(graph_of_field(s)(f), acc.graph),
                opsets: match opset_of_field(s)(f) {
                    Some(v) => acc.opsets.push(v),
                    None => acc.opsets,
                },
                metadata: match entry_of_field(s)(f) {
                    Some(v) => acc.metadata.push(v),
                    None => acc.metadata,
                },
            };
            lemma_model_fields_from(s, start, f.next, end, next_acc);
            if spec_model_fields(s, start, pos, end, acc) is Ok {
                assert(spec_model_fields(s, start, pos, end, acc) == spec_model_fields(s, start, f.next, end, next_acc));
                let rest = proto_fields(s, start, f.next, end)->Ok_0;
                lemma_last_one(f, rest, i64_of_field(1), acc.ir_version);
                lemma_last_one(f, rest, i64_of_field(5), acc.model_version);
                lemma_last_one(f, rest, string_of_field(s, 2), acc.producer_name);
                lemma_last_one(f, rest, string_of_field(s, 3), acc.producer_version);
                lemma_last_one(f, rest, string_of_field(s, 4), acc.domain);
                lemma_last_one(f, rest, string_of_field(s, 6), acc.doc_string);
                lemma_last_one_default(f, rest, graph_of_field(s), acc.graph);
                lemma_many_one(f, rest, opset_of_field(s), acc.opsets);
                lemma_many_one(f, rest, entry_of_field(s), acc.metadata);
            }
        }
    }
}

/// A model's IR and model versions are the numbers of its last fields 1 and 5, its
/// producer name and version, domain and doc string the strings of its last fields 2,
/// 3, 4 and 6, its graph the graph of its last field 7, and its operator sets and
/// metadata those of its fields 8 and 14, in order.
pub proof fn lemma_model_takes_its_fields(s: Seq<u8>)
    ensures
        spec_parse_model(s) matches Ok(m) ==> proto_fields(s, 0, 0, s.len() as int) matches Ok(fs)
            && model_takes_fields(s, fs, empty_model(), m),
{
    lemma_model_fields_from(s, 0, 0, s.len() as int, empty_model());
}

// ---------------------------------------------------------------------------
// OperatorSetIdProto and StringStringEntryProto
// ---------------------------------------------------------------------------

proof fn lemma_opset_fields_from(s: Seq<u8>, start: int, pos: int, end: int, acc: SpecOnnxOpset)
    ensures
        spec_opset_fields(s, start, pos, end, acc) matches Ok(o) ==> proto_fields(s, start, pos, end) matches Ok(fs)
            && o.domain == or_default(last_picked(fs, string_of_field(s, 1)), acc.domain) && o.version
            == or_default(last_picked(fs, i64_of_field(2)), acc.version),
    decreases end - pos,
{
    if pos < end {
        lemma_next_field_advances(s, start, pos, end);
        if let Ok(f) = spec_next_field(s, start, pos, end) {
            let next_acc = SpecOnnxOpset {
                domain: or_default(string_of_field(s, 1)(f), acc.domain),
                version: or_default(i64_of_field(2)(f), acc.version),
            };
            lemma_opset_fields_from(s, start, f.next, end, next_acc);
            if spec_opset_fields(s, start, pos, end, acc) is Ok {
                assert(spec_opset_fields(s, start, pos, end, acc) == spec_opset_fields(s, start, f.next, end, next_acc));
                let rest = proto_fields(s, start, f.next, end)->Ok_0;
                lemma_last_one_default(f, rest, string_of_field(s, 1), acc.domain);
                lemma_last_one_default(f, rest, i64_of_field(2), acc.version);
            }
        }
    }
}

/// An operator set's domain is the string of its last field 1 (empty without one)
/// and its version the number of its last field 2 (zero without one).
pub proof fn lemma_opset_takes_its_fields(s: Seq<u8>, start: int, end: int)
    ensures
        spec_parse_opset(s, start, end) matches Ok(o) ==> proto_fields(s, start, start, end) matches Ok(fs)
            && o.domain == or_default(last_picked(fs, string_of_field(s, 1)), seq![]) && o.version == or_default(
            last_picked(fs, i64_of_field(2)),
            0,
        ),
{
    lemma_opset_fields_from(s, start, start, end, empty_opset());
}

proof fn lemma_entry_fields_from(s: Seq<u8>, start: int, pos: int, end: int, acc: (Seq<char>, Seq<char>))
    ensures
        spec_string_entry_fields(s, start, pos, end, acc) matches Ok(p) ==> proto_fields(s, start, pos, end) matches Ok(
            fs,
        ) && p.0 == or_default(last_picked(fs, string_of_field(s, 1)), acc.0) && p.1 == or_default(
            last_picked(fs, string_of_field(s, 2)),
            acc.1,
        ),
    decreases end - pos,
{
    if pos < end {
        lemma_next_field_advances(s, start, pos, end);
        if let Ok(f) = spec_next_field(s, start, pos, end) {
            let next_acc = (
                or_default(string_of_field(s, 1)(f), acc.0),
                or_default(string_of_field(s, 2)(f), acc.1),
            );
            lemma_entry_fields_from(s, start, f.next, end, next_acc);
            if spec_string_entry_fields(s, start, pos, end, acc) is Ok {
                assert(spec_string_entry_fields(s, start, pos, end, acc) == spec_string_entry_fields(
                    s,
                    start,
                    f.next,
                    end,
                    next_acc,
                ));
                let rest = proto_fields(s, start, f.next, end)->Ok_0;
                lemma_last_one_default(f, rest, string_of_field(s, 1), acc.0);
                lemma_last_one_default(f, rest, string_of_field(s, 2), acc.1);
            }
        }
    }
}

/// A key/value entry's key is the string of its last field 1 and its value the string
/// of its last field 2 (each empty without one).
pub proof fn lemma_entry_takes_its_fields(s: Seq<u8>, start: int, end: int)
    ensures
        spec_parse_string_entry(s, start, end) matches Ok(p) ==> proto_fields(s, start, start, end) matches Ok(fs)
            && p.0 == or_default(last_picked(fs, string_of_field(s, 1)), seq![]) && p.1 == or_default(
            last_picked(fs, string_of_field(s, 2)),
            seq![],
        ),
{
    lemma_entry_fields_from(s, start, start, end, (seq![], seq![]));
}

} // verus!
