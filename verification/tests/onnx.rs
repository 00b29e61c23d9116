use nn_rust_verified::dtypes::DType;
use nn_rust_verified::onnx::{
    parse_model, OnnxError, OnnxFile, OnnxOpset, OnnxTensorElementType,
};

fn message(fields: Vec<Vec<u8>>) -> Vec<u8> {
    fields.into_iter().flatten().collect()
}

fn varint_field(number: u32, value: u64) -> Vec<u8> {
    let mut out = Vec::new();
    push_varint(&mut out, u64::from(number << 3));
    push_varint(&mut out, value);
    out
}

fn string_field(number: u32, value: &str) -> Vec<u8> {
    bytes_field(number, value.as_bytes())
}

fn bytes_field(number: u32, value: &[u8]) -> Vec<u8> {
    let mut out = Vec::new();
    push_varint(&mut out, u64::from((number << 3) | 2));
    push_varint(&mut out, value.len() as u64);
    out.extend_from_slice(value);
    out
}

fn push_varint(out: &mut Vec<u8>, mut value: u64) {
    while value >= 0x80 {
        out.push((value as u8 & 0x7f) | 0x80);
        value >>= 7;
    }
    out.push(value as u8);
}

#[test]
fn parses_model_graph_initializers_and_raw_offsets() {
    let tensor = message(vec![
        varint_field(1, 2),
        varint_field(1, 3),
        varint_field(2, 16),
        string_field(8, "weight"),
        bytes_field(9, &[1, 2, 3, 4, 5, 6, 7, 8, 9, 10, 11, 12]),
    ]);
    let graph = message(vec![
        string_field(2, "main"),
        bytes_field(5, &tensor),
        bytes_field(11, &message(vec![string_field(1, "input")])),
        bytes_field(12, &message(vec![string_field(1, "output")])),
    ]);
    let opset = message(vec![string_field(1, ""), varint_field(2, 18)]);
    let model_bytes = message(vec![
        varint_field(1, 9),
        string_field(2, "unit-test"),
        bytes_field(7, &graph),
        bytes_field(8, &opset),
    ]);

    let model = parse_model(&model_bytes).expect("ONNX model parses");
    assert_eq!(model.ir_version, Some(9));
    assert_eq!(model.producer_name.as_deref(), Some("unit-test"));
    assert_eq!(model.graph.name.as_deref(), Some("main"));
    assert_eq!(model.graph.inputs, vec!["input"]);
    assert_eq!(model.graph.outputs, vec!["output"]);
    assert_eq!(
        model.opsets,
        vec![OnnxOpset {
            domain: String::new(),
            version: 18,
        }]
    );

    let tensor = &model.graph.initializers[0];
    assert_eq!(tensor.name, "weight");
    assert_eq!(tensor.element_type, OnnxTensorElementType::DType(DType::Bf16));
    assert_eq!(tensor.shape, vec![2, 3]);
    let offsets = tensor.raw_data_offsets.expect("raw data offsets");
    assert_eq!(
        &model_bytes[offsets[0]..offsets[1]],
        &[1, 2, 3, 4, 5, 6, 7, 8, 9, 10, 11, 12]
    );
}

#[test]
fn parses_external_initializer_metadata() {
    let external_location = message(vec![string_field(1, "location"), string_field(2, "w.bin")]);
    let tensor = message(vec![
        varint_field(2, 1),
        string_field(8, "external_weight"),
        bytes_field(13, &external_location),
        varint_field(14, 1),
    ]);
    let graph = message(vec![bytes_field(5, &tensor)]);
    let model_bytes = message(vec![bytes_field(7, &graph)]);

    let model = parse_model(&model_bytes).expect("ONNX model parses");
    let tensor = &model.graph.initializers[0];
    assert_eq!(tensor.name, "external_weight");
    assert_eq!(tensor.element_type, OnnxTensorElementType::DType(DType::F32));
    assert_eq!(
        tensor.external_data,
        vec![("location".to_string(), "w.bin".to_string())]
    );
    assert_eq!(tensor.data_location, Some(1));
    assert_eq!(tensor.raw_data_offsets, None);
}

#[test]
fn onnx_rejects_truncated_and_malformed_fields() {
    // A key whose varint never terminates.
    assert_eq!(parse_model(&[0x80]).unwrap_err(), OnnxError::UnterminatedVarint);
    // Eleven continuation bytes exceed 64 bits.
    assert_eq!(parse_model(&[0xff; 11]).unwrap_err(), OnnxError::VarintTooLong);
    // Wire type 3 (start group) is not supported.
    assert_eq!(parse_model(&[(1 << 3) | 3]).unwrap_err(), OnnxError::UnsupportedWireType(3));
    // A length-delimited field longer than its message.
    assert_eq!(parse_model(&[(2 << 3) | 2, 5, b'a']).unwrap_err(), OnnxError::FieldOverrunsInput);
    // ir_version must be a varint.
    assert_eq!(
        parse_model(&message(vec![string_field(1, "x")])).unwrap_err(),
        OnnxError::ExpectedVarint { number: 1, wire_type: 2 }
    );
    // producer_name must be length-delimited.
    assert_eq!(
        parse_model(&message(vec![varint_field(2, 7)])).unwrap_err(),
        OnnxError::ExpectedLengthDelimited { number: 2, wire_type: 0 }
    );
    // producer_name must be UTF-8.
    assert_eq!(parse_model(&message(vec![bytes_field(2, &[0xff])])).unwrap_err(), OnnxError::InvalidUtf8);
    // Unknown fields, fixed-width values included, are skipped.
    let mut skipped = vec![(12 << 3) | 1];
    skipped.extend_from_slice(&[0; 8]);
    skipped.push((13 << 3) | 5);
    skipped.extend_from_slice(&[0; 4]);
    skipped.extend(varint_field(5, 300));
    let model = parse_model(&skipped).unwrap();
    assert_eq!(model.model_version, Some(300));
}

#[test]
fn onnx_varint_keeps_low_64_bits_and_later_fields_win() {
    let mut bytes = vec![1 << 3];
    bytes.extend_from_slice(&[0xff, 0xff, 0xff, 0xff, 0xff, 0xff, 0xff, 0xff, 0xff, 0x01]);
    bytes.extend(string_field(2, "first"));
    bytes.extend(string_field(2, "second"));
    let model = parse_model(&bytes).unwrap();
    assert_eq!(model.ir_version, Some(-1));
    assert_eq!(model.producer_name.as_deref(), Some("second"));
}

#[test]
fn onnx_element_types_and_names() {
    assert_eq!(OnnxTensorElementType::from_onnx_code(16), OnnxTensorElementType::DType(DType::Bf16));
    assert_eq!(OnnxTensorElementType::from_onnx_code(8), OnnxTensorElementType::String);
    assert_eq!(OnnxTensorElementType::from_onnx_code(99), OnnxTensorElementType::Unsupported(99));
    assert_eq!(OnnxTensorElementType::from_onnx_code(11).dtype(), Some(DType::F64));
    assert_eq!(OnnxTensorElementType::Complex64.dtype(), None);
    assert_eq!(OnnxTensorElementType::from_onnx_code(16).onnx_name(), "BFLOAT16");
    assert_eq!(OnnxTensorElementType::from_onnx_code(21).onnx_name(), "UINT4");
    assert_eq!(OnnxTensorElementType::Unsupported(-3).onnx_name(), "UNSUPPORTED");
}

#[test]
fn onnx_file_finds_initializers_by_name() {
    let t1 = message(vec![string_field(8, "a"), varint_field(2, 1)]);
    let t2 = message(vec![string_field(8, "b"), varint_field(2, 7)]);
    let graph = message(vec![bytes_field(5, &t1), bytes_field(5, &t2)]);
    let bytes = message(vec![bytes_field(7, &graph)]);
    let file = OnnxFile::from_file_bytes("m.onnx".into(), &bytes).unwrap();
    assert_eq!(file.initializers().len(), 2);
    assert_eq!(file.initializer("b").unwrap().element_type, OnnxTensorElementType::DType(DType::I64));
    assert_eq!(file.initializer("c").unwrap_err(), OnnxError::MissingInitializer);
    assert_eq!(file.path(), std::path::Path::new("m.onnx"));
}
