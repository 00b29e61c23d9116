use nn_rust_verified::export::{
    all_linear_int8_export_tensor_specs, export_file_expectation, validate_export_archive_head,
    validate_export_regular_file_len, validate_export_tensor_files,
    validate_int8_export_manifest_metadata, ExportArchiveError, ExportFileError, ExportFileFacts,
    ExportedInt8TensorSpec, ManifestError,
};
use nn_rust_verified::model::{
    expect_shape, validate_hidden_states, validate_layer_token, validate_runtime_max_seq_len,
    validate_token, ModelError, TextDims,
};
use nn_rust_verified::dtypes::DType;
use nn_rust_verified::rowwise_scaled::{
    rowwise_scaled_i8_export_file_names, rowwise_scaled_i8_export_file_paths,
    rowwise_scaled_i8_export_file_stem, validate_rowwise_i8_parts, RowwiseScaledError,
};
use nn_rust_verified::safetensors::TensorInfo;
use std::path::Path;

fn dims() -> TextDims {
    TextDims {
        dim: 8,
        hidden_dim: 16,
        n_layers: 2,
        n_heads: 4,
        n_kv_heads: 2,
        head_dim: 2,
        max_position_embeddings: 8,
        vocab_size: 10,
    }
}

#[test]
fn export_file_names_pad_the_index() {
    assert_eq!(
        rowwise_scaled_i8_export_file_stem("layers.3.attention.wq.weight"),
        "layers_3_attention_wq_weight"
    );
    let (values, scales) = rowwise_scaled_i8_export_file_names(7, "output.weight");
    assert_eq!(values, "0007_output_weight.i8");
    assert_eq!(scales, "0007_output_weight.scales.f32");
    let (values, _) = rowwise_scaled_i8_export_file_names(12345, "a-b");
    assert_eq!(values, "12345_a_b.i8");
    let (values, scales) = rowwise_scaled_i8_export_file_paths(Path::new("/x"), 42, "w");
    assert_eq!(values, Path::new("/x/0042_w.i8"));
    assert_eq!(scales, Path::new("/x/0042_w.scales.f32"));
}

#[test]
fn rowwise_parts_must_match_the_shape() {
    assert_eq!(validate_rowwise_i8_parts(6, 2, 2, 3), Ok(()));
    assert_eq!(
        validate_rowwise_i8_parts(5, 2, 2, 3),
        Err(RowwiseScaledError::ValuesLenMismatch {
            len: 5,
            rows: 2,
            cols: 3
        })
    );
    assert_eq!(
        validate_rowwise_i8_parts(6, 3, 2, 3),
        Err(RowwiseScaledError::ScalesLenMismatch { len: 3, rows: 2 })
    );
}

#[test]
fn export_specs_list_output_then_layer_weights() {
    let specs = all_linear_int8_export_tensor_specs(&dims());
    assert_eq!(specs.len(), 15);
    assert_eq!(
        specs[0],
        ExportedInt8TensorSpec {
            index: 0,
            name: "output.weight".to_string(),
            rows: 10,
            cols: 8
        }
    );
    assert_eq!(
        specs[1],
        ExportedInt8TensorSpec {
            index: 1,
            name: "layers.0.attention.wq.weight".to_string(),
            rows: 8,
            cols: 8
        }
    );
    assert_eq!(specs[2].rows, 4);
    assert_eq!(specs[4].name, "layers.0.attention.wo.weight");
    assert_eq!((specs[4].rows, specs[4].cols), (8, 8));
    assert_eq!(specs[7].name, "layers.0.feed_forward.w2.weight");
    assert_eq!((specs[7].rows, specs[7].cols), (8, 16));
    assert_eq!(specs[14].index, 14);
    assert_eq!(specs[14].name, "layers.1.feed_forward.w2.weight");
}

#[test]
fn export_file_expectations_count_bytes() {
    let spec = ExportedInt8TensorSpec {
        index: 3,
        name: "w".to_string(),
        rows: 5,
        cols: 7,
    };
    let expected = export_file_expectation(&spec).unwrap();
    assert_eq!(expected.values_file, "0003_w.i8");
    assert_eq!(expected.values_bytes, 35);
    assert_eq!(expected.scales_file, "0003_w.scales.f32");
    assert_eq!(expected.scales_bytes, 20);
    let huge = ExportedInt8TensorSpec {
        index: 0,
        name: "w".to_string(),
        rows: usize::MAX,
        cols: 2,
    };
    assert_eq!(export_file_expectation(&huge), Err(ModelError::ExportLenOverflow));
}

#[test]
fn export_files_are_checked_against_metadata() {
    assert_eq!(validate_export_regular_file_len(true, true, 4, Some(4)), Ok(()));
    assert_eq!(validate_export_regular_file_len(true, true, 9, None), Ok(()));
    assert_eq!(
        validate_export_regular_file_len(false, true, 4, Some(4)),
        Err(ExportFileError::Unreadable)
    );
    assert_eq!(
        validate_export_regular_file_len(true, false, 4, Some(4)),
        Err(ExportFileError::NotRegularFile)
    );
    assert_eq!(
        validate_export_regular_file_len(true, true, 3, Some(4)),
        Err(ExportFileError::WrongLength {
            actual: 3,
            expected: 4
        })
    );
}

#[test]
fn export_manifest_names_its_quantization() {
    let manifest = br#"{"quantization": "row-symmetric-int8-with-f32-row-scales", "weights_path": "/m/w.safetensors"}"#;
    assert_eq!(validate_int8_export_manifest_metadata(manifest, false), Ok(None));
    assert_eq!(
        validate_int8_export_manifest_metadata(manifest, true),
        Ok(Some("/m/w.safetensors".to_string()))
    );
    let other = br#"{"quantization": "int4"}"#;
    assert_eq!(
        validate_int8_export_manifest_metadata(other, true),
        Err(ManifestError::UnsupportedQuantization("int4".to_string()))
    );
    assert!(matches!(
        validate_int8_export_manifest_metadata(b"{}", false),
        Err(ManifestError::Json(_))
    ));
}

#[test]
fn runtime_inputs_are_range_checked() {
    let d = dims();
    assert_eq!(validate_token(&d, 9), Ok(()));
    assert_eq!(
        validate_token(&d, 10),
        Err(ModelError::TokenOutOfRange {
            token: 10,
            vocab_size: 10
        })
    );
    assert_eq!(
        validate_layer_token(&d, 2, 0),
        Err(ModelError::LayerOutOfRange {
            layer: 2,
            n_layers: 2
        })
    );
    assert_eq!(validate_layer_token(&d, 1, 0), Ok(()));
    assert_eq!(validate_runtime_max_seq_len(&d, 8), Ok(()));
    assert_eq!(
        validate_runtime_max_seq_len(&d, 9),
        Err(ModelError::MaxSeqLenTooLong {
            max_seq_len: 9,
            max_position_embeddings: 8
        })
    );
    assert_eq!(validate_hidden_states(&d, &[]), Err(ModelError::NoHiddenStates));
    assert_eq!(validate_hidden_states(&d, &[8, 8]), Ok(()));
    assert_eq!(
        validate_hidden_states(&d, &[8, 7, 6]),
        Err(ModelError::HiddenStateLen {
            index: 1,
            len: 7,
            expected: 8
        })
    );
}

#[test]
fn expect_shape_compares_every_dimension() {
    let tensor = TensorInfo {
        name: "w".to_string(),
        dtype: DType::F32,
        shape: vec![2, 3],
        data_offsets: [0, 24],
    };
    assert_eq!(expect_shape(&tensor, &[2, 3]), Ok(()));
    assert_eq!(expect_shape(&tensor, &[3, 2]), Err(ModelError::ShapeMismatch));
    assert_eq!(expect_shape(&tensor, &[2]), Err(ModelError::ShapeMismatch));
}

fn file(len: u64) -> ExportFileFacts {
    ExportFileFacts { readable: true, is_file: true, len }
}

#[test]
fn export_archive_head_checks_directory_then_manifest() {
    assert_eq!(validate_export_archive_head(false, true, file(3)), Err(ExportArchiveError::DirUnreadable));
    assert_eq!(validate_export_archive_head(true, false, file(3)), Err(ExportArchiveError::NotADirectory));
    let missing = ExportFileFacts { readable: false, is_file: false, len: 0 };
    assert_eq!(
        validate_export_archive_head(true, true, missing),
        Err(ExportArchiveError::ManifestFile(ExportFileError::Unreadable))
    );
    assert_eq!(validate_export_archive_head(true, true, file(0)), Ok(()));
}

#[test]
fn export_tensor_files_are_checked_in_order() {
    let specs = vec![
        ExportedInt8TensorSpec { index: 0, name: "output.weight".to_string(), rows: 3, cols: 4 },
        ExportedInt8TensorSpec { index: 1, name: "layers.0.attention.wq.weight".to_string(), rows: 2, cols: 5 },
    ];
    let good = vec![(file(12), file(12)), (file(10), file(8))];
    assert_eq!(validate_export_tensor_files(&specs, &good), Ok(()));

    let short_scales = vec![(file(12), file(12)), (file(10), file(7))];
    assert_eq!(
        validate_export_tensor_files(&specs, &short_scales),
        Err(ExportArchiveError::ScalesFile {
            index: 1,
            error: ExportFileError::WrongLength { actual: 7, expected: 8 }
        })
    );

    let both_bad = vec![(file(11), file(12)), (file(9), file(8))];
    assert_eq!(
        validate_export_tensor_files(&specs, &both_bad),
        Err(ExportArchiveError::ValuesFile {
            index: 0,
            error: ExportFileError::WrongLength { actual: 11, expected: 12 }
        })
    );

    let huge = vec![ExportedInt8TensorSpec { index: 7, name: "w".to_string(), rows: usize::MAX, cols: 2 }];
    assert_eq!(
        validate_export_tensor_files(&huge, &[(file(0), file(0))]),
        Err(ExportArchiveError::TensorSize { index: 7 })
    );
}
