use nn_rust_verified::dtypes::DType;
use nn_rust_verified::safetensors::SafetensorsError;
use nn_rust_verified::safetensors_file::{
    check_shard_tensors, shard_file_names, sharded_tensor, SafetensorsHeader, ShardIndex,
    TensorLookupError,
};

const HEADER: &str = r#"{"a":{"dtype":"F32","shape":[2,3],"data_offsets":[0,24]},"language_model.model.norm.weight":{"dtype":"BF16","shape":[4],"data_offsets":[24,32]}}"#;

fn pairs(entries: &[(&str, &str)]) -> Vec<(String, String)> {
    entries
        .iter()
        .map(|(t, f)| (t.to_string(), f.to_string()))
        .collect()
}

#[test]
fn header_lookup_finds_tensors_and_aliases() {
    let header = SafetensorsHeader::from_header_text(100, HEADER).unwrap();
    assert_eq!(header.header_len(), 100);
    assert_eq!(header.data_start(), 108);
    assert_eq!(header.tensors().len(), 2);
    assert_eq!(header.tensor("a").unwrap().shape, vec![2, 3]);
    assert!(matches!(
        header.tensor("norm.weight"),
        Err(TensorLookupError::MissingTensor)
    ));
    assert_eq!(
        header.resolve_tensor("norm.weight").unwrap().name,
        "language_model.model.norm.weight"
    );
    assert!(header.resolve_tensor("missing.weight").is_none());
    assert_eq!(
        header.first_existing_tensor(&["c", "a"]).unwrap().name,
        "a"
    );
    assert!(matches!(
        header.first_existing_tensor(&["c", "d"]),
        Err(TensorLookupError::NoneExist)
    ));
}

#[test]
fn header_byte_ranges_check_dtype_and_bounds() {
    let header = SafetensorsHeader::from_header_text(100, HEADER).unwrap();
    let a = header.tensor("a").unwrap();
    assert_eq!(header.tensor_byte_range(a, DType::F32, 1, 2), Ok((112, 8)));
    assert_eq!(header.tensor_byte_range(a, DType::F32, 0, 6), Ok((108, 24)));
    assert_eq!(
        header.tensor_byte_range(a, DType::F32, 5, 2),
        Err(TensorLookupError::RangeOutOfBounds {
            start: 5,
            end: 7,
            total: 6
        })
    );
    assert_eq!(
        header.tensor_byte_range(a, DType::Bf16, 0, 1),
        Err(TensorLookupError::Header(SafetensorsError::DtypeMismatch {
            name: "a".to_string(),
            actual: DType::F32,
            expected: DType::Bf16
        }))
    );
}

#[test]
fn header_text_errors_are_reported() {
    assert!(matches!(
        SafetensorsHeader::from_header_text(3, "[]"),
        Err(TensorLookupError::Header(_))
    ));
}

#[test]
fn shard_files_are_unique_and_sorted() {
    let map = pairs(&[("b", "m-2.st"), ("a", "m-1.st"), ("c", "m-2.st"), ("d", "m-0.st")]);
    assert_eq!(shard_file_names(&map), vec!["m-0.st", "m-1.st", "m-2.st"]);
    assert!(shard_file_names(&[]).is_empty());
}

#[test]
fn shard_index_maps_tensors_to_files() {
    let map = pairs(&[
        ("b", "m-2.st"),
        ("language_model.model.norm.weight", "m-1.st"),
        ("b", "m-1.st"),
    ]);
    let index = ShardIndex::from_weight_map(&map).unwrap();
    assert_eq!(index.file_names(), &["m-1.st".to_string(), "m-2.st".to_string()]);
    assert!(index.contains_tensor("b"));
    assert!(!index.contains_tensor("norm.weight"));
    assert_eq!(index.shard_file_index("b"), Some(0));
    assert_eq!(index.shard_file_index("z"), None);
    assert_eq!(
        index.resolve_tensor_name("norm.weight").as_deref(),
        Some("language_model.model.norm.weight")
    );
    assert_eq!(index.resolve_tensor_name("output.weight"), None);
    assert!(matches!(
        ShardIndex::from_weight_map(&[]),
        Err(TensorLookupError::EmptyWeightMap)
    ));
}

#[test]
fn sharded_lookup_reads_the_right_header() {
    let map = pairs(&[("a", "m-2.st"), ("language_model.model.norm.weight", "m-1.st")]);
    let index = ShardIndex::from_weight_map(&map).unwrap();
    let first = SafetensorsHeader::from_header_text(
        10,
        r#"{"language_model.model.norm.weight":{"dtype":"BF16","shape":[4],"data_offsets":[0,8]}}"#,
    )
    .unwrap();
    let second = SafetensorsHeader::from_header_text(
        10,
        r#"{"a":{"dtype":"F32","shape":[1],"data_offsets":[0,4]}}"#,
    )
    .unwrap();
    let headers = vec![first, second];
    assert_eq!(check_shard_tensors(&index, &headers), Ok(()));
    let (file, tensor) = sharded_tensor(&index, &headers, "norm.weight").unwrap().unwrap();
    assert_eq!(file, 0);
    assert_eq!(tensor.shape, vec![4]);
    assert!(sharded_tensor(&index, &headers, "zzz").unwrap().is_none());

    let reversed = vec![
        SafetensorsHeader::from_header_text(10, r#"{"a":{"dtype":"F32","shape":[1],"data_offsets":[0,4]}}"#).unwrap(),
        SafetensorsHeader::from_header_text(10, r#"{"b":{"dtype":"F32","shape":[1],"data_offsets":[0,4]}}"#).unwrap(),
    ];
    assert_eq!(
        check_shard_tensors(&index, &reversed),
        Err(TensorLookupError::MissingTensor)
    );
}
