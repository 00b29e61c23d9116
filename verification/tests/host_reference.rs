use nn_rust_verified::host_reference::{single_token_gqa, top_logit_tokens_match, unpack_packed_top_logit_bits};

#[test]
fn gqa_copies_each_key_value_head_to_its_query_heads() {
    let value = vec![1, 2, 3, 4];
    assert_eq!(single_token_gqa(&value, 4, 2, 2), vec![1, 2, 1, 2, 3, 4, 3, 4]);
    assert_eq!(single_token_gqa(&[7.0_f32, 8.0], 3, 1, 2), vec![7.0, 8.0, 7.0, 8.0, 7.0, 8.0]);
}

#[test]
fn packed_top_logit_splits_token_and_bits() {
    let packed = (1.5_f32.to_bits() as u64) << 32 | 42;
    let (token, bits) = unpack_packed_top_logit_bits(packed);
    assert_eq!(token, 42);
    assert_eq!(f32::from_bits(bits), 1.5);
}

#[test]
fn top_logit_lists_compare_tokens_only() {
    assert!(top_logit_tokens_match(&[(1, 0.5_f32), (2, 0.25)], &[(1, 9.0), (2, -1.0)]));
    assert!(!top_logit_tokens_match(&[(1, 0.5_f32), (2, 0.25)], &[(2, 0.5), (1, 0.25)]));
    assert!(!top_logit_tokens_match(&[(1, 0.5_f32)], &[(1, 0.5), (2, 0.25)]));
}
