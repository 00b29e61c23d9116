use nn_rust_verified::byte_level::byte_unicode_maps;
use nn_rust_verified::qwen_tokenizer::{
    parse_merge_ranks, AddedToken, QwenByteLevelBpeTokenizer, QwenError,
};
use std::path::Path;

fn end_of_text(id: u64) -> AddedToken {
    AddedToken {
        id: Some(id),
        content: Some("<|endoftext|>".to_string()),
        special: Some(true),
    }
}

fn tiny_tokenizer() -> QwenByteLevelBpeTokenizer {
    QwenByteLevelBpeTokenizer::from_model_files(
        r#"{
            "H": 0,
            "e": 1,
            "l": 2,
            "o": 3,
            "He": 4,
            "Hel": 5,
            "Hell": 6,
            "Hello": 7,
            "Ġ": 8,
            "ĠHello": 9
        }"#,
        "H e\nHe l\nHel l\nHell o\nĠ Hello\n",
        &[end_of_text(10)],
    )
    .unwrap()
}

#[test]
fn byte_level_mapping_round_trips_all_bytes() {
    let (byte_to_char, char_to_byte) = byte_unicode_maps();
    for byte in 0_u8..=255 {
        let ch = byte_to_char[byte as usize];
        assert_eq!(char_to_byte.get(&ch), Some(&byte));
    }
}

#[test]
fn byte_bpe_encodes_and_decodes_text() {
    let tokenizer = tiny_tokenizer();

    let tokens = tokenizer.encode_lossy("Hello", false).unwrap();
    assert_eq!(tokens, vec![7]);
    assert_eq!(tokenizer.decode_lossy(&tokens).unwrap(), "Hello");

    let tokens = tokenizer.encode_lossy(" Hello", false).unwrap();
    assert_eq!(tokens, vec![9]);
    assert_eq!(tokenizer.decode_lossy(&tokens).unwrap(), " Hello");
}

#[test]
fn added_special_tokens_encode_and_skip_on_decode() {
    let tokenizer = tiny_tokenizer();

    let tokens = tokenizer.encode_lossy("<|endoftext|>Hello", false).unwrap();
    assert_eq!(tokens, vec![10, 7]);
    assert_eq!(tokenizer.decode_lossy(&tokens).unwrap(), "Hello");
    assert_eq!(
        tokenizer.decode_lossy_with_options(&tokens, false).unwrap(),
        "<|endoftext|>Hello"
    );
    assert_eq!(tokenizer.eos_token_id(), Some(10));
}

#[test]
fn qwen_adds_bos_and_reports_missing_ids() {
    let tokenizer = tiny_tokenizer();
    assert!(tokenizer.can_encode());
    assert_eq!(tokenizer.bos_token_id(), Some(10));
    assert_eq!(tokenizer.im_end_token_id(), None);
    assert_eq!(tokenizer.encode_lossy("He", true).unwrap(), vec![10, 4]);
    assert_eq!(
        tokenizer.encode_lossy("Hello Hello", false).unwrap(),
        vec![7, 9]
    );
    assert_eq!(tokenizer.decode_lossy(&[42]), Err(QwenError::MissingTokenId(42)));
    assert_eq!(
        tokenizer.encode_lossy("x", false),
        Err(QwenError::MissingVocabPiece)
    );
}

#[test]
fn qwen_without_end_of_text_cannot_add_bos() {
    let tokenizer =
        QwenByteLevelBpeTokenizer::from_model_files(r#"{"a": 0, "b": 1}"#, "a b\n", &[]).unwrap();
    assert_eq!(tokenizer.encode_lossy("ab", true), Err(QwenError::MissingBos));
    assert_eq!(tokenizer.encode_lossy("ba", false).unwrap(), vec![1, 0]);
}

#[test]
fn qwen_decode_rejects_chars_outside_the_byte_alphabet() {
    let tokenizer =
        QwenByteLevelBpeTokenizer::from_model_files(r#"{"a": 0, "a b": 1}"#, "a b\n", &[]).unwrap();
    assert_eq!(
        tokenizer.decode_lossy(&[1]),
        Err(QwenError::NonByteLevelChar { id: 1, ch: ' ' })
    );
    assert_eq!(tokenizer.decode_lossy(&[0, 0]).unwrap(), "aa");
}

#[test]
fn qwen_construction_errors() {
    assert!(matches!(
        QwenByteLevelBpeTokenizer::from_model_files("[1, 2]", "a b\n", &[]),
        Err(QwenError::VocabJson)
    ));
    assert!(matches!(
        QwenByteLevelBpeTokenizer::from_model_files("{}", "a b\n", &[]),
        Err(QwenError::EmptyVocab)
    ));
    assert!(matches!(
        QwenByteLevelBpeTokenizer::from_model_files(r#"{"a": 0}"#, "#version: 0.2\n\n", &[]),
        Err(QwenError::NoMerges)
    ));
    assert!(matches!(
        QwenByteLevelBpeTokenizer::from_model_files(r#"{"a": 0}"#, "a b\nab\n", &[]),
        Err(QwenError::MergeMissingSeparator(2))
    ));
    let no_id = AddedToken {
        id: None,
        content: Some("<x>".to_string()),
        special: None,
    };
    assert!(matches!(
        QwenByteLevelBpeTokenizer::from_model_files(r#"{"a": 0}"#, "a b\n", &[no_id]),
        Err(QwenError::AddedTokenMissingId)
    ));
    let no_content = AddedToken {
        id: Some(3),
        content: None,
        special: Some(true),
    };
    assert!(matches!(
        QwenByteLevelBpeTokenizer::from_model_files(r#"{"a": 0}"#, "a b\n", &[no_content]),
        Err(QwenError::AddedTokenMissingContent)
    ));
}

#[test]
fn qwen_non_special_added_tokens_stay_on_decode() {
    let plain = AddedToken {
        id: Some(5),
        content: Some("<tool>".to_string()),
        special: Some(false),
    };
    let tokenizer = QwenByteLevelBpeTokenizer::from_model_files(
        r#"{"a": 0, "b": 1}"#,
        "a b\n",
        &[plain, end_of_text(6)],
    )
    .unwrap();
    assert_eq!(
        tokenizer.encode_lossy("a<tool><|endoftext|>", false).unwrap(),
        vec![0, 5, 6]
    );
    assert_eq!(tokenizer.decode_lossy(&[0, 5, 6]).unwrap(), "a<tool>");
    assert_eq!(tokenizer.special_token_id("<tool>"), Some(5));
}

#[test]
fn merge_ranks_count_every_line() {
    let table = parse_merge_ranks("#version: 0.2\na b\n\nc d  \r\nc d\n").unwrap();
    assert_eq!(table.get(b"a\xffb"), Some(1));
    assert_eq!(table.get(b"c\xffd"), Some(4));
    assert_eq!(table.get(b"a\xffd"), None);
    assert_eq!(table.len(), 3);
}

#[test]
fn default_qwen_path_names_tokenizer_json() {
    assert_eq!(
        QwenByteLevelBpeTokenizer::default_qwen_path(Path::new("/m")),
        Path::new("/m/tokenizer.json")
    );
}

#[test]
fn qwen_skipping_specials_decodes_the_other_tokens() {
    let tokenizer = tiny_tokenizer();
    let ids = vec![10, 7, 10, 9];
    let kept: Vec<u32> = ids.iter().copied().filter(|&t| t != 10).collect();
    assert_eq!(
        tokenizer.decode_lossy_with_options(&ids, true).unwrap(),
        tokenizer.decode_lossy_with_options(&kept, false).unwrap()
    );
    assert_eq!(tokenizer.decode_lossy(&ids).unwrap(), "Hello Hello");
    assert_eq!(
        tokenizer.decode_lossy_with_options(&ids, false).unwrap(),
        "<|endoftext|>Hello<|endoftext|> Hello"
    );
}

#[test]
fn qwen_decodes_what_it_encodes() {
    let tokenizer = tiny_tokenizer();
    for text in ["Hello Hello", "<|endoftext|>Hello", "He llo<|endoftext|> Hello", ""] {
        let ids = tokenizer.encode_lossy(text, false).unwrap();
        assert_eq!(tokenizer.decode_lossy_with_options(&ids, false).unwrap(), text);
    }
}

#[test]
fn tokenizer_builds_from_vocabulary_entries() {
    let entries = vec![("a".to_string(), 0u32), ("b".to_string(), 1u32), ("ab".to_string(), 2u32)];
    let tokenizer =
        QwenByteLevelBpeTokenizer::from_vocab_entries(entries, "a b\n", &[end_of_text(3)]).unwrap();
    assert_eq!(tokenizer.encode_lossy("ab", false).unwrap(), vec![2]);
    assert_eq!(tokenizer.encode_lossy("ab", true).unwrap(), vec![3, 2]);
    assert_eq!(tokenizer.decode_lossy(&[2, 0]).unwrap(), "aba");
    assert_eq!(
        QwenByteLevelBpeTokenizer::from_vocab_entries(Vec::new(), "a b\n", &[]).err(),
        Some(QwenError::EmptyVocab)
    );
}
