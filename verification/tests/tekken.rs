use nn_rust_verified::byte_table::ByteTable;
use nn_rust_verified::pretokenize::tekken_pre_tokenize;
use nn_rust_verified::tekken::{
    decode_base64, default_tekken_path, parse_special_tokens, parse_vocab_token_bytes, TekkenError,
    TekkenJsonTokenizer,
};
use std::path::Path;

/// Ordinary tokens "h", "i", "hi", " " at ranks 0..4 after three special tokens.
fn small_tekken_json() -> String {
    [
        r#"{"config": {"pattern": "", "default_num_special_tokens": 3},"#,
        r#" "vocab": ["#,
        r#"{"rank": 0, "token_bytes": "aA==", "token_str": "h"},"#,
        r#"{"rank": 1, "token_bytes": "aQ==", "token_str": "i"},"#,
        r#"{"rank": 2, "token_bytes": "aGk=", "token_str": "hi"},"#,
        r#"{"rank": 3, "token_bytes": "IA==", "token_str": " "}"#,
        r#"],"#,
        r#" "special_tokens": ["#,
        r#"{"rank": 0, "token_str": "<unk>", "is_control": true},"#,
        r#"{"rank": 1, "token_str": "<s>", "is_control": true},"#,
        r#"{"rank": 2, "token_str": "</s>", "is_control": true}"#,
        r#"]}"#,
    ]
    .concat()
}

fn small_tokenizer() -> TekkenJsonTokenizer {
    TekkenJsonTokenizer::from_tekken_json(&small_tekken_json()).expect("tokenizer parses")
}

#[test]
fn tekken_reads_special_token_ids() {
    let tok = small_tokenizer();
    assert_eq!(tok.bos_token_id(), Some(1));
    assert_eq!(tok.eos_token_id(), Some(2));
    assert_eq!(tok.pad_token_id(), None);
    assert_eq!(tok.special_token_id("<unk>"), Some(0));
    assert_eq!(tok.special_token_id("hi"), None);
    assert!(tok.can_encode());
}

#[test]
fn tekken_bpe_merges_lowest_rank_pair() {
    let tok = small_tokenizer();
    assert_eq!(tok.encode_lossy("hi", false).unwrap(), vec![5]);
    assert_eq!(tok.encode_lossy("hi", true).unwrap(), vec![1, 5]);
    assert_eq!(tok.encode_lossy("ih", false).unwrap(), vec![4, 3]);
    assert_eq!(tok.encode_lossy("", false).unwrap(), Vec::<u32>::new());
}

#[test]
fn tekken_encodes_special_tokens_inside_text() {
    let tok = small_tokenizer();
    assert_eq!(tok.encode_lossy("<s>hi hi", false).unwrap(), vec![1, 5, 6, 5]);
    assert_eq!(tok.encode_lossy("hi</s>", false).unwrap(), vec![5, 2]);
}

#[test]
fn tekken_decode_round_trips_encoded_text() {
    let tok = small_tokenizer();
    let ids = tok.encode_lossy("hi ih", true).unwrap();
    assert_eq!(tok.decode_lossy(&ids).unwrap(), "hi ih");
    assert_eq!(
        tok.decode_lossy_with_options(&ids, false).unwrap(),
        "<s>hi ih"
    );
}

#[test]
fn tekken_reports_missing_entries() {
    let tok = small_tokenizer();
    assert_eq!(
        tok.encode_lossy("x", false),
        Err(TekkenError::MissingOrdinaryBytes)
    );
    assert_eq!(
        tok.decode_lossy(&[9]),
        Err(TekkenError::MissingOrdinaryToken { token: 9, rank: 6 })
    );
    assert_eq!(
        tok.decode_lossy_with_options(&[0, 7], false),
        Err(TekkenError::MissingOrdinaryToken { token: 7, rank: 4 })
    );
}

#[test]
fn tekken_without_bos_cannot_add_one() {
    let json = [
        r#"{"config": {"default_num_special_tokens": 1},"#,
        r#" "vocab": [{"rank": 0, "token_bytes": "aA=="}],"#,
        r#" "special_tokens": [{"rank": 0, "token_str": "<unk>"}]}"#,
    ]
    .concat();
    let tok = TekkenJsonTokenizer::from_tekken_json(&json).unwrap();
    assert_eq!(tok.encode_lossy("h", true), Err(TekkenError::MissingBos));
    assert_eq!(tok.encode_lossy("h", false).unwrap(), vec![1]);
    assert_eq!(
        tok.decode_lossy_with_options(&[0, 1], false).unwrap(),
        "<unk>h"
    );
}

#[test]
fn tekken_rejects_vocab_without_ranks() {
    assert!(matches!(
        TekkenJsonTokenizer::from_tekken_json(r#"{"vocab": []}"#),
        Err(TekkenError::NoVocabRanks)
    ));
    assert!(matches!(
        parse_vocab_token_bytes(r#"{"vocab": [{"rank": 0, "token_bytes": "a*=="}]}"#),
        Err(TekkenError::InvalidBase64(b'*'))
    ));
}

#[test]
fn tekken_vocab_ranks_leave_gaps_empty() {
    let vocab = parse_vocab_token_bytes(
        r#"{"vocab": [{"rank": 2, "token_bytes": "aGk="}, {"rank": 0, "token_bytes": "aA=="}]}"#,
    )
    .unwrap();
    assert_eq!(vocab, vec![Some(b"h".to_vec()), None, Some(b"hi".to_vec())]);
}

#[test]
fn tekken_special_tokens_above_start_are_dropped() {
    let specials = parse_special_tokens(
        r#"{"special_tokens": [{"rank": 0, "token_str": "<unk>"}, {"rank": 5, "token_str": "<x>"}]}"#,
        2,
    )
    .unwrap();
    assert_eq!(specials, vec![Some("<unk>".to_string()), None]);
    let none = parse_special_tokens(r#"{"vocab": []}"#, 1).unwrap();
    assert_eq!(none, vec![None]);
}

#[test]
fn base64_decodes_padded_groups() {
    assert_eq!(decode_base64("aGk=").unwrap(), b"hi".to_vec());
    assert_eq!(decode_base64("aGVsbG8=").unwrap(), b"hello".to_vec());
    assert_eq!(decode_base64("").unwrap(), Vec::<u8>::new());
}

#[test]
fn tekken_pre_tokenize_splits_words_punctuation_and_digits() {
    assert_eq!(tekken_pre_tokenize("Hello world"), vec!["Hello", " world"]);
    assert_eq!(
        tekken_pre_tokenize("Hello, world!!\n"),
        vec!["Hello", ",", " world", "!!\n"]
    );
    assert_eq!(tekken_pre_tokenize("123"), vec!["1", "2", "3"]);
    assert_eq!(tekken_pre_tokenize("HTTPServer"), vec!["HTTPServer"]);
    assert_eq!(tekken_pre_tokenize("a  b"), vec!["a", "  ", "b"]);
    assert_eq!(tekken_pre_tokenize(""), Vec::<String>::new());
}

#[test]
fn tekken_pre_tokenize_pieces_rebuild_the_text() {
    let text = "Ünïcode wörds, 42 numbers\t and more...\r\n";
    assert_eq!(tekken_pre_tokenize(text).concat(), text);
}

#[test]
fn default_tekken_path_appends_file_name() {
    assert_eq!(
        default_tekken_path(Path::new("/models/m")),
        Path::new("/models/m/tekken.json")
    );
}

#[test]
fn byte_table_latest_value_wins() {
    let mut table = ByteTable::new();
    table.push(b"ab".to_vec(), 1);
    table.push(b"cd".to_vec(), 2);
    table.push(b"ab".to_vec(), 3);
    assert_eq!(table.len(), 3);
    assert_eq!(table.get(b"ab"), Some(3));
    assert_eq!(table.get(b"cd"), Some(2));
    assert_eq!(table.get(b"ef"), None);
    assert_eq!(table.get(b""), None);
}

#[test]
fn tekken_skipping_specials_decodes_the_ordinary_tokens() {
    let tok = small_tokenizer();
    let ids = vec![1, 5, 2, 6, 0, 4];
    let ordinary: Vec<u32> = ids.iter().copied().filter(|&t| t >= 3).collect();
    assert_eq!(
        tok.decode_lossy_with_options(&ids, true).unwrap(),
        tok.decode_lossy_with_options(&ordinary, false).unwrap()
    );
    assert_eq!(tok.decode_lossy(&ids).unwrap(), "hi i");
}

#[test]
fn whitespace_matches_std_on_every_char() {
    for v in 0u32..=0x10FFFF {
        if let Some(c) = char::from_u32(v) {
            assert_eq!(nn_rust_verified::pretokenize::whitespace(c), c.is_whitespace(), "U+{v:04X}");
        }
    }
}
