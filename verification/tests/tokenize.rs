use std::str::FromStr;

use tokenizers::Tokenizer;

use vsgrep::embed::{
    prefixed_passages, query_batch, token_batch, tokenize_batch, tokenize_query, tokenizer_setup,
    PadLength, Side, TextTokenizer, TruncationOrder, DEFAULT_PAD_ID,
};

/// A word-level tokenizer; with `special`, it wraps every text in `[CLS]` and
/// `[SEP]` (two added tokens).
fn loaded(pad: &str, special: bool) -> Tokenizer {
    let post = if special {
        r#"{"type":"BertProcessing","sep":["[SEP]",8],"cls":["[CLS]",7]}"#
    } else {
        "null"
    };
    let json = format!(
        r#"{{"version":"1.0","truncation":null,"padding":null,"added_tokens":[],"normalizer":null,"pre_tokenizer":{{"type":"Whitespace"}},"post_processor":{post},"decoder":null,"model":{{"type":"WordLevel","vocab":{{"{pad}":0,"query":1,":":2,"passage":3,"hello":4,"world":5,"[UNK]":6,"[CLS]":7,"[SEP]":8}},"unk_token":"[UNK]"}}}}"#
    );
    Tokenizer::from_str(&json).unwrap()
}

fn tokenizer() -> TextTokenizer {
    TextTokenizer::new(loaded("<pad>", false), 512).unwrap()
}

#[test]
fn query_is_prefixed_and_tokenized() {
    let b = tokenize_query(&tokenizer(), "hello world").unwrap();
    assert_eq!((b.rows, b.width), (1, 4));
    assert_eq!(b.ids, vec![1i64, 2, 4, 5]);
    assert_eq!(b.mask, vec![1i64, 1, 1, 1]);
}

#[test]
fn batch_rows_are_padded_and_laid_end_to_end() {
    let texts = prefixed_passages(&vec!["hello", "hello world"]);
    let b = tokenize_batch(&tokenizer(), texts).unwrap();
    assert_eq!((b.rows, b.width), (2, 4));
    assert_eq!(b.ids, vec![3i64, 2, 4, 0, 3, 2, 4, 5]);
    assert_eq!(b.mask, vec![1i64, 1, 1, 0, 1, 1, 1, 1]);
}

#[test]
fn missing_pad_token_falls_back_to_default_id() {
    let tok = TextTokenizer::new(loaded("[PAD]", false), 512).unwrap();
    let texts = vec!["passage: hello".to_string(), "passage: hello world".to_string()];
    let b = tokenize_batch(&tok, texts).unwrap();
    assert_eq!((b.rows, b.width), (2, 4));
    assert_eq!(b.ids, vec![3i64, 2, 4, 1, 3, 2, 4, 5]);
    assert_eq!(DEFAULT_PAD_ID, 1);
}

#[test]
fn texts_are_truncated_to_max_len() {
    let tok = TextTokenizer::new(loaded("<pad>", false), 3).unwrap();
    let b = tokenize_query(&tok, "hello world").unwrap();
    assert_eq!(b.ids, vec![1i64, 2, 4]);
    let special = TextTokenizer::new(loaded("<pad>", true), 4).unwrap();
    let b = tokenize_query(&special, "hello world").unwrap();
    assert_eq!(b.ids, vec![7i64, 1, 2, 8]);
    let tight = TextTokenizer::new(loaded("<pad>", true), 2).unwrap();
    let b = tokenize_query(&tight, "hello").unwrap();
    assert_eq!(b.ids, vec![7i64, 8]);
}

#[test]
fn max_len_below_special_tokens_is_refused() {
    match TextTokenizer::new(loaded("<pad>", true), 1) {
        Err(msg) => assert_eq!(msg, "max length (1) is less than the 2 special tokens the tokenizer adds"),
        Ok(_) => panic!("expected an error"),
    }
}

#[test]
fn setup_pads_right_to_longest_and_truncates_without_stride() {
    let (p, t) = tokenizer_setup(Some(9), 2, 512).unwrap();
    assert_eq!((p.length, p.side, p.multiple_of), (PadLength::Longest, Side::Right, None));
    assert_eq!((p.pad_id, p.pad_type_id, p.pad_token.as_str()), (9, 0, "<pad>"));
    assert_eq!((t.side, t.max_length, t.order, t.stride), (Side::Right, 512, TruncationOrder::LongestFirst, 0));
    assert_eq!(tokenizer_setup(None, 0, 0).unwrap().0.pad_id, 1);
    assert_eq!(
        tokenizer_setup(None, 10, 3).unwrap_err(),
        "max length (3) is less than the 10 special tokens the tokenizer adds"
    );
}

#[test]
fn unknown_words_map_to_unk() {
    let b = tokenize_query(&tokenizer(), "bonjour").unwrap();
    assert_eq!(b.ids, vec![1i64, 2, 6]);
}

#[test]
fn query_batch_keeps_ids_and_mask_apart() {
    let b = query_batch(&vec![7u32, 8, 9], &vec![1u32, 1, 0]);
    assert_eq!((b.rows, b.width), (1, 3));
    assert_eq!(b.ids, vec![7i64, 8, 9]);
    assert_eq!(b.mask, vec![1i64, 1, 0]);
}

#[test]
fn token_batch_lays_rows_end_to_end() {
    let ids = vec![vec![3u32, 2, 4], vec![3u32, 2, 4, 5]];
    let masks = vec![vec![1u32, 1, 1], vec![1u32, 1, 1, 1]];
    let b = token_batch(&ids, &masks);
    assert_eq!((b.rows, b.width), (2, 3));
    assert_eq!(b.ids, vec![3i64, 2, 4, 3, 2, 4, 5]);
    assert_eq!(b.mask, vec![1i64, 1, 1, 1, 1, 1, 1]);
    let empty = token_batch(&vec![], &vec![]);
    assert_eq!((empty.rows, empty.width), (0, 0));
    assert!(empty.ids.is_empty() && empty.mask.is_empty());
}
