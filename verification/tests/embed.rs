use std::path::PathBuf;

use vsgrep::embed::{
    batch_ranges, dim_mismatch, needs_token_type_ids, prefixed_passage, prefixed_query, token_matrix,
    EmbedderConfig, DEFAULT_BATCH_SIZE, DEFAULT_MAX_LEN, E5_DIM,
};

#[test]
fn prefix_query() {
    assert_eq!(prefixed_query("foo"), "query: foo");
}

#[test]
fn prefix_passage() {
    assert_eq!(prefixed_passage("bar"), "passage: bar");
}

#[test]
fn embedder_config_default_values() {
    let cfg = EmbedderConfig::default();
    assert_eq!(cfg.max_len, DEFAULT_MAX_LEN);
    assert_eq!(cfg.batch_size, DEFAULT_BATCH_SIZE);
}

#[test]
fn embedder_config_default_paths_are_empty() {
    let cfg = EmbedderConfig::default();
    assert_eq!(cfg.onnx_path, PathBuf::new());
    assert_eq!(cfg.tokenizer_path, PathBuf::new());
    assert_eq!((DEFAULT_MAX_LEN, DEFAULT_BATCH_SIZE, E5_DIM), (512, 64, 384));
}

#[test]
fn prefixes_keep_the_text() {
    assert_eq!(prefixed_query(""), "query: ");
    assert_eq!(prefixed_passage("日本語"), "passage: 日本語");
}

#[test]
fn batches_partition_items() {
    assert_eq!(batch_ranges(0, 64), vec![]);
    assert_eq!(batch_ranges(3, 64), vec![(0, 3)]);
    assert_eq!(batch_ranges(130, 64), vec![(0, 64), (64, 128), (128, 130)]);
    assert_eq!(batch_ranges(4, 2), vec![(0, 2), (2, 4)]);
    assert_eq!(batch_ranges(0, 0), vec![]);
}

#[test]
fn token_matrix_is_row_major() {
    let (width, flat) = token_matrix(&vec![vec![0, 17, 2], vec![0, 5, 1]]);
    assert_eq!(width, 3);
    assert_eq!(flat, vec![0i64, 17, 2, 0, 5, 1]);
    let (width, flat) = token_matrix(&vec![]);
    assert_eq!((width, flat.len()), (0, 0));
    let (_, flat) = token_matrix(&vec![vec![u32::MAX]]);
    assert_eq!(flat, vec![u32::MAX as i64]);
}

#[test]
fn token_type_ids_input_is_detected() {
    let names = |v: &[&str]| v.iter().map(|s| s.to_string()).collect::<Vec<_>>();
    assert!(needs_token_type_ids(&names(&["input_ids", "attention_mask", "token_type_ids"])));
    assert!(!needs_token_type_ids(&names(&["input_ids", "attention_mask"])));
    assert!(!needs_token_type_ids(&names(&[])));
}

#[test]
fn output_dim_is_checked() {
    assert_eq!(dim_mismatch(384), None);
    assert_eq!(dim_mismatch(768), Some((384, 768)));
    assert_eq!(dim_mismatch(0), Some((384, 0)));
}
