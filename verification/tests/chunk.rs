use std::path::PathBuf;

use vsgrep::chunk::{
    chunk_bytes, check_file_size, Chunk, ChunkConfig, ChunkError, DEFAULT_MAX_FILE_BYTES,
    MIN_NON_WS_PERMILLE,
};
use vsgrep::lines::is_whitespace;

fn cfg(size: usize, overlap: usize) -> ChunkConfig {
    ChunkConfig {
        size,
        overlap,
        ..ChunkConfig::default()
    }
}

fn lines_n(n: usize) -> String {
    (1..=n)
        .map(|i| format!("line {i}"))
        .collect::<Vec<_>>()
        .join("\n")
}

fn chunks_of(content: &[u8], cfg: &ChunkConfig) -> Vec<Chunk> {
    chunk_bytes(&PathBuf::from("f.txt"), content.to_vec(), cfg).unwrap()
}

// ── boundary tests ────────────────────────────────────────────────────────

#[test]
fn exact_boundaries_no_overlap() {
    let chunks = chunks_of(lines_n(20).as_bytes(), &cfg(20, 0));
    assert_eq!(chunks.len(), 1);
    assert_eq!(chunks[0].start_line, 1);
    assert_eq!(chunks[0].end_line, 20);
}

#[test]
fn sliding_window_overlap() {
    let chunks = chunks_of(lines_n(50).as_bytes(), &cfg(20, 5));
    assert_eq!(chunks.len(), 3);
    assert_eq!((chunks[0].start_line, chunks[0].end_line), (1, 20));
    assert_eq!((chunks[1].start_line, chunks[1].end_line), (16, 35));
    assert_eq!((chunks[2].start_line, chunks[2].end_line), (31, 50));
}

#[test]
fn tail_partial_chunk() {
    let chunks = chunks_of(lines_n(25).as_bytes(), &cfg(20, 5));
    assert_eq!(chunks.len(), 2);
    assert_eq!((chunks[0].start_line, chunks[0].end_line), (1, 20));
    assert_eq!((chunks[1].start_line, chunks[1].end_line), (16, 25));
}

#[test]
fn single_chunk_smaller_than_size() {
    let chunks = chunks_of(lines_n(5).as_bytes(), &cfg(20, 5));
    assert_eq!(chunks.len(), 1);
    assert_eq!((chunks[0].start_line, chunks[0].end_line), (1, 5));
}

// ── line-ending tests ─────────────────────────────────────────────────────

#[test]
fn crlf_and_lf_mixed() {
    let chunks = chunks_of(b"a\r\nb\nc\r\n", &cfg(20, 0));
    assert_eq!(chunks.len(), 1);
    assert!(!chunks[0].text.contains('\r'), "text must not contain \\r");
    assert_eq!(chunks[0].text, "a\nb\nc");
    assert_eq!((chunks[0].start_line, chunks[0].end_line), (1, 3));
}

#[test]
fn trailing_newline_does_not_shift_end_line() {
    let chunks = chunks_of(b"line1\nline2\n", &cfg(20, 0));
    assert_eq!(chunks.len(), 1);
    assert_eq!((chunks[0].start_line, chunks[0].end_line), (1, 2));
}

// ── whitespace-skip tests ─────────────────────────────────────────────────

#[test]
fn whitespace_heavy_skipped() {
    // 19 '\n' → 20 lines after split + drop trailing, all blank
    let content = "\n".repeat(19);
    let chunks = chunks_of(content.as_bytes(), &cfg(20, 0));
    assert_eq!(chunks.len(), 0);
}

#[test]
fn whitespace_heavy_one_code_line() {
    // 19 blank lines + 1 code line → only one line with content
    let content = "\n".repeat(19) + "let x = 1;";
    let chunks = chunks_of(content.as_bytes(), &cfg(20, 0));
    assert_eq!(chunks.len(), 0);
}

// ── error tests ───────────────────────────────────────────────────────────

#[test]
fn invalid_utf8_errors() {
    let err = chunk_bytes(
        &PathBuf::from("bad.bin"),
        vec![0xff, 0xfe, 0xfd],
        &ChunkConfig::default(),
    )
    .unwrap_err();
    assert!(matches!(err, ChunkError::NotUtf8 { .. }));
}

#[test]
fn too_large_errors() {
    let content = vec![b'a'; 2048];
    let small_cap = ChunkConfig {
        max_file_bytes: 1024,
        ..ChunkConfig::default()
    };
    let err = check_file_size(&PathBuf::from("big"), content.len() as u64, &small_cap).unwrap_err();
    assert!(matches!(err, ChunkError::TooLarge { .. }));
}

#[test]
fn empty_file_yields_no_chunks() {
    let chunks = chunks_of(b"", &ChunkConfig::default());
    assert_eq!(chunks.len(), 0);
}

// ── config validation tests ───────────────────────────────────────────────

#[test]
fn invalid_config_size_zero() {
    let err = ChunkConfig {
        size: 0,
        overlap: 0,
        ..ChunkConfig::default()
    }
    .validate();
    assert!(matches!(err, Err(ChunkError::InvalidConfig { .. })));
}

#[test]
fn invalid_config_overlap_ge_size() {
    let err = ChunkConfig {
        size: 5,
        overlap: 5,
        ..ChunkConfig::default()
    }
    .validate();
    assert!(matches!(err, Err(ChunkError::InvalidConfig { .. })));
}

// ── further cases ─────────────────────────────────────────────────────────

#[test]
fn default_config_values() {
    let c = ChunkConfig::default();
    assert_eq!((c.size, c.overlap), (20, 5));
    assert_eq!(c.max_file_bytes, DEFAULT_MAX_FILE_BYTES);
    assert_eq!(DEFAULT_MAX_FILE_BYTES, 10 * 1024 * 1024);
    assert_eq!(c.min_non_ws_permille, MIN_NON_WS_PERMILLE);
    assert!(c.validate().is_ok());
}

#[test]
fn invalid_config_reports_its_values() {
    match cfg(3, 7).validate() {
        Err(ChunkError::InvalidConfig { size, overlap }) => assert_eq!((size, overlap), (3, 7)),
        other => panic!("expected InvalidConfig, got {other:?}"),
    }
}

#[test]
fn too_large_reports_path_size_and_cap() {
    let c = ChunkConfig {
        max_file_bytes: 10,
        ..ChunkConfig::default()
    };
    match check_file_size(&PathBuf::from("x.rs"), 11, &c) {
        Err(ChunkError::TooLarge { path, size, cap }) => {
            assert_eq!(path, PathBuf::from("x.rs"));
            assert_eq!((size, cap), (11, 10));
        }
        other => panic!("expected TooLarge, got {other:?}"),
    }
    assert!(check_file_size(&PathBuf::from("x.rs"), 10, &c).is_ok());
}

#[test]
fn not_utf8_reports_path() {
    match chunk_bytes(&PathBuf::from("p.bin"), vec![b'a', 0xc3], &ChunkConfig::default()) {
        Err(ChunkError::NotUtf8 { path }) => assert_eq!(path, PathBuf::from("p.bin")),
        other => panic!("expected NotUtf8, got {other:?}"),
    }
}

#[test]
fn multibyte_text_is_decoded() {
    let chunks = chunks_of("日本語 の 行\n二行目 です\n".as_bytes(), &cfg(20, 0));
    assert_eq!(chunks.len(), 1);
    assert_eq!(chunks[0].text, "日本語 の 行\n二行目 です");
    assert_eq!(chunks[0].path, PathBuf::from("f.txt"));
}

#[test]
fn every_chunk_carries_the_path() {
    let path = PathBuf::from("src/lib.rs");
    let chunks = chunk_bytes(&path, lines_n(50).into_bytes(), &cfg(20, 5)).unwrap();
    assert!(chunks.iter().all(|c| c.path == path));
}

#[test]
fn windows_cover_every_line_with_overlap() {
    // 47 lines, size 10, overlap 3: windows start every 7 lines.
    let chunks = chunks_of(lines_n(47).as_bytes(), &cfg(10, 3));
    let spans: Vec<(usize, usize)> = chunks.iter().map(|c| (c.start_line, c.end_line)).collect();
    assert_eq!(
        spans,
        vec![(1, 10), (8, 17), (15, 24), (22, 31), (29, 38), (36, 45), (43, 47)]
    );
    for w in spans.windows(2) {
        assert_eq!(w[0].1 + 1 - w[1].0, 3);
    }
    for line in 1..=47 {
        assert!(spans.iter().any(|&(s, e)| s <= line && line <= e));
    }
}

#[test]
fn chunk_text_is_the_window_lines() {
    let chunks = chunks_of(lines_n(7).as_bytes(), &cfg(4, 1));
    let texts: Vec<&str> = chunks.iter().map(|c| c.text.as_str()).collect();
    assert_eq!(
        texts,
        vec![
            "line 1\nline 2\nline 3\nline 4",
            "line 4\nline 5\nline 6\nline 7"
        ]
    );
}

#[test]
fn trailing_carriage_returns_are_all_removed() {
    let chunks = chunks_of(b"a\r\r\r\nb\rc\r\n", &cfg(20, 0));
    assert_eq!(chunks.len(), 1);
    assert_eq!(chunks[0].text, "a\nb\rc");
    assert!(!chunks[0].text.contains("\r\n"));
}

#[test]
fn trailing_newline_keeps_chunks() {
    let a = chunks_of(b"alpha\nbeta\ngamma", &cfg(2, 1));
    let b = chunks_of(b"alpha\nbeta\ngamma\n", &cfg(2, 1));
    assert_eq!(a, b);
    assert_eq!(a.len(), 2);
}

#[test]
fn only_one_final_empty_line_is_dropped() {
    // "x\ny\n\n" has lines "x", "y", "" — the window covers three lines.
    let chunks = chunks_of(b"x\ny\n\n", &cfg(20, 0));
    assert_eq!(chunks.len(), 1);
    assert_eq!((chunks[0].start_line, chunks[0].end_line), (1, 3));
    assert_eq!(chunks[0].text, "x\ny\n");
}

#[test]
fn low_non_whitespace_share_is_skipped() {
    // Two content lines of one character each among wide blank padding:
    // 2 non-whitespace characters out of 42 is under 10%.
    let content = format!("a{}\nb{}", " ".repeat(20), " ".repeat(20));
    let chunks = chunks_of(content.as_bytes(), &cfg(20, 0));
    assert_eq!(chunks.len(), 0);
    // With a threshold of 4% the same window is kept.
    let lenient = ChunkConfig {
        min_non_ws_permille: 40,
        ..cfg(20, 0)
    };
    assert_eq!(chunks_of(content.as_bytes(), &lenient).len(), 1);
}

#[test]
fn share_exactly_at_threshold_is_kept() {
    // 4 non-whitespace characters out of 40: exactly 10%, not below it.
    let content = format!("ab{}\ncd{}", " ".repeat(18), " ".repeat(18));
    let chunks = chunks_of(content.as_bytes(), &cfg(20, 0));
    assert_eq!(chunks.len(), 1);
}

#[test]
fn unicode_whitespace_counts_as_blank() {
    // Lines made of U+3000 and U+00A0 only carry no content.
    let content = "\u{3000}\u{3000}\n\u{a0}\nx\n";
    let chunks = chunks_of(content.as_bytes(), &cfg(20, 0));
    assert_eq!(chunks.len(), 0);
}

#[test]
fn whitespace_matches_std_for_every_char() {
    for u in 0u32..=0x10FFFF {
        if let Some(c) = char::from_u32(u) {
            assert_eq!(is_whitespace(c), c.is_whitespace(), "U+{u:04X}");
        }
    }
}

#[test]
fn chunks_rise_and_hold_their_lines() {
    let content = format!("{}\r\n\n{}", lines_n(30), lines_n(12));
    let text_lines: Vec<&str> = content.lines().collect();
    let chunks = chunks_of(content.as_bytes(), &cfg(7, 3));
    assert!(chunks.len() > 1);
    for pair in chunks.windows(2) {
        assert!(pair[0].start_line < pair[1].start_line);
    }
    for c in &chunks {
        let pieces: Vec<&str> = c.text.split('\n').collect();
        assert_eq!(pieces.len(), c.end_line - c.start_line + 1);
        assert_eq!(pieces, text_lines[c.start_line - 1..c.end_line].to_vec());
    }
}
