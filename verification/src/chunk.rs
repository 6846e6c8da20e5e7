//! Sliding-window, line-based chunker.
//!
//! A chunk is a contiguous window of lines from a source file, described by
//! `(path, start_line, end_line, text)`. Windows overlap so that semantic
//! context is preserved across chunk boundaries; windows that are mostly
//! whitespace are skipped.

use crate::lines::{
    is_whitespace, is_ws, join_lines, join_window, line_views, lines_of, split_into_lines,
    split_lines, trim_trailing_cr,
};
use std::path::PathBuf;
use vstd::prelude::*;
use vstd::string::StrSliceExecFns;
use vstd::utf8::{decode_utf8, valid_utf8};

verus! {

/// Minimum number of lines with a non-whitespace character for a window to be emitted.
pub const MIN_NON_WS_LINES: usize = 2;

/// Default minimum share of non-whitespace characters, in thousandths (10%).
pub const MIN_NON_WS_PERMILLE: u32 = 100;

/// Default soft cap on file size. Files above this limit return `TooLarge`.
pub const DEFAULT_MAX_FILE_BYTES: u64 = 10 * 1024 * 1024;

/// Configuration for the sliding-window chunker.
#[derive(Debug, Clone)]
pub struct ChunkConfig {
    /// Lines per window (default 20).
    pub size: usize,
    /// Overlap between consecutive windows (default 5).
    pub overlap: usize,
    /// Files larger than this are rejected with `ChunkError::TooLarge`.
    pub max_file_bytes: u64,
    /// Windows whose share of non-whitespace characters, in thousandths,
    /// is below this value are skipped (default 100, i.e. 10%).
    pub min_non_ws_permille: u32,
}

/// A single chunk produced by the chunker.
#[derive(Debug, Clone, PartialEq, Eq)]
pub struct Chunk {
    pub path: PathBuf,
    /// First line of the window, 1-based inclusive.
    pub start_line: usize,
    /// Last line of the window, 1-based inclusive.
    pub end_line: usize,
    /// Window text with CRLF normalised to LF (lines joined by `'\n'`).
    pub text: String,
}

/// Errors of the chunker.
#[derive(Debug)]
pub enum ChunkError {
    /// The window size is zero or the overlap is not below it.
    InvalidConfig { size: usize, overlap: usize },
    /// The file's contents are not valid UTF-8.
    NotUtf8 { path: PathBuf },
    /// The file's size exceeds the configured cap.
    TooLarge { path: PathBuf, size: u64, cap: u64 },
    /// Reading the file failed.
    Io(std::io::Error),
}

impl Default for ChunkConfig {
    fn default() -> (cfg: Self)
        ensures
            cfg.size == 20,
            cfg.overlap == 5,
            cfg.max_file_bytes == DEFAULT_MAX_FILE_BYTES,
            cfg.min_non_ws_permille == MIN_NON_WS_PERMILLE,
    {
        ChunkConfig {
            size: 20,
            overlap: 5,
            max_file_bytes: DEFAULT_MAX_FILE_BYTES,
            min_non_ws_permille: MIN_NON_WS_PERMILLE,
        }
    }
}

impl ChunkConfig {
    /// A configuration is valid when windows are non-empty and advance.
    pub open spec fn is_valid(&self) -> bool {
        self.size > 0 && self.overlap < self.size
    }

    /// Returns an error if the config parameters are self-contradictory.
    pub fn validate(&self) -> (r: Result<(), ChunkError>)
        ensures
            r is Ok <==> self.is_valid(),
            r is Ok <==> self.size > 0 && self.overlap < self.size,
            r matches Err(e) ==> e == (ChunkError::InvalidConfig {
                size: self.size,
                overlap: self.overlap,
            }),
    {
        if self.size == 0 || self.overlap >= self.size {
            return Err(ChunkError::InvalidConfig { size: self.size, overlap: self.overlap });
        }
        Ok(())
    }
}

impl Chunk {
    /// The line span and text of a chunk.
    pub open spec fn span(&self) -> (nat, nat, Seq<char>) {
        (self.start_line as nat, self.end_line as nat, self.text@)
    }
}

// ── Window statistics ────────────────────────────────────────────────────────

/// Whether a line holds a non-whitespace character.
pub open spec fn has_content(l: Seq<char>) -> bool {
    exists|i: int| 0 <= i < l.len() && !is_ws(l[i])
}

/// Number of non-whitespace characters of a line.
pub open spec fn count_non_ws(l: Seq<char>) -> nat
    decreases l.len(),
{
    if l.len() == 0 {
        0
    } else {
        count_non_ws(l.drop_last()) + if is_ws(l.last()) {
            0nat
        } else {
            1nat
        }
    }
}

/// Number of lines that hold a non-whitespace character.
pub open spec fn content_lines(ls: Seq<Seq<char>>) -> nat
    decreases ls.len(),
{
    if ls.len() == 0 {
        0
    } else {
        content_lines(ls.drop_last()) + if has_content(ls.last()) {
            1nat
        } else {
            0nat
        }
    }
}

/// Number of characters over all lines.
pub open spec fn total_chars(ls: Seq<Seq<char>>) -> nat
    decreases ls.len(),
{
    if ls.len() == 0 {
        0
    } else {
        total_chars(ls.drop_last()) + ls.last().len()
    }
}

/// Number of non-whitespace characters over all lines.
pub open spec fn total_non_ws(ls: Seq<Seq<char>>) -> nat
    decreases ls.len(),
{
    if ls.len() == 0 {
        0
    } else {
        total_non_ws(ls.drop_last()) + count_non_ws(ls.last())
    }
}

/// A window is skipped when fewer than `MIN_NON_WS_LINES` of its lines hold
/// content, when it has no characters at all, or when its share of
/// non-whitespace characters is below `permille` thousandths.
pub open spec fn is_whitespace_heavy(ls: Seq<Seq<char>>, permille: nat) -> bool {
    ||| content_lines(ls) < MIN_NON_WS_LINES
    ||| total_chars(ls) == 0
    ||| total_non_ws(ls) * 1000 < permille * total_chars(ls)
}

// ── Windows ──────────────────────────────────────────────────────────────────

/// The windows over `n` lines, as 0-based `[start, end)` line ranges, from the
/// window that begins at `start` on: each window spans `size` lines (the last
/// one possibly fewer), and the next one begins `size - overlap` lines later.
pub open spec fn window_bounds(n: nat, size: nat, overlap: nat, start: nat) -> Seq<(nat, nat)>
    decreases n - start,
{
    if start + size >= n {
        seq![(start, n)]
    } else if overlap >= size {
        seq![(start, start + size)]
    } else {
        seq![(start, start + size)] + window_bounds(
            n,
            size,
            overlap,
            (start + size - overlap) as nat,
        )
    }
}

/// The chunks (1-based first line, last line, text) of the windows in
/// `bounds` that are not whitespace-heavy, in order.
pub open spec fn kept_windows(ls: Seq<Seq<char>>, bounds: Seq<(nat, nat)>, permille: nat) -> Seq<
    (nat, nat, Seq<char>),
>
    decreases bounds.len(),
{
    if bounds.len() == 0 {
        seq![]
    } else {
        let (s, e) = bounds[0];
        let w = ls.subrange(s as int, e as int);
        let rest = kept_windows(ls, bounds.drop_first(), permille);
        if is_whitespace_heavy(w, permille) {
            rest
        } else {
            seq![(s + 1, e, join_lines(w))] + rest
        }
    }
}

/// The chunks of a text under a window size, an overlap and a whitespace threshold.
pub open spec fn spec_chunks(content: Seq<char>, size: nat, overlap: nat, permille: nat) -> Seq<
    (nat, nat, Seq<char>),
> {
    let ls = lines_of(content);
    if ls.len() == 0 {
        seq![]
    } else {
        kept_windows(ls, window_bounds(ls.len(), size, overlap, 0), permille)
    }
}

// ── Statistics lemmas ────────────────────────────────────────────────────────

proof fn lemma_count_non_ws(l: Seq<char>)
    ensures
        count_non_ws(l) <= l.len(),
        count_non_ws(l) > 0 <==> has_content(l),
    decreases l.len(),
{
    if l.len() > 0 {
        let p = l.drop_last();
        lemma_count_non_ws(p);
        if has_content(p) {
            let i = choose|i: int| 0 <= i < p.len() && !is_ws(p[i]);
            assert(l[i] == p[i]);
        }
        if has_content(l) && !has_content(p) {
            let i = choose|i: int| 0 <= i < l.len() && !is_ws(l[i]);
            if i < p.len() {
                assert(l[i] == p[i]);
            }
        }
        if !is_ws(l.last()) {
            assert(!is_ws(l[l.len() - 1]));
        }
    }
}

proof fn lemma_total_non_ws_le(ls: Seq<Seq<char>>)
    ensures
        total_non_ws(ls) <= total_chars(ls),
    decreases ls.len(),
{
    if ls.len() > 0 {
        lemma_total_non_ws_le(ls.drop_last());
        lemma_count_non_ws(ls.last());
    }
}

proof fn lemma_total_split(ls: Seq<Seq<char>>, a: int, b: int)
    requires
        0 <= a <= b <= ls.len(),
    ensures
        total_chars(ls.subrange(0, a)) + total_chars(ls.subrange(a, b)) == total_chars(
            ls.subrange(0, b),
        ),
    decreases b - a,
{
    if b > a {
        lemma_total_split(ls, a, b - 1);
        assert(ls.subrange(a, b).drop_last() == ls.subrange(a, b - 1));
        assert(ls.subrange(0, b).drop_last() == ls.subrange(0, b - 1));
    } else {
        assert(ls.subrange(a, b).len() == 0);
    }
}

proof fn lemma_total_subrange(ls: Seq<Seq<char>>, a: int, b: int)
    requires
        0 <= a <= b <= ls.len(),
    ensures
        total_chars(ls.subrange(a, b)) <= total_chars(ls),
{
    lemma_total_split(ls, a, b);
    lemma_total_split(ls, b, ls.len() as int);
    assert(ls.subrange(0, ls.len() as int) == ls);
}

proof fn lemma_total_split_lines(s: Seq<char>)
    ensures
        total_chars(split_lines(s)) + split_lines(s).len() == s.len() + 1,
    decreases s.len(),
{
    if s.len() > 0 {
        let p = split_lines(s.drop_last());
        lemma_total_split_lines(s.drop_last());
        crate::lines::lemma_split_lines_nonempty(s.drop_last());
        if s.last() == '\n' {
            let q = p.push(Seq::empty());
            assert(q.drop_last() == p);
            assert(total_chars(q) == total_chars(p));
        } else {
            let q = p.update(p.len() - 1, p.last().push(s.last()));
            assert(q.drop_last() == p.drop_last());
            assert(q.last() == p.last().push(s.last()));
            assert(total_chars(q) == total_chars(p) + 1);
        }
    } else {
        let e: Seq<Seq<char>> = seq![Seq::empty()];
        assert(e.drop_last() == Seq::<Seq<char>>::empty());
        assert(total_chars(Seq::<Seq<char>>::empty()) == 0);
        assert(e.last().len() == 0);
        assert(total_chars(e) == 0);
    }
}

proof fn lemma_trim_len(l: Seq<char>)
    ensures
        trim_trailing_cr(l).len() <= l.len(),
    decreases l.len(),
{
    if l.len() > 0 && l.last() == '\r' {
        lemma_trim_len(l.drop_last());
    }
}

proof fn lemma_total_trimmed(ls: Seq<Seq<char>>)
    ensures
        total_chars(ls.map_values(|l: Seq<char>| trim_trailing_cr(l))) <= total_chars(ls),
    decreases ls.len(),
{
    if ls.len() > 0 {
        lemma_total_trimmed(ls.drop_last());
        lemma_trim_len(ls.last());
        assert(ls.map_values(|l: Seq<char>| trim_trailing_cr(l)).drop_last() == ls.drop_last().map_values(
            |l: Seq<char>| trim_trailing_cr(l),
        ));
    }
}

/// The lines of a text hold no more characters than the text.
proof fn lemma_total_lines_of(s: Seq<char>)
    ensures
        total_chars(lines_of(s)) <= s.len(),
{
    lemma_total_split_lines(s);
    crate::lines::lemma_split_lines_nonempty(s);
    lemma_total_trimmed(split_lines(s));
}

// ── Window statistics, executable ────────────────────────────────────────────

/// Number of non-whitespace characters of `line`.
fn count_line_non_ws(line: &Vec<char>) -> (r: usize)
    ensures
        r == count_non_ws(line@),
{
    let mut count: usize = 0;
    let mut j: usize = 0;
    while j < line.len()
        invariant
            j <= line@.len(),
            count == count_non_ws(line@.take(j as int)),
        decreases line@.len() - j,
    {
        proof {
            lemma_count_non_ws(line@.take(j as int));
            assert(line@.take(j + 1).drop_last() == line@.take(j as int));
        }
        if !is_whitespace(line[j]) {
            count += 1;
        }
        j += 1;
    }
    assert(line@.take(j as int) == line@);
    count
}

/// Whether lines `start..end` form a whitespace-heavy window.
fn window_is_whitespace_heavy(lines: &Vec<Vec<char>>, start: usize, end: usize, permille: u32) -> (r:
    bool)
    requires
        start <= end <= lines@.len(),
        total_chars(line_views(lines@)) <= usize::MAX,
    ensures
        r == is_whitespace_heavy(
            line_views(lines@).subrange(start as int, end as int),
            permille as nat,
        ),
{
    let ghost ls = line_views(lines@);
    let mut content: usize = 0;
    let mut total: usize = 0;
    let mut non_ws: usize = 0;
    let mut k = start;
    while k < end
        invariant
            start <= k <= end <= lines@.len(),
            ls == line_views(lines@),
            total_chars(ls) <= usize::MAX,
            content == content_lines(ls.subrange(start as int, k as int)),
            total == total_chars(ls.subrange(start as int, k as int)),
            non_ws == total_non_ws(ls.subrange(start as int, k as int)),
            content <= k - start,
        decreases end - k,
    {
        let ghost next = ls.subrange(start as int, k + 1);
        proof {
            assert(next.drop_last() == ls.subrange(start as int, k as int));
            assert(next.last() == lines@[k as int]@);
            lemma_total_subrange(ls, start as int, k + 1);
            lemma_total_non_ws_le(next);
            lemma_count_non_ws(lines@[k as int]@);
        }
        let line_non_ws = count_line_non_ws(&lines[k]);
        if line_non_ws > 0 {
            content += 1;
        }
        total += lines[k].len();
        non_ws += line_non_ws;
        k += 1;
    }
    if content < MIN_NON_WS_LINES {
        return true;
    }
    if total == 0 {
        return true;
    }
    proof {
        lemma_total_non_ws_le(ls.subrange(start as int, end as int));
    }
    let p128 = permille as u128;
    let t128 = total as u128;
    assert(p128 * t128 <= 0x1_0000_0000_0000_0000_0000_0000u128) by (nonlinear_arith)
        requires
            t128 <= 0xffff_ffff_ffff_ffffu128,
            p128 <= 0xffff_ffffu128,
    ;
    (non_ws as u128) * 1000 < p128 * t128
}

// ── Windowing ────────────────────────────────────────────────────────────────

/// The views of a list of chunks.
pub open spec fn chunk_spans(chunks: Seq<Chunk>) -> Seq<(nat, nat, Seq<char>)> {
    chunks.map_values(|c: Chunk| c.span())
}

/// Splits `content` into overlapping line windows per `cfg`, skipping
/// whitespace-heavy windows; every chunk carries `path`.
pub fn windows_from_str(path: &PathBuf, content: &str, cfg: &ChunkConfig) -> (chunks: Vec<Chunk>)
    requires
        cfg.is_valid(),
    ensures
        chunk_spans(chunks@) == spec_chunks(
            content@,
            cfg.size as nat,
            cfg.overlap as nat,
            cfg.min_non_ws_permille as nat,
        ),
        forall|i: int| 0 <= i < chunks@.len() ==> (#[trigger] chunks@[i]).path == *path,
{
    let lines = split_into_lines(content);
    // The character count fits in `usize`, and so do the window statistics.
    let _n_chars = content.unicode_len();
    proof {
        lemma_total_lines_of(content@);
    }
    let ghost ls = line_views(lines@);
    let ghost p = cfg.min_non_ws_permille as nat;
    let mut chunks: Vec<Chunk> = Vec::new();
    if lines.len() == 0 {
        return chunks;
    }
    let n = lines.len();
    let size = cfg.size;
    let overlap = cfg.overlap;
    let stride = size - overlap;
    let ghost all = kept_windows(ls, window_bounds(n as nat, size as nat, overlap as nat, 0), p);
    let mut i: usize = 0;
    loop
        invariant_except_break
            i < n,
            n == lines@.len(),
            ls == line_views(lines@),
            ls == lines_of(content@),
            total_chars(ls) <= usize::MAX,
            size == cfg.size,
            overlap == cfg.overlap,
            stride == size - overlap,
            cfg.is_valid(),
            p == cfg.min_non_ws_permille as nat,
            chunk_spans(chunks@) + kept_windows(
                ls,
                window_bounds(n as nat, size as nat, overlap as nat, i as nat),
                p,
            ) == all,
            forall|j: int| 0 <= j < chunks@.len() ==> (#[trigger] chunks@[j]).path == *path,
        ensures
            chunk_spans(chunks@) == all,
            forall|j: int| 0 <= j < chunks@.len() ==> (#[trigger] chunks@[j]).path == *path,
        decreases n - i,
    {
        let start = i;
        let end = if size >= n - i {
            n
        } else {
            i + size
        };
        let ghost bounds = window_bounds(n as nat, size as nat, overlap as nat, i as nat);
        let ghost rest_bounds = window_bounds(
            n as nat,
            size as nat,
            overlap as nat,
            (i + stride) as nat,
        );
        let ghost window = ls.subrange(start as int, end as int);
        proof {
            if end < n {
                assert(bounds == seq![(start as nat, end as nat)] + rest_bounds);
                assert(bounds.drop_first() == rest_bounds);
            } else {
                assert(bounds == seq![(start as nat, end as nat)]);
                assert(bounds.drop_first() == Seq::<(nat, nat)>::empty());
            }
            assert(bounds[0] == (start as nat, end as nat));
        }
        let ghost before = chunks@;
        if !window_is_whitespace_heavy(&lines, start, end, cfg.min_non_ws_permille) {
            let text = join_window(&lines, start, end);
            chunks.push(
                Chunk { path: path.clone(), start_line: start + 1, end_line: end, text: text },
            );
            proof {
                assert(chunk_spans(chunks@) == chunk_spans(before).push(
                    ((start + 1) as nat, end as nat, join_lines(window)),
                ));
            }
        } else {
            assert(chunks@ == before);
        }
        if end == n {
            assert(kept_windows(ls, bounds.drop_first(), p) == Seq::<(nat, nat, Seq<char>)>::empty());
            break;
        }
        i += stride;
    }
    chunks
}

// ── File contents ────────────────────────────────────────────────────────────

/// `String::from_utf8` (std): succeeds exactly when `bytes` is valid UTF-8,
/// and then holds the text that `bytes` encodes.
#[verifier::external_body]
fn string_from_utf8(bytes: Vec<u8>) -> (r: Option<String>)
    ensures
        r is Some <==> valid_utf8(bytes@),
        r matches Some(s) ==> s@ == decode_utf8(bytes@),
{
    String::from_utf8(bytes).ok()
}

/// Rejects a file of `size` bytes when it exceeds `cfg.max_file_bytes`.
pub fn check_file_size(path: &PathBuf, size: u64, cfg: &ChunkConfig) -> (r: Result<(), ChunkError>)
    ensures
        r is Ok <==> size <= cfg.max_file_bytes,
        r matches Err(e) ==> e == (ChunkError::TooLarge {
            path: *path,
            size: size,
            cap: cfg.max_file_bytes,
        }),
{
    if size > cfg.max_file_bytes {
        return Err(ChunkError::TooLarge { path: path.clone(), size, cap: cfg.max_file_bytes });
    }
    Ok(())
}

/// Decodes the contents of the file at `path` and splits them into
/// overlapping line windows per `cfg`. Empty contents give no chunks;
/// contents that are not UTF-8 give `NotUtf8`.
pub fn chunk_bytes(path: &PathBuf, bytes: Vec<u8>, cfg: &ChunkConfig) -> (r: Result<
    Vec<Chunk>,
    ChunkError,
>)
    requires
        cfg.is_valid(),
    ensures
        r is Ok <==> valid_utf8(bytes@),
        r matches Err(e) ==> e == (ChunkError::NotUtf8 { path: *path }),
        r matches Ok(chunks) ==> {
            &&& chunk_spans(chunks@) == spec_chunks(
                decode_utf8(bytes@),
                cfg.size as nat,
                cfg.overlap as nat,
                cfg.min_non_ws_permille as nat,
            )
            &&& forall|i: int| 0 <= i < chunks@.len() ==> (#[trigger] chunks@[i]).path == *path
        },
{
    match string_from_utf8(bytes) {
        Some(content) => Ok(windows_from_str(path, content.as_str(), cfg)),
        None => Err(ChunkError::NotUtf8 { path: path.clone() }),
    }
}

} // verus!
