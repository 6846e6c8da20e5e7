//! The integer and text side of the embedding pipeline: model configuration,
//! the E5 input prefixes, batching of passages, the layout of token ids for
//! the model, and the checks on the model's shape. The vectors themselves are
//! floating point and computed outside this library.

use crate::std_types::{path_from_str, path_of};
use std::path::PathBuf;
use crate::text::{decimal, push_decimal};
use tokenizers::{
    PaddingDirection, PaddingParams, PaddingStrategy, PostProcessor, Tokenizer, TruncationDirection,
    TruncationParams, TruncationStrategy,
};
use vstd::prelude::*;
use vstd::string::StringExecFns;

verus! {

/// Expected output dimensionality of the default model.
pub const E5_DIM: usize = 384;

/// Default maximum token sequence length.
pub const DEFAULT_MAX_LEN: usize = 512;

/// Default number of passages per inference batch.
pub const DEFAULT_BATCH_SIZE: usize = 64;

/// Configuration of the embedder.
#[derive(Debug, Clone)]
pub struct EmbedderConfig {
    pub onnx_path: PathBuf,
    pub tokenizer_path: PathBuf,
    /// Maximum token sequence length (default 512).
    pub max_len: usize,
    /// Batch size for embedding passages (default 64).
    pub batch_size: usize,
}

impl Default for EmbedderConfig {
    fn default() -> (cfg: Self)
        ensures
            cfg.onnx_path == path_of(""@),
            cfg.tokenizer_path == path_of(""@),
            cfg.max_len == DEFAULT_MAX_LEN,
            cfg.batch_size == DEFAULT_BATCH_SIZE,
    {
        EmbedderConfig {
            onnx_path: path_from_str(""),
            tokenizer_path: path_from_str(""),
            max_len: DEFAULT_MAX_LEN,
            batch_size: DEFAULT_BATCH_SIZE,
        }
    }
}

/// A query as the E5 model expects it: `"query: "` followed by the text.
pub fn prefixed_query(s: &str) -> (r: String)
    ensures
        r@ == "query: "@ + s@,
{
    let mut r = String::from_str("query: ");
    r.append(s);
    r
}

/// A passage as the E5 model expects it: `"passage: "` followed by the text.
pub fn prefixed_passage(s: &str) -> (r: String)
    ensures
        r@ == "passage: "@ + s@,
{
    let mut r = String::from_str("passage: ");
    r.append(s);
    r
}

/// Checks the width of the model's output vectors: `None` when it is
/// `E5_DIM`, else the expected and the actual width.
pub fn dim_mismatch(actual: usize) -> (r: Option<(usize, usize)>)
    ensures
        r is None <==> actual == E5_DIM,
        r matches Some((expected, got)) ==> expected == E5_DIM && got == actual,
{
    if actual != E5_DIM {
        Some((E5_DIM, actual))
    } else {
        None
    }
}

// ── Batching ─────────────────────────────────────────────────────────────────

/// The batches of `n` items from `start` on, as `[start, end)` ranges of
/// `batch` items each (the last one possibly fewer).
pub open spec fn batch_bounds(n: nat, batch: nat, start: nat) -> Seq<(nat, nat)>
    decreases n - start,
{
    if start >= n || batch == 0 {
        seq![]
    } else if start + batch >= n {
        seq![(start, n)]
    } else {
        seq![(start, start + batch)] + batch_bounds(n, batch, start + batch)
    }
}

/// The views of a list of index ranges.
pub open spec fn range_views(r: Seq<(usize, usize)>) -> Seq<(nat, nat)> {
    r.map_values(|p: (usize, usize)| (p.0 as nat, p.1 as nat))
}

/// Splits `n` items into consecutive batches of `batch_size` items (the last
/// one possibly fewer).
pub fn batch_ranges(n: usize, batch_size: usize) -> (r: Vec<(usize, usize)>)
    requires
        n == 0 || batch_size > 0,
    ensures
        range_views(r@) == batch_bounds(n as nat, batch_size as nat, 0),
{
    let mut r: Vec<(usize, usize)> = Vec::new();
    let mut start: usize = 0;
    let ghost all = batch_bounds(n as nat, batch_size as nat, 0);
    while start < n
        invariant
            start <= n,
            n > 0 ==> batch_size > 0,
            range_views(r@) + batch_bounds(n as nat, batch_size as nat, start as nat) == all,
        decreases n - start,
    {
        let ghost rest = batch_bounds(n as nat, batch_size as nat, start as nat);
        let end = if batch_size >= n - start {
            n
        } else {
            start + batch_size
        };
        let ghost before = r@;
        r.push((start, end));
        proof {
            assert(range_views(r@) == range_views(before).push((start as nat, end as nat)));
            if end < n {
                assert(rest == seq![(start as nat, end as nat)] + batch_bounds(
                    n as nat,
                    batch_size as nat,
                    end as nat,
                ));
            } else {
                assert(rest == seq![(start as nat, end as nat)]);
                assert(batch_bounds(n as nat, batch_size as nat, end as nat) == Seq::<
                    (nat, nat),
                >::empty());
            }
        }
        start = end;
    }
    assert(batch_bounds(n as nat, batch_size as nat, start as nat) == Seq::<(nat, nat)>::empty());
    r
}

proof fn lemma_batch_bounds_from(n: nat, batch: nat, start: nat)
    requires
        start < n,
        batch > 0,
    ensures
        ({
            let b = batch_bounds(n, batch, start);
            &&& b.len() > 0
            &&& b[0].0 == start
            &&& b.last().1 == n
            &&& forall|k: int| 0 <= k < b.len() ==> (#[trigger] b[k]).0 < b[k].1 <= b[k].0 + batch
            &&& forall|k: int| 0 <= k < b.len() - 1 ==> (#[trigger] b[k]).1 == b[k + 1].0
        }),
    decreases n - start,
{
    let b = batch_bounds(n, batch, start);
    if start + batch < n {
        let r = batch_bounds(n, batch, start + batch);
        lemma_batch_bounds_from(n, batch, start + batch);
        assert(b == seq![(start, start + batch)] + r);
        assert forall|k: int| 0 <= k < b.len() implies (#[trigger] b[k]).0 < b[k].1 <= b[k].0 + batch by {
            if k > 0 {
                assert(b[k] == r[k - 1]);
            }
        }
        assert forall|k: int| 0 <= k < b.len() - 1 implies (#[trigger] b[k]).1 == b[k + 1].0 by {
            assert(b[k + 1] == r[k]);
            if k > 0 {
                assert(b[k] == r[k - 1]);
            }
        }
        assert(b.last() == r.last());
    }
}

/// The batches of `n > 0` items partition them in order: the first batch
/// starts at the first item, the last ends at the last item, each batch
/// starts where the previous one ends, and each holds between one and
/// `batch` items.
pub proof fn lemma_batches_partition(n: nat, batch: nat)
    requires
        n > 0,
        batch > 0,
    ensures
        ({
            let b = batch_bounds(n, batch, 0);
            &&& b.len() > 0
            &&& b[0].0 == 0
            &&& b.last().1 == n
            &&& forall|k: int| 0 <= k < b.len() ==> (#[trigger] b[k]).0 < b[k].1 <= b[k].0 + batch
            &&& forall|k: int| 0 <= k < b.len() - 1 ==> (#[trigger] b[k]).1 == b[k + 1].0
        }),
{
    lemma_batch_bounds_from(n, batch, 0);
}

// ── Token layout ─────────────────────────────────────────────────────────────

/// Token rows laid end to end, each token widened to `i64`.
pub open spec fn flatten_tokens(rows: Seq<Seq<u32>>) -> Seq<i64>
    decreases rows.len(),
{
    if rows.len() == 0 {
        seq![]
    } else {
        flatten_tokens(rows.drop_last()) + rows.last().map_values(|t: u32| t as i64)
    }
}

/// The views of a list of token rows.
pub open spec fn token_rows(rows: Seq<Vec<u32>>) -> Seq<Seq<u32>> {
    rows.map_values(|v: Vec<u32>| v@)
}

/// The width of a token matrix: the length of its first row, or 0 when it has none.
pub open spec fn token_width(rows: Seq<Seq<u32>>) -> nat {
    if rows.len() == 0 {
        0
    } else {
        rows[0].len()
    }
}

/// The row-major layout of token rows for the model, with the width taken
/// from the first row.
pub fn token_matrix(rows: &Vec<Vec<u32>>) -> (r: (usize, Vec<i64>))
    ensures
        r.0 == token_width(token_rows(rows@)),
        r.1@ == flatten_tokens(token_rows(rows@)),
{
    let ghost views = token_rows(rows@);
    let width = if rows.len() == 0 {
        0
    } else {
        rows[0].len()
    };
    let mut flat: Vec<i64> = Vec::new();
    let mut k: usize = 0;
    while k < rows.len()
        invariant
            k <= rows@.len(),
            views == token_rows(rows@),
            flat@ == flatten_tokens(views.take(k as int)),
        decreases rows@.len() - k,
    {
        let row = &rows[k];
        let ghost prefix = flat@;
        let mut j: usize = 0;
        while j < row.len()
            invariant
                j <= row@.len(),
                flat@ == prefix + row@.take(j as int).map_values(|t: u32| t as i64),
            decreases row@.len() - j,
        {
            flat.push(row[j] as i64);
            assert(row@.take(j + 1).map_values(|t: u32| t as i64) == row@.take(j as int).map_values(
                |t: u32| t as i64,
            ).push(row@[j as int] as i64));
            j += 1;
        }
        assert(row@.take(j as int) == row@);
        assert(views.take(k + 1).drop_last() == views.take(k as int));
        assert(views.take(k + 1).last() == row@);
        k += 1;
    }
    assert(views.take(k as int) == views);
    (width, flat)
}

/// Whether a model takes a `token_type_ids` input, given the names of its inputs.
pub fn needs_token_type_ids(input_names: &Vec<String>) -> (r: bool)
    ensures
        r <==> exists|i: int| 0 <= i < input_names@.len() && input_names@[i]@ == "token_type_ids"@,
{
    let wanted = String::from_str("token_type_ids");
    let mut i: usize = 0;
    while i < input_names.len()
        invariant
            i <= input_names@.len(),
            wanted@ == "token_type_ids"@,
            forall|k: int| 0 <= k < i ==> input_names@[k]@ != "token_type_ids"@,
        decreases input_names@.len() - i,
    {
        if input_names[i] == wanted {
            return true;
        }
        i += 1;
    }
    false
}

// ── Tokenization ─────────────────────────────────────────────────────────────

/// A tokenizer as loaded, before it is set up for the model.
#[verifier::external_type_specification]
#[verifier::external_body]
pub struct ExTokenizer(Tokenizer);

/// Which end of a token sequence padding or truncation works at.
#[derive(Debug, Clone, Copy, PartialEq, Eq, Structural)]
pub enum Side {
    Left,
    Right,
}

/// How long padding makes the rows of a batch: as long as the longest row,
/// or a fixed length.
#[derive(Debug, Clone, Copy, PartialEq, Eq, Structural)]
pub enum PadLength {
    Longest,
    Fixed(usize),
}

/// Which sequence truncation shortens first.
#[derive(Debug, Clone, Copy, PartialEq, Eq, Structural)]
pub enum TruncationOrder {
    LongestFirst,
    OnlyFirst,
    OnlySecond,
}

/// How a tokenizer pads the rows of a batch.
#[derive(Debug, Clone)]
pub struct PaddingSetup {
    pub length: PadLength,
    pub side: Side,
    pub multiple_of: Option<usize>,
    pub pad_id: u32,
    pub pad_type_id: u32,
    pub pad_token: String,
}

/// How a tokenizer truncates a text's tokens: to `max_length` tokens, each
/// overflowing piece overlapping the previous one by `stride` tokens.
#[derive(Debug, Clone)]
pub struct TruncationSetup {
    pub side: Side,
    pub max_length: usize,
    pub order: TruncationOrder,
    pub stride: usize,
}

/// The padding token id used when the vocabulary has no `<pad>` token.
pub const DEFAULT_PAD_ID: u32 = 1;

/// The error for a maximum length shorter than the special tokens that the
/// tokenizer adds to every text.
pub open spec fn too_many_special_tokens(max_len: nat, added: nat) -> Seq<char> {
    "max length ("@ + decimal(max_len) + ") is less than the "@ + decimal(added)
        + " special tokens the tokenizer adds"@
}

/// The padding and truncation that prepare a tokenizer for the model, given
/// the vocabulary's id of `<pad>` (if any), the number of special tokens the
/// tokenizer adds to a text, and the maximum sequence length: rows padded on
/// the right to the longest row of their batch with `<pad>` (its id, or
/// `DEFAULT_PAD_ID`), and texts truncated on the right to `max_len` tokens,
/// longest first, with no stride. Fails when `max_len` cannot even hold the
/// special tokens.
pub fn tokenizer_setup(vocab_pad_id: Option<u32>, added_tokens: usize, max_len: usize) -> (r: Result<
    (PaddingSetup, TruncationSetup),
    String,
>)
    ensures
        r is Ok <==> added_tokens <= max_len,
        r matches Ok((p, t)) ==> {
            &&& p.length == PadLength::Longest
            &&& p.side == Side::Right
            &&& p.multiple_of is None
            &&& p.pad_id == match vocab_pad_id {
                Some(id) => id,
                None => DEFAULT_PAD_ID,
            }
            &&& p.pad_type_id == 0
            &&& p.pad_token@ == "<pad>"@
            &&& t.side == Side::Right
            &&& t.max_length == max_len
            &&& t.order == TruncationOrder::LongestFirst
            &&& t.stride == 0
        },
        r matches Err(msg) ==> msg@ == too_many_special_tokens(max_len as nat, added_tokens as nat),
{
    if max_len < added_tokens {
        let mut msg = String::from_str("max length (");
        push_decimal(&mut msg, max_len);
        msg.append(") is less than the ");
        push_decimal(&mut msg, added_tokens);
        msg.append(" special tokens the tokenizer adds");
        return Err(msg);
    }
    let pad_id = match vocab_pad_id {
        Some(id) => id,
        None => DEFAULT_PAD_ID,
    };
    let padding = PaddingSetup {
        length: PadLength::Longest,
        side: Side::Right,
        multiple_of: None,
        pad_id,
        pad_type_id: 0,
        pad_token: String::from_str("<pad>"),
    };
    let truncation = TruncationSetup {
        side: Side::Right,
        max_length: max_len,
        order: TruncationOrder::LongestFirst,
        stride: 0,
    };
    Ok((padding, truncation))
}

/// A tokenizer set up for the model by `TextTokenizer::new`, beside the
/// number of special tokens it adds to a text. Its fields are private and
/// only `new` makes one, so every value has the truncation that `new`
/// installs: no stride, and a maximum length no smaller than the number of
/// added special tokens. `Tokenizer::encode` then never reaches its
/// truncation panic (a stride not below the length left for the text).
pub struct TextTokenizer {
    tok: Tokenizer,
    added: usize,
}

/// `PostProcessor::added_tokens` for a single text, of the tokenizer's
/// post-processor (0 when it has none), kept beside the tokenizer; this is
/// the count the tokenizer subtracts from the maximum length when it
/// truncates. Nothing is stated of it: it depends on the loaded tokenizer.
#[verifier::external_body]
fn count_added_tokens(tok: Tokenizer) -> TextTokenizer {
    let added = match tok.get_post_processor() {
        Some(p) => p.added_tokens(false),
        None => 0,
    };
    TextTokenizer { tok, added }
}

/// `Tokenizer::token_to_id`: the vocabulary's id of `token`, if it has one
/// (nothing is stated of it: it depends on the vocabulary).
#[verifier::external_body]
fn vocab_id(t: &TextTokenizer, token: &str) -> Option<u32> {
    t.tok.token_to_id(token)
}

/// `Tokenizer::with_padding`: installs the padding; the added-token count
/// stays as it was.
#[verifier::external_body]
fn set_padding(t: &mut TextTokenizer, p: PaddingSetup)
    ensures
        final(t).added == old(t).added,
{
    let strategy = match p.length {
        PadLength::Longest => PaddingStrategy::BatchLongest,
        PadLength::Fixed(n) => PaddingStrategy::Fixed(n),
    };
    let direction = match p.side {
        Side::Left => PaddingDirection::Left,
        Side::Right => PaddingDirection::Right,
    };
    let (pad_to_multiple_of, pad_id, pad_type_id, pad_token) = (p.multiple_of, p.pad_id, p.pad_type_id, p.pad_token);
    t.tok.with_padding(Some(PaddingParams { strategy, direction, pad_to_multiple_of, pad_id, pad_type_id, pad_token }));
}

/// `Tokenizer::with_truncation`: installs the truncation. It subtracts the
/// added-token count from `max_length` (which must not underflow) and refuses
/// a stride above the difference, so with no stride it succeeds; the
/// added-token count stays as it was.
#[verifier::external_body]
fn set_truncation(t: &mut TextTokenizer, s: TruncationSetup) -> (r: Result<(), String>)
    requires
        s.max_length >= old(t).added,
    ensures
        final(t).added == old(t).added,
        s.stride == 0 ==> r is Ok,
{
    let strategy = match s.order {
        TruncationOrder::LongestFirst => TruncationStrategy::LongestFirst,
        TruncationOrder::OnlyFirst => TruncationStrategy::OnlyFirst,
        TruncationOrder::OnlySecond => TruncationStrategy::OnlySecond,
    };
    let direction = match s.side {
        Side::Left => TruncationDirection::Left,
        Side::Right => TruncationDirection::Right,
    };
    let params = TruncationParams { direction, max_length: s.max_length, strategy, stride: s.stride };
    match t.tok.with_truncation(Some(params)) {
        Ok(_) => Ok(()),
        Err(e) => Err(e.to_string()),
    }
}

impl TextTokenizer {
    /// Sets a loaded tokenizer up for the model with the padding and
    /// truncation of `tokenizer_setup`. Fails (with that function's message)
    /// when `max_len` is less than the special tokens the tokenizer adds.
    pub fn new(tok: Tokenizer, max_len: usize) -> (r: Result<TextTokenizer, String>)
        ensures
            r matches Err(msg) ==> exists|added: nat|
                #![trigger too_many_special_tokens(max_len as nat, added)]
                added > max_len && msg@ == too_many_special_tokens(max_len as nat, added),
    {
        let mut t = count_added_tokens(tok);
        let pad = vocab_id(&t, "<pad>");
        let added = t.added;
        let (padding, truncation) = match tokenizer_setup(pad, added, max_len) {
            Ok(setup) => setup,
            Err(msg) => {
                assert(msg@ == too_many_special_tokens(max_len as nat, added as nat));
                return Err(msg);
            },
        };
        set_padding(&mut t, padding);
        let installed = set_truncation(&mut t, truncation);
        assert(installed is Ok);
        Ok(t)
    }
}

/// Token ids and attention masks of a batch of texts, laid out row-major
/// (`rows` rows of `width` tokens) for the model.
#[derive(Debug, Clone)]
pub struct TokenBatch {
    pub rows: usize,
    pub width: usize,
    pub ids: Vec<i64>,
    pub mask: Vec<i64>,
}

/// `Tokenizer::encode` with special tokens, the encoding taken as its token
/// ids and attention mask; an error is taken as its message. The tokenizer
/// is set up by `TextTokenizer::new`, so truncation cannot panic. The ids and
/// the mask are as long as each other (the encoding truncates and pads them
/// together); nothing is stated of the tokens, which depend on the
/// tokenizer's vocabulary and settings.
#[verifier::external_body]
fn encode_text(tok: &TextTokenizer, text: String) -> (r: Result<(Vec<u32>, Vec<u32>), String>)
    ensures
        r matches Ok((ids, mask)) ==> ids@.len() == mask@.len(),
{
    match tok.tok.encode(text, true) {
        Ok(enc) => Ok((enc.get_ids().to_vec(), enc.get_attention_mask().to_vec())),
        Err(e) => Err(e.to_string()),
    }
}

/// `Tokenizer::encode_batch` with special tokens: one encoding per text, in
/// order, each taken as its token ids and attention mask, as long as each
/// other; an error is taken as its message. The tokenizer is set up by
/// `TextTokenizer::new`, so truncation cannot panic. Nothing more is stated of the
/// tokens, which depend on the tokenizer's vocabulary and settings.
#[verifier::external_body]
fn encode_texts(tok: &TextTokenizer, texts: Vec<String>) -> (r: Result<
    (Vec<Vec<u32>>, Vec<Vec<u32>>),
    String,
>)
    ensures
        r matches Ok((ids, masks)) ==> ids@.len() == texts@.len() && masks@.len() == texts@.len()
            && forall|i: int| 0 <= i < ids@.len() ==> (#[trigger] ids@[i])@.len() == masks@[i]@.len(),
{
    match tok.tok.encode_batch(texts, true) {
        Ok(encs) => Ok((
            encs.iter().map(|e| e.get_ids().to_vec()).collect(),
            encs.iter().map(|e| e.get_attention_mask().to_vec()).collect(),
        )),
        Err(e) => Err(e.to_string()),
    }
}

/// Tokens widened to `i64`.
pub open spec fn widen(t: Seq<u32>) -> Seq<i64> {
    t.map_values(|x: u32| x as i64)
}

/// Widens tokens to `i64`.
fn widen_tokens(row: &Vec<u32>) -> (r: Vec<i64>)
    ensures
        r@ == widen(row@),
{
    let mut r: Vec<i64> = Vec::new();
    let mut j: usize = 0;
    while j < row.len()
        invariant
            j <= row@.len(),
            r@ == row@.take(j as int).map_values(|t: u32| t as i64),
        decreases row@.len() - j,
    {
        r.push(row[j] as i64);
        assert(row@.take(j + 1).map_values(|t: u32| t as i64) == row@.take(j as int).map_values(
            |t: u32| t as i64,
        ).push(row@[j as int] as i64));
        j += 1;
    }
    assert(row@.take(j as int) == row@);
    r
}

/// Whether `b` is the one-row batch of a text's token ids and attention mask.
pub open spec fn is_query_batch(b: TokenBatch, ids: Seq<u32>, mask: Seq<u32>) -> bool {
    &&& b.rows == 1
    &&& b.width == ids.len()
    &&& b.ids@ == widen(ids)
    &&& b.mask@ == widen(mask)
}

/// Whether `b` is the batch of the texts' token ids and attention masks, one
/// row per text, as wide as the first row.
pub open spec fn is_token_batch(b: TokenBatch, ids: Seq<Seq<u32>>, masks: Seq<Seq<u32>>) -> bool {
    &&& b.rows == ids.len()
    &&& b.width == token_width(ids)
    &&& b.ids@ == flatten_tokens(ids)
    &&& b.mask@ == flatten_tokens(masks)
}

/// The one-row batch of a query's token ids and attention mask.
pub fn query_batch(ids: &Vec<u32>, mask: &Vec<u32>) -> (b: TokenBatch)
    ensures
        is_query_batch(b, ids@, mask@),
{
    TokenBatch { rows: 1, width: ids.len(), ids: widen_tokens(ids), mask: widen_tokens(mask) }
}

/// The batch of the texts' token ids and attention masks: one row per text,
/// as wide as the first row, the rows laid end to end.
pub fn token_batch(ids: &Vec<Vec<u32>>, masks: &Vec<Vec<u32>>) -> (b: TokenBatch)
    ensures
        is_token_batch(b, token_rows(ids@), token_rows(masks@)),
{
    let (width, flat_ids) = token_matrix(ids);
    let (_, flat_mask) = token_matrix(masks);
    TokenBatch { rows: ids.len(), width, ids: flat_ids, mask: flat_mask }
}

/// Tokenizes a query: the text with its `"query: "` prefix, as the one-row
/// batch of its token ids and attention mask (see `query_batch`).
pub fn tokenize_query(tok: &TextTokenizer, text: &str) -> (r: Result<TokenBatch, String>)
    ensures
        r matches Ok(b) ==> exists|ids: Seq<u32>, mask: Seq<u32>|
            #![trigger is_query_batch(b, ids, mask)]
            ids.len() == mask.len() && is_query_batch(b, ids, mask),
{
    let (ids, mask) = encode_text(tok, prefixed_query(text))?;
    let r = Ok(query_batch(&ids, &mask));
    assert(r matches Ok(b) && is_query_batch(b, ids@, mask@));
    r
}

/// Tokenizes a batch of texts: one row per text, as wide as the first row,
/// with the token ids and attention masks of the rows laid end to end (see
/// `token_batch`).
pub fn tokenize_batch(tok: &TextTokenizer, texts: Vec<String>) -> (r: Result<TokenBatch, String>)
    ensures
        r matches Ok(b) ==> exists|ids: Seq<Seq<u32>>, masks: Seq<Seq<u32>>|
            #![trigger is_token_batch(b, ids, masks)]
            ids.len() == texts@.len() && masks.len() == texts@.len() && (forall|i: int|
                0 <= i < ids.len() ==> (#[trigger] ids[i]).len() == masks[i].len())
                && is_token_batch(b, ids, masks),
{
    let ghost n = texts@.len();
    let (ids, masks) = encode_texts(tok, texts)?;
    let r = Ok(token_batch(&ids, &masks));
    proof {
        let iv = token_rows(ids@);
        let mv = token_rows(masks@);
        assert(iv.len() == n && mv.len() == n);
        assert forall|i: int| 0 <= i < iv.len() implies (#[trigger] iv[i]).len() == mv[i].len() by {
            assert(iv[i] == ids@[i]@);
            assert(mv[i] == masks@[i]@);
        }
        assert(r matches Ok(b) && is_token_batch(b, iv, mv));
    }
    r
}

/// Prefixes every passage with `"passage: "`.
pub fn prefixed_passages(texts: &Vec<&str>) -> (r: Vec<String>)
    ensures
        r@.len() == texts@.len(),
        forall|i: int| 0 <= i < r@.len() ==> (#[trigger] r@[i])@ == "passage: "@ + texts@[i]@,
{
    let mut r: Vec<String> = Vec::new();
    let mut i: usize = 0;
    while i < texts.len()
        invariant
            i <= texts@.len(),
            r@.len() == i,
            forall|k: int| 0 <= k < i ==> (#[trigger] r@[k])@ == "passage: "@ + texts@[k]@,
        decreases texts@.len() - i,
    {
        r.push(prefixed_passage(texts[i]));
        i += 1;
    }
    r
}

} // verus!
