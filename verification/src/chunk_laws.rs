//! Properties of the chunker that hold for every input.

use crate::chunk::{
    ChunkConfig, count_non_ws, has_content, total_chars, total_non_ws,
    content_lines, is_whitespace_heavy, kept_windows, spec_chunks, window_bounds,
    MIN_NON_WS_LINES,
};
use crate::lines::{is_ws, join_lines, lines_of, split_lines, trim_trailing_cr};
use vstd::prelude::*;

verus! {

/// Whether line `j` (0-based) lies in one of the windows `b`.
pub open spec fn in_some_window(b: Seq<(nat, nat)>, j: nat) -> bool {
    exists|k: int| 0 <= k < b.len() && (#[trigger] b[k]).0 <= j < b[k].1
}

proof fn lemma_window_bounds_from(n: nat, size: nat, overlap: nat, start: nat)
    requires
        start < n,
        0 < size,
        overlap < size,
    ensures
        ({
            let b = window_bounds(n, size, overlap, start);
            &&& b.len() > 0
            &&& b[0].0 == start
            &&& b.last().1 == n
            &&& forall|k: int|
                0 <= k < b.len() ==> start <= (#[trigger] b[k]).0 < b[k].1 <= n && b[k].1 - b[k].0
                    <= size
            &&& forall|k: int|
                0 <= k < b.len() - 1 ==> (#[trigger] b[k]).1 == b[k].0 + size && b[k + 1].0 == b[k].0
                    + size - overlap
            &&& forall|j: nat| start <= j < n ==> #[trigger] in_some_window(b, j)
        }),
    decreases n - start,
{
    let b = window_bounds(n, size, overlap, start);
    if start + size < n {
        let next = (start + size - overlap) as nat;
        let r = window_bounds(n, size, overlap, next);
        lemma_window_bounds_from(n, size, overlap, next);
        assert(b == seq![(start, start + size)] + r);
        assert forall|k: int| 0 <= k < r.len() implies #[trigger] b[k + 1] == r[k] by {}
        assert forall|k: int| 0 <= k < b.len() implies start <= (#[trigger] b[k]).0 < b[k].1 <= n
            && b[k].1 - b[k].0 <= size by {
            if k > 0 {
                assert(b[k] == r[k - 1]);
            }
        }
        assert forall|k: int| 0 <= k < b.len() - 1 implies (#[trigger] b[k]).1 == b[k].0 + size
            && b[k + 1].0 == b[k].0 + size - overlap by {
            if k > 0 {
                assert(b[k] == r[k - 1]);
                assert(b[k + 1] == r[k]);
            } else {
                assert(b[1] == r[0]);
            }
        }
        assert forall|j: nat| start <= j < n implies #[trigger] in_some_window(b, j) by {
            if j < start + size {
                assert(b[0].0 <= j < b[0].1);
            } else {
                assert(in_some_window(r, j));
                let k = choose|k: int| 0 <= k < r.len() && (#[trigger] r[k]).0 <= j < r[k].1;
                assert(b[k + 1] == r[k]);
            }
        }
        assert(b.last() == r.last());
    } else {
        assert(b == seq![(start, n)]);
        assert forall|j: nat| start <= j < n implies #[trigger] in_some_window(b, j) by {
            assert(b[0].0 <= j < b[0].1);
        }
    }
}

/// The windows over `n > 0` lines tile them: the first window starts at the
/// first line and the last one ends at the last line; each window holds at
/// most `size` lines; every window but the last holds exactly `size` lines
/// and shares exactly `overlap` lines with the next one; and every line lies
/// in some window.
pub proof fn lemma_windows_cover_lines(n: nat, size: nat, overlap: nat)
    requires
        n > 0,
        0 < size,
        overlap < size,
    ensures
        ({
            let b = window_bounds(n, size, overlap, 0);
            &&& b.len() > 0
            &&& b[0].0 == 0
            &&& b.last().1 == n
            &&& forall|k: int|
                0 <= k < b.len() ==> (#[trigger] b[k]).0 < b[k].1 <= n && b[k].1 - b[k].0 <= size
            &&& forall|k: int|
                0 <= k < b.len() - 1 ==> (#[trigger] b[k]).1 == b[k].0 + size && b[k].1 - b[k
                    + 1].0 == overlap
            &&& forall|j: nat| j < n ==> #[trigger] in_some_window(b, j)
        }),
{
    lemma_window_bounds_from(n, size, overlap, 0);
}

// ── Which windows become chunks ─────────────────────────────────────────────

/// The chunk of window `b` of the lines `ls`.
pub open spec fn window_chunk(ls: Seq<Seq<char>>, b: (nat, nat)) -> (nat, nat, Seq<char>) {
    (b.0 + 1, b.1, join_lines(ls.subrange(b.0 as int, b.1 as int)))
}

/// Whether window `b` of the lines `ls` is skipped.
pub open spec fn window_skipped(ls: Seq<Seq<char>>, b: (nat, nat), permille: nat) -> bool {
    is_whitespace_heavy(ls.subrange(b.0 as int, b.1 as int), permille)
}

proof fn lemma_kept_members(ls: Seq<Seq<char>>, bounds: Seq<(nat, nat)>, permille: nat)
    ensures
        forall|k: int|
            #![trigger kept_windows(ls, bounds, permille)[k]]
            0 <= k < kept_windows(ls, bounds, permille).len() ==> exists|j: int|
                0 <= j < bounds.len() && !window_skipped(ls, #[trigger] bounds[j], permille)
                    && kept_windows(ls, bounds, permille)[k] == window_chunk(ls, bounds[j]),
    decreases bounds.len(),
{
    if bounds.len() > 0 {
        let r = bounds.drop_first();
        lemma_kept_members(ls, r, permille);
        let rest = kept_windows(ls, r, permille);
        let all = kept_windows(ls, bounds, permille);
        assert forall|k: int| #![trigger all[k]] 0 <= k < all.len() implies exists|j: int|
            0 <= j < bounds.len() && !window_skipped(ls, #[trigger] bounds[j], permille) && all[k]
                == window_chunk(ls, bounds[j]) by {
            if window_skipped(ls, bounds[0], permille) {
                let j = choose|j: int|
                    0 <= j < r.len() && !window_skipped(ls, #[trigger] r[j], permille) && rest[k]
                        == window_chunk(ls, r[j]);
                assert(bounds[j + 1] == r[j]);
            } else if k == 0 {
                assert(all[0] == window_chunk(ls, bounds[0]));
            } else {
                assert(all[k] == rest[k - 1]);
                let j = choose|j: int|
                    0 <= j < r.len() && !window_skipped(ls, #[trigger] r[j], permille) && rest[k
                        - 1] == window_chunk(ls, r[j]);
                assert(bounds[j + 1] == r[j]);
            }
        }
    }
}

proof fn lemma_kept_all(ls: Seq<Seq<char>>, bounds: Seq<(nat, nat)>, permille: nat)
    requires
        forall|j: int| 0 <= j < bounds.len() ==> !window_skipped(ls, #[trigger] bounds[j], permille),
    ensures
        kept_windows(ls, bounds, permille) == bounds.map_values(|b: (nat, nat)| window_chunk(ls, b)),
    decreases bounds.len(),
{
    if bounds.len() > 0 {
        let r = bounds.drop_first();
        assert forall|j: int| 0 <= j < r.len() implies !window_skipped(ls, #[trigger] r[j], permille) by {
            assert(r[j] == bounds[j + 1]);
        }
        lemma_kept_all(ls, r, permille);
        assert(!window_skipped(ls, bounds[0], permille));
        assert(bounds.map_values(|b: (nat, nat)| window_chunk(ls, b)) == seq![
            window_chunk(ls, bounds[0]),
        ] + r.map_values(|b: (nat, nat)| window_chunk(ls, b)));
    }
}

/// Every chunk is the chunk of one of the windows over the text's lines, and
/// that window is not whitespace-heavy.
pub proof fn lemma_chunks_are_kept_windows(s: Seq<char>, size: nat, overlap: nat, permille: nat)
    ensures
        ({
            let ls = lines_of(s);
            let b = window_bounds(ls.len(), size, overlap, 0);
            let c = spec_chunks(s, size, overlap, permille);
            forall|k: int|
                #![trigger c[k]]
                0 <= k < c.len() ==> exists|j: int|
                    0 <= j < b.len() && !window_skipped(ls, #[trigger] b[j], permille) && c[k]
                        == window_chunk(ls, b[j])
        }),
{
    let ls = lines_of(s);
    lemma_kept_members(ls, window_bounds(ls.len(), size, overlap, 0), permille);
}

/// When no window is whitespace-heavy, every window becomes a chunk, in order.
pub proof fn lemma_dense_text_keeps_every_window(s: Seq<char>, size: nat, overlap: nat, permille: nat)
    requires
        lines_of(s).len() > 0,
        forall|j: int|
            0 <= j < window_bounds(lines_of(s).len(), size, overlap, 0).len() ==> !window_skipped(
                lines_of(s),
                #[trigger] window_bounds(lines_of(s).len(), size, overlap, 0)[j],
                permille,
            ),
    ensures
        spec_chunks(s, size, overlap, permille) == window_bounds(
            lines_of(s).len(),
            size,
            overlap,
            0,
        ).map_values(|b: (nat, nat)| window_chunk(lines_of(s), b)),
{
    let ls = lines_of(s);
    lemma_kept_all(ls, window_bounds(ls.len(), size, overlap, 0), permille);
}

/// An empty text has no lines, and so no chunks.
pub proof fn lemma_empty_text_has_no_chunks(size: nat, overlap: nat, permille: nat)
    ensures
        lines_of(Seq::<char>::empty()).len() == 0,
        spec_chunks(Seq::<char>::empty(), size, overlap, permille) == Seq::<
            (nat, nat, Seq<char>),
        >::empty(),
{
    let p = split_lines(Seq::<char>::empty());
    assert(p == seq![Seq::<char>::empty()]);
    assert(trim_trailing_cr(Seq::<char>::empty()) == Seq::<char>::empty());
    let t = p.map_values(|l: Seq<char>| trim_trailing_cr(l));
    assert(t == seq![Seq::<char>::empty()]);
}

// ── Trailing newline ─────────────────────────────────────────────────────────

/// A trailing newline adds no line: when the last line of `s` is not empty
/// (after dropping its trailing `'\r'`s), `s` followed by `'\n'` has the same
/// lines as `s`, and so the same chunks.
pub proof fn lemma_trailing_newline_adds_no_line(s: Seq<char>, size: nat, overlap: nat, permille: nat)
    requires
        trim_trailing_cr(split_lines(s).last()).len() > 0,
    ensures
        lines_of(s.push('\n')) == lines_of(s),
        spec_chunks(s.push('\n'), size, overlap, permille) == spec_chunks(s, size, overlap, permille),
{
    let s2 = s.push('\n');
    assert(s2.drop_last() == s);
    crate::lines::lemma_split_lines_nonempty(s);
    let p = split_lines(s);
    assert(split_lines(s2) == p.push(Seq::<char>::empty()));
    let t = p.map_values(|l: Seq<char>| trim_trailing_cr(l));
    let t2 = p.push(Seq::<char>::empty()).map_values(|l: Seq<char>| trim_trailing_cr(l));
    assert(trim_trailing_cr(Seq::<char>::empty()) == Seq::<char>::empty());
    assert(t2 == t.push(Seq::<char>::empty()));
    assert(t2.drop_last() == t);
    assert(t.last() == trim_trailing_cr(p.last()));
}

// ── Mostly blank texts ───────────────────────────────────────────────────────

proof fn lemma_content_split(ls: Seq<Seq<char>>, a: int, b: int)
    requires
        0 <= a <= b <= ls.len(),
    ensures
        content_lines(ls.subrange(0, a)) + content_lines(ls.subrange(a, b)) == content_lines(
            ls.subrange(0, b),
        ),
    decreases b - a,
{
    if b > a {
        lemma_content_split(ls, a, b - 1);
        assert(ls.subrange(a, b).drop_last() == ls.subrange(a, b - 1));
        assert(ls.subrange(0, b).drop_last() == ls.subrange(0, b - 1));
    } else {
        assert(ls.subrange(a, b).len() == 0);
    }
}

proof fn lemma_content_subrange(ls: Seq<Seq<char>>, a: int, b: int)
    requires
        0 <= a <= b <= ls.len(),
    ensures
        content_lines(ls.subrange(a, b)) <= content_lines(ls),
{
    lemma_content_split(ls, a, b);
    lemma_content_split(ls, b, ls.len() as int);
    assert(ls.subrange(0, ls.len() as int) == ls);
}

proof fn lemma_sparse_kept_nothing(ls: Seq<Seq<char>>, bounds: Seq<(nat, nat)>, permille: nat)
    requires
        content_lines(ls) < MIN_NON_WS_LINES,
        forall|k: int| 0 <= k < bounds.len() ==> (#[trigger] bounds[k]).0 <= bounds[k].1 <= ls.len(),
    ensures
        kept_windows(ls, bounds, permille) == Seq::<(nat, nat, Seq<char>)>::empty(),
    decreases bounds.len(),
{
    if bounds.len() > 0 {
        let (s, e) = bounds[0];
        lemma_content_subrange(ls, s as int, e as int);
        let r = bounds.drop_first();
        assert forall|k: int| 0 <= k < r.len() implies (#[trigger] r[k]).0 <= r[k].1 <= ls.len() by {
            assert(r[k] == bounds[k + 1]);
        }
        lemma_sparse_kept_nothing(ls, r, permille);
    }
}

/// A text with fewer than `MIN_NON_WS_LINES` non-blank lines yields no chunks.
pub proof fn lemma_sparse_text_has_no_chunks(s: Seq<char>, size: nat, overlap: nat, permille: nat)
    requires
        content_lines(lines_of(s)) < MIN_NON_WS_LINES,
        0 < size,
        overlap < size,
    ensures
        spec_chunks(s, size, overlap, permille) == Seq::<(nat, nat, Seq<char>)>::empty(),
{
    let ls = lines_of(s);
    if ls.len() > 0 {
        lemma_window_bounds_from(ls.len(), size, overlap, 0);
        lemma_sparse_kept_nothing(ls, window_bounds(ls.len(), size, overlap, 0), permille);
    }
}

// ── Line endings ────────────────────────────────────────────────────────────

/// Whether `t` holds a `'\r'` directly followed by `'\n'`.
pub open spec fn has_crlf(t: Seq<char>) -> bool {
    exists|i: int| 0 <= i < t.len() - 1 && #[trigger] t[i] == '\r' && t[i + 1] == '\n'
}

/// A line holds no `'\n'` and does not end in `'\r'`.
pub open spec fn is_clean_line(l: Seq<char>) -> bool {
    &&& forall|i: int| 0 <= i < l.len() ==> #[trigger] l[i] != '\n'
    &&& (l.len() > 0 ==> l.last() != '\r')
}

proof fn lemma_split_lines_no_newline(s: Seq<char>)
    ensures
        forall|k: int, i: int|
            0 <= k < split_lines(s).len() && 0 <= i < split_lines(s)[k].len() ==> #[trigger] split_lines(
                s,
            )[k][i] != '\n',
    decreases s.len(),
{
    crate::lines::lemma_split_lines_nonempty(s);
    if s.len() > 0 {
        lemma_split_lines_no_newline(s.drop_last());
        crate::lines::lemma_split_lines_nonempty(s.drop_last());
        let p = split_lines(s.drop_last());
        if s.last() != '\n' {
            let last = p.last().push(s.last());
            assert forall|i: int| 0 <= i < last.len() implies last[i] != '\n' by {
                if i < p.last().len() {
                    assert(last[i] == p[p.len() - 1][i]);
                }
            }
        }
    }
}

proof fn lemma_trim_clean(l: Seq<char>)
    requires
        forall|i: int| 0 <= i < l.len() ==> #[trigger] l[i] != '\n',
    ensures
        is_clean_line(trim_trailing_cr(l)),
    decreases l.len(),
{
    if l.len() > 0 && l.last() == '\r' {
        let p = l.drop_last();
        assert forall|i: int| 0 <= i < p.len() implies #[trigger] p[i] != '\n' by {
            assert(p[i] == l[i]);
        }
        lemma_trim_clean(p);
    }
}

/// Every line of a text is clean.
pub proof fn lemma_lines_clean(s: Seq<char>)
    ensures
        forall|k: int| 0 <= k < lines_of(s).len() ==> is_clean_line(#[trigger] lines_of(s)[k]),
{
    lemma_split_lines_no_newline(s);
    crate::lines::lemma_split_lines_nonempty(s);
    let p = split_lines(s);
    let t = p.map_values(|l: Seq<char>| trim_trailing_cr(l));
    assert forall|k: int| 0 <= k < t.len() implies is_clean_line(#[trigger] t[k]) by {
        assert forall|i: int| 0 <= i < p[k].len() implies #[trigger] p[k][i] != '\n' by {}
        lemma_trim_clean(p[k]);
    }
    assert forall|k: int| 0 <= k < lines_of(s).len() implies is_clean_line(#[trigger] lines_of(s)[k]) by {
        assert(lines_of(s)[k] == t[k]);
    }
}

proof fn lemma_join_clean(ls: Seq<Seq<char>>)
    requires
        forall|k: int| 0 <= k < ls.len() ==> is_clean_line(#[trigger] ls[k]),
    ensures
        !has_crlf(join_lines(ls)),
        join_lines(ls).len() > 0 ==> join_lines(ls).last() != '\r',
    decreases ls.len(),
{
    let j = join_lines(ls);
    if ls.len() == 1 {
        assert(is_clean_line(ls[0]));
        assert(j == ls[0]);
        if has_crlf(j) {
            let i = choose|i: int| 0 <= i < j.len() - 1 && #[trigger] j[i] == '\r' && j[i + 1] == '\n';
            assert(j[i + 1] != '\n');
        }
    } else if ls.len() > 1 {
        let init = ls.drop_last();
        let last = ls.last();
        assert forall|k: int| 0 <= k < init.len() implies is_clean_line(#[trigger] init[k]) by {
            assert(init[k] == ls[k]);
        }
        assert(is_clean_line(ls[ls.len() - 1]));
        lemma_join_clean(init);
        let a = join_lines(init);
        assert(j == a + seq!['\n'] + last);
        if has_crlf(j) {
            let i = choose|i: int| 0 <= i < j.len() - 1 && #[trigger] j[i] == '\r' && j[i + 1] == '\n';
            if i + 1 < a.len() {
                assert(a[i] == j[i] && a[i + 1] == j[i + 1]);
            } else if i + 1 == a.len() {
                assert(a.last() == j[i]);
            } else if i == a.len() {
                assert(j[i] == '\n');
            } else {
                assert(j[i + 1] == last[i + 1 - a.len() - 1]);
            }
        }
        if last.len() > 0 {
            assert(j.last() == last.last());
        } else {
            assert(j.last() == '\n');
        }
    }
}

proof fn lemma_kept_no_crlf(ls: Seq<Seq<char>>, bounds: Seq<(nat, nat)>, permille: nat)
    requires
        forall|k: int| 0 <= k < ls.len() ==> is_clean_line(#[trigger] ls[k]),
        forall|k: int| 0 <= k < bounds.len() ==> (#[trigger] bounds[k]).0 <= bounds[k].1 <= ls.len(),
    ensures
        forall|k: int|
            0 <= k < kept_windows(ls, bounds, permille).len() ==> !has_crlf(
                (#[trigger] kept_windows(ls, bounds, permille)[k]).2,
            ),
    decreases bounds.len(),
{
    if bounds.len() > 0 {
        let (s, e) = bounds[0];
        let w = ls.subrange(s as int, e as int);
        let r = bounds.drop_first();
        assert forall|k: int| 0 <= k < r.len() implies (#[trigger] r[k]).0 <= r[k].1 <= ls.len() by {
            assert(r[k] == bounds[k + 1]);
        }
        lemma_kept_no_crlf(ls, r, permille);
        assert forall|k: int| 0 <= k < w.len() implies is_clean_line(#[trigger] w[k]) by {
            assert(w[k] == ls[s + k]);
        }
        lemma_join_clean(w);
        let rest = kept_windows(ls, r, permille);
        let all = kept_windows(ls, bounds, permille);
        if !is_whitespace_heavy(w, permille) {
            assert forall|k: int| 0 <= k < all.len() implies !has_crlf((#[trigger] all[k]).2) by {
                if k > 0 {
                    assert(all[k] == rest[k - 1]);
                }
            }
        }
    }
}

/// Chunk texts never hold a CRLF pair: line endings are normalised to `'\n'`.
pub proof fn lemma_chunks_have_no_crlf(s: Seq<char>, size: nat, overlap: nat, permille: nat)
    requires
        0 < size,
        overlap < size,
    ensures
        forall|k: int|
            0 <= k < spec_chunks(s, size, overlap, permille).len() ==> !has_crlf(
                (#[trigger] spec_chunks(s, size, overlap, permille)[k]).2,
            ),
{
    let ls = lines_of(s);
    lemma_lines_clean(s);
    if ls.len() > 0 {
        lemma_window_bounds_from(ls.len(), size, overlap, 0);
        lemma_kept_no_crlf(ls, window_bounds(ls.len(), size, overlap, 0), permille);
    }
}

// ── Chunk order and chunk lines ─────────────────────────────────────────────

/// Appending a piece without `'\n'` extends the last piece of a split.
proof fn lemma_split_append(x: Seq<char>, l: Seq<char>)
    requires
        forall|i: int| 0 <= i < l.len() ==> #[trigger] l[i] != '\n',
    ensures
        split_lines(x + l) == split_lines(x).update(
            split_lines(x).len() - 1,
            split_lines(x).last() + l,
        ),
    decreases l.len(),
{
    crate::lines::lemma_split_lines_nonempty(x);
    if l.len() == 0 {
        assert(x + l == x);
        assert(split_lines(x).last() + l == split_lines(x).last());
        assert(split_lines(x).update(split_lines(x).len() - 1, split_lines(x).last())
            == split_lines(x));
    } else {
        let lp = l.drop_last();
        assert forall|i: int| 0 <= i < lp.len() implies #[trigger] lp[i] != '\n' by {
            assert(lp[i] == l[i]);
        }
        lemma_split_append(x, lp);
        assert((x + l).drop_last() == x + lp);
        assert((x + l).last() == l.last());
        assert(l.last() != '\n');
        assert(split_lines(x).last() + l == (split_lines(x).last() + lp).push(l.last()));
    }
}

/// Lines without `'\n'`, joined and split again, come back unchanged.
proof fn lemma_split_join(ws: Seq<Seq<char>>)
    requires
        ws.len() > 0,
        forall|k: int, i: int| 0 <= k < ws.len() && 0 <= i < ws[k].len() ==> #[trigger] ws[k][i] != '\n',
    ensures
        split_lines(join_lines(ws)) == ws,
    decreases ws.len(),
{
    let l = ws.last();
    assert forall|i: int| 0 <= i < l.len() implies #[trigger] l[i] != '\n' by {
        assert(ws[ws.len() - 1][i] != '\n');
    }
    if ws.len() == 1 {
        lemma_split_append(Seq::empty(), l);
        assert(Seq::<char>::empty() + l == l);
        assert(join_lines(ws) == l);
        assert(Seq::<char>::empty() + l == l);
    } else {
        let init = ws.drop_last();
        assert forall|k: int, i: int| 0 <= k < init.len() && 0 <= i < init[k].len() implies #[trigger] init[k][i]
            != '\n' by {
            assert(init[k] == ws[k]);
        }
        lemma_split_join(init);
        let a = join_lines(init);
        assert(join_lines(ws) == a.push('\n') + l);
        assert(a + seq!['\n'] == a.push('\n'));
        assert(a.push('\n').drop_last() == a);
        lemma_split_append(a.push('\n'), l);
        assert(split_lines(a.push('\n')) == init.push(Seq::<char>::empty()));
        assert(Seq::<char>::empty() + l == l);
        assert(init.push(Seq::<char>::empty()).update(init.len() as int, l) == ws);
    }
}

proof fn lemma_kept_rising(ls: Seq<Seq<char>>, bounds: Seq<(nat, nat)>, permille: nat)
    requires
        forall|k: int| 0 <= k < bounds.len() - 1 ==> (#[trigger] bounds[k]).0 < bounds[k + 1].0,
    ensures
        ({
            let c = kept_windows(ls, bounds, permille);
            &&& forall|i: int, j: int| 0 <= i < j < c.len() ==> (#[trigger] c[i]).0 < (#[trigger] c[j]).0
            &&& bounds.len() > 0 ==> forall|k: int| 0 <= k < c.len() ==> (#[trigger] c[k]).0 >= bounds[0].0 + 1
        }),
    decreases bounds.len(),
{
    if bounds.len() > 0 {
        let r = bounds.drop_first();
        assert forall|k: int| 0 <= k < r.len() - 1 implies (#[trigger] r[k]).0 < r[k + 1].0 by {
            assert(r[k] == bounds[k + 1] && r[k + 1] == bounds[k + 2]);
        }
        lemma_kept_rising(ls, r, permille);
        let rest = kept_windows(ls, r, permille);
        let c = kept_windows(ls, bounds, permille);
        if r.len() > 0 {
            assert(r[0] == bounds[1]);
        }
        assert forall|k: int| 0 <= k < rest.len() implies (#[trigger] rest[k]).0 > bounds[0].0 + 1 by {
            assert(r.len() > 0);
        }
        let (s, e) = bounds[0];
        if !is_whitespace_heavy(ls.subrange(s as int, e as int), permille) {
            assert forall|k: int| 0 < k < c.len() implies #[trigger] c[k] == rest[k - 1] by {}
            assert(c[0].0 == bounds[0].0 + 1);
        }
    }
}

/// Chunks come in the order of the text: each starts on a later line than
/// the one before. Each chunk's text splits back into exactly the text's
/// lines from its first line to its last (so it holds `end - start + 1`
/// lines).
pub proof fn lemma_chunks_in_order(s: Seq<char>, size: nat, overlap: nat, permille: nat)
    requires
        0 < size,
        overlap < size,
    ensures
        ({
            let c = spec_chunks(s, size, overlap, permille);
            &&& forall|i: int, j: int| 0 <= i < j < c.len() ==> (#[trigger] c[i]).0 < (#[trigger] c[j]).0
            &&& forall|k: int|
                0 <= k < c.len() ==> 1 <= (#[trigger] c[k]).0 <= c[k].1 <= lines_of(s).len()
                    && split_lines(c[k].2) == lines_of(s).subrange(c[k].0 - 1, c[k].1 as int)
                    && split_lines(c[k].2).len() == c[k].1 - c[k].0 + 1
        }),
{
    let ls = lines_of(s);
    if ls.len() > 0 {
        let b = window_bounds(ls.len(), size, overlap, 0);
        lemma_window_bounds_from(ls.len(), size, overlap, 0);
        lemma_kept_rising(ls, b, permille);
        lemma_kept_members(ls, b, permille);
        lemma_lines_clean(s);
        let c = spec_chunks(s, size, overlap, permille);
        assert forall|k: int| 0 <= k < c.len() implies 1 <= (#[trigger] c[k]).0 <= c[k].1 <= ls.len()
            && split_lines(c[k].2) == ls.subrange(c[k].0 - 1, c[k].1 as int)
            && split_lines(c[k].2).len() == c[k].1 - c[k].0 + 1 by {
            let j = choose|j: int|
                0 <= j < b.len() && !window_skipped(ls, #[trigger] b[j], permille) && c[k]
                    == window_chunk(ls, b[j]);
            let w = ls.subrange(b[j].0 as int, b[j].1 as int);
            assert forall|m: int, i: int| 0 <= m < w.len() && 0 <= i < w[m].len() implies #[trigger] w[m][i]
                != '\n' by {
                assert(w[m] == ls[b[j].0 + m]);
                assert(is_clean_line(ls[b[j].0 + m]));
            }
            lemma_split_join(w);
        }
    }
}

// ── Every window that is not whitespace-heavy becomes a chunk ───────────────

/// Whether a window is kept as a chunk.
pub open spec fn keeps_window(ls: Seq<Seq<char>>, permille: nat) -> spec_fn((nat, nat)) -> bool {
    |b: (nat, nat)| !window_skipped(ls, b, permille)
}

/// The chunk that a window yields.
pub open spec fn chunk_of_window(ls: Seq<Seq<char>>) -> spec_fn((nat, nat)) -> (nat, nat, Seq<char>) {
    |b: (nat, nat)| window_chunk(ls, b)
}

proof fn lemma_kept_filter(ls: Seq<Seq<char>>, bounds: Seq<(nat, nat)>, permille: nat)
    ensures
        kept_windows(ls, bounds, permille) == bounds.filter(keeps_window(ls, permille)).map_values(
            chunk_of_window(ls),
        ),
    decreases bounds.len(),
{
    let pred = keeps_window(ls, permille);
    let f = chunk_of_window(ls);
    reveal(Seq::filter);
    if bounds.len() == 0 {
        assert(bounds.filter(pred) =~= Seq::<(nat, nat)>::empty());
        assert(bounds.filter(pred).map_values(f) =~= Seq::<(nat, nat, Seq<char>)>::empty());
    } else {
        let head = seq![bounds[0]];
        let rest = bounds.drop_first();
        lemma_kept_filter(ls, rest, permille);
        assert(bounds == head + rest);
        Seq::filter_distributes_over_add(head, rest, pred);
        assert(head.drop_last() =~= Seq::<(nat, nat)>::empty());
        assert(head.drop_last().filter(pred) =~= Seq::<(nat, nat)>::empty());
        assert(head.last() == bounds[0]);
        let hf = head.filter(pred);
        let rf = rest.filter(pred);
        assert((hf + rf).map_values(f) =~= hf.map_values(f) + rf.map_values(f));
        let (s0, e0) = bounds[0];
        if pred(bounds[0]) {
            assert(hf =~= seq![bounds[0]]);
            assert(hf.map_values(f) =~= seq![window_chunk(ls, bounds[0])]);
        } else {
            assert(hf =~= Seq::<(nat, nat)>::empty());
            assert(hf.map_values(f) =~= Seq::<(nat, nat, Seq<char>)>::empty());
            assert(Seq::<(nat, nat, Seq<char>)>::empty() + rf.map_values(f) =~= rf.map_values(f));
        }
    }
}

/// The chunks of a text are exactly the windows over its lines that are not
/// whitespace-heavy, in order, each as its chunk (1-based first line, last
/// line, joined lines): a whitespace-heavy window is left out and no other
/// window is affected. (A text with no lines has one empty window, which is
/// whitespace-heavy.)
pub proof fn lemma_chunks_are_unskipped_windows(s: Seq<char>, size: nat, overlap: nat, permille: nat)
    ensures
        spec_chunks(s, size, overlap, permille) == window_bounds(
            lines_of(s).len(),
            size,
            overlap,
            0,
        ).filter(keeps_window(lines_of(s), permille)).map_values(chunk_of_window(lines_of(s))),
{
    let ls = lines_of(s);
    let b = window_bounds(ls.len(), size, overlap, 0);
    lemma_kept_filter(ls, b, permille);
    reveal(Seq::filter);
    if ls.len() == 0 {
        assert(b == seq![(0nat, 0nat)]);
        let w = ls.subrange(0, 0);
        assert(content_lines(w) == 0);
        assert(window_skipped(ls, b[0], permille));
        assert(b.drop_last() =~= Seq::<(nat, nat)>::empty());
        assert(b.drop_last().filter(keeps_window(ls, permille)) =~= Seq::<(nat, nat)>::empty());
        assert(b.filter(keeps_window(ls, permille)) =~= Seq::<(nat, nat)>::empty());
        assert(b.filter(keeps_window(ls, permille)).map_values(chunk_of_window(ls)) =~= Seq::<
            (nat, nat, Seq<char>),
        >::empty());
    }
}

/// Every window over a text's lines that is not whitespace-heavy yields its
/// chunk: a whitespace-heavy window does not stop the chunking.
pub proof fn lemma_unskipped_windows_are_chunks(s: Seq<char>, size: nat, overlap: nat, permille: nat)
    ensures
        ({
            let ls = lines_of(s);
            let b = window_bounds(ls.len(), size, overlap, 0);
            let c = spec_chunks(s, size, overlap, permille);
            forall|j: int|
                0 <= j < b.len() && !window_skipped(ls, #[trigger] b[j], permille) ==> exists|k: int|
                    0 <= k < c.len() && c[k] == window_chunk(ls, b[j])
        }),
{
    let ls = lines_of(s);
    let b = window_bounds(ls.len(), size, overlap, 0);
    let c = spec_chunks(s, size, overlap, permille);
    let pred = keeps_window(ls, permille);
    let f = chunk_of_window(ls);
    lemma_chunks_are_unskipped_windows(s, size, overlap, permille);
    assert forall|j: int| 0 <= j < b.len() && !window_skipped(ls, #[trigger] b[j], permille) implies exists|k: int|
        0 <= k < c.len() && c[k] == window_chunk(ls, b[j]) by {
        assert(pred(b[j]));
        b.lemma_filter_contains(pred, j);
        let fb = b.filter(pred);
        let k = choose|k: int| 0 <= k < fb.len() && fb[k] == b[j];
        assert(c[k] == f(fb[k]));
    }
}

// ── Valid configurations ────────────────────────────────────────────────────

/// A chunk configuration is valid exactly when its windows hold at least one
/// line and overlap by fewer lines than they hold; an overlap of none is valid.
pub proof fn lemma_valid_configs(cfg: ChunkConfig)
    ensures
        cfg.is_valid() <==> cfg.size > 0 && cfg.overlap < cfg.size,
{
}

// ── Whitespace-heavy windows ────────────────────────────────────────────────

proof fn lemma_blank_lines_no_content(ls: Seq<Seq<char>>)
    requires
        forall|k: int, i: int| 0 <= k < ls.len() && 0 <= i < ls[k].len() ==> is_ws(#[trigger] ls[k][i]),
    ensures
        content_lines(ls) == 0,
    decreases ls.len(),
{
    if ls.len() > 0 {
        let init = ls.drop_last();
        assert forall|k: int, i: int| 0 <= k < init.len() && 0 <= i < init[k].len() implies is_ws(
            #[trigger] init[k][i],
        ) by {
            assert(init[k] == ls[k]);
        }
        lemma_blank_lines_no_content(init);
        let l = ls.last();
        assert forall|i: int| 0 <= i < l.len() implies is_ws(l[i]) by {
            assert(l[i] == ls[ls.len() - 1][i]);
        }
    }
}

proof fn lemma_solid_line(l: Seq<char>)
    requires
        forall|i: int| 0 <= i < l.len() ==> !is_ws(#[trigger] l[i]),
    ensures
        count_non_ws(l) == l.len(),
    decreases l.len(),
{
    if l.len() > 0 {
        let init = l.drop_last();
        assert forall|i: int| 0 <= i < init.len() implies !is_ws(#[trigger] init[i]) by {
            assert(init[i] == l[i]);
        }
        lemma_solid_line(init);
        assert(!is_ws(l[l.len() - 1]));
    }
}

proof fn lemma_solid_lines(ls: Seq<Seq<char>>)
    requires
        forall|k: int| 0 <= k < ls.len() ==> (#[trigger] ls[k]).len() > 0,
        forall|k: int, i: int| 0 <= k < ls.len() && 0 <= i < ls[k].len() ==> !is_ws(#[trigger] ls[k][i]),
    ensures
        content_lines(ls) == ls.len(),
        total_non_ws(ls) == total_chars(ls),
        total_chars(ls) >= ls.len(),
    decreases ls.len(),
{
    if ls.len() > 0 {
        let init = ls.drop_last();
        assert forall|k: int| 0 <= k < init.len() implies (#[trigger] init[k]).len() > 0 by {
            assert(init[k] == ls[k]);
        }
        assert forall|k: int, i: int| 0 <= k < init.len() && 0 <= i < init[k].len() implies !is_ws(
            #[trigger] init[k][i],
        ) by {
            assert(init[k] == ls[k]);
        }
        lemma_solid_lines(init);
        let l = ls.last();
        assert(l.len() > 0);
        assert forall|i: int| 0 <= i < l.len() implies !is_ws(#[trigger] l[i]) by {
            assert(l[i] == ls[ls.len() - 1][i]);
        }
        lemma_solid_line(l);
        assert(!is_ws(l[0]));
        assert(has_content(l));
    }
}

/// A window whose characters are all whitespace (blank lines) is always
/// whitespace-heavy, whatever the threshold.
pub proof fn lemma_blank_window_is_skipped(ls: Seq<Seq<char>>, permille: nat)
    requires
        forall|k: int, i: int| 0 <= k < ls.len() && 0 <= i < ls[k].len() ==> is_ws(#[trigger] ls[k][i]),
    ensures
        is_whitespace_heavy(ls, permille),
{
    lemma_blank_lines_no_content(ls);
}

/// A window of at least `MIN_NON_WS_LINES` lines, each non-empty and without
/// whitespace, is never whitespace-heavy under a threshold of at most 1000
/// thousandths.
pub proof fn lemma_solid_window_is_kept(ls: Seq<Seq<char>>, permille: nat)
    requires
        ls.len() >= MIN_NON_WS_LINES,
        permille <= 1000,
        forall|k: int| 0 <= k < ls.len() ==> (#[trigger] ls[k]).len() > 0,
        forall|k: int, i: int| 0 <= k < ls.len() && 0 <= i < ls[k].len() ==> !is_ws(#[trigger] ls[k][i]),
    ensures
        !is_whitespace_heavy(ls, permille),
{
    lemma_solid_lines(ls);
    let t = total_chars(ls);
    assert(t * 1000 >= permille * t) by (nonlinear_arith)
        requires
            permille <= 1000,
    ;
}

/// Raising the threshold never keeps a window that a lower threshold skips.
pub proof fn lemma_skipping_is_monotone(ls: Seq<Seq<char>>, low: nat, high: nat)
    requires
        low <= high,
        is_whitespace_heavy(ls, low),
    ensures
        is_whitespace_heavy(ls, high),
{
    let t = total_chars(ls);
    assert(low * t <= high * t) by (nonlinear_arith)
        requires
            low <= high,
    ;
}

} // verus!
