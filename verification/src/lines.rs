//! Line handling for the chunker: splitting text into lines with CR/LF
//! normalisation, joining lines back, and classifying whitespace.

use vstd::prelude::*;

verus! {

/// Unicode `White_Space` property (the characters for which
/// `char::is_whitespace` holds).
pub open spec fn is_ws(c: char) -> bool {
    let u = c as u32;
    ||| 0x09 <= u <= 0x0D
    ||| u == 0x20
    ||| u == 0x85
    ||| u == 0xA0
    ||| u == 0x1680
    ||| 0x2000 <= u <= 0x200A
    ||| u == 0x2028
    ||| u == 0x2029
    ||| u == 0x202F
    ||| u == 0x205F
    ||| u == 0x3000
}

/// Whether `c` is a Unicode whitespace character.
pub fn is_whitespace(c: char) -> (r: bool)
    ensures
        r == is_ws(c),
{
    let u = c as u32;
    (0x09 <= u && u <= 0x0D) || u == 0x20 || u == 0x85 || u == 0xA0 || u == 0x1680 || (0x2000
        <= u && u <= 0x200A) || u == 0x2028 || u == 0x2029 || u == 0x202F || u == 0x205F || u
        == 0x3000
}

/// The pieces of `s` between `'\n'` characters, in order. An empty text
/// is one empty piece; a text ending in `'\n'` ends with an empty piece.
pub open spec fn split_lines(s: Seq<char>) -> Seq<Seq<char>>
    decreases s.len(),
{
    if s.len() == 0 {
        seq![Seq::empty()]
    } else {
        let p = split_lines(s.drop_last());
        if s.last() == '\n' {
            p.push(Seq::empty())
        } else {
            p.update(p.len() - 1, p.last().push(s.last()))
        }
    }
}

/// `l` without its trailing `'\r'` characters.
pub open spec fn trim_trailing_cr(l: Seq<char>) -> Seq<char>
    decreases l.len(),
{
    if l.len() > 0 && l.last() == '\r' {
        trim_trailing_cr(l.drop_last())
    } else {
        l
    }
}

/// The lines of a text: the `'\n'`-separated pieces with trailing `'\r'`s
/// removed, where a final empty line (left by a trailing newline) is dropped.
pub open spec fn lines_of(s: Seq<char>) -> Seq<Seq<char>> {
    let t = split_lines(s).map_values(|l: Seq<char>| trim_trailing_cr(l));
    if t.last().len() == 0 {
        t.drop_last()
    } else {
        t
    }
}

/// Lines joined with `'\n'` between consecutive lines.
pub open spec fn join_lines(ls: Seq<Seq<char>>) -> Seq<char>
    decreases ls.len(),
{
    if ls.len() == 0 {
        Seq::empty()
    } else if ls.len() == 1 {
        ls[0]
    } else {
        join_lines(ls.drop_last()) + seq!['\n'] + ls.last()
    }
}

/// A text always splits into at least one piece.
pub proof fn lemma_split_lines_nonempty(s: Seq<char>)
    ensures
        split_lines(s).len() >= 1,
    decreases s.len(),
{
    if s.len() > 0 {
        lemma_split_lines_nonempty(s.drop_last());
    }
}

/// The views of a vector of lines.
pub open spec fn line_views(lines: Seq<Vec<char>>) -> Seq<Seq<char>> {
    lines.map_values(|l: Vec<char>| l@)
}

/// Removes the trailing `'\r'` characters of `line`.
fn trim_cr_in_place(line: &mut Vec<char>)
    ensures
        final(line)@ == trim_trailing_cr(old(line)@),
{
    while line.len() > 0 && line[line.len() - 1] == '\r'
        invariant
            trim_trailing_cr(line@) == trim_trailing_cr(old(line)@),
        decreases line.len(),
    {
        let ghost before = line@;
        line.pop();
        assert(line@ == before.drop_last());
    }
}

/// Splits `text` into its lines (see `lines_of`).
pub fn split_into_lines(text: &str) -> (lines: Vec<Vec<char>>)
    ensures
        line_views(lines@) == lines_of(text@),
{
    broadcast use vstd::string::group_string_axioms;
    let mut lines: Vec<Vec<char>> = Vec::new();
    let mut cur: Vec<char> = Vec::new();
    for c in it: text.chars()
        invariant
            it.seq() == text@,
            ({
                let p = split_lines(text@.take(it.index()));
                &&& p.len() == lines@.len() + 1
                &&& forall|k: int| 0 <= k < lines@.len() ==> #[trigger] lines@[k]@ == trim_trailing_cr(p[k])
                &&& cur@ == p.last()
            }),
    {
        let ghost done = text@.take(it.index());
        proof {
            lemma_split_lines_nonempty(done);
        }
        assert(text@.take(it.index() + 1).drop_last() == done);
        if c == '\n' {
            trim_cr_in_place(&mut cur);
            lines.push(cur);
            cur = Vec::new();
        } else {
            cur.push(c);
        }
    }
    proof {
        assert(text@.take(text@.len() as int) == text@);
        lemma_split_lines_nonempty(text@);
    }
    let ghost p = split_lines(text@);
    let ghost t = p.map_values(|l: Seq<char>| trim_trailing_cr(l));
    trim_cr_in_place(&mut cur);
    if cur.len() > 0 {
        lines.push(cur);
        assert(line_views(lines@) =~= t);
    } else {
        assert(line_views(lines@) =~= t.drop_last());
    }
    lines
}

/// `String::push` (std): appends `c` to `s`.
#[verifier::external_body]
pub(crate) fn push_char(s: &mut String, c: char)
    ensures
        final(s)@ == old(s)@.push(c),
{
    s.push(c);
}

/// Lines `start..end` of `lines`, joined with `'\n'`.
pub fn join_window(lines: &Vec<Vec<char>>, start: usize, end: usize) -> (s: String)
    requires
        start <= end <= lines@.len(),
    ensures
        s@ == join_lines(line_views(lines@).subrange(start as int, end as int)),
{
    let ghost ls = line_views(lines@);
    let mut s = String::new();
    let mut k = start;
    while k < end
        invariant
            start <= k <= end <= lines@.len(),
            ls == line_views(lines@),
            s@ == join_lines(ls.subrange(start as int, k as int)),
        decreases end - k,
    {
        let ghost before = s@;
        if k > start {
            push_char(&mut s, '\n');
        }
        let ghost prefix = s@;
        let line = &lines[k];
        let mut j: usize = 0;
        while j < line.len()
            invariant
                j <= line@.len(),
                s@ == prefix + line@.take(j as int),
            decreases line@.len() - j,
        {
            push_char(&mut s, line[j]);
            assert(line@.take(j + 1) == line@.take(j as int).push(line@[j as int]));
            j += 1;
        }
        assert(line@.take(j as int) == line@);
        let ghost next = ls.subrange(start as int, k + 1);
        assert(next.drop_last() == ls.subrange(start as int, k as int));
        assert(next.last() == line@);
        if k > start {
            assert(s@ == before + seq!['\n'] + line@);
        } else {
            assert(next.len() == 1);
            assert(s@ == line@);
        }
        k += 1;
    }
    s
}

} // verus!
