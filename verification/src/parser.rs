//! Line-oriented front end.
//!
//! This module holds the character-level scanning specification shared by
//! the front ends (horizontal whitespace, number-sign runs, line
//! splitting), together with the earlier single-stage parser over
//! [`crate::ast`].  The current two-stage pipeline lives in the `lir` and
//! `hir` submodules.

pub mod hir;
pub mod lir;

use crate::ast;
use vstd::prelude::*;

verus! {

pub type Result<T> = std::result::Result<T, Error>;

/// The front end's error.  The line-shape grammar classifies every line
/// (everything falls back to a paragraph), so this can never arise.
#[derive(Debug)]
pub enum Error {
    Grammar,
}

// ---------------------------------------------------------------------------
// Character classes
// ---------------------------------------------------------------------------

/// Horizontal whitespace: the characters that may pad a line without
/// giving it content.
pub open spec fn is_hws(c: char) -> bool {
    c == ' ' || c == '\t'
}

/// A line consisting of horizontal whitespace only (possibly empty).
pub open spec fn blank(line: Seq<char>) -> bool {
    forall|i: int| 0 <= i < line.len() ==> is_hws(line[i])
}

// ---------------------------------------------------------------------------
// Prefix and suffix runs
// ---------------------------------------------------------------------------

/// Length of the longest horizontal-whitespace prefix of `s`.
pub open spec fn leading_hws(s: Seq<char>) -> int
    decreases s.len(),
{
    if s.len() == 0 || !is_hws(s[0]) {
        0
    } else {
        1 + leading_hws(s.drop_first())
    }
}

pub proof fn lemma_leading_hws(s: Seq<char>)
    ensures
        0 <= leading_hws(s) <= s.len(),
        forall|i: int| 0 <= i < leading_hws(s) ==> is_hws(s[i]),
        leading_hws(s) < s.len() ==> !is_hws(s[leading_hws(s)]),
    decreases s.len(),
{
    if s.len() > 0 && is_hws(s[0]) {
        lemma_leading_hws(s.drop_first());
        assert forall|i: int| 0 <= i < leading_hws(s) implies is_hws(s[i]) by {
            if i > 0 {
                assert(is_hws(s.drop_first()[i - 1]));
            }
        }
    }
}

/// A position `j` bounding a whitespace prefix on both sides is the run's
/// length.
pub proof fn lemma_leading_hws_is(s: Seq<char>, j: int)
    requires
        0 <= j <= s.len(),
        forall|i: int| 0 <= i < j ==> is_hws(s[i]),
        j < s.len() ==> !is_hws(s[j]),
    ensures
        leading_hws(s) == j,
    decreases s.len(),
{
    if j == 0 {
    } else {
        assert(is_hws(s[0]));
        lemma_leading_hws_is(s.drop_first(), j - 1);
    }
}

/// Length of the longest `#` prefix of `s`.
pub open spec fn leading_hashes(s: Seq<char>) -> int
    decreases s.len(),
{
    if s.len() == 0 || s[0] != '#' {
        0
    } else {
        1 + leading_hashes(s.drop_first())
    }
}

pub proof fn lemma_leading_hashes_is(s: Seq<char>, j: int)
    requires
        0 <= j <= s.len(),
        forall|i: int| 0 <= i < j ==> s[i] == '#',
        j < s.len() ==> s[j] != '#',
    ensures
        leading_hashes(s) == j,
    decreases s.len(),
{
    if j == 0 {
    } else {
        lemma_leading_hashes_is(s.drop_first(), j - 1);
    }
}

/// Length of the longest horizontal-whitespace suffix of `s`.
pub open spec fn trailing_hws(s: Seq<char>) -> int
    decreases s.len(),
{
    if s.len() == 0 || !is_hws(s.last()) {
        0
    } else {
        1 + trailing_hws(s.drop_last())
    }
}

pub proof fn lemma_trailing_hws(s: Seq<char>)
    ensures
        0 <= trailing_hws(s) <= s.len(),
        forall|i: int| s.len() - trailing_hws(s) <= i < s.len() ==> is_hws(s[i]),
        trailing_hws(s) < s.len() ==> !is_hws(s[s.len() - trailing_hws(s) - 1]),
    decreases s.len(),
{
    if s.len() > 0 && is_hws(s.last()) {
        lemma_trailing_hws(s.drop_last());
        assert forall|i: int| s.len() - trailing_hws(s) <= i < s.len() implies is_hws(s[i]) by {
            if i < s.len() - 1 {
                assert(is_hws(s.drop_last()[i]));
            }
        }
    }
}

/// A position `j` bounding a whitespace suffix on both sides is the run's
/// length.
pub proof fn lemma_trailing_hws_is(s: Seq<char>, j: int)
    requires
        0 <= j <= s.len(),
        forall|i: int| s.len() - j <= i < s.len() ==> is_hws(s[i]),
        j < s.len() ==> !is_hws(s[s.len() - j - 1]),
    ensures
        trailing_hws(s) == j,
    decreases s.len(),
{
    if j == 0 {
        if s.len() > 0 {
            assert(!is_hws(s.last()));
        }
    } else {
        assert(is_hws(s.last()));
        lemma_trailing_hws_is(s.drop_last(), j - 1);
    }
}

// ---------------------------------------------------------------------------
// Line splitting
// ---------------------------------------------------------------------------

/// Distance from the start of `s` to its first newline (or its length
/// when it has none).
pub open spec fn line_len(s: Seq<char>) -> int
    decreases s.len(),
{
    if s.len() == 0 || s[0] == '\n' {
        0
    } else {
        1 + line_len(s.drop_first())
    }
}

pub proof fn lemma_line_len(s: Seq<char>)
    ensures
        0 <= line_len(s) <= s.len(),
        forall|i: int| 0 <= i < line_len(s) ==> s[i] != '\n',
        line_len(s) < s.len() ==> s[line_len(s)] == '\n',
    decreases s.len(),
{
    if s.len() > 0 && s[0] != '\n' {
        lemma_line_len(s.drop_first());
        assert forall|i: int| 0 <= i < line_len(s) implies s[i] != '\n' by {
            if i > 0 {
                assert(s.drop_first()[i - 1] != '\n');
            }
        }
    }
}

pub proof fn lemma_line_len_is(s: Seq<char>, j: int)
    requires
        0 <= j <= s.len(),
        forall|i: int| 0 <= i < j ==> s[i] != '\n',
        j < s.len() ==> s[j] == '\n',
    ensures
        line_len(s) == j,
    decreases s.len(),
{
    if j == 0 {
    } else {
        lemma_line_len_is(s.drop_first(), j - 1);
    }
}

/// The lines of `s`: maximal newline-free runs, one per newline plus a
/// final unterminated one (a trailing newline thus adds no empty line,
/// and the empty document has no lines at all).
pub open spec fn split_lines(s: Seq<char>) -> Seq<Seq<char>>
    decreases s.len(),
{
    if s.len() == 0 {
        Seq::empty()
    } else {
        let n = line_len(s);
        proof {
            lemma_line_len(s);
        }
        if n == s.len() {
            seq![s]
        } else {
            seq![s.take(n)] + split_lines(s.skip(n + 1))
        }
    }
}

// ---------------------------------------------------------------------------
// Sequence algebra
// ---------------------------------------------------------------------------

pub proof fn lemma_skip_skip<A>(s: Seq<A>, a: int, b: int)
    requires
        0 <= a,
        0 <= b,
        a + b <= s.len(),
    ensures
        s.skip(a).skip(b) == s.skip(a + b),
{
    assert(s.skip(a).skip(b) =~= s.skip(a + b));
}

pub proof fn lemma_skip_take<A>(s: Seq<A>, a: int, b: int)
    requires
        0 <= a <= b <= s.len(),
    ensures
        s.skip(a).take(b - a) == s.subrange(a, b),
{
    assert(s.skip(a).take(b - a) =~= s.subrange(a, b));
}

pub proof fn lemma_skip_zero<A>(s: Seq<A>)
    ensures
        s.skip(0) == s,
{
    assert(s.skip(0) =~= s);
}

// ---------------------------------------------------------------------------
// Executable scanning helpers
// ---------------------------------------------------------------------------

/// Position of the first newline at or after `from` (or the end).
pub(crate) fn scan_line_end(s: &str, from: usize) -> (end: usize)
    requires
        from <= s@.len(),
    ensures
        from <= end <= s@.len(),
        end - from == line_len(s@.skip(from as int)),
{
    let n = s.unicode_len();
    let mut i = from;
    while i < n && s.get_char(i) != '\n'
        invariant
            from <= i <= n,
            n == s@.len(),
            forall|k: int| from <= k < i ==> s@[k] != '\n',
        decreases n - i,
    {
        i += 1;
    }
    proof {
        let t = s@.skip(from as int);
        assert(forall|k: int| 0 <= k < i - from ==> t[k] == s@[k + from] && t[k] != '\n');
        lemma_line_len_is(t, i - from);
    }
    i
}

/// Whether `c` is horizontal whitespace.
pub(crate) fn is_hws_char(c: char) -> (r: bool)
    ensures
        r == is_hws(c),
{
    c == ' ' || c == '\t'
}

/// Position of the first non-horizontal-whitespace character at or after
/// `from` (or the end).
pub(crate) fn scan_hws(s: &str, from: usize) -> (end: usize)
    requires
        from <= s@.len(),
    ensures
        from <= end <= s@.len(),
        end - from == leading_hws(s@.skip(from as int)),
{
    let n = s.unicode_len();
    let mut i = from;
    while i < n && is_hws_char(s.get_char(i))
        invariant
            from <= i <= n,
            n == s@.len(),
            forall|k: int| from <= k < i ==> is_hws(s@[k]),
        decreases n - i,
    {
        i += 1;
    }
    proof {
        let t = s@.skip(from as int);
        assert(forall|k: int| 0 <= k < i - from ==> t[k] == s@[k + from] && is_hws(t[k]));
        if i < n {
            assert(t[i - from] == s@[i as int]);
        }
        lemma_leading_hws_is(t, i - from);
    }
    i
}

/// Length of the `#` run at the start of `s`.
pub(crate) fn scan_hashes(s: &str) -> (end: usize)
    ensures
        0 <= end <= s@.len(),
        end == leading_hashes(s@),
{
    let n = s.unicode_len();
    let mut i: usize = 0;
    while i < n && s.get_char(i) == '#'
        invariant
            0 <= i <= n,
            n == s@.len(),
            forall|k: int| 0 <= k < i ==> s@[k] == '#',
        decreases n - i,
    {
        i += 1;
    }
    proof {
        lemma_leading_hashes_is(s@, i as int);
    }
    i
}

// ---------------------------------------------------------------------------
// The single-stage parser
// ---------------------------------------------------------------------------

/// Header line shape: one to six number signs followed by horizontal
/// whitespace.  Longer runs, or a run without following whitespace, fall
/// through to the paragraph rule.
pub open spec fn is_header_line(line: Seq<char>) -> bool {
    let k = leading_hashes(line);
    1 <= k <= 6 && k < line.len() && is_hws(line[k])
}

/// The header level of a header-shaped line.
pub open spec fn header_level_of(line: Seq<char>) -> ast::HeaderType {
    let k = leading_hashes(line);
    if k == 1 {
        ast::HeaderType::H1
    } else if k == 2 {
        ast::HeaderType::H2
    } else if k == 3 {
        ast::HeaderType::H3
    } else if k == 4 {
        ast::HeaderType::H4
    } else if k == 5 {
        ast::HeaderType::H5
    } else {
        ast::HeaderType::H6
    }
}

/// Classification of one line under the single-stage grammar: blank lines,
/// headers (with the number signs and the whitespace after them removed),
/// and paragraphs (taken verbatim).
pub open spec fn classify_line(line: Seq<char>) -> ast::StatementView {
    if blank(line) {
        ast::StatementView::EmptyLine
    } else if is_header_line(line) {
        let k = leading_hashes(line);
        let rest = line.skip(k);
        ast::StatementView::Header(header_level_of(line), rest.skip(leading_hws(rest)))
    } else {
        ast::StatementView::Paragraph(line)
    }
}

/// The whole single-stage parse: classify every line, in order.
pub open spec fn spec_parse(s: Seq<char>) -> Seq<ast::StatementView> {
    split_lines(s).map_values(|l: Seq<char>| classify_line(l))
}

/// Classify one line of source text.
fn parse_statement(line: &str) -> (r: ast::Statement)
    ensures
        r@ == classify_line(line@),
{
    let n = line.unicode_len();
    let ws = scan_hws(line, 0);
    proof {
        lemma_skip_zero(line@);
        lemma_leading_hws(line@);
    }
    if ws == n {
        return ast::Statement::EmptyLine(ast::EmptyLineStatement);
    }
    proof {
        assert(!is_hws(line@[ws as int]));
        assert(!blank(line@));
    }
    let k = scan_hashes(line);
    if 1 <= k && k <= 6 && k < n && is_hws_char(line.get_char(k)) {
        let header_type = match ast::HeaderType::try_from(k as u32) {
            Ok(ht) => ht,
            Err(_) => {
                proof {
                    assert(false);
                }
                ast::HeaderType::H1
            },
        };
        let start = scan_hws(line, k);
        let text = line.substring_char(start, n);
        proof {
            let rest = line@.skip(k as int);
            lemma_skip_skip(line@, k as int, start - k);
            assert(line@.subrange(start as int, n as int) =~= line@.skip(start as int));
            assert(rest.skip(leading_hws(rest)) == line@.skip(start as int));
        }
        ast::Statement::Header(ast::HeaderStatement {
            header_type,
            text: String::from_str(text),
        })
    } else {
        proof {
            assert(!is_header_line(line@));
        }
        ast::Statement::Paragraph(ast::ParagraphStatement { text: String::from_str(line) })
    }
}

/// Parse the statements of the tail of `code` that begins at character
/// position `pos`.
fn parse_from(code: &str, pos: usize) -> (r: Vec<ast::Statement>)
    requires
        pos <= code@.len(),
    ensures
        ast::statements_view(r@) == spec_parse(code@.skip(pos as int)),
    decreases code@.len() - pos,
{
    let n = code.unicode_len();
    let ghost tail = code@.skip(pos as int);
    if pos == n {
        let r = Vec::new();
        proof {
            assert(ast::statements_view(r@) =~= spec_parse(tail));
        }
        return r;
    }
    let end = scan_line_end(code, pos);
    let line = code.substring_char(pos, end);
    proof {
        lemma_line_len(tail);
        lemma_skip_take(code@, pos as int, end as int);
        assert(line@ == tail.take(end - pos));
    }
    let stmt = parse_statement(line);
    let ghost stmt_view = stmt@;
    let mut r = Vec::new();
    r.push(stmt);
    if end == n {
        proof {
            assert(tail.take(end - pos) =~= tail);
            assert(ast::statements_view(r@) =~= spec_parse(tail));
        }
        r
    } else {
        let mut rest = parse_from(code, end + 1);
        let ghost rest_view = rest@;
        proof {
            lemma_skip_skip(code@, pos as int, end + 1 - pos);
        }
        r.append(&mut rest);
        proof {
            let lines = split_lines(tail);
            let rest_lines = split_lines(code@.skip(end + 1));
            assert(lines == seq![tail.take(end - pos)] + rest_lines);
            assert(rest_view.len() == ast::statements_view(rest_view).len());
            assert(rest_view.len() == rest_lines.len());
            assert(lines.len() == 1 + rest_lines.len());
            assert forall|i: int|
                0 <= i < r@.len() implies ast::statements_view(r@)[i] == spec_parse(tail)[i] by {
                if i == 0 {
                    assert(r@[0]@ == stmt_view);
                    assert(lines[0] == (seq![tail.take(end - pos)] + rest_lines)[0]);
                    assert(lines[0] == tail.take(end - pos));
                } else {
                    assert(r@[i] == rest_view[i - 1]);
                    assert(ast::statements_view(rest_view)[i - 1] == spec_parse(
                        code@.skip(end + 1),
                    )[i - 1]);
                    assert(lines[i] == (seq![tail.take(end - pos)] + rest_lines)[i]);
                    assert(lines[i] == rest_lines[i - 1]);
                }
            }
            assert(ast::statements_view(r@) =~= spec_parse(tail));
        }
        r
    }
}

/// Parse a whole source text under the single-stage grammar.  The grammar
/// classifies every line, so this always succeeds.
pub fn parse(code: &str) -> (r: Result<ast::Document>)
    ensures
        r matches Ok(d) && d@ == spec_parse(code@),
{
    let statements = parse_from(code, 0);
    proof {
        lemma_skip_zero(code@);
    }
    Ok(ast::Document { statements })
}

} // verus!
