//! The line-level front end: classifies each source line and tokenizes
//! inline emphasis delimiters, producing a [`crate::ast::lir`] tree.

use crate::ast::lir;
use crate::ast::lir::Emphasis;
use crate::ast::lir::HeaderType;
use crate::parser::blank;
use crate::parser::is_hws;
use crate::parser::is_hws_char;
use crate::parser::leading_hashes;
use crate::parser::leading_hws;
use crate::parser::lemma_leading_hws;
use crate::parser::lemma_line_len;
use crate::parser::lemma_skip_skip;
use crate::parser::lemma_skip_take;
use crate::parser::lemma_skip_zero;
use crate::parser::lemma_trailing_hws;
use crate::parser::lemma_trailing_hws_is;
use crate::parser::line_len;
use crate::parser::scan_hashes;
use crate::parser::scan_hws;
use crate::parser::scan_line_end;
use crate::parser::split_lines;
use crate::parser::trailing_hws;
use vstd::prelude::*;

verus! {

pub type Result<T> = std::result::Result<T, Error>;

/// The front end's error.  The line-shape grammar classifies every line
/// (everything falls back to a paragraph), so this can never arise.
#[derive(Debug)]
pub enum Error {
    Grammar,
}

// ---------------------------------------------------------------------------
// Emphasis delimiters
// ---------------------------------------------------------------------------

/// A character that, doubled, forms an emphasis delimiter.
pub open spec fn is_delim_char(c: char) -> bool {
    c == '*' || c == '_' || c == '~'
}

/// The emphasis kind a delimiter character denotes.
pub open spec fn delim_emphasis(c: char) -> Emphasis {
    if c == '*' {
        Emphasis::Bold
    } else if c == '_' {
        Emphasis::Italic
    } else {
        Emphasis::Strikethrough
    }
}

/// The two-character delimiter text of an emphasis kind.
pub open spec fn delim_text(e: Emphasis) -> Seq<char> {
    match e {
        Emphasis::Bold => "**"@,
        Emphasis::Italic => "__"@,
        Emphasis::Strikethrough => "~~"@,
    }
}

/// An emphasis delimiter starts at position `i` of `t`.
pub open spec fn delim_at(t: Seq<char>, i: int) -> bool {
    &&& 0 <= i
    &&& i + 1 < t.len()
    &&& t[i] == t[i + 1]
    &&& is_delim_char(t[i])
}

/// Position of the first emphasis delimiter in `t` (or `t.len()` when it
/// has none).
pub open spec fn next_delim(t: Seq<char>) -> int
    decreases t.len(),
{
    if t.len() == 0 {
        0
    } else if delim_at(t, 0) {
        0
    } else {
        1 + next_delim(t.drop_first())
    }
}

pub proof fn lemma_next_delim(t: Seq<char>)
    ensures
        0 <= next_delim(t) <= t.len(),
        forall|i: int| 0 <= i < next_delim(t) ==> !delim_at(t, i),
        next_delim(t) < t.len() ==> delim_at(t, next_delim(t)),
    decreases t.len(),
{
    if t.len() > 0 && !delim_at(t, 0) {
        lemma_next_delim(t.drop_first());
        assert forall|i: int| 0 <= i < next_delim(t) implies !delim_at(t, i) by {
            if i > 0 {
                assert(!delim_at(t.drop_first(), i - 1));
            }
        }
        if next_delim(t) < t.len() {
            assert(delim_at(t.drop_first(), next_delim(t) - 1));
        }
    }
}

/// A position `j` with no delimiter before it and a delimiter (or the
/// end) at it is the first delimiter position.
pub proof fn lemma_next_delim_is(t: Seq<char>, j: int)
    requires
        0 <= j <= t.len(),
        forall|i: int| 0 <= i < j ==> !delim_at(t, i),
        j < t.len() ==> delim_at(t, j),
    ensures
        next_delim(t) == j,
    decreases t.len(),
{
    if j == 0 {
        if t.len() > 0 && !delim_at(t, 0) {
            assert(delim_at(t, 0));
        }
    } else {
        assert(!delim_at(t, 0));
        assert forall|i: int| 0 <= i < j - 1 implies !delim_at(t.drop_first(), i) by {
            assert(!delim_at(t, i + 1));
        }
        if j - 1 < t.drop_first().len() {
            assert(delim_at(t, j));
        }
        lemma_next_delim_is(t.drop_first(), j - 1);
    }
}

// ---------------------------------------------------------------------------
// Tokenization and trimming
// ---------------------------------------------------------------------------

/// Tokenization of free text: doubled `*`, `_` and `~` characters become
/// emphasis markers, every other maximal run becomes one literal.
pub open spec fn tokenize(t: Seq<char>) -> Seq<lir::TextSegmentView>
    decreases t.len(),
{
    if t.len() == 0 {
        Seq::empty()
    } else {
        let d = next_delim(t);
        proof {
            lemma_next_delim(t);
        }
        if d == 0 {
            seq![lir::TextSegmentView::Emphasis(delim_emphasis(t[0]))] + tokenize(t.skip(2))
        } else if d == t.len() {
            seq![lir::TextSegmentView::Text(t)]
        } else {
            seq![lir::TextSegmentView::Text(t.take(d))] + tokenize(t.skip(d))
        }
    }
}

/// Trailing-whitespace trimming: a trailing literal loses its trailing
/// horizontal whitespace, and is dropped when nothing else remains.
pub open spec fn trim_segments(segs: Seq<lir::TextSegmentView>) -> Seq<lir::TextSegmentView> {
    if segs.len() == 0 {
        segs
    } else {
        match segs.last() {
            lir::TextSegmentView::Text(t) => {
                let w = trailing_hws(t);
                if w == 0 {
                    segs
                } else if w == t.len() {
                    segs.drop_last()
                } else {
                    segs.drop_last().push(lir::TextSegmentView::Text(t.take(t.len() - w)))
                }
            },
            _ => segs,
        }
    }
}

/// The text segments of a line's free-text portion `raw`: leading
/// whitespace removed, tokenized, and trailing whitespace trimmed.
pub open spec fn text_of(raw: Seq<char>) -> Seq<lir::TextSegmentView> {
    trim_segments(tokenize(raw.skip(leading_hws(raw))))
}

// ---------------------------------------------------------------------------
// Trimming holds of every tokenized text
// ---------------------------------------------------------------------------

/// A text whose trailing literal (if any) carries no trailing horizontal
/// whitespace.
pub open spec fn trimmed_text(segs: Seq<lir::TextSegmentView>) -> bool {
    segs.len() == 0 || (match segs.last() {
        lir::TextSegmentView::Text(t) => trailing_hws(t) == 0,
        _ => true,
    })
}

/// Tokenization never places two literals side by side: a literal run is
/// always maximal.
pub proof fn lemma_tokenize_no_adjacent_literals(t: Seq<char>)
    ensures
        forall|i: int|
            0 <= i < tokenize(t).len() - 1 ==> !((#[trigger] tokenize(t)[i])
                matches lir::TextSegmentView::Text(_) && tokenize(t)[i + 1]
                matches lir::TextSegmentView::Text(_)),
    decreases t.len(),
{
    if t.len() == 0 {
    } else {
        let d = next_delim(t);
        lemma_next_delim(t);
        if d == 0 {
            lemma_tokenize_no_adjacent_literals(t.skip(2));
            assert forall|i: int|
                0 <= i < tokenize(t).len() - 1 implies !((#[trigger] tokenize(t)[i])
                matches lir::TextSegmentView::Text(_) && tokenize(t)[i + 1]
                matches lir::TextSegmentView::Text(_)) by {
                if i > 0 {
                    assert(tokenize(t)[i] == tokenize(t.skip(2))[i - 1]);
                    assert(tokenize(t)[i + 1] == tokenize(t.skip(2))[i]);
                }
            }
        } else if d == t.len() {
        } else {
            lemma_tokenize_no_adjacent_literals(t.skip(d));
            assert(delim_at(t, d));
            let u = t.skip(d);
            assert(delim_at(u, 0)) by {
                assert(u[0] == t[d]);
                assert(u[1] == t[d + 1]);
            }
            assert(next_delim(u) == 0);
            assert(u.len() > 0);
            assert(tokenize(u)[0] == lir::TextSegmentView::Emphasis(delim_emphasis(u[0])));
            assert forall|i: int|
                0 <= i < tokenize(t).len() - 1 implies !((#[trigger] tokenize(t)[i])
                matches lir::TextSegmentView::Text(_) && tokenize(t)[i + 1]
                matches lir::TextSegmentView::Text(_)) by {
                if i == 0 {
                    assert(tokenize(t)[1] == tokenize(u)[0]);
                } else {
                    assert(tokenize(t)[i] == tokenize(u)[i - 1]);
                    assert(tokenize(t)[i + 1] == tokenize(u)[i]);
                }
            }
        }
    }
}

/// Trimming a text with maximal literal runs leaves its trailing literal
/// (if any) without trailing whitespace.
pub proof fn lemma_trim_segments_trimmed(segs: Seq<lir::TextSegmentView>)
    requires
        forall|i: int|
            0 <= i < segs.len() - 1 ==> !((#[trigger] segs[i])
                matches lir::TextSegmentView::Text(_) && segs[i + 1]
                matches lir::TextSegmentView::Text(_)),
    ensures
        trimmed_text(trim_segments(segs)),
{
    if segs.len() == 0 {
    } else {
        match segs.last() {
            lir::TextSegmentView::Text(t) => {
                let w = trailing_hws(t);
                lemma_trailing_hws(t);
                if w == 0 {
                } else if w == t.len() {
                    let r = segs.drop_last();
                    if r.len() > 0 {
                        assert(segs[segs.len() - 2] == r.last());
                        assert(!(segs[segs.len() - 2] matches lir::TextSegmentView::Text(_)));
                    }
                } else {
                    let t2 = t.take(t.len() - w);
                    assert(!is_hws(t2[t2.len() - 1]));
                    lemma_trailing_hws_is(t2, 0);
                }
            },
            _ => {},
        }
    }
}

/// Trailing horizontal whitespace never survives into a line's text: the
/// trailing literal of any classified line's text segments is trimmed.
/// (Blank lines and comments carry no text segments at all.)
pub proof fn lemma_classify_line_trimmed(line: Seq<char>)
    ensures
        match classify_line(line) {
            lir::StatementView::Header(_, segs) => trimmed_text(segs),
            lir::StatementView::Paragraph(segs) => trimmed_text(segs),
            lir::StatementView::ListItem(_, segs) => trimmed_text(segs),
            _ => true,
        },
{
    if !blank(line) && !is_comment_line(line) {
        if is_header_line(line) {
            let raw = line.skip(leading_hashes(line));
            lemma_tokenize_no_adjacent_literals(raw.skip(leading_hws(raw)));
            lemma_trim_segments_trimmed(tokenize(raw.skip(leading_hws(raw))));
        } else if is_list_item_line(line) {
            let raw = line.skip(leading_hws(line) + 1);
            lemma_tokenize_no_adjacent_literals(raw.skip(leading_hws(raw)));
            lemma_trim_segments_trimmed(tokenize(raw.skip(leading_hws(raw))));
        } else {
            lemma_tokenize_no_adjacent_literals(line.skip(leading_hws(line)));
            lemma_trim_segments_trimmed(tokenize(line.skip(leading_hws(line))));
        }
    }
}

// ---------------------------------------------------------------------------
// Line classification
// ---------------------------------------------------------------------------

/// Comment line shape: `//` after optional leading whitespace.
pub open spec fn is_comment_line(line: Seq<char>) -> bool {
    let i = leading_hws(line);
    i + 1 < line.len() && line[i] == '/' && line[i + 1] == '/'
}

/// Header line shape: one to six number signs followed by horizontal
/// whitespace.  Longer runs, or a run without following whitespace, fall
/// through to the paragraph rule.
pub open spec fn is_header_line(line: Seq<char>) -> bool {
    let k = leading_hashes(line);
    1 <= k <= 6 && k < line.len() && is_hws(line[k])
}

/// The header level of a header-shaped line.
pub open spec fn header_type_of(line: Seq<char>) -> HeaderType {
    let k = leading_hashes(line);
    if k == 1 {
        HeaderType::H1
    } else if k == 2 {
        HeaderType::H2
    } else if k == 3 {
        HeaderType::H3
    } else if k == 4 {
        HeaderType::H4
    } else if k == 5 {
        HeaderType::H5
    } else {
        HeaderType::H6
    }
}

/// List-item line shape: a dash right after the leading whitespace,
/// followed by whitespace or the end of the line.
pub open spec fn is_list_item_line(line: Seq<char>) -> bool {
    let i = leading_hws(line);
    i < line.len() && line[i] == '-' && (i + 1 == line.len() || is_hws(line[i + 1]))
}

/// Classification of one line: the first matching rule of blank line,
/// comment, header, list item and paragraph decides.
pub open spec fn classify_line(line: Seq<char>) -> lir::StatementView {
    if blank(line) {
        lir::StatementView::EmptyLine
    } else if is_comment_line(line) {
        lir::StatementView::Comment(line.skip(leading_hws(line) + 2))
    } else if is_header_line(line) {
        lir::StatementView::Header(header_type_of(line), text_of(line.skip(leading_hashes(line))))
    } else if is_list_item_line(line) {
        lir::StatementView::ListItem(
            leading_hws(line) as nat,
            text_of(line.skip(leading_hws(line) + 1)),
        )
    } else {
        lir::StatementView::Paragraph(text_of(line))
    }
}

/// The whole line-level parse: classify every line, in order.
pub open spec fn spec_parse(s: Seq<char>) -> Seq<lir::StatementView> {
    split_lines(s).map_values(|l: Seq<char>| classify_line(l))
}

// ---------------------------------------------------------------------------
// Executable front end
// ---------------------------------------------------------------------------

/// `segments_view` distributes over concatenation.
proof fn lemma_segments_view_concat(a: Seq<lir::TextSegment>, b: Seq<lir::TextSegment>)
    ensures
        lir::segments_view(a + b) == lir::segments_view(a) + lir::segments_view(b),
{
    assert(lir::segments_view(a + b) =~= lir::segments_view(a) + lir::segments_view(b));
}

/// An emphasis delimiter starts at position `i` of `s`.
fn check_delim(s: &str, i: usize, n: usize) -> (r: bool)
    requires
        n == s@.len(),
        i < n,
    ensures
        r == delim_at(s@, i as int),
{
    if i + 1 < n {
        let a = s.get_char(i);
        let b = s.get_char(i + 1);
        a == b && (a == '*' || a == '_' || a == '~')
    } else {
        false
    }
}

/// Position of the first emphasis delimiter at or after `from` (or the
/// end).
fn scan_delim(s: &str, from: usize) -> (d: usize)
    requires
        from <= s@.len(),
    ensures
        from <= d <= s@.len(),
        d - from == next_delim(s@.skip(from as int)),
        d < s@.len() ==> delim_at(s@, d as int),
{
    let n = s.unicode_len();
    let mut i = from;
    while i < n && !check_delim(s, i, n)
        invariant
            from <= i <= n,
            n == s@.len(),
            forall|k: int| from <= k < i ==> !delim_at(s@, k),
        decreases n - i,
    {
        i += 1;
    }
    proof {
        let t = s@.skip(from as int);
        assert forall|k: int| 0 <= k < i - from implies !delim_at(t, k) by {
            assert(!delim_at(s@, from + k));
            assert(delim_at(t, k) ==> delim_at(s@, from + k));
        }
        if i < n {
            assert(delim_at(s@, i as int));
            assert(delim_at(t, i - from));
        }
        lemma_next_delim_is(t, i - from);
    }
    i
}

/// Tokenize the free text of `s` from character position `from` to the
/// end of `s`.
fn tokenize_from(s: &str, from: usize) -> (r: Vec<lir::TextSegment>)
    requires
        from <= s@.len(),
    ensures
        lir::segments_view(r@) == tokenize(s@.skip(from as int)),
    decreases s@.len() - from,
{
    let n = s.unicode_len();
    let ghost t = s@.skip(from as int);
    if from == n {
        let r = Vec::<lir::TextSegment>::new();
        proof {
            assert(lir::segments_view(r@) =~= tokenize(t));
        }
        return r;
    }
    proof {
        lemma_next_delim(t);
    }
    let d = scan_delim(s, from);
    if d == from {
        let c = s.get_char(from);
        let e = if c == '*' {
            Emphasis::Bold
        } else if c == '_' {
            Emphasis::Italic
        } else {
            Emphasis::Strikethrough
        };
        proof {
            assert(delim_at(s@, from as int));
            assert(t[0] == s@[from as int]);
            assert(e == delim_emphasis(t[0]));
        }
        let mut r = Vec::new();
        r.push(lir::TextSegment::Emphasis(e));
        let ghost head = r@;
        let mut rest = tokenize_from(s, from + 2);
        let ghost rest_view = rest@;
        r.append(&mut rest);
        proof {
            lemma_skip_skip(s@, from as int, 2);
            lemma_segments_view_concat(head, rest_view);
            assert(lir::segments_view(head) =~= seq![
                lir::TextSegmentView::Emphasis(delim_emphasis(t[0])),
            ]);
        }
        r
    } else if d == n {
        let lit = s.substring_char(from, n);
        let mut r = Vec::new();
        r.push(lir::TextSegment::Text(String::from_str(lit)));
        proof {
            assert(lit@ == s@.subrange(from as int, n as int));
            assert(s@.subrange(from as int, n as int) =~= t);
            assert(lir::segments_view(r@) =~= seq![lir::TextSegmentView::Text(t)]);
            assert(next_delim(t) == t.len());
        }
        r
    } else {
        let lit = s.substring_char(from, d);
        let mut r = Vec::new();
        r.push(lir::TextSegment::Text(String::from_str(lit)));
        let ghost head = r@;
        let mut rest = tokenize_from(s, d);
        let ghost rest_view = rest@;
        r.append(&mut rest);
        proof {
            let dd = d - from;
            lemma_skip_take(s@, from as int, d as int);
            lemma_skip_skip(s@, from as int, dd);
            assert(lit@ == t.take(dd));
            lemma_segments_view_concat(head, rest_view);
            assert(lir::segments_view(head) =~= seq![lir::TextSegmentView::Text(t.take(dd))]);
            assert(tokenize(t) == seq![lir::TextSegmentView::Text(t.take(dd))] + tokenize(
                t.skip(dd),
            ));
        }
        r
    }
}

/// Trim trailing horizontal whitespace from a trailing literal segment,
/// dropping the segment when nothing else remains of it.
fn trim_text_segments(v: Vec<lir::TextSegment>) -> (r: Vec<lir::TextSegment>)
    ensures
        lir::segments_view(r@) == trim_segments(lir::segments_view(v@)),
{
    let ghost segs = lir::segments_view(v@);
    let l = v.len();
    if l == 0 {
        return v;
    }
    proof {
        assert(segs.last() == v@[l - 1]@);
    }
    let action: (bool, Option<String>) = match &v[l - 1] {
        lir::TextSegment::Text(text) => {
            let tn = text.as_str().unicode_len();
            let mut j = tn;
            while j > 0 && is_hws_char(text.as_str().get_char(j - 1))
                invariant
                    0 <= j <= tn,
                    tn == text@.len(),
                    forall|k: int| j <= k < tn ==> is_hws(text@[k]),
                decreases j,
            {
                j -= 1;
            }
            proof {
                lemma_trailing_hws_is(text@, tn - j);
            }
            if j == tn {
                (false, None)
            } else if j == 0 {
                (true, None)
            } else {
                let cut = text.as_str().substring_char(0, j);
                proof {
                    assert(cut@ == text@.take(text@.len() - trailing_hws(text@)));
                }
                (true, Some(String::from_str(cut)))
            }
        },
        _ => (false, None),
    };
    let mut v = v;
    match action {
        (false, _) => v,
        (true, None) => {
            v.pop();
            proof {
                assert(lir::segments_view(v@) =~= segs.drop_last());
            }
            v
        },
        (true, Some(replacement)) => {
            let ghost t = segs.last()->Text_0;
            proof {
                assert(replacement@ == t.take(t.len() - trailing_hws(t)));
            }
            v.pop();
            v.push(lir::TextSegment::Text(replacement));
            proof {
                assert(lir::segments_view(v@) =~= segs.drop_last().push(
                    lir::TextSegmentView::Text(t.take(t.len() - trailing_hws(t))),
                ));
            }
            v
        },
    }
}

/// Parse the free-text portion of `line` that starts at character
/// position `from`.
fn parse_text(line: &str, from: usize) -> (t: lir::Text)
    requires
        from <= line@.len(),
    ensures
        t@ == text_of(line@.skip(from as int)),
{
    let start = scan_hws(line, from);
    let toks = tokenize_from(line, start);
    let segments = trim_text_segments(toks);
    proof {
        let raw = line@.skip(from as int);
        lemma_skip_skip(line@, from as int, start - from);
        assert(raw.skip(leading_hws(raw)) == line@.skip(start as int));
    }
    lir::Text { segments }
}

/// Classify one line of source text.
fn parse_statement(line: &str) -> (r: lir::Statement)
    ensures
        r@ == classify_line(line@),
{
    let n = line.unicode_len();
    let ws = scan_hws(line, 0);
    proof {
        lemma_skip_zero(line@);
        lemma_leading_hws(line@);
    }
    if ws == n {
        return lir::Statement::EmptyLine(lir::EmptyLineStatement);
    }
    proof {
        assert(!is_hws(line@[ws as int]));
        assert(!blank(line@));
    }
    if ws + 1 < n && line.get_char(ws) == '/' && line.get_char(ws + 1) == '/' {
        let text = line.substring_char(ws + 2, n);
        proof {
            assert(text@ =~= line@.skip(ws + 2));
        }
        return lir::Statement::Comment(lir::CommentStatement {
            text: String::from_str(text),
        });
    }
    proof {
        assert(!is_comment_line(line@));
    }
    let k = scan_hashes(line);
    if 1 <= k && k <= 6 && k < n && is_hws_char(line.get_char(k)) {
        let header_type = if k == 1 {
            HeaderType::H1
        } else if k == 2 {
            HeaderType::H2
        } else if k == 3 {
            HeaderType::H3
        } else if k == 4 {
            HeaderType::H4
        } else if k == 5 {
            HeaderType::H5
        } else {
            HeaderType::H6
        };
        return lir::Statement::Header(lir::HeaderStatement {
            header_type,
            text: parse_text(line, k),
        });
    }
    proof {
        assert(!is_header_line(line@));
    }
    if line.get_char(ws) == '-' && (ws + 1 == n || is_hws_char(line.get_char(ws + 1))) {
        return lir::Statement::ListItem(lir::ListItemStatement {
            indentation: ws,
            text: parse_text(line, ws + 1),
        });
    }
    proof {
        assert(!is_list_item_line(line@));
    }
    lir::Statement::Paragraph(lir::ParagraphStatement { text: parse_text(line, 0) })
}

/// Parse the statements of the tail of `code` that begins at character
/// position `pos`.
fn parse_from(code: &str, pos: usize) -> (r: Vec<lir::Statement>)
    requires
        pos <= code@.len(),
    ensures
        lir::statements_view(r@) == spec_parse(code@.skip(pos as int)),
    decreases code@.len() - pos,
{
    let n = code.unicode_len();
    let ghost tail = code@.skip(pos as int);
    if pos == n {
        let r = Vec::new();
        proof {
            assert(lir::statements_view(r@) =~= spec_parse(tail));
        }
        return r;
    }
    let end = scan_line_end(code, pos);
    let line = code.substring_char(pos, end);
    proof {
        lemma_line_len(tail);
        lemma_skip_take(code@, pos as int, end as int);
        assert(line@ == tail.take(end - pos));
    }
    let stmt = parse_statement(line);
    let ghost stmt_view = stmt@;
    let mut r = Vec::new();
    r.push(stmt);
    if end == n {
        proof {
            assert(tail.take(end - pos) =~= tail);
            assert(lir::statements_view(r@) =~= spec_parse(tail));
        }
        r
    } else {
        let mut rest = parse_from(code, end + 1);
        let ghost rest_view = rest@;
        proof {
            lemma_skip_skip(code@, pos as int, end + 1 - pos);
        }
        r.append(&mut rest);
        proof {
            let lines = split_lines(tail);
            let rest_lines = split_lines(code@.skip(end + 1));
            assert(lines == seq![tail.take(end - pos)] + rest_lines);
            assert(rest_view.len() == lir::statements_view(rest_view).len());
            assert(rest_view.len() == rest_lines.len());
            assert(lines.len() == 1 + rest_lines.len());
            assert forall|i: int|
                0 <= i < r@.len() implies lir::statements_view(r@)[i] == spec_parse(tail)[i] by {
                if i == 0 {
                    assert(r@[0]@ == stmt_view);
                    assert(lines[0] == (seq![tail.take(end - pos)] + rest_lines)[0]);
                    assert(lines[0] == tail.take(end - pos));
                } else {
                    assert(r@[i] == rest_view[i - 1]);
                    assert(lir::statements_view(rest_view)[i - 1] == spec_parse(
                        code@.skip(end + 1),
                    )[i - 1]);
                    assert(lines[i] == (seq![tail.take(end - pos)] + rest_lines)[i]);
                    assert(lines[i] == rest_lines[i - 1]);
                }
            }
            assert(lir::statements_view(r@) =~= spec_parse(tail));
        }
        r
    }
}

/// Parse a whole source text into the line-level tree.  The line-shape
/// grammar classifies every line, so this always succeeds.
pub fn parse(code: &str) -> (r: Result<lir::Document>)
    ensures
        r matches Ok(d) && d@ == spec_parse(code@),
{
    let statements = parse_from(code, 0);
    proof {
        lemma_skip_zero(code@);
    }
    Ok(lir::Document { statements })
}

} // verus!
