//! Rendering backends: the specification of HTML-style rendering shared
//! by the backends, and the backend interface.

pub mod html;
pub mod pdf;

pub use self::html::HtmlBackend;
pub use self::pdf::PdfBackend;

use crate::ast::hir;
use crate::ast::hir::Emphasis;
use crate::ast::hir::HeaderType;
use crate::parser;
use vstd::prelude::*;

verus! {

// ---------------------------------------------------------------------------
// Escaping
// ---------------------------------------------------------------------------

/// HTML escaping of one text character.
pub open spec fn escape_char(c: char) -> Seq<char> {
    if c == '&' {
        "&amp;"@
    } else if c == '<' {
        "&lt;"@
    } else if c == '>' {
        "&gt;"@
    } else {
        seq![c]
    }
}

/// HTML escaping of literal text: `&`, `<` and `>` become entities, every
/// other character passes through.
pub open spec fn escape(s: Seq<char>) -> Seq<char>
    decreases s.len(),
{
    if s.len() == 0 {
        Seq::empty()
    } else {
        escape_char(s[0]) + escape(s.drop_first())
    }
}

/// Relies on html_escape::encode_text, which escapes exactly `&` to
/// `&amp;`, `<` to `&lt;` and `>` to `&gt;`, leaving every other
/// character unchanged.
#[verifier::external_body]
pub(crate) fn escape_text(s: &str) -> (r: String)
    ensures
        r@ == escape(s@),
{
    html_escape::encode_text(s).into_owned()
}

/// Round-trip escaping: escaped literal text never contains a raw `<` or
/// `>` character, however the input mixed them with other text.
pub proof fn lemma_escape_no_raw_markup(s: Seq<char>)
    ensures
        forall|i: int| 0 <= i < escape(s).len() ==> escape(s)[i] != '<' && escape(s)[i] != '>',
    decreases s.len(),
{
    reveal_strlit("&amp;");
    reveal_strlit("&lt;");
    reveal_strlit("&gt;");
    if s.len() > 0 {
        lemma_escape_no_raw_markup(s.drop_first());
        assert forall|i: int|
            0 <= i < escape(s).len() implies escape(s)[i] != '<' && escape(s)[i] != '>' by {
            let head = escape_char(s[0]);
            if i < head.len() {
                assert(escape(s)[i] == head[i]);
            } else {
                assert(escape(s)[i] == escape(s.drop_first())[i - head.len()]);
            }
        }
    }
}

// ---------------------------------------------------------------------------
// Rendering
// ---------------------------------------------------------------------------

/// Opening tag of an emphasis span.
pub open spec fn emphasis_open(e: Emphasis) -> Seq<char> {
    match e {
        Emphasis::Bold => "<b>"@,
        Emphasis::Italic => "<i>"@,
        Emphasis::Strikethrough => "<s>"@,
    }
}

/// Closing tag of an emphasis span.
pub open spec fn emphasis_close(e: Emphasis) -> Seq<char> {
    match e {
        Emphasis::Bold => "</b>"@,
        Emphasis::Italic => "</i>"@,
        Emphasis::Strikethrough => "</s>"@,
    }
}

/// Opening tag of a header.
pub open spec fn header_open(ht: HeaderType) -> Seq<char> {
    match ht {
        HeaderType::H1 => "<h1>"@,
        HeaderType::H2 => "<h2>"@,
        HeaderType::H3 => "<h3>"@,
        HeaderType::H4 => "<h4>"@,
        HeaderType::H5 => "<h5>"@,
        HeaderType::H6 => "<h6>"@,
    }
}

/// Closing tag of a header.
pub open spec fn header_close(ht: HeaderType) -> Seq<char> {
    match ht {
        HeaderType::H1 => "</h1>"@,
        HeaderType::H2 => "</h2>"@,
        HeaderType::H3 => "</h3>"@,
        HeaderType::H4 => "</h4>"@,
        HeaderType::H5 => "</h5>"@,
        HeaderType::H6 => "</h6>"@,
    }
}

/// Rendering of one text segment; `br` is the backend's line-break
/// element.
pub open spec fn render_seg(seg: hir::TextSegmentView, br: Seq<char>) -> Seq<char>
    decreases seg,
{
    match seg {
        hir::TextSegmentView::Text(t) => escape(t),
        hir::TextSegmentView::Break => br,
        hir::TextSegmentView::Emphasised(e, inner) => emphasis_open(e) + render_segs(inner, br)
            + emphasis_close(e),
    }
}

/// Rendering of a segment sequence, in order.
pub open spec fn render_segs(segs: Seq<hir::TextSegmentView>, br: Seq<char>) -> Seq<char>
    decreases segs,
{
    if segs.len() == 0 {
        Seq::empty()
    } else {
        render_seg(segs[0], br) + render_segs(segs.drop_first(), br)
    }
}

/// Rendering of one list item: its text, then its child list (if any),
/// inside an item element.
pub open spec fn render_item(item: hir::ListItemView, br: Seq<char>) -> Seq<char>
    decreases item,
{
    "<li>"@ + render_segs(item.text, br) + (match item.child {
        Some(child) => "<ul>"@ + render_items(child, br) + "</ul>"@,
        None => Seq::<char>::empty(),
    }) + "</li>"@
}

/// Rendering of a list-item sequence, in order.
pub open spec fn render_items(items: Seq<hir::ListItemView>, br: Seq<char>) -> Seq<char>
    decreases items,
{
    if items.len() == 0 {
        Seq::empty()
    } else {
        render_item(items[0], br) + render_items(items.drop_first(), br)
    }
}

/// Rendering of one document-level statement.
pub open spec fn render_stmt(s: hir::StatementView, br: Seq<char>) -> Seq<char> {
    match s {
        hir::StatementView::Header(ht, text) => header_open(ht) + render_segs(text, br)
            + header_close(ht),
        hir::StatementView::Paragraph(text) => "<p>"@ + render_segs(text, br) + "</p>"@,
        hir::StatementView::List(items) => "<ul>"@ + render_items(items, br) + "</ul>"@,
        hir::StatementView::HorizontalRule => "<hr>"@,
    }
}

/// Rendering of a statement sequence, in order.
pub open spec fn render_stmts(stmts: Seq<hir::StatementView>, br: Seq<char>) -> Seq<char>
    decreases stmts,
{
    if stmts.len() == 0 {
        Seq::empty()
    } else {
        render_stmt(stmts[0], br) + render_stmts(stmts.drop_first(), br)
    }
}

/// Rendering of a whole document: the statements inside a root element
/// opened by `root_open`.
pub open spec fn render_document(
    stmts: Seq<hir::StatementView>,
    root_open: Seq<char>,
    br: Seq<char>,
) -> Seq<char> {
    root_open + render_stmts(stmts, br) + "</div>"@
}

// ---------------------------------------------------------------------------
// Appending one piece at a time
// ---------------------------------------------------------------------------

pub proof fn lemma_render_segs_snoc(s: Seq<hir::TextSegmentView>, x: hir::TextSegmentView, br: Seq<char>)
    ensures
        render_segs(s.push(x), br) == render_segs(s, br) + render_seg(x, br),
    decreases s.len(),
{
    if s.len() == 0 {
        assert(s.push(x)[0] == x);
        assert(s.push(x).drop_first() =~= Seq::<hir::TextSegmentView>::empty());
        assert(render_segs(s.push(x), br) == render_seg(x, br) + render_segs(
            Seq::<hir::TextSegmentView>::empty(),
            br,
        ));
        assert(render_segs(s.push(x), br) =~= render_segs(s, br) + render_seg(x, br));
    } else {
        lemma_render_segs_snoc(s.drop_first(), x, br);
        assert(s.push(x).drop_first() =~= s.drop_first().push(x));
        assert(s.push(x)[0] == s[0]);
        assert(render_segs(s.push(x), br) == render_seg(s[0], br) + (render_segs(
            s.drop_first(),
            br,
        ) + render_seg(x, br)));
        assert(render_segs(s.push(x), br) =~= render_segs(s, br) + render_seg(x, br));
    }
}

pub proof fn lemma_render_items_snoc(s: Seq<hir::ListItemView>, x: hir::ListItemView, br: Seq<char>)
    ensures
        render_items(s.push(x), br) == render_items(s, br) + render_item(x, br),
    decreases s.len(),
{
    if s.len() == 0 {
        assert(s.push(x)[0] == x);
        assert(s.push(x).drop_first() =~= Seq::<hir::ListItemView>::empty());
        assert(render_items(s.push(x), br) == render_item(x, br) + render_items(
            Seq::<hir::ListItemView>::empty(),
            br,
        ));
        assert(render_items(s.push(x), br) =~= render_items(s, br) + render_item(x, br));
    } else {
        lemma_render_items_snoc(s.drop_first(), x, br);
        assert(s.push(x).drop_first() =~= s.drop_first().push(x));
        assert(s.push(x)[0] == s[0]);
        assert(render_items(s.push(x), br) == render_item(s[0], br) + (render_items(
            s.drop_first(),
            br,
        ) + render_item(x, br)));
        assert(render_items(s.push(x), br) =~= render_items(s, br) + render_item(x, br));
    }
}

pub proof fn lemma_render_stmts_snoc(s: Seq<hir::StatementView>, x: hir::StatementView, br: Seq<char>)
    ensures
        render_stmts(s.push(x), br) == render_stmts(s, br) + render_stmt(x, br),
    decreases s.len(),
{
    if s.len() == 0 {
        assert(s.push(x)[0] == x);
        assert(s.push(x).drop_first() =~= Seq::<hir::StatementView>::empty());
        assert(render_stmts(s.push(x), br) == render_stmt(x, br) + render_stmts(
            Seq::<hir::StatementView>::empty(),
            br,
        ));
        assert(render_stmts(s.push(x), br) =~= render_stmts(s, br) + render_stmt(x, br));
    } else {
        lemma_render_stmts_snoc(s.drop_first(), x, br);
        assert(s.push(x).drop_first() =~= s.drop_first().push(x));
        assert(s.push(x)[0] == s[0]);
        assert(render_stmts(s.push(x), br) == render_stmt(s[0], br) + (render_stmts(
            s.drop_first(),
            br,
        ) + render_stmt(x, br)));
        assert(render_stmts(s.push(x), br) =~= render_stmts(s, br) + render_stmt(x, br));
    }
}

// ---------------------------------------------------------------------------
// The backend interface
// ---------------------------------------------------------------------------

/// A rendering backend: a tree walk over the document tree.
pub trait Backend: Sized {
    type Output;

    type Error;

    /// What this backend's `compile_hir` promises of its result for the
    /// lowered document `d`.
    spec fn compile_hir_post(d: Seq<hir::StatementView>, r: Result<Self::Output, Self::Error>) -> bool;

    fn compile_hir(document: &hir::Document) -> (r: Result<Self::Output, Self::Error>)
        ensures
            Self::compile_hir_post(document@, r),
    ;

    /// Run the whole pipeline on a source text: parse it, lower it, and
    /// render the document tree with this backend.
    fn compile(source_code: &str) -> (r: crate::error::Result<Self::Output, Self>)
        ensures
            ({
                let d = parser::hir::lower(parser::lir::spec_parse(source_code@));
                &&& (r matches Ok(out) ==> Self::compile_hir_post(d, Ok(out)))
                &&& (r matches Err(e) ==> e matches crate::error::Error::Backend(be)
                    && Self::compile_hir_post(d, Err(be)))
            }),
    {
        let doc_lir = match parser::lir::parse(source_code) {
            Ok(d) => d,
            Err(e) => {
                proof {
                    assert(false);
                }
                return Err(crate::error::Error::LirParser(e));
            },
        };
        let doc_hir = match parser::hir::parse(&doc_lir) {
            Ok(d) => d,
            Err(e) => {
                proof {
                    assert(false);
                }
                return Err(crate::error::Error::HirParser(e));
            },
        };
        match Self::compile_hir(&doc_hir) {
            Ok(output) => Ok(output),
            Err(e) => Err(crate::error::Error::Backend(e)),
        }
    }
}

} // verus!
