//! The HTML backend: renders the document tree to a single HTML string.

use crate::ast::hir;
use crate::ast::hir::Emphasis;
use crate::ast::hir::HeaderType;
use crate::backend::escape_text;
use crate::backend::lemma_render_items_snoc;
use crate::backend::lemma_render_segs_snoc;
use crate::backend::lemma_render_stmts_snoc;
use crate::backend::render_document;
use crate::backend::render_item;
use crate::backend::render_items;
use crate::backend::render_seg;
use crate::backend::render_segs;
use crate::backend::render_stmt;
use crate::backend::render_stmts;
use vstd::prelude::*;

verus! {

#[derive(Debug)]
pub struct HtmlBackend;

/// Render one text segment, appending to `output`.
fn generate_text(segment: &hir::TextSegment, output: &mut String)
    ensures
        final(output)@ == old(output)@ + render_seg(segment@, "<br>"@),
    decreases segment,
{
    match segment {
        hir::TextSegment::Text(text) => {
            let escaped = escape_text(text.as_str());
            output.append(escaped.as_str());
        },
        hir::TextSegment::Break => {
            output.append("<br>");
        },
        hir::TextSegment::Emphasised { emphasis, inner } => {
            match emphasis {
                Emphasis::Bold => output.append("<b>"),
                Emphasis::Italic => output.append("<i>"),
                Emphasis::Strikethrough => output.append("<s>"),
            }
            let ghost base = output@;
            let ghost inner_view = hir::segments_view(inner@);
            proof {
                hir::lemma_segments_view(inner@);
                assert(decreases_to!(*segment => segment->Emphasised_inner));
                assert(segment->Emphasised_inner == *inner);
            }
            let mut i: usize = 0;
            while i < inner.len()
                invariant
                    decreases_to!(*segment => *inner),
                    0 <= i <= inner@.len(),
                    inner_view == hir::segments_view(inner@),
                    inner_view.len() == inner@.len(),
                    forall|k: int| 0 <= k < inner@.len() ==> inner_view[k] == inner@[k]@,
                    output@ == base + render_segs(inner_view.take(i as int), "<br>"@),
                decreases inner@.len() - i,
            {
                proof {
                    assert(decreases_to!(*inner => inner@));
                    assert(decreases_to!(inner@ => inner@[i as int]));
                    assert(decreases_to!(*segment => inner@[i as int]));
                }
                generate_text(&inner[i], output);
                proof {
                    lemma_render_segs_snoc(
                        inner_view.take(i as int),
                        inner_view[i as int],
                        "<br>"@,
                    );
                    assert(inner_view.take(i + 1) =~= inner_view.take(i as int).push(
                        inner_view[i as int],
                    ));
                    assert(output@ == base + render_segs(inner_view.take(i + 1), "<br>"@));
                }
                i += 1;
            }
            match emphasis {
                Emphasis::Bold => output.append("</b>"),
                Emphasis::Italic => output.append("</i>"),
                Emphasis::Strikethrough => output.append("</s>"),
            }
            proof {
                assert(inner_view.take(inner_view.len() as int) =~= inner_view);
                assert(output@ =~= old(output)@ + render_seg(segment@, "<br>"@));
            }
        },
    }
}

/// Render a segment sequence, appending to `output`.
fn generate_segments(segments: &Vec<hir::TextSegment>, output: &mut String)
    ensures
        final(output)@ == old(output)@ + render_segs(hir::segments_view(segments@), "<br>"@),
{
    let ghost segs = hir::segments_view(segments@);
    proof {
        hir::lemma_segments_view(segments@);
    }
    let mut i: usize = 0;
    while i < segments.len()
        invariant
            0 <= i <= segments@.len(),
            segs == hir::segments_view(segments@),
            segs.len() == segments@.len(),
            forall|k: int| 0 <= k < segments@.len() ==> segs[k] == segments@[k]@,
            output@ == old(output)@ + render_segs(segs.take(i as int), "<br>"@),
        decreases segments@.len() - i,
    {
        generate_text(&segments[i], output);
        proof {
            lemma_render_segs_snoc(segs.take(i as int), segs[i as int], "<br>"@);
            assert(segs.take(i + 1) =~= segs.take(i as int).push(segs[i as int]));
        }
        i += 1;
    }
    proof {
        assert(segs.take(segs.len() as int) =~= segs);
    }
}

/// Render one list, appending to `output`.
pub fn generate_list(list: &hir::List, output: &mut String)
    ensures
        final(output)@ == old(output)@ + "<ul>"@ + render_items(list@, "<br>"@) + "</ul>"@,
    decreases list,
{
    output.append("<ul>");
    let ghost items = hir::items_view(list.items@);
    proof {
        hir::lemma_items_view(list.items@);
    }
    let mut i: usize = 0;
    while i < list.items.len()
        invariant
            0 <= i <= list.items@.len(),
            items == hir::items_view(list.items@),
            items.len() == list.items@.len(),
            forall|k: int| 0 <= k < list.items@.len() ==> items[k] == list.items@[k]@,
            output@ == old(output)@ + "<ul>"@ + render_items(items.take(i as int), "<br>"@),
        decreases list.items@.len() - i,
    {
        generate_list_item(&list.items[i], output);
        proof {
            lemma_render_items_snoc(items.take(i as int), items[i as int], "<br>"@);
            assert(items.take(i + 1) =~= items.take(i as int).push(items[i as int]));
        }
        i += 1;
    }
    output.append("</ul>");
    proof {
        assert(items.take(items.len() as int) =~= items);
        assert(output@ =~= old(output)@ + "<ul>"@ + render_items(list@, "<br>"@) + "</ul>"@);
    }
}

/// Render one list item, appending to `output`.
pub fn generate_list_item(list_item: &hir::ListItem, output: &mut String)
    ensures
        final(output)@ == old(output)@ + render_item(list_item@, "<br>"@),
    decreases list_item,
{
    output.append("<li>");
    generate_segments(&list_item.text.segments, output);
    match &list_item.child {
        Some(child) => {
            generate_list(child, output);
        },
        None => {},
    }
    output.append("</li>");
    proof {
        assert(output@ =~= old(output)@ + render_item(list_item@, "<br>"@));
    }
}

impl super::Backend for HtmlBackend {
    type Output = String;

    type Error = std::convert::Infallible;

    open spec fn compile_hir_post(
        d: Seq<hir::StatementView>,
        r: Result<String, std::convert::Infallible>,
    ) -> bool {
        r matches Ok(out) && out@ == render_document(
            d,
            "<div class=\"writer4-doc\">"@,
            "<br>"@,
        )
    }

    fn compile_hir(document: &hir::Document) -> Result<String, std::convert::Infallible> {
        let mut output = String::from_str("<div class=\"writer4-doc\">");
        let ghost stmts = hir::statements_view(document.statements@);
        let mut i: usize = 0;
        while i < document.statements.len()
            invariant
                0 <= i <= document.statements@.len(),
                stmts == hir::statements_view(document.statements@),
                stmts.len() == document.statements@.len(),
                forall|k: int|
                    0 <= k < document.statements@.len() ==> stmts[k] == document.statements@[k]@,
                output@ == "<div class=\"writer4-doc\">"@ + render_stmts(
                    stmts.take(i as int),
                    "<br>"@,
                ),
            decreases document.statements@.len() - i,
        {
            let ghost out_before = output@;
            match &document.statements[i] {
                hir::Statement::Header(h) => {
                    match h.header_type {
                        HeaderType::H1 => output.append("<h1>"),
                        HeaderType::H2 => output.append("<h2>"),
                        HeaderType::H3 => output.append("<h3>"),
                        HeaderType::H4 => output.append("<h4>"),
                        HeaderType::H5 => output.append("<h5>"),
                        HeaderType::H6 => output.append("<h6>"),
                    }
                    generate_segments(&h.text.segments, &mut output);
                    match h.header_type {
                        HeaderType::H1 => output.append("</h1>"),
                        HeaderType::H2 => output.append("</h2>"),
                        HeaderType::H3 => output.append("</h3>"),
                        HeaderType::H4 => output.append("</h4>"),
                        HeaderType::H5 => output.append("</h5>"),
                        HeaderType::H6 => output.append("</h6>"),
                    }
                    proof {
                        assert(output@ =~= out_before + render_stmt(stmts[i as int], "<br>"@));
                    }
                },
                hir::Statement::Paragraph(p) => {
                    output.append("<p>");
                    generate_segments(&p.text.segments, &mut output);
                    output.append("</p>");
                    proof {
                        assert(output@ =~= out_before + render_stmt(stmts[i as int], "<br>"@));
                    }
                },
                hir::Statement::List(l) => {
                    generate_list(&l.list, &mut output);
                    proof {
                        assert(output@ =~= out_before + render_stmt(stmts[i as int], "<br>"@));
                    }
                },
                hir::Statement::HorizontalRule(_) => {
                    output.append("<hr>");
                    proof {
                        assert(output@ =~= out_before + render_stmt(stmts[i as int], "<br>"@));
                    }
                },
            }
            proof {
                lemma_render_stmts_snoc(stmts.take(i as int), stmts[i as int], "<br>"@);
                assert(stmts.take(i + 1) =~= stmts.take(i as int).push(stmts[i as int]));
            }
            i += 1;
        }
        output.append("</div>");
        proof {
            assert(stmts.take(stmts.len() as int) =~= stmts);
            assert(output@ =~= render_document(
                document@,
                "<div class=\"writer4-doc\">"@,
                "<br>"@,
            ));
        }
        Ok(output)
    }
}

} // verus!
