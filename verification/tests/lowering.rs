use writer4_compiler::ast::hir;
use writer4_compiler::ast::lir;
use writer4_compiler::parser::hir::parse_header_statement;
use writer4_compiler::parser::hir::parse_list;
use writer4_compiler::parser::hir::parse_paragraph_statement;
use writer4_compiler::parser::hir::parse_text_segments;
use writer4_compiler::Backend;
use writer4_compiler::HtmlBackend;

fn render(statements: Vec<hir::Statement>) -> String {
    HtmlBackend::compile_hir(&hir::Document { statements }).unwrap()
}

fn text(s: &str) -> lir::TextSegment {
    lir::TextSegment::Text(String::from(s))
}

#[test]
fn text_segments_resolve_nearest_match() {
    // Bold, "a", Bold, "b", Bold: the first marker pairs with the second,
    // the third degrades to its delimiter text.
    let segments = vec![
        lir::TextSegment::Emphasis(lir::Emphasis::Bold),
        text("a"),
        lir::TextSegment::Emphasis(lir::Emphasis::Bold),
        text("b"),
        lir::TextSegment::Emphasis(lir::Emphasis::Bold),
    ];
    let resolved = parse_text_segments(&segments).unwrap();
    let statement = hir::Statement::Paragraph(hir::ParagraphStatement {
        text: hir::Text { segments: resolved },
    });
    assert_eq!(
        render(vec![statement]),
        r###"<div class="writer4-doc"><p><b>a</b>b**</p></div>"###
    );
}

#[test]
fn header_statement_lowers_in_place() {
    let header = lir::HeaderStatement {
        header_type: lir::HeaderType::H2,
        text: lir::Text {
            segments: vec![
                lir::TextSegment::Emphasis(lir::Emphasis::Strikethrough),
                text("gone"),
                lir::TextSegment::Emphasis(lir::Emphasis::Strikethrough),
            ],
        },
    };
    let lowered = parse_header_statement(&header).unwrap();
    assert_eq!(
        render(vec![hir::Statement::Header(lowered)]),
        r###"<div class="writer4-doc"><h2><s>gone</s></h2></div>"###
    );
}

#[test]
fn paragraph_statements_merge_with_breaks() {
    let paragraphs = vec![
        lir::ParagraphStatement {
            text: lir::Text { segments: vec![text("one")] },
        },
        lir::ParagraphStatement {
            text: lir::Text { segments: vec![text("two")] },
        },
        lir::ParagraphStatement {
            text: lir::Text { segments: vec![text("three")] },
        },
    ];
    let lowered = parse_paragraph_statement(&paragraphs).unwrap();
    assert_eq!(
        render(vec![hir::Statement::Paragraph(lowered)]),
        r###"<div class="writer4-doc"><p>one<br>two<br>three</p></div>"###
    );
}

#[test]
fn list_run_nests_and_takes_continuations() {
    let run = vec![
        lir::Statement::ListItem(lir::ListItemStatement {
            indentation: 0,
            text: lir::Text { segments: vec![text("a")] },
        }),
        lir::Statement::Paragraph(lir::ParagraphStatement {
            text: lir::Text { segments: vec![text("cont")] },
        }),
        lir::Statement::ListItem(lir::ListItemStatement {
            indentation: 2,
            text: lir::Text { segments: vec![text("b")] },
        }),
        lir::Statement::ListItem(lir::ListItemStatement {
            indentation: 0,
            text: lir::Text { segments: vec![text("c")] },
        }),
    ];
    let list = parse_list(&run).unwrap();
    assert_eq!(
        render(vec![hir::Statement::List(hir::ListStatement { list })]),
        r###"<div class="writer4-doc"><ul><li>a<br>cont<ul><li>b</li></ul></li><li>c</li></ul></div>"###
    );
}
