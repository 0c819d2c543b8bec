use writer4_compiler::ast::hir;
use writer4_compiler::compile_html;
use writer4_compiler::compile_pdf;
use writer4_compiler::gen;
use writer4_compiler::parser;
use writer4_compiler::Error;

#[test]
fn emphasis_nearest_match() {
    // The first `**` pairs with the second; the third has no partner and
    // degrades to literal text.
    let output = compile_html("**a**b**").unwrap();
    assert_eq!(output, r###"<div class="writer4-doc"><p><b>a</b>b**</p></div>"###);
}

#[test]
fn emphasis_spans_lines() {
    let output = compile_html("Red **Green\nBlue** Yellow").unwrap();
    assert_eq!(
        output,
        r###"<div class="writer4-doc"><p>Red <b>Green<br>Blue</b> Yellow</p></div>"###
    );
}

#[test]
fn emphasis_same_kind_nesting() {
    let output = compile_html("__a**b**c__").unwrap();
    assert_eq!(
        output,
        r###"<div class="writer4-doc"><p><i>a<b>b</b>c</i></p></div>"###
    );
}

#[test]
fn list_nesting_threshold() {
    // Indentation steps of two or more nest.
    let output = compile_html("- a\n  - b\n    - c").unwrap();
    assert_eq!(
        output,
        r###"<div class="writer4-doc"><ul><li>a<ul><li>b<ul><li>c</li></ul></li></ul></li></ul></div>"###
    );

    // An indentation step below two keeps items siblings.
    let output = compile_html("- a\n - b").unwrap();
    assert_eq!(
        output,
        r###"<div class="writer4-doc"><ul><li>a</li><li>b</li></ul></div>"###
    );
}

#[test]
fn list_run_ends_at_blank_line() {
    let output = compile_html("- a\n\n- b").unwrap();
    assert_eq!(
        output,
        r###"<div class="writer4-doc"><ul><li>a</li></ul><ul><li>b</li></ul></div>"###
    );
}

#[test]
fn lazy_continuation() {
    let output = compile_html("- a\ncont\n- b").unwrap();
    assert_eq!(
        output,
        r###"<div class="writer4-doc"><ul><li>a<br>cont</li><li>b</li></ul></div>"###
    );
}

#[test]
fn escaping() {
    // Every `<`, `>` and `&` of literal text becomes an entity.
    let output = compile_html("a < b && b > c").unwrap();
    assert_eq!(
        output,
        r###"<div class="writer4-doc"><p>a &lt; b &amp;&amp; b &gt; c</p></div>"###
    );
}

#[test]
fn end_to_end_header_and_paragraph() {
    let output = compile_html("# Hello __World__\nFoo\nBar").unwrap();
    assert_eq!(
        output,
        r###"<div class="writer4-doc"><h1>Hello <i>World</i></h1><p>Foo<br>Bar</p></div>"###
    );
}

#[test]
fn end_to_end_nested_list() {
    let output = compile_html("- A\n  - B\n- C").unwrap();
    assert_eq!(
        output,
        r###"<div class="writer4-doc"><ul><li>A<ul><li>B</li></ul></li><li>C</li></ul></div>"###
    );
}

#[test]
fn comments_and_blank_lines_vanish() {
    let output = compile_html("// note\n\na\n// mid\nb").unwrap();
    assert_eq!(output, r###"<div class="writer4-doc"><p>a</p><p>b</p></div>"###);
}

#[test]
fn seven_hashes_is_a_paragraph() {
    let output = compile_html("####### x").unwrap();
    assert_eq!(output, r###"<div class="writer4-doc"><p>####### x</p></div>"###);
}

#[test]
fn empty_document() {
    let output = compile_html("").unwrap();
    assert_eq!(output, r###"<div class="writer4-doc"></div>"###);
}

#[test]
fn pdf_backend_is_unsupported() {
    match compile_pdf("# x") {
        Err(Error::Backend(_)) => (),
        _ => panic!(),
    }
}

#[test]
fn generate_renders_with_legacy_conventions() {
    let lir_doc = parser::lir::parse("# T\na\nb\n- x\n  - y").unwrap();
    let hir_doc = parser::hir::parse(&lir_doc).unwrap();
    let output = gen::generate(&hir_doc);
    assert_eq!(
        output,
        r###"<div class="writer-doc"><h1>T</h1><p>a<br />b</p><ul><li>x<ul><li>y</li></ul></li></ul></div>"###
    );
}

#[test]
fn generate_escapes_and_renders_rule() {
    let document = hir::Document {
        statements: vec![
            hir::Statement::Paragraph(hir::ParagraphStatement {
                text: hir::Text {
                    segments: vec![
                        hir::TextSegment::Text(String::from("a<b")),
                        hir::TextSegment::Break,
                        hir::TextSegment::Emphasised {
                            emphasis: hir::Emphasis::Bold,
                            inner: vec![hir::TextSegment::Text(String::from("c&d"))],
                        },
                    ],
                },
            }),
            hir::Statement::HorizontalRule(hir::HorizontalRuleStatement),
        ],
    };
    let output = gen::generate(&document);
    assert_eq!(
        output,
        r###"<div class="writer-doc"><p>a&lt;b<br /><b>c&amp;d</b></p><hr></div>"###
    );
}

#[test]
fn trailing_whitespace_trimmed() {
    let output = compile_html("x   \t").unwrap();
    assert_eq!(output, r###"<div class="writer4-doc"><p>x</p></div>"###);
}
