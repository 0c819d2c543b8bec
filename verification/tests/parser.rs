use writer4_compiler::ast;
use writer4_compiler::parser;

#[test]
fn parser_empty_line() {
    let code = r###" "###;
    let document = parser::parse(code).unwrap();
    assert_eq!(document.statements.len(), 1);
    match &document.statements[0] {
        ast::Statement::EmptyLine(ast::EmptyLineStatement) => (),
        _ => panic!(),
    }
}

#[test]
fn parser_empty() {
    let code = r###""###;

    let _ = parser::parse(code).unwrap();
}

#[test]
fn simple() {
    let code = r###"# H1

lorem ipsum
alpha beta 123!

## h2
text
"###;

    let _ = parser::parse(code).unwrap();
}

#[test]
fn parser_classifies_lines() {
    let document = parser::parse("# Title\n\nbody text").unwrap();
    let expected = ast::Document {
        statements: vec![
            ast::Statement::Header(ast::HeaderStatement {
                header_type: ast::HeaderType::H1,
                text: String::from("Title"),
            }),
            ast::Statement::EmptyLine(ast::EmptyLineStatement),
            ast::Statement::Paragraph(ast::ParagraphStatement {
                text: String::from("body text"),
            }),
        ],
    };
    assert_eq!(document, expected);
}

#[test]
fn header_type_try_from() {
    assert_eq!(ast::HeaderType::try_from(1), Ok(ast::HeaderType::H1));
    assert_eq!(ast::HeaderType::try_from(3), Ok(ast::HeaderType::H3));
    assert_eq!(ast::HeaderType::try_from(6), Ok(ast::HeaderType::H6));
    assert!(ast::HeaderType::try_from(0).is_err());
    assert!(ast::HeaderType::try_from(7).is_err());
}
