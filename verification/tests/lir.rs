use writer4_compiler::ast::lir;
use writer4_compiler::parser::lir::parse;

fn single_statement(code: &str) -> lir::Statement {
    let document = parse(code).unwrap();
    assert_eq!(document.statements.len(), 1);
    document.statements.into_iter().next().unwrap()
}

#[test]
fn lir_empty_line() {
    let document = parse(r###""###).unwrap();
    assert_eq!(document, lir::Document { statements: vec![] });

    let expected = lir::Statement::EmptyLine(lir::EmptyLineStatement);
    assert_eq!(single_statement(r###"     "###), expected);

    let expected = lir::Statement::EmptyLine(lir::EmptyLineStatement);
    assert_eq!(single_statement("\t"), expected);

    let expected = lir::Statement::EmptyLine(lir::EmptyLineStatement);
    assert_eq!(single_statement(" \t\t "), expected);
}

#[test]
fn comment() {
    let expected = lir::Statement::Comment(lir::CommentStatement {
        text: String::from(""),
    });
    assert_eq!(single_statement(r###"//"###), expected);

    let expected = lir::Statement::Comment(lir::CommentStatement {
        text: String::from(" Hello World"),
    });
    assert_eq!(single_statement(r###"// Hello World"###), expected);

    let expected = lir::Statement::Comment(lir::CommentStatement {
        text: String::from("xxx"),
    });
    assert_eq!(single_statement(r###"  //xxx"###), expected);
}

#[test]
fn header() {
    let expected = lir::Statement::Header(lir::HeaderStatement {
        header_type: lir::HeaderType::H1,
        text: lir::Text {
            segments: vec![lir::TextSegment::Text(String::from("Hello World"))],
        },
    });
    assert_eq!(single_statement(r###"# Hello World"###), expected);

    let expected = lir::Statement::Header(lir::HeaderStatement {
        header_type: lir::HeaderType::H2,
        text: lir::Text {
            segments: vec![lir::TextSegment::Text(String::from("Subtitle"))],
        },
    });
    assert_eq!(single_statement(r###"##   Subtitle"###), expected);

    let expected = lir::Statement::Header(lir::HeaderStatement {
        header_type: lir::HeaderType::H6,
        text: lir::Text {
            segments: vec![
                lir::TextSegment::Emphasis(lir::Emphasis::Italic),
                lir::TextSegment::Text(String::from("%&%}[{")),
                lir::TextSegment::Emphasis(lir::Emphasis::Strikethrough),
                lir::TextSegment::Emphasis(lir::Emphasis::Italic),
            ],
        },
    });
    assert_eq!(single_statement(r###"######   __%&%}[{~~__"###), expected);

    let expected = lir::Statement::Header(lir::HeaderStatement {
        header_type: lir::HeaderType::H3,
        text: lir::Text {
            segments: vec![
                lir::TextSegment::Emphasis(lir::Emphasis::Strikethrough),
                lir::TextSegment::Text(String::from("Strikethrough")),
                lir::TextSegment::Emphasis(lir::Emphasis::Strikethrough),
            ],
        },
    });
    assert_eq!(single_statement(r###"###  ~~Strikethrough~~  "###), expected);
}

#[test]
fn paragraph() {
    let expected = lir::Statement::Paragraph(lir::ParagraphStatement {
        text: lir::Text {
            segments: vec![lir::TextSegment::Text(String::from("lorem ipsum"))],
        },
    });
    assert_eq!(single_statement(r###"lorem ipsum"###), expected);

    let expected = lir::Statement::Paragraph(lir::ParagraphStatement {
        text: lir::Text {
            segments: vec![lir::TextSegment::Text(String::from("trailing tabs"))],
        },
    });
    assert_eq!(single_statement("trailing tabs\t\t"), expected);

    let expected = lir::Statement::Paragraph(lir::ParagraphStatement {
        text: lir::Text {
            segments: vec![
                lir::TextSegment::Text(String::from("lorem ")),
                lir::TextSegment::Emphasis(lir::Emphasis::Italic),
                lir::TextSegment::Emphasis(lir::Emphasis::Bold),
                lir::TextSegment::Text(String::from("ipsum")),
                lir::TextSegment::Emphasis(lir::Emphasis::Bold),
                lir::TextSegment::Emphasis(lir::Emphasis::Italic),
                lir::TextSegment::Text(String::from("!")),
            ],
        },
    });
    assert_eq!(single_statement(r###"   lorem __**ipsum**__! "###), expected);

    let expected = lir::Statement::Paragraph(lir::ParagraphStatement {
        text: lir::Text {
            segments: vec![lir::TextSegment::Text(String::from("#not a header"))],
        },
    });
    assert_eq!(single_statement(r###"#not a header"###), expected);

    let expected = lir::Statement::Paragraph(lir::ParagraphStatement {
        text: lir::Text {
            segments: vec![lir::TextSegment::Text(String::from("-not a list"))],
        },
    });
    assert_eq!(single_statement(r###"-not a list"###), expected);
}

#[test]
fn list_item() {
    let expected = lir::Statement::ListItem(lir::ListItemStatement {
        indentation: 0,
        text: lir::Text {
            segments: vec![lir::TextSegment::Text(String::from("list item"))],
        },
    });
    assert_eq!(single_statement(r###"- list item"###), expected);

    let expected = lir::Statement::ListItem(lir::ListItemStatement {
        indentation: 2,
        text: lir::Text {
            segments: vec![lir::TextSegment::Text(String::from("list item"))],
        },
    });
    assert_eq!(single_statement(r###"  -     list item"###), expected);

    let expected = lir::Statement::ListItem(lir::ListItemStatement {
        indentation: 3,
        text: lir::Text {
            segments: vec![
                lir::TextSegment::Text(String::from("list ")),
                lir::TextSegment::Emphasis(lir::Emphasis::Bold),
                lir::TextSegment::Text(String::from("item")),
                lir::TextSegment::Emphasis(lir::Emphasis::Bold),
            ],
        },
    });
    assert_eq!(single_statement(r###"   - list **item**"###), expected);
}

#[test]
fn lir_header_type_try_from() {
    assert_eq!(lir::HeaderType::try_from(2), Ok(lir::HeaderType::H2));
    assert_eq!(lir::HeaderType::try_from(5), Ok(lir::HeaderType::H5));
    assert!(lir::HeaderType::try_from(0).is_err());
    assert!(lir::HeaderType::try_from(9).is_err());
}

#[test]
fn lir_empty() {
    let code = r###""###;
    let expected = lir::Document { statements: vec![] };
    assert_eq!(parse(code).unwrap(), expected);

    let code = r###" "###;
    let expected = lir::Document {
        statements: vec![lir::Statement::EmptyLine(lir::EmptyLineStatement)],
    };
    assert_eq!(parse(code).unwrap(), expected);
}

#[test]
fn combined() {
    let code = r###"
# ~~Hello Wor__ld

// a random comment: 2 + 2 = 4
-a,b,c,d,e
lorem ipsum
alpha beta 123!
- A
- ~~B~~
  - C
  - D
  **12345**67890
  //
- E

- F

## h2
..."###;
    let expected = lir::Document {
        statements: vec![
            lir::Statement::EmptyLine(lir::EmptyLineStatement),
            lir::Statement::Header(lir::HeaderStatement {
                header_type: lir::HeaderType::H1,
                text: lir::Text {
                    segments: vec![
                        lir::TextSegment::Emphasis(lir::Emphasis::Strikethrough),
                        lir::TextSegment::Text(String::from("Hello Wor")),
                        lir::TextSegment::Emphasis(lir::Emphasis::Italic),
                        lir::TextSegment::Text(String::from("ld")),
                    ],
                },
            }),
            lir::Statement::EmptyLine(lir::EmptyLineStatement),
            lir::Statement::Comment(lir::CommentStatement {
                text: String::from(" a random comment: 2 + 2 = 4"),
            }),
            lir::Statement::Paragraph(lir::ParagraphStatement {
                text: lir::Text {
                    segments: vec![lir::TextSegment::Text(String::from("-a,b,c,d,e"))],
                },
            }),
            lir::Statement::Paragraph(lir::ParagraphStatement {
                text: lir::Text {
                    segments: vec![lir::TextSegment::Text(String::from("lorem ipsum"))],
                },
            }),
            lir::Statement::Paragraph(lir::ParagraphStatement {
                text: lir::Text {
                    segments: vec![lir::TextSegment::Text(String::from("alpha beta 123!"))],
                },
            }),
            lir::Statement::ListItem(lir::ListItemStatement {
                indentation: 0,
                text: lir::Text {
                    segments: vec![lir::TextSegment::Text(String::from("A"))],
                },
            }),
            lir::Statement::ListItem(lir::ListItemStatement {
                indentation: 0,
                text: lir::Text {
                    segments: vec![
                        lir::TextSegment::Emphasis(lir::Emphasis::Strikethrough),
                        lir::TextSegment::Text(String::from("B")),
                        lir::TextSegment::Emphasis(lir::Emphasis::Strikethrough),
                    ],
                },
            }),
            lir::Statement::ListItem(lir::ListItemStatement {
                indentation: 2,
                text: lir::Text {
                    segments: vec![lir::TextSegment::Text(String::from("C"))],
                },
            }),
            lir::Statement::ListItem(lir::ListItemStatement {
                indentation: 2,
                text: lir::Text {
                    segments: vec![lir::TextSegment::Text(String::from("D"))],
                },
            }),
            lir::Statement::Paragraph(lir::ParagraphStatement {
                text: lir::Text {
                    segments: vec![
                        lir::TextSegment::Emphasis(lir::Emphasis::Bold),
                        lir::TextSegment::Text(String::from("12345")),
                        lir::TextSegment::Emphasis(lir::Emphasis::Bold),
                        lir::TextSegment::Text(String::from("67890")),
                    ],
                },
            }),
            lir::Statement::Comment(lir::CommentStatement {
                text: String::from(""),
            }),
            lir::Statement::ListItem(lir::ListItemStatement {
                indentation: 0,
                text: lir::Text {
                    segments: vec![lir::TextSegment::Text(String::from("E"))],
                },
            }),
            lir::Statement::EmptyLine(lir::EmptyLineStatement),
            lir::Statement::ListItem(lir::ListItemStatement {
                indentation: 0,
                text: lir::Text {
                    segments: vec![lir::TextSegment::Text(String::from("F"))],
                },
            }),
            lir::Statement::EmptyLine(lir::EmptyLineStatement),
            lir::Statement::Header(lir::HeaderStatement {
                header_type: lir::HeaderType::H2,
                text: lir::Text {
                    segments: vec![lir::TextSegment::Text(String::from("h2"))],
                },
            }),
            lir::Statement::Paragraph(lir::ParagraphStatement {
                text: lir::Text {
                    segments: vec![lir::TextSegment::Text(String::from("..."))],
                },
            }),
        ],
    };
    assert_eq!(parse(code).unwrap(), expected);
}
