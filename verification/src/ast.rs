//! Abstract syntax trees for the compiler.
//!
//! The `common`, `lir` and `hir` submodules carry the current two-stage
//! pipeline's trees; the items directly in this module are the earlier
//! single-stage document tree, kept for the line-oriented front end in
//! [`crate::parser`].

pub mod common;
pub mod hir;
pub mod lir;

use vstd::prelude::*;

verus! {

/// A parsed document: one statement per source line, in source order.
#[derive(Debug, Clone, Eq, PartialEq)]
pub struct Document {
    pub statements: Vec<Statement>,
}

#[derive(Debug, Clone, Eq, PartialEq)]
pub enum Statement {
    EmptyLine(EmptyLineStatement),
    Header(HeaderStatement),
    Paragraph(ParagraphStatement),
}

#[derive(Debug, Clone, Eq, PartialEq)]
pub struct EmptyLineStatement;

#[derive(Debug, Clone, Eq, PartialEq)]
pub struct HeaderStatement {
    pub header_type: HeaderType,
    pub text: String,
}

#[derive(Debug, Copy, Clone, Eq, PartialEq, Structural)]
pub enum HeaderType {
    H1,
    H2,
    H3,
    H4,
    H5,
    H6,
}

/// The header level denoted by a run of `value` number signs, if `value`
/// is in the supported range `1..=6`.
pub open spec fn spec_header_type_from(value: u32) -> Option<HeaderType> {
    match value {
        1u32 => Some(HeaderType::H1),
        2u32 => Some(HeaderType::H2),
        3u32 => Some(HeaderType::H3),
        4u32 => Some(HeaderType::H4),
        5u32 => Some(HeaderType::H5),
        6u32 => Some(HeaderType::H6),
        _ => None,
    }
}

impl HeaderType {
    pub fn try_from(value: u32) -> (r: Result<HeaderType, &'static str>)
        ensures
            match r {
                Ok(ht) => spec_header_type_from(value) == Some(ht),
                Err(_) => spec_header_type_from(value) is None,
            },
    {
        match value {
            1 => Ok(HeaderType::H1),
            2 => Ok(HeaderType::H2),
            3 => Ok(HeaderType::H3),
            4 => Ok(HeaderType::H4),
            5 => Ok(HeaderType::H5),
            6 => Ok(HeaderType::H6),
            _ => Err("invalid header"),
        }
    }
}

#[derive(Debug, Clone, Eq, PartialEq)]
pub struct ParagraphStatement {
    pub text: String,
}

/// Model of a statement of the single-stage tree.
pub enum StatementView {
    EmptyLine,
    Header(HeaderType, Seq<char>),
    Paragraph(Seq<char>),
}

impl View for Statement {
    type V = StatementView;

    open spec fn view(&self) -> StatementView {
        match self {
            Statement::EmptyLine(_) => StatementView::EmptyLine,
            Statement::Header(h) => StatementView::Header(h.header_type, h.text@),
            Statement::Paragraph(p) => StatementView::Paragraph(p.text@),
        }
    }
}

/// The models of a sequence of statements, element by element.
pub open spec fn statements_view(statements: Seq<Statement>) -> Seq<StatementView> {
    Seq::new(statements.len(), |i: int| statements[i]@)
}

impl View for Document {
    type V = Seq<StatementView>;

    open spec fn view(&self) -> Seq<StatementView> {
        statements_view(self.statements@)
    }
}

} // verus!
