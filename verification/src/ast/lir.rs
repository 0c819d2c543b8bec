//! The line-level tree: one statement per physical source line, with
//! emphasis delimiters still unpaired.

pub use super::common::Emphasis;
pub use super::common::HeaderType;

use vstd::prelude::*;

verus! {

#[derive(Debug, Clone, Eq, PartialEq)]
pub struct Document {
    pub statements: Vec<Statement>,
}

#[derive(Debug, Clone, Eq, PartialEq)]
pub enum Statement {
    EmptyLine(EmptyLineStatement),
    Comment(CommentStatement),
    Header(HeaderStatement),
    Paragraph(ParagraphStatement),
    ListItem(ListItemStatement),
}

#[derive(Debug, Clone, Eq, PartialEq)]
pub struct EmptyLineStatement;

#[derive(Debug, Clone, Eq, PartialEq)]
pub struct CommentStatement {
    pub text: String,
}

#[derive(Debug, Clone, Eq, PartialEq)]
pub struct HeaderStatement {
    pub header_type: HeaderType,
    pub text: Text,
}

#[derive(Debug, Clone, Eq, PartialEq)]
pub struct ParagraphStatement {
    pub text: Text,
}

#[derive(Debug, Clone, Eq, PartialEq)]
pub struct ListItemStatement {
    pub indentation: usize,
    pub text: Text,
}

#[derive(Debug, Clone, Eq, PartialEq)]
pub struct Text {
    pub segments: Vec<TextSegment>,
}

#[derive(Debug, Clone, Eq, PartialEq)]
pub enum TextSegment {
    Text(String),
    Break,
    Emphasis(Emphasis),
}

/// Model of one line-level text segment.
pub enum TextSegmentView {
    Text(Seq<char>),
    Break,
    Emphasis(Emphasis),
}

/// Model of one line-level statement.
pub enum StatementView {
    EmptyLine,
    Comment(Seq<char>),
    Header(HeaderType, Seq<TextSegmentView>),
    Paragraph(Seq<TextSegmentView>),
    ListItem(nat, Seq<TextSegmentView>),
}

impl View for TextSegment {
    type V = TextSegmentView;

    open spec fn view(&self) -> TextSegmentView {
        match self {
            TextSegment::Text(s) => TextSegmentView::Text(s@),
            TextSegment::Break => TextSegmentView::Break,
            TextSegment::Emphasis(e) => TextSegmentView::Emphasis(*e),
        }
    }
}

/// The models of a sequence of segments, element by element.
pub open spec fn segments_view(segments: Seq<TextSegment>) -> Seq<TextSegmentView> {
    Seq::new(segments.len(), |i: int| segments[i]@)
}

impl View for Text {
    type V = Seq<TextSegmentView>;

    open spec fn view(&self) -> Seq<TextSegmentView> {
        segments_view(self.segments@)
    }
}

impl View for Statement {
    type V = StatementView;

    open spec fn view(&self) -> StatementView {
        match self {
            Statement::EmptyLine(_) => StatementView::EmptyLine,
            Statement::Comment(c) => StatementView::Comment(c.text@),
            Statement::Header(h) => StatementView::Header(h.header_type, h.text@),
            Statement::Paragraph(p) => StatementView::Paragraph(p.text@),
            Statement::ListItem(li) => StatementView::ListItem(li.indentation as nat, li.text@),
        }
    }
}

/// The models of a sequence of statements, element by element.
pub open spec fn statements_view(statements: Seq<Statement>) -> Seq<StatementView> {
    Seq::new(statements.len(), |i: int| statements[i]@)
}

impl View for Document {
    type V = Seq<StatementView>;

    open spec fn view(&self) -> Seq<StatementView> {
        statements_view(self.statements@)
    }
}

} // verus!
