//! The document-level tree: paragraph lines merged, list nesting and
//! emphasis pairing resolved.

pub use super::common::Emphasis;
pub use super::common::HeaderType;

use vstd::prelude::*;

verus! {

#[derive(Debug)]
pub struct Document {
    pub statements: Vec<Statement>,
}

#[derive(Debug)]
pub enum Statement {
    Header(HeaderStatement),
    Paragraph(ParagraphStatement),
    List(ListStatement),
    HorizontalRule(HorizontalRuleStatement),
}

#[derive(Debug)]
pub struct HeaderStatement {
    pub header_type: HeaderType,
    pub text: Text,
}

#[derive(Debug)]
pub struct ParagraphStatement {
    pub text: Text,
}

#[derive(Debug)]
pub struct ListStatement {
    pub list: List,
}

#[derive(Debug)]
pub struct HorizontalRuleStatement;

#[derive(Debug)]
pub struct List {
    pub items: Vec<ListItem>,
}

#[derive(Debug)]
pub struct ListItem {
    pub text: Text,
    pub child: Option<List>,
}

#[derive(Debug)]
pub struct Text {
    pub segments: Vec<TextSegment>,
}

#[derive(Debug)]
pub enum TextSegment {
    Text(String),
    Break,
    Emphasised { emphasis: Emphasis, inner: Vec<TextSegment> },
}

/// Model of one document-level text segment; emphasis spans nest.
pub enum TextSegmentView {
    Text(Seq<char>),
    Break,
    Emphasised(Emphasis, Seq<TextSegmentView>),
}

/// Model of one list item: its text and its optional child list.
pub struct ListItemView {
    pub text: Seq<TextSegmentView>,
    pub child: Option<Seq<ListItemView>>,
}

/// Model of one document-level statement.
pub enum StatementView {
    Header(HeaderType, Seq<TextSegmentView>),
    Paragraph(Seq<TextSegmentView>),
    List(Seq<ListItemView>),
    HorizontalRule,
}

/// Model of one segment.
pub open spec fn seg_view(seg: TextSegment) -> TextSegmentView
    decreases seg,
{
    match seg {
        TextSegment::Text(s) => TextSegmentView::Text(s@),
        TextSegment::Break => TextSegmentView::Break,
        TextSegment::Emphasised { emphasis, inner } => TextSegmentView::Emphasised(
            emphasis,
            segments_view(inner@),
        ),
    }
}

/// The models of a sequence of segments, element by element.
pub open spec fn segments_view(segments: Seq<TextSegment>) -> Seq<TextSegmentView>
    decreases segments,
{
    if segments.len() == 0 {
        Seq::empty()
    } else {
        seq![seg_view(segments[0])] + segments_view(segments.drop_first())
    }
}

/// `segments_view` is the element-by-element map of `seg_view`.
pub broadcast proof fn lemma_segments_view(segments: Seq<TextSegment>)
    ensures
        #[trigger] segments_view(segments).len() == segments.len(),
        forall|i: int|
            0 <= i < segments.len() ==> segments_view(segments)[i] == seg_view(segments[i]),
    decreases segments.len(),
{
    if segments.len() > 0 {
        lemma_segments_view(segments.drop_first());
    }
}

impl View for TextSegment {
    type V = TextSegmentView;

    open spec fn view(&self) -> TextSegmentView {
        seg_view(*self)
    }
}

impl View for Text {
    type V = Seq<TextSegmentView>;

    open spec fn view(&self) -> Seq<TextSegmentView> {
        segments_view(self.segments@)
    }
}

/// Model of one list item.
pub open spec fn item_view(item: ListItem) -> ListItemView
    decreases item,
{
    ListItemView {
        text: segments_view(item.text.segments@),
        child: match item.child {
            Some(l) => Some(items_view(l.items@)),
            None => None,
        },
    }
}

/// The models of a sequence of list items, element by element.
pub open spec fn items_view(items: Seq<ListItem>) -> Seq<ListItemView>
    decreases items,
{
    if items.len() == 0 {
        Seq::empty()
    } else {
        seq![item_view(items[0])] + items_view(items.drop_first())
    }
}

/// `items_view` is the element-by-element map of `item_view`.
pub broadcast proof fn lemma_items_view(items: Seq<ListItem>)
    ensures
        #[trigger] items_view(items).len() == items.len(),
        forall|i: int| 0 <= i < items.len() ==> items_view(items)[i] == item_view(items[i]),
    decreases items.len(),
{
    if items.len() > 0 {
        lemma_items_view(items.drop_first());
    }
}

impl View for ListItem {
    type V = ListItemView;

    open spec fn view(&self) -> ListItemView {
        item_view(*self)
    }
}

impl View for List {
    type V = Seq<ListItemView>;

    open spec fn view(&self) -> Seq<ListItemView> {
        items_view(self.items@)
    }
}

impl View for Statement {
    type V = StatementView;

    open spec fn view(&self) -> StatementView {
        match self {
            Statement::Header(h) => StatementView::Header(h.header_type, h.text@),
            Statement::Paragraph(p) => StatementView::Paragraph(p.text@),
            Statement::List(l) => StatementView::List(l.list@),
            Statement::HorizontalRule(_) => StatementView::HorizontalRule,
        }
    }
}

/// The models of a sequence of statements, element by element.
pub open spec fn statements_view(statements: Seq<Statement>) -> Seq<StatementView> {
    Seq::new(statements.len(), |i: int| statements[i]@)
}

impl View for Document {
    type V = Seq<StatementView>;

    open spec fn view(&self) -> Seq<StatementView> {
        statements_view(self.statements@)
    }
}

} // verus!
