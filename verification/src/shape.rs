use vstd::prelude::*;
use crate::pmwiki::Node;

verus! {

/// An inline element: non-empty plain text, a link, an image, a forced line
/// break, verbatim text, or bold or italic text made of inline elements.
pub open spec fn inline_wf(n: Node) -> bool
    decreases n,
{
    match n {
        Node::Text(x) => x.len() > 0,
        Node::Link(_, _) => true,
        Node::Image(_, _) => true,
        Node::ForceLinebreak => true,
        Node::DontFormat(_) => true,
        Node::Bold(v) => forall|i: int| 0 <= i < v.len() ==> inline_wf(#[trigger] v[i]),
        Node::Italic(v) => forall|i: int| 0 <= i < v.len() ==> inline_wf(#[trigger] v[i]),
        _ => false,
    }
}

pub open spec fn all_inline(v: Seq<Node>) -> bool {
    forall|i: int| 0 <= i < v.len() ==> inline_wf(#[trigger] v[i])
}

/// A bullet or numbered list whose entries are items of inline elements or
/// lists of the same shape.
pub open spec fn list_wf(n: Node) -> bool
    decreases n,
{
    match n {
        Node::BulletList(v) => forall|i: int|
            0 <= i < v.len() ==> match #[trigger] v[i] {
                Node::ListItem(c) => all_inline(c),
                _ => list_wf(v[i]),
            },
        Node::NumberedList(v) => forall|i: int|
            0 <= i < v.len() ==> match #[trigger] v[i] {
                Node::ListItem(c) => all_inline(c),
                _ => list_wf(v[i]),
            },
        _ => false,
    }
}

/// A table row: at least one cell, header cells in a header row and plain cells
/// in a body row, each made of inline elements.
pub open spec fn row_wf(n: Node) -> bool {
    match n {
        Node::TableHeaderRow(v) => v.len() > 0 && forall|i: int|
            0 <= i < v.len() ==> (#[trigger] v[i] matches Node::TableHeaderCell(c) && all_inline(c)),
        Node::TableRow(v) => v.len() > 0 && forall|i: int|
            0 <= i < v.len() ==> (#[trigger] v[i] matches Node::TableCell(c) && all_inline(c)),
        _ => false,
    }
}

/// A document-level element: a paragraph of inline elements, a heading of level
/// one to six, a horizontal rule, verbatim text, a table of rows (at least one,
/// a header row only first), or a list.
pub open spec fn block_wf(n: Node) -> bool {
    match n {
        Node::Line(v) => all_inline(v),
        Node::Heading(l, v) => 1 <= l <= 6 && all_inline(v),
        Node::HorizontalLine => true,
        Node::DontFormat(_) => true,
        Node::Table(v) => v.len() > 0 && forall|i: int|
            0 <= i < v.len() ==> row_wf(#[trigger] v[i]) && (v[i] is TableHeaderRow ==> i == 0),
        Node::BulletList(_) => list_wf(n),
        Node::NumberedList(_) => list_wf(n),
        _ => false,
    }
}

} // verus!
