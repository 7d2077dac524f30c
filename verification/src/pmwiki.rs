use vstd::prelude::*;

verus! {

/// A parsed element of PmWiki-like markup. Text pieces borrow from the input.
#[derive(Debug, PartialEq, Eq)]
pub enum IPmwiki<'a> {
    Text(&'a str),
    Line(Vec<IPmwiki<'a>>),
    Bold(Vec<IPmwiki<'a>>),
    Italic(Vec<IPmwiki<'a>>),
    BulletList(Vec<IPmwiki<'a>>),
    NumberedList(Vec<IPmwiki<'a>>),
    ListItem(Vec<IPmwiki<'a>>),
    Link(&'a str, &'a str),
    Heading(u8, Vec<IPmwiki<'a>>),
    Silentbreak,
    ForceLinebreak,
    HorizontalLine,
    Image(&'a str, &'a str),
    DontFormat(&'a str),
    Table(Vec<IPmwiki<'a>>),
    TableHeaderRow(Vec<IPmwiki<'a>>),
    TableHeaderCell(Vec<IPmwiki<'a>>),
    TableRow(Vec<IPmwiki<'a>>),
    TableCell(Vec<IPmwiki<'a>>),
}

/// The mathematical model of a parsed element: the same tree, with every
/// borrowed string replaced by its characters.
pub enum Node {
    Text(Seq<char>),
    Line(Seq<Node>),
    Bold(Seq<Node>),
    Italic(Seq<Node>),
    BulletList(Seq<Node>),
    NumberedList(Seq<Node>),
    ListItem(Seq<Node>),
    Link(Seq<char>, Seq<char>),
    Heading(u8, Seq<Node>),
    Silentbreak,
    ForceLinebreak,
    HorizontalLine,
    Image(Seq<char>, Seq<char>),
    DontFormat(Seq<char>),
    Table(Seq<Node>),
    TableHeaderRow(Seq<Node>),
    TableHeaderCell(Seq<Node>),
    TableRow(Seq<Node>),
    TableCell(Seq<Node>),
}

impl<'a> IPmwiki<'a> {
    /// The model of this element.
    pub open spec fn node(self) -> Node
        decreases self,
    {
        match self {
            IPmwiki::Text(t) => Node::Text(t@),
            IPmwiki::Line(v) => Node::Line(nodes(v@)),
            IPmwiki::Bold(v) => Node::Bold(nodes(v@)),
            IPmwiki::Italic(v) => Node::Italic(nodes(v@)),
            IPmwiki::BulletList(v) => Node::BulletList(nodes(v@)),
            IPmwiki::NumberedList(v) => Node::NumberedList(nodes(v@)),
            IPmwiki::ListItem(v) => Node::ListItem(nodes(v@)),
            IPmwiki::Link(a, b) => Node::Link(a@, b@),
            IPmwiki::Heading(l, v) => Node::Heading(l, nodes(v@)),
            IPmwiki::Silentbreak => Node::Silentbreak,
            IPmwiki::ForceLinebreak => Node::ForceLinebreak,
            IPmwiki::HorizontalLine => Node::HorizontalLine,
            IPmwiki::Image(a, b) => Node::Image(a@, b@),
            IPmwiki::DontFormat(t) => Node::DontFormat(t@),
            IPmwiki::Table(v) => Node::Table(nodes(v@)),
            IPmwiki::TableHeaderRow(v) => Node::TableHeaderRow(nodes(v@)),
            IPmwiki::TableHeaderCell(v) => Node::TableHeaderCell(nodes(v@)),
            IPmwiki::TableRow(v) => Node::TableRow(nodes(v@)),
            IPmwiki::TableCell(v) => Node::TableCell(nodes(v@)),
        }
    }
}

/// The models of a sequence of elements, in order.
pub open spec fn nodes<'a>(v: Seq<IPmwiki<'a>>) -> Seq<Node>
    decreases v,
{
    if v.len() == 0 {
        Seq::empty()
    } else {
        nodes(v.drop_last()).push(v.last().node())
    }
}

/// The model of an optional element.
pub open spec fn opt_node<'a>(v: Option<IPmwiki<'a>>) -> Option<Node> {
    match v {
        Some(x) => Some(x.node()),
        None => None,
    }
}

pub(crate) proof fn lemma_nodes_push<'a>(v: Seq<IPmwiki<'a>>, x: IPmwiki<'a>)
    ensures
        nodes(v.push(x)) == nodes(v).push(x.node()),
{
    assert(v.push(x).drop_last() =~= v);
}

/// The sequence holding `a`, if any.
pub open spec fn opt_seq(a: Option<Node>) -> Seq<Node> {
    match a {
        Some(x) => seq![x],
        None => Seq::empty(),
    }
}

/// The model of a parser's result: where it stopped and what it built.
pub open spec fn parsed<'a>(r: Option<(usize, IPmwiki<'a>)>) -> Option<(int, Node)> {
    match r {
        Some((j, v)) => Some((j as int, v.node())),
        None => None,
    }
}

/// The model of one scanning step: where it stopped, the plain text before the
/// element it found, and that element.
pub open spec fn stepped<'a>(r: Option<(usize, Option<IPmwiki<'a>>, Option<IPmwiki<'a>>)>) -> Option<
    (int, Option<Node>, Option<Node>),
> {
    match r {
        Some((j, a, b)) => Some((j as int, opt_node(a), opt_node(b))),
        None => None,
    }
}

/// Appends `x`.
pub(crate) fn push_node<'a>(acc: &mut Vec<IPmwiki<'a>>, x: IPmwiki<'a>)
    ensures
        nodes(final(acc)@) == nodes(old(acc)@).push(x.node()),
        final(acc)@ == old(acc)@.push(x),
{
    proof {
        lemma_nodes_push(old(acc)@, x);
    }
    acc.push(x);
}

/// Appends `a`, if there is one.
pub(crate) fn push_opt<'a>(acc: &mut Vec<IPmwiki<'a>>, a: Option<IPmwiki<'a>>)
    ensures
        nodes(final(acc)@) == nodes(old(acc)@) + opt_seq(opt_node(a)),
        final(acc)@.len() == old(acc)@.len() + opt_seq(opt_node(a)).len(),
{
    match a {
        Some(x) => {
            push_node(acc, x);
            assert(nodes(old(acc)@).push(x.node()) =~= nodes(old(acc)@) + opt_seq(opt_node(Some(x))));
        },
        None => {
            assert(nodes(acc@) =~= nodes(acc@) + opt_seq(opt_node(a)));
        },
    }
}

} // verus!
