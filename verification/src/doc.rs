use vstd::prelude::*;
use crate::block::{spec_heading, spec_table};
use crate::inline::{spec_dlit, spec_dont_format, within};
use crate::list::spec_list;
use crate::pmwiki::{nodes, opt_node, opt_seq, parsed, push_node, push_opt, stepped, IPmwiki, Node};
use crate::scan::{at, tag2, tag4};
use crate::source::Source;
use crate::steps::{collect_raw_with, collect_with, step_with};

verus! {

/// A block that stands on its own: a horizontal rule `----` alone on its line,
/// a heading, verbatim text, a table or a list.
pub open spec fn spec_pmwiki_inner(s: Seq<char>, i: int, e: int) -> Option<(int, Node)> {
    if tag4(s, i, e, '-') && (i + 4 == e || at(s, i + 4, e, '\n')) {
        Some((i + 4, Node::HorizontalLine))
    } else {
        match spec_heading(s, i, e) {
            Some(x) => Some(x),
            None => match spec_dont_format(s, i, e) {
                Some(x) => Some(x),
                None => match spec_table(s, i, e) {
                    Some(x) => Some(x),
                    None => spec_list(s, i, e),
                },
            },
        }
    }
}

/// The runs at document level: a paragraph line, and a run of text broken by blocks.
#[derive(Clone, Copy)]
pub enum Flow {
    Line,
    Block,
}

/// A paragraph ends at a blank line (taking the first line break with it) or
/// before a line break that a block follows.
pub open spec fn flow_term(f: Flow, s: Seq<char>, e: int) -> spec_fn(int) -> Option<int> {
    |k: int|
        match f {
            Flow::Line => if tag2(s, k, e, '\n', '\n') {
                Some(k + 1)
            } else if at(s, k, e, '\n') && spec_pmwiki_inner(s, k + 1, e) is Some {
                Some(k)
            } else {
                None
            },
            Flow::Block => None,
        }
}

pub open spec fn flow_parse(f: Flow, s: Seq<char>, e: int) -> spec_fn(int) -> Option<(int, Node)> {
    |k: int|
        match f {
            Flow::Line => spec_dlit(s, k, e),
            Flow::Block => spec_pmwiki_inner(s, k, e),
        }
}

pub open spec fn flow_step(f: Flow, s: Seq<char>, i: int, e: int) -> Option<
    (int, Option<Node>, Option<Node>),
> {
    step_with(flow_term(f, s, e), flow_parse(f, s, e), s, i, i, e)
}

pub open spec fn flow_collect(f: Flow, s: Seq<char>, i: int, e: int) -> (int, Seq<Node>) {
    collect_with(flow_term(f, s, e), flow_parse(f, s, e), s, i, e)
}

/// A paragraph: text with inline elements, possibly empty.
pub open spec fn spec_line(s: Seq<char>, p: int, e: int) -> (int, Node) {
    let (j, v) = flow_collect(Flow::Line, s, p, e);
    (j, Node::Line(v))
}

/// A block if one starts at `p`, else a paragraph.
pub open spec fn spec_block(s: Seq<char>, p: int, e: int) -> (int, Node) {
    match spec_pmwiki_inner(s, p, e) {
        Some(x) => x,
        None => spec_line(s, p, e),
    }
}

/// Blocks and paragraphs separated by line breaks.
pub open spec fn spec_blocks(s: Seq<char>, p: int, e: int) -> (int, Seq<Node>)
    decreases e - p,
{
    let (j, n) = spec_block(s, p, e);
    if p <= j && at(s, j, e, '\n') {
        let (k, rest) = spec_blocks(s, j + 1, e);
        (k, seq![n] + rest)
    } else {
        (j, seq![n])
    }
}

impl<'a> Source<'a> {
    pub(crate) fn pmwiki_inner(&self, i: usize, e: usize) -> (r: Option<(usize, IPmwiki<'a>)>)
        requires
            self.wf(),
            i <= e <= self.chars.len(),
        ensures
            parsed(r) == spec_pmwiki_inner(self.s(), i as int, e as int),
            within(parsed(r), i as int, e as int),
    {
        if self.tag4(i, e, '-') && (i + 4 == e || self.at(i + 4, e, '\n')) {
            Some((i + 4, IPmwiki::HorizontalLine))
        } else {
            match self.heading(i, e) {
                Some(x) => Some(x),
                None => match self.dont_format(i, e) {
                    Some(x) => Some(x),
                    None => match self.table(i, e) {
                        Some(x) => Some(x),
                        None => self.list(i, e),
                    },
                },
            }
        }
    }

    pub(crate) fn flow_step(&self, f: Flow, i: usize, e: usize) -> (r: Option<
        (usize, Option<IPmwiki<'a>>, Option<IPmwiki<'a>>),
    >)
        requires
            self.wf(),
            i <= e <= self.chars.len(),
        ensures
            stepped(r) == flow_step(f, self.s(), i as int, e as int),
            r matches Some((j, _, b)) ==> i <= j <= e && (b is Some ==> i < j),
    {
        let ghost term = flow_term(f, self.s(), e as int);
        let ghost parse = flow_parse(f, self.s(), e as int);
        let mut k = i;
        while k < e
            invariant
                self.wf(),
                i <= k <= e <= self.chars.len(),
                term == flow_term(f, self.s(), e as int),
                parse == flow_parse(f, self.s(), e as int),
                step_with(term, parse, self.s(), i as int, k as int, e as int) == step_with(
                    term,
                    parse,
                    self.s(),
                    i as int,
                    i as int,
                    e as int,
                ),
            decreases e - k,
        {
            let stop = match f {
                Flow::Line => if self.tag2(k, e, '\n', '\n') {
                    Some(k + 1)
                } else if self.at(k, e, '\n') && self.pmwiki_inner(k + 1, e).is_some() {
                    Some(k)
                } else {
                    None
                },
                Flow::Block => None,
            };
            match stop {
                Some(r) => {
                    return Some((r, self.opt_text(i, k), None));
                },
                None => {},
            }
            let found = match f {
                Flow::Line => self.dlit(k, e),
                Flow::Block => self.pmwiki_inner(k, e),
            };
            match found {
                Some((r, v)) => {
                    return Some((r, self.opt_text(i, k), Some(v)));
                },
                None => {},
            }
            k = k + 1;
        }
        if i < e {
            Some((e, self.opt_text(i, e), None))
        } else {
            None
        }
    }

    pub(crate) fn flow_collect(&self, f: Flow, i: usize, e: usize) -> (r: (usize, Vec<IPmwiki<'a>>))
        requires
            self.wf(),
            i <= e <= self.chars.len(),
        ensures
            (r.0 as int, nodes(r.1@)) == flow_collect(f, self.s(), i as int, e as int),
            i <= r.0 <= e,
    {
        let ghost s = self.s();
        let ghost term = flow_term(f, s, e as int);
        let ghost parse = flow_parse(f, s, e as int);
        let mut acc: Vec<IPmwiki<'a>> = Vec::new();
        let mut cur = i;
        let mut end = i;
        let mut done = false;
        while !done
            invariant
                self.wf(),
                s == self.s(),
                term == flow_term(f, s, e as int),
                parse == flow_parse(f, s, e as int),
                i <= cur <= e <= self.chars.len(),
                i <= end <= e,
                !done ==> collect_raw_with(term, parse, s, i as int, e as int) == (
                    collect_raw_with(term, parse, s, cur as int, e as int).0,
                    nodes(acc@) + collect_raw_with(term, parse, s, cur as int, e as int).1,
                ),
                done ==> collect_raw_with(term, parse, s, i as int, e as int) == (
                    end as int,
                    nodes(acc@),
                ),
            decreases e - cur + (if done { 0int } else { 1int }),
        {
            let ghost before = nodes(acc@);
            match self.flow_step(f, cur, e) {
                None => {
                    assert(nodes(acc@) + Seq::<Node>::empty() =~= nodes(acc@));
                    end = cur;
                    done = true;
                },
                Some((r, a, b)) => {
                    push_opt(&mut acc, a);
                    match b {
                        Some(bv) => {
                            push_node(&mut acc, bv);
                            let ghost tail = collect_raw_with(term, parse, s, r as int, e as int);
                            assert(before + (opt_seq(opt_node(a)) + seq![bv.node()] + tail.1)
                                =~= nodes(acc@) + tail.1);
                            cur = r;
                        },
                        None => {
                            assert(before + opt_seq(opt_node(a)) =~= nodes(acc@));
                            end = r;
                            done = true;
                        },
                    }
                },
            }
        }
        if acc.len() == 0 {
            (i, acc)
        } else {
            (end, acc)
        }
    }

    pub(crate) fn line(&self, p: usize, e: usize) -> (r: (usize, IPmwiki<'a>))
        requires
            self.wf(),
            p <= e <= self.chars.len(),
        ensures
            (r.0 as int, r.1.node()) == spec_line(self.s(), p as int, e as int),
            p <= r.0 <= e,
    {
        let (j, v) = self.flow_collect(Flow::Line, p, e);
        (j, IPmwiki::Line(v))
    }

    pub(crate) fn block(&self, p: usize, e: usize) -> (r: (usize, IPmwiki<'a>))
        requires
            self.wf(),
            p <= e <= self.chars.len(),
        ensures
            (r.0 as int, r.1.node()) == spec_block(self.s(), p as int, e as int),
            p <= r.0 <= e,
    {
        match self.pmwiki_inner(p, e) {
            Some(x) => x,
            None => self.line(p, e),
        }
    }

    pub(crate) fn blocks(&self, p: usize, e: usize) -> (r: (usize, Vec<IPmwiki<'a>>))
        requires
            self.wf(),
            p <= e <= self.chars.len(),
        ensures
            (r.0 as int, nodes(r.1@)) == spec_blocks(self.s(), p as int, e as int),
            p <= r.0 <= e,
            !at(self.s(), r.0 as int, e as int, '\n'),
    {
        let ghost s = self.s();
        let mut acc: Vec<IPmwiki<'a>> = Vec::new();
        let mut cur = p;
        let mut end = p;
        let mut more = true;
        while more
            invariant
                self.wf(),
                s == self.s(),
                p <= cur <= e <= self.chars.len(),
                p <= end <= e,
                !more ==> !at(s, end as int, e as int, '\n'),
                more ==> spec_blocks(s, p as int, e as int) == (
                    spec_blocks(s, cur as int, e as int).0,
                    nodes(acc@) + spec_blocks(s, cur as int, e as int).1,
                ),
                !more ==> spec_blocks(s, p as int, e as int) == (end as int, nodes(acc@)),
            decreases e - cur + (if more { 1int } else { 0int }),
        {
            let ghost before = nodes(acc@);
            let (j, n) = self.block(cur, e);
            push_node(&mut acc, n);
            if self.at(j, e, '\n') {
                let ghost tail = spec_blocks(s, j + 1, e as int);
                assert(before + (seq![n.node()] + tail.1) =~= nodes(acc@) + tail.1);
                cur = j + 1;
            } else {
                assert(before + seq![n.node()] =~= nodes(acc@));
                end = j;
                more = false;
            }
        }
        (end, acc)
    }
}

} // verus!
