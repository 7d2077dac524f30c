use vstd::prelude::*;
use crate::inline::{spec_dlit, spec_lit};
use crate::pmwiki::{nodes, opt_node, opt_seq, push_node, push_opt, stepped, IPmwiki, Node};
use crate::scan::at;
use crate::source::Source;
use crate::steps::{collect_raw_with, collect_with, step_with};

verus! {

/// The runs of inline text inside blocks: a list item (links, images and text
/// styles), a heading (also verbatim text), and a table cell (as a heading's,
/// ended by a `|`).
#[derive(Clone, Copy)]
pub enum Field {
    Lit,
    Dlit,
    Cell,
}

pub open spec fn field_term(f: Field, s: Seq<char>, e: int) -> spec_fn(int) -> Option<int> {
    |k: int|
        match f {
            Field::Cell => if at(s, k, e, '|') {
                Some(k)
            } else {
                None
            },
            _ => None,
        }
}

pub open spec fn field_parse(f: Field, s: Seq<char>, e: int) -> spec_fn(int) -> Option<(int, Node)> {
    |k: int|
        match f {
            Field::Lit => spec_lit(s, k, e),
            _ => spec_dlit(s, k, e),
        }
}

pub open spec fn field_step(f: Field, s: Seq<char>, i: int, e: int) -> Option<
    (int, Option<Node>, Option<Node>),
> {
    step_with(field_term(f, s, e), field_parse(f, s, e), s, i, i, e)
}

pub open spec fn field_collect(f: Field, s: Seq<char>, i: int, e: int) -> (int, Seq<Node>) {
    collect_with(field_term(f, s, e), field_parse(f, s, e), s, i, e)
}

impl<'a> Source<'a> {
    pub(crate) fn field_step(&self, f: Field, i: usize, e: usize) -> (r: Option<
        (usize, Option<IPmwiki<'a>>, Option<IPmwiki<'a>>),
    >)
        requires
            self.wf(),
            i <= e <= self.chars.len(),
        ensures
            stepped(r) == field_step(f, self.s(), i as int, e as int),
            r matches Some((j, _, b)) ==> i <= j <= e && (b is Some ==> i < j),
    {
        let ghost term = field_term(f, self.s(), e as int);
        let ghost parse = field_parse(f, self.s(), e as int);
        let mut k = i;
        while k < e
            invariant
                self.wf(),
                i <= k <= e <= self.chars.len(),
                term == field_term(f, self.s(), e as int),
                parse == field_parse(f, self.s(), e as int),
                step_with(term, parse, self.s(), i as int, k as int, e as int) == step_with(
                    term,
                    parse,
                    self.s(),
                    i as int,
                    i as int,
                    e as int,
                ),
            decreases e - k,
        {
            let stop = match f {
                Field::Cell => self.at(k, e, '|'),
                _ => false,
            };
            if stop {
                return Some((k, self.opt_text(i, k), None));
            }
            let found = match f {
                Field::Lit => self.lit(k, e),
                _ => self.dlit(k, e),
            };
            match found {
                Some((r, v)) => {
                    return Some((r, self.opt_text(i, k), Some(v)));
                },
                None => {},
            }
            k = k + 1;
        }
        if i < e {
            Some((e, self.opt_text(i, e), None))
        } else {
            None
        }
    }

    pub(crate) fn field_collect(&self, f: Field, i: usize, e: usize) -> (r: (usize, Vec<IPmwiki<'a>>))
        requires
            self.wf(),
            i <= e <= self.chars.len(),
        ensures
            (r.0 as int, nodes(r.1@)) == field_collect(f, self.s(), i as int, e as int),
            i <= r.0 <= e,
    {
        let ghost s = self.s();
        let ghost term = field_term(f, s, e as int);
        let ghost parse = field_parse(f, s, e as int);
        let mut acc: Vec<IPmwiki<'a>> = Vec::new();
        let mut cur = i;
        let mut end = i;
        let mut done = false;
        while !done
            invariant
                self.wf(),
                s == self.s(),
                term == field_term(f, s, e as int),
                parse == field_parse(f, s, e as int),
                i <= cur <= e <= self.chars.len(),
                i <= end <= e,
                !done ==> collect_raw_with(term, parse, s, i as int, e as int) == (
                    collect_raw_with(term, parse, s, cur as int, e as int).0,
                    nodes(acc@) + collect_raw_with(term, parse, s, cur as int, e as int).1,
                ),
                done ==> collect_raw_with(term, parse, s, i as int, e as int) == (
                    end as int,
                    nodes(acc@),
                ),
            decreases e - cur + (if done { 0int } else { 1int }),
        {
            let ghost before = nodes(acc@);
            match self.field_step(f, cur, e) {
                None => {
                    assert(nodes(acc@) + Seq::<Node>::empty() =~= nodes(acc@));
                    end = cur;
                    done = true;
                },
                Some((r, a, b)) => {
                    push_opt(&mut acc, a);
                    match b {
                        Some(bv) => {
                            push_node(&mut acc, bv);
                            let ghost tail = collect_raw_with(term, parse, s, r as int, e as int);
                            assert(before + (opt_seq(opt_node(a)) + seq![bv.node()] + tail.1)
                                =~= nodes(acc@) + tail.1);
                            cur = r;
                        },
                        None => {
                            assert(before + opt_seq(opt_node(a)) =~= nodes(acc@));
                            end = r;
                            done = true;
                        },
                    }
                },
            }
        }
        if acc.len() == 0 {
            (i, acc)
        } else {
            (end, acc)
        }
    }
}

} // verus!
