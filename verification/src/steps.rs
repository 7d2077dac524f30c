use vstd::prelude::*;
use crate::inline::opt_text;
use crate::pmwiki::{opt_seq, Node};

verus! {

/// One scanning step over `s[i..e]`, tried at each `k` from `i` on: it stops where
/// `term` accepts (at the position `term` gives), or where `parse` finds an
/// element, returning the plain text before that point and the element; with
/// neither anywhere, all the text up to `e` is plain, and an empty window yields
/// nothing.
pub open spec fn step_with(
    term: spec_fn(int) -> Option<int>,
    parse: spec_fn(int) -> Option<(int, Node)>,
    s: Seq<char>,
    i: int,
    k: int,
    e: int,
) -> Option<(int, Option<Node>, Option<Node>)>
    decreases e - k,
{
    if k < e {
        match term(k) {
            Some(r) => Some((r, opt_text(s, i, k), None)),
            None => match parse(k) {
                Some((r, v)) => Some((r, opt_text(s, i, k), Some(v))),
                None => step_with(term, parse, s, i, k + 1, e),
            },
        }
    } else if i < e {
        Some((e, opt_text(s, i, e), None))
    } else {
        None
    }
}

/// Steps repeated from `i` for as long as each one ends in an element.
pub open spec fn collect_raw_with(
    term: spec_fn(int) -> Option<int>,
    parse: spec_fn(int) -> Option<(int, Node)>,
    s: Seq<char>,
    i: int,
    e: int,
) -> (int, Seq<Node>)
    decreases e - i,
{
    match step_with(term, parse, s, i, i, e) {
        Some((r, a, Some(b))) => if i < r <= e {
            let (j, rest) = collect_raw_with(term, parse, s, r, e);
            (j, opt_seq(a) + seq![b] + rest)
        } else {
            (r, opt_seq(a).push(b))
        },
        Some((r, a, None)) => (r, opt_seq(a)),
        None => (i, Seq::empty()),
    }
}

/// The collected elements; when there are none, nothing of the input is used.
pub open spec fn collect_with(
    term: spec_fn(int) -> Option<int>,
    parse: spec_fn(int) -> Option<(int, Node)>,
    s: Seq<char>,
    i: int,
    e: int,
) -> (int, Seq<Node>) {
    let (j, v) = collect_raw_with(term, parse, s, i, e);
    if v.len() == 0 {
        (i, Seq::empty())
    } else {
        (j, v)
    }
}

} // verus!
