use vstd::prelude::*;
use crate::field::{field_collect, Field};
use crate::inline::within;
use crate::pmwiki::{nodes, parsed, push_node, IPmwiki, Node};
use crate::scan::{at, is_list_mark, scan, starts_with, Run};
use crate::source::Source;

verus! {

/// A list line from `p`: blanks, the list's own marker `h`, any more markers, a
/// space, and the rest of the line; where it ends.
pub open spec fn list_line(s: Seq<char>, p: int, e: int, h: char) -> Option<int> {
    let q = scan(s, p, e, Run::Blank);
    let r = scan(s, q + 1, e, Run::Marks);
    if at(s, q, e, h) && at(s, r, e, ' ') {
        Some(scan(s, r + 1, e, Run::Line))
    } else {
        None
    }
}

/// Further list lines, each after a line break: where they end, and their spans.
pub open spec fn list_lines_more(s: Seq<char>, p: int, e: int, h: char) -> (int, Seq<(int, int)>)
    decreases e - p,
{
    if at(s, p, e, '\n') {
        match list_line(s, p + 1, e, h) {
            Some(le) => if p < le <= e {
                let (r, more) = list_lines_more(s, le, e, h);
                (r, seq![(p + 1, le)] + more)
            } else {
                (le, seq![(p + 1, le)])
            },
            None => (p, Seq::empty()),
        }
    } else {
        (p, Seq::empty())
    }
}

/// Where the text of a line starts, past its leading white space.
pub open spec fn trimmed(s: Seq<char>, line: (int, int)) -> int {
    scan(s, line.0, line.1, Run::White)
}

/// How much longer than `tag` the first line of a sublist is.
pub open spec fn room(s: Seq<char>, tag: Seq<char>, lines: Seq<(int, int)>, lo: int) -> int {
    lines[lo].1 - trimmed(s, lines[lo]) - tag.len()
}

/// How many lines from `j` on, before `hi`, start with `ctag` (untrimmed).
pub open spec fn child_count(s: Seq<char>, ctag: Seq<char>, lines: Seq<(int, int)>, j: int, hi: int) -> int
    decreases hi - j,
{
    if 0 <= j < hi && starts_with(s, lines[j].0, lines[j].1, ctag) {
        1 + child_count(s, ctag, lines, j + 1, hi)
    } else {
        0
    }
}

pub proof fn lemma_child_count(s: Seq<char>, ctag: Seq<char>, lines: Seq<(int, int)>, j: int, hi: int)
    requires
        0 <= j <= hi,
    ensures
        0 <= child_count(s, ctag, lines, j, hi) <= hi - j,
    decreases hi - j,
{
    if j < hi && starts_with(s, lines[j].0, lines[j].1, ctag) {
        lemma_child_count(s, ctag, lines, j + 1, hi);
    }
}

/// The list made of `lines[lo..hi]`, whose markers start with `tag`: a bullet
/// list when `tag` ends with `*`, else a numbered list.
pub open spec fn list_node(s: Seq<char>, tag: Seq<char>, lines: Seq<(int, int)>, lo: int, hi: int) -> Node
    decreases hi - lo, room(s, tag, lines, lo), hi - lo + 1,
{
    let items = if 0 <= lo < hi {
        list_items(s, tag, lines, lo, hi, lo)
    } else {
        Seq::empty()
    };
    if tag.len() > 0 && tag.last() == '*' {
        Node::BulletList(items)
    } else {
        Node::NumberedList(items)
    }
}

/// The entries of that list from line `i` on. A line whose markers are `tag`
/// and a space is an item; any other starts a sublist, which takes it and the
/// lines after it that start with its markers up to one more than `tag`. A
/// line too short for that (never one that `spec_list` collects) is passed over.
pub open spec fn list_items(
    s: Seq<char>,
    tag: Seq<char>,
    lines: Seq<(int, int)>,
    lo: int,
    hi: int,
    i: int,
) -> Seq<Node>
    decreases hi - lo, room(s, tag, lines, lo), hi - i,
{
    if 0 <= lo <= i < hi {
        let le = lines[i].1;
        let ts = trimmed(s, lines[i]);
        let k = tag.len();
        if starts_with(s, ts, le, tag) && at(s, ts + k, le, ' ') {
            seq![Node::ListItem(field_collect(Field::Lit, s, ts + k + 1, le).1)] + list_items(
                s,
                tag,
                lines,
                lo,
                hi,
                i + 1,
            )
        } else if ts + k + 1 <= le {
            let ctag = Seq::new((k + 1) as nat, |x: int| s[ts + x]);
            let n = child_count(s, ctag, lines, i + 1, hi);
            proof {
                lemma_child_count(s, ctag, lines, i + 1, hi);
            }
            seq![list_node(s, ctag, lines, i, i + 1 + n)] + list_items(
                s,
                tag,
                lines,
                lo,
                hi,
                i + 1 + n,
            )
        } else {
            list_items(s, tag, lines, lo, hi, i + 1)
        }
    } else {
        Seq::empty()
    }
}

/// A list: after any white space, lines that start (past blanks) with the first
/// marker, separated by line breaks.
pub open spec fn spec_list(s: Seq<char>, i: int, e: int) -> Option<(int, Node)> {
    let t = scan(s, i, e, Run::White);
    if 0 <= t < e && is_list_mark(s[t]) {
        let h = s[t];
        match list_line(s, t, e, h) {
            Some(le) => {
                let (r, more) = list_lines_more(s, le, e, h);
                let lines = seq![(t, le)] + more;
                Some((r, list_node(s, seq![h], lines, 0, lines.len() as int)))
            },
            None => None,
        }
    } else {
        None
    }
}

/// Line spans as integers.
pub open spec fn spans(v: Seq<(usize, usize)>) -> Seq<(int, int)> {
    Seq::new(v.len(), |x: int| (v[x].0 as int, v[x].1 as int))
}

impl<'a> Source<'a> {
    fn list_line(&self, p: usize, e: usize, h: char) -> (r: Option<usize>)
        requires
            p <= e <= self.chars.len(),
        ensures
            match r {
                Some(le) => list_line(self.s(), p as int, e as int, h) == Some(le as int),
                None => list_line(self.s(), p as int, e as int, h) is None,
            },
            r matches Some(le) ==> p < le <= e,
    {
        let q = self.scan(p, e, Run::Blank);
        if !self.at(q, e, h) {
            return None;
        }
        let r = self.scan(q + 1, e, Run::Marks);
        if self.at(r, e, ' ') {
            Some(self.scan(r + 1, e, Run::Line))
        } else {
            None
        }
    }

    fn child_count(&self, ctag: &Vec<char>, lines: &Vec<(usize, usize)>, j: usize, hi: usize) -> (n: usize)
        requires
            j <= hi <= lines.len(),
            forall|x: int| #![trigger lines@[x]] 0 <= x < lines.len() ==> lines@[x].1 <= self.chars.len(),
        ensures
            n == child_count(self.s(), ctag@, spans(lines@), j as int, hi as int),
            n <= hi - j,
    {
        let mut x = j;
        while x < hi && self.starts_with(lines[x].0, lines[x].1, ctag)
            invariant
                j <= x <= hi <= lines.len(),
                forall|y: int| #![trigger lines@[y]] 0 <= y < lines.len() ==> lines@[y].1 <= self.chars.len(),
                child_count(self.s(), ctag@, spans(lines@), j as int, hi as int) == (x - j)
                    + child_count(self.s(), ctag@, spans(lines@), x as int, hi as int),
            decreases hi - x,
        {
            x = x + 1;
        }
        x - j
    }

    fn list_node(&self, tag: &Vec<char>, lines: &Vec<(usize, usize)>, lo: usize, hi: usize) -> (r:
        IPmwiki<'a>)
        requires
            self.wf(),
            lo < hi <= lines.len(),
            forall|x: int| #![trigger lines@[x]] 0 <= x < lines.len() ==> lines@[x].0 <= lines@[x].1 <= self.chars.len(),
        ensures
            r.node() == list_node(self.s(), tag@, spans(lines@), lo as int, hi as int),
        decreases hi - lo, room(self.s(), tag@, spans(lines@), lo as int),
    {
        let ghost s = self.s();
        let ghost ls = spans(lines@);
        let mut acc: Vec<IPmwiki<'a>> = Vec::new();
        let mut i = lo;
        while i < hi
            invariant
                self.wf(),
                s == self.s(),
                ls == spans(lines@),
                lo <= i <= hi <= lines.len(),
                forall|x: int| #![trigger lines@[x]] 0 <= x < lines.len() ==> lines@[x].0 <= lines@[x].1 <= self.chars.len(),
                list_items(s, tag@, ls, lo as int, hi as int, lo as int) == nodes(acc@) + list_items(
                    s,
                    tag@,
                    ls,
                    lo as int,
                    hi as int,
                    i as int,
                ),
            decreases hi - i,
        {
            let ghost before = nodes(acc@);
            let (ls_i, le) = lines[i];
            let ts = self.scan(ls_i, le, Run::White);
            let k = tag.len();
            if self.starts_with(ts, le, tag) && self.at(ts + k, le, ' ') {
                let (_, v) = self.field_collect(Field::Lit, ts + k + 1, le);
                let item = IPmwiki::ListItem(v);
                push_node(&mut acc, item);
                let ghost tail = list_items(s, tag@, ls, lo as int, hi as int, i + 1);
                assert(before + (seq![item.node()] + tail) =~= nodes(acc@) + tail);
                i = i + 1;
            } else if k < le - ts {
                let mut ctag: Vec<char> = Vec::new();
                let mut x = ts;
                while x < ts + k + 1
                    invariant
                        ts <= x <= ts + k + 1 <= le <= self.chars.len(),
                        ctag@ =~= Seq::new((x - ts) as nat, |y: int| s[ts + y]),
                        s == self.s(),
                    decreases ts + k + 1 - x,
                {
                    ctag.push(self.chars[x]);
                    x = x + 1;
                }
                assert(ctag@ =~= Seq::new((k + 1) as nat, |y: int| s[ts + y]));
                let n = self.child_count(&ctag, lines, i + 1, hi);
                proof {
                    lemma_child_count(s, ctag@, ls, i + 1, hi as int);
                }
                let sub = self.list_node(&ctag, lines, i, i + 1 + n);
                push_node(&mut acc, sub);
                let ghost tail = list_items(s, tag@, ls, lo as int, hi as int, i + 1 + n);
                assert(before + (seq![sub.node()] + tail) =~= nodes(acc@) + tail);
                i = i + 1 + n;
            } else {
                i = i + 1;
            }
        }
        assert(nodes(acc@) + Seq::<Node>::empty() =~= nodes(acc@));
        if ends_with_bullet(tag) {
            IPmwiki::BulletList(acc)
        } else {
            IPmwiki::NumberedList(acc)
        }
    }

    pub(crate) fn list(&self, i: usize, e: usize) -> (r: Option<(usize, IPmwiki<'a>)>)
        requires
            self.wf(),
            i <= e <= self.chars.len(),
        ensures
            parsed(r) == spec_list(self.s(), i as int, e as int),
            within(parsed(r), i as int, e as int),
    {
        let ghost s = self.s();
        let t = self.scan(i, e, Run::White);
        if !(t < e && (self.chars[t] == '*' || self.chars[t] == '#')) {
            return None;
        }
        let h = self.chars[t];
        let le = match self.list_line(t, e, h) {
            Some(le) => le,
            None => {
                return None;
            },
        };
        let mut lines: Vec<(usize, usize)> = Vec::new();
        lines.push((t, le));
        let mut cur = le;
        let mut more = true;
        while more
            invariant
                s == self.s(),
                t < le <= cur <= e <= self.chars.len(),
                lines@.len() >= 1,
                forall|x: int| #![trigger lines@[x]] 0 <= x < lines.len() ==> lines@[x].0 <= lines@[x].1 <= e,
                more ==> seq![(t as int, le as int)] + list_lines_more(s, le as int, e as int, h).1
                    == spans(lines@) + list_lines_more(s, cur as int, e as int, h).1
                    && list_lines_more(s, le as int, e as int, h).0 == list_lines_more(
                    s,
                    cur as int,
                    e as int,
                    h,
                ).0,
                !more ==> seq![(t as int, le as int)] + list_lines_more(s, le as int, e as int, h).1
                    == spans(lines@) && list_lines_more(s, le as int, e as int, h).0 == cur,
            decreases e - cur + (if more { 1int } else { 0int }),
        {
            let ghost before = spans(lines@);
            if self.at(cur, e, '\n') {
                match self.list_line(cur + 1, e, h) {
                    Some(le2) => {
                        lines.push((cur + 1, le2));
                        let ghost tail = list_lines_more(s, le2 as int, e as int, h).1;
                        assert(spans(lines@) =~= before.push(((cur + 1) as int, le2 as int)));
                        assert(before + (seq![((cur + 1) as int, le2 as int)] + tail) =~= spans(
                            lines@,
                        ) + tail);
                        cur = le2;
                    },
                    None => {
                        assert(before + Seq::<(int, int)>::empty() =~= before);
                        more = false;
                    },
                }
            } else {
                assert(before + Seq::<(int, int)>::empty() =~= before);
                more = false;
            }
        }
        let mut tag: Vec<char> = Vec::new();
        tag.push(h);
        assert(tag@ =~= seq![h]);
        let v = self.list_node(&tag, &lines, 0, lines.len());
        Some((cur, v))
    }
}

/// Whether the markers end with `*`.
fn ends_with_bullet(tag: &Vec<char>) -> (r: bool)
    ensures
        r == (tag@.len() > 0 && tag@.last() == '*'),
{
    tag.len() > 0 && tag[tag.len() - 1] == '*'
}

} // verus!
