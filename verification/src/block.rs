use vstd::prelude::*;
use crate::field::{field_collect, Field};
use crate::inline::{spec_dont_format, within};
use crate::pmwiki::{nodes, parsed, push_node, IPmwiki, Node};
use crate::scan::{at, is_list_mark, scan, starts_with, tag2, tag3, tag4, trim_end, Run};
use crate::source::Source;

verus! {

/// Whether the `n` characters before `t` are all `!`.
pub open spec fn bangs_before(s: Seq<char>, t: int, n: int) -> bool {
    forall|x: int| t - n <= x < t ==> s[x] == '!'
}

/// `!!` to `!!!!!!!` (level one to six), a space, and the rest of the line. The
/// text is cut of trailing white space and then of as many closing `!` as the
/// level, if it ends so.
pub open spec fn spec_heading(s: Seq<char>, i: int, e: int) -> Option<(int, Node)> {
    let run = scan(s, i, e, Run::Bangs) - i;
    let c = if run > 7 {
        7
    } else {
        run
    };
    let p = i + c;
    if c >= 2 && at(s, p, e, ' ') {
        let b = p + 1;
        let j = scan(s, b, e, Run::Line);
        let t = trim_end(s, b, j);
        let level = c - 1;
        let body_end = if t - b >= level && bangs_before(s, t, level) {
            trim_end(s, b, t - level)
        } else {
            t
        };
        Some((j, Node::Heading(level as u8, field_collect(Field::Dlit, s, b, body_end).1)))
    } else {
        None
    }
}

/// The two kinds of table row: `||!head||!head||` and `||cell||cell||`.
#[derive(Clone, Copy)]
pub enum Row {
    Header,
    Body,
}

/// Whether `s[p..t]` ends with `||`.
pub open spec fn ends_bars(s: Seq<char>, p: int, t: int) -> bool {
    t - p >= 2 && s[t - 2] == '|' && s[t - 1] == '|'
}

/// Where a row that starts at `i` leaves off, and the span of its cells (between
/// the opening marker and the closing `||`). A header row takes its line break
/// with it.
pub open spec fn row_span(kind: Row, s: Seq<char>, i: int, e: int) -> Option<(int, int, int)> {
    match kind {
        Row::Header => if tag3(s, i, e, '|', '|', '!') {
            let p = i + 3;
            let q = scan(s, p, e, Run::Line);
            let t = trim_end(s, p, q);
            if q > p && ends_bars(s, p, t) && at(s, q, e, '\n') {
                Some((q + 1, p, t - 2))
            } else if e - p > 2 && ends_bars(s, p, e) {
                Some((e, p, e - 2))
            } else {
                None
            }
        } else {
            None
        },
        Row::Body => if tag2(s, i, e, '|', '|') {
            let p = i + 2;
            let q = scan(s, p, e, Run::Line);
            let t = trim_end(s, p, q);
            let t2 = trim_end(s, p, e);
            if q > p && ends_bars(s, p, t) {
                Some((q, p, t - 2))
            } else if t2 - p > 2 && ends_bars(s, p, t2) {
                Some((e, p, t2 - 2))
            } else {
                None
            }
        } else {
            None
        },
    }
}

/// The cells of a row in `s[c..b]`, separated by `||!` (header) or `||` (body).
pub open spec fn cells(kind: Row, s: Seq<char>, c: int, b: int) -> Seq<Node>
    decreases b - c,
{
    let (c2, v) = field_collect(Field::Cell, s, c, b);
    let cell = match kind {
        Row::Header => Node::TableHeaderCell(v),
        Row::Body => Node::TableCell(v),
    };
    let (sep, w) = match kind {
        Row::Header => (tag3(s, c2, b, '|', '|', '!'), 3int),
        Row::Body => (tag2(s, c2, b, '|', '|'), 2int),
    };
    if sep && c <= c2 {
        seq![cell] + cells(kind, s, c2 + w, b)
    } else {
        seq![cell]
    }
}

pub open spec fn spec_row(kind: Row, s: Seq<char>, i: int, e: int) -> Option<(int, Node)> {
    match row_span(kind, s, i, e) {
        Some((l, a, b)) => Some(
            (
                l,
                match kind {
                    Row::Header => Node::TableHeaderRow(cells(kind, s, a, b)),
                    Row::Body => Node::TableRow(cells(kind, s, a, b)),
                },
            ),
        ),
        None => None,
    }
}

/// More body rows, each after a line break.
pub open spec fn rows_more(s: Seq<char>, p: int, e: int) -> (int, Seq<Node>)
    decreases e - p,
{
    if at(s, p, e, '\n') {
        match spec_row(Row::Body, s, p + 1, e) {
            Some((r, n)) => if p < r <= e {
                let (r2, m) = rows_more(s, r, e);
                (r2, seq![n] + m)
            } else {
                (r, seq![n])
            },
            None => (p, Seq::empty()),
        }
    } else {
        (p, Seq::empty())
    }
}

/// Body rows separated by line breaks, possibly none.
pub open spec fn rows(s: Seq<char>, p: int, e: int) -> (int, Seq<Node>) {
    match spec_row(Row::Body, s, p, e) {
        Some((r, n)) => {
            let (r2, m) = rows_more(s, r, e);
            (r2, seq![n] + m)
        },
        None => (p, Seq::empty()),
    }
}

/// A table: a header row and any body rows, or at least one body row.
pub open spec fn spec_table(s: Seq<char>, i: int, e: int) -> Option<(int, Node)> {
    match spec_row(Row::Header, s, i, e) {
        Some((r, h)) => {
            let (r2, body) = rows(s, r, e);
            Some((r2, Node::Table(seq![h] + body)))
        },
        None => {
            let (r2, body) = rows(s, i, e);
            if body.len() == 0 {
                None
            } else {
                Some((r2, Node::Table(body)))
            }
        },
    }
}

impl<'a> Source<'a> {
    fn bangs_before(&self, t: usize, n: usize) -> (r: bool)
        requires
            n <= t <= self.chars.len(),
        ensures
            r == bangs_before(self.s(), t as int, n as int),
    {
        let mut x = t - n;
        while x < t
            invariant
                t - n <= x <= t <= self.chars.len(),
                forall|y: int| t - n <= y < x ==> self.s()[y] == '!',
            decreases t - x,
        {
            if self.chars[x] != '!' {
                return false;
            }
            x = x + 1;
        }
        true
    }

    pub(crate) fn heading(&self, i: usize, e: usize) -> (r: Option<(usize, IPmwiki<'a>)>)
        requires
            self.wf(),
            i <= e <= self.chars.len(),
        ensures
            parsed(r) == spec_heading(self.s(), i as int, e as int),
            within(parsed(r), i as int, e as int),
    {
        let run = self.scan(i, e, Run::Bangs) - i;
        let c = if run > 7 {
            7
        } else {
            run
        };
        let p = i + c;
        if c >= 2 && self.at(p, e, ' ') {
            let b = p + 1;
            let j = self.scan(b, e, Run::Line);
            let t = self.trim_end(b, j);
            let level = c - 1;
            let ends = t - b >= level && self.bangs_before(t, level);
            let body_end = if ends {
                self.trim_end(b, t - level)
            } else {
                t
            };
            let (_, v) = self.field_collect(Field::Dlit, b, body_end);
            Some((j, IPmwiki::Heading(level as u8, v)))
        } else {
            None
        }
    }

    fn row_span(&self, kind: Row, i: usize, e: usize) -> (r: Option<(usize, usize, usize)>)
        requires
            i <= e <= self.chars.len(),
        ensures
            match r {
                Some((l, a, b)) => row_span(kind, self.s(), i as int, e as int) == Some(
                    (l as int, a as int, b as int),
                ),
                None => row_span(kind, self.s(), i as int, e as int) is None,
            },
            r matches Some((l, a, b)) ==> i < l <= e && a <= b <= e,
    {
        match kind {
            Row::Header => {
                if !self.tag3(i, e, '|', '|', '!') {
                    return None;
                }
                let p = i + 3;
                let q = self.scan(p, e, Run::Line);
                let t = self.trim_end(p, q);
                if q > p && t - p >= 2 && self.chars[t - 2] == '|' && self.chars[t - 1] == '|'
                    && self.at(q, e, '\n') {
                    Some((q + 1, p, t - 2))
                } else if e - p > 2 && self.chars[e - 2] == '|' && self.chars[e - 1] == '|' {
                    Some((e, p, e - 2))
                } else {
                    None
                }
            },
            Row::Body => {
                if !self.tag2(i, e, '|', '|') {
                    return None;
                }
                let p = i + 2;
                let q = self.scan(p, e, Run::Line);
                let t = self.trim_end(p, q);
                let t2 = self.trim_end(p, e);
                if q > p && t - p >= 2 && self.chars[t - 2] == '|' && self.chars[t - 1] == '|' {
                    Some((q, p, t - 2))
                } else if t2 - p > 2 && self.chars[t2 - 2] == '|' && self.chars[t2 - 1] == '|' {
                    Some((e, p, t2 - 2))
                } else {
                    None
                }
            },
        }
    }

    fn cells(&self, kind: Row, c: usize, b: usize) -> (r: Vec<IPmwiki<'a>>)
        requires
            self.wf(),
            c <= b <= self.chars.len(),
        ensures
            nodes(r@) == cells(kind, self.s(), c as int, b as int),
    {
        let ghost s = self.s();
        let mut acc: Vec<IPmwiki<'a>> = Vec::new();
        let mut cur = c;
        let mut more = true;
        while more
            invariant
                self.wf(),
                s == self.s(),
                c <= cur <= b <= self.chars.len(),
                more ==> cells(kind, s, c as int, b as int) == nodes(acc@) + cells(
                    kind,
                    s,
                    cur as int,
                    b as int,
                ),
                !more ==> cells(kind, s, c as int, b as int) == nodes(acc@),
            decreases b - cur + (if more { 1int } else { 0int }),
        {
            let ghost before = nodes(acc@);
            let (c2, v) = self.field_collect(Field::Cell, cur, b);
            let cell = match kind {
                Row::Header => IPmwiki::TableHeaderCell(v),
                Row::Body => IPmwiki::TableCell(v),
            };
            push_node(&mut acc, cell);
            let (sep, w) = match kind {
                Row::Header => (self.tag3(c2, b, '|', '|', '!'), 3usize),
                Row::Body => (self.tag2(c2, b, '|', '|'), 2usize),
            };
            if sep {
                let ghost tail = cells(kind, s, (c2 + w) as int, b as int);
                assert(before + (seq![cell.node()] + tail) =~= nodes(acc@) + tail);
                cur = c2 + w;
            } else {
                assert(before + seq![cell.node()] =~= nodes(acc@));
                more = false;
            }
        }
        acc
    }

    pub(crate) fn row(&self, kind: Row, i: usize, e: usize) -> (r: Option<(usize, IPmwiki<'a>)>)
        requires
            self.wf(),
            i <= e <= self.chars.len(),
        ensures
            parsed(r) == spec_row(kind, self.s(), i as int, e as int),
            within(parsed(r), i as int, e as int),
    {
        match self.row_span(kind, i, e) {
            Some((l, a, b)) => {
                let v = self.cells(kind, a, b);
                match kind {
                    Row::Header => Some((l, IPmwiki::TableHeaderRow(v))),
                    Row::Body => Some((l, IPmwiki::TableRow(v))),
                }
            },
            None => None,
        }
    }

    /// Body rows from `p`, appended to `acc`.
    fn rows(&self, p: usize, e: usize, acc: &mut Vec<IPmwiki<'a>>) -> (r: usize)
        requires
            self.wf(),
            p <= e <= self.chars.len(),
        ensures
            (r as int, nodes(final(acc)@)) == ({
                let (r2, m) = rows(self.s(), p as int, e as int);
                (r2, nodes(old(acc)@) + m)
            }),
            p <= r <= e,
            final(acc)@.len() > old(acc)@.len() ==> p < r,
    {
        let ghost s = self.s();
        let ghost start = nodes(acc@);
        match self.row(Row::Body, p, e) {
            None => {
                assert(start + Seq::<Node>::empty() =~= start);
                p
            },
            Some((r, n)) => {
                push_node(acc, n);
                let mut cur = r;
                let mut more = true;
                while more
                    invariant
                        self.wf(),
                        s == self.s(),
                        p < r <= cur <= e <= self.chars.len(),
                        acc@.len() > old(acc)@.len(),
                        more ==> start + rows(s, p as int, e as int).1 == nodes(acc@) + rows_more(
                            s,
                            cur as int,
                            e as int,
                        ).1 && rows(s, p as int, e as int).0 == rows_more(s, cur as int, e as int).0,
                        !more ==> start + rows(s, p as int, e as int).1 == nodes(acc@) && rows(
                            s,
                            p as int,
                            e as int,
                        ).0 == cur,
                    decreases e - cur + (if more { 1int } else { 0int }),
                {
                    let ghost before = nodes(acc@);
                    if self.at(cur, e, '\n') {
                        match self.row(Row::Body, cur + 1, e) {
                            Some((r2, n2)) => {
                                push_node(acc, n2);
                                let ghost tail = rows_more(s, r2 as int, e as int).1;
                                assert(before + (seq![n2.node()] + tail) =~= nodes(acc@) + tail);
                                cur = r2;
                            },
                            None => {
                                assert(before + Seq::<Node>::empty() =~= before);
                                more = false;
                            },
                        }
                    } else {
                        assert(before + Seq::<Node>::empty() =~= before);
                        more = false;
                    }
                }
                proof {
                    let m = rows_more(s, r as int, e as int).1;
                    assert(start + (seq![n.node()] + m) =~= start.push(n.node()) + m);
                }
                cur
            },
        }
    }

    pub(crate) fn table(&self, i: usize, e: usize) -> (r: Option<(usize, IPmwiki<'a>)>)
        requires
            self.wf(),
            i <= e <= self.chars.len(),
        ensures
            parsed(r) == spec_table(self.s(), i as int, e as int),
            within(parsed(r), i as int, e as int),
    {
        let mut acc: Vec<IPmwiki<'a>> = Vec::new();
        match self.row(Row::Header, i, e) {
            Some((r, h)) => {
                push_node(&mut acc, h);
                let r2 = self.rows(r, e, &mut acc);
                proof {
                    let m = rows(self.s(), r as int, e as int).1;
                    assert(Seq::<Node>::empty().push(h.node()) + m =~= seq![h.node()] + m);
                }
                Some((r2, IPmwiki::Table(acc)))
            },
            None => {
                let r2 = self.rows(i, e, &mut acc);
                assert(Seq::<Node>::empty() + rows(self.s(), i as int, e as int).1 =~= rows(
                    self.s(),
                    i as int,
                    e as int,
                ).1);
                if acc.len() == 0 {
                    None
                } else {
                    Some((r2, IPmwiki::Table(acc)))
                }
            },
        }
    }
}

} // verus!
