use vstd::prelude::*;
use crate::pmwiki::{nodes, opt_node, opt_seq, parsed, push_node, push_opt, stepped, IPmwiki, Node};
use crate::scan::{at, find2, scan, tag2, tag3, Run};
use crate::source::Source;

verus! {

/// Plain text `s[i..k]`, if it is not empty.
pub open spec fn opt_text(s: Seq<char>, i: int, k: int) -> Option<Node> {
    if i < k {
        Some(Node::Text(s.subrange(i, k)))
    } else {
        None
    }
}

/// The two emphasis styles: `'''bold'''` and `''italic''`.
#[derive(Clone, Copy)]
pub enum Emph {
    Bold,
    Italic,
}

/// What ends the text of an emphasis: its closing quotes, or a line break.
pub open spec fn emph_term(m: Emph, s: Seq<char>, k: int, e: int) -> bool {
    match m {
        Emph::Bold => tag3(s, k, e, '\'', '\'', '\'') || at(s, k, e, '\n'),
        Emph::Italic => tag2(s, k, e, '\'', '\'') || at(s, k, e, '\n'),
    }
}

/// One step inside an emphasis that started its plain text at `i`: scanning from
/// `k`, stop at the terminator, or at the first nested element (italic inside
/// bold; bold or a link inside italic), or at the end of the window.
pub open spec fn emph_step(m: Emph, s: Seq<char>, i: int, k: int, e: int) -> Option<
    (int, Option<Node>, Option<Node>),
>
    decreases e - k, 1int,
{
    if k < e {
        if emph_term(m, s, k, e) {
            Some((k, opt_text(s, i, k), None))
        } else {
            let inner = match m {
                Emph::Bold => spec_italic(s, k, e),
                Emph::Italic => match spec_bold(s, k, e) {
                    Some(x) => Some(x),
                    None => spec_bracket(Bracket::Link, s, k, e),
                },
            };
            match inner {
                Some((r, v)) => Some((r, opt_text(s, i, k), Some(v))),
                None => emph_step(m, s, i, k + 1, e),
            }
        }
    } else if i < e {
        Some((e, opt_text(s, i, e), None))
    } else {
        None
    }
}

/// Steps repeated from `i` while each one ends in an element.
pub open spec fn emph_collect_raw(m: Emph, s: Seq<char>, i: int, e: int) -> (int, Seq<Node>)
    decreases e - i, 2int,
{
    match emph_step(m, s, i, i, e) {
        Some((r, a, Some(b))) => if i < r <= e {
            let (j, rest) = emph_collect_raw(m, s, r, e);
            (j, opt_seq(a) + seq![b] + rest)
        } else {
            (r, opt_seq(a).push(b))
        },
        Some((r, a, None)) => (r, opt_seq(a)),
        None => (i, Seq::empty()),
    }
}

/// The content of an emphasis; nothing, and no input used, when no step yields anything.
pub open spec fn emph_collect(m: Emph, s: Seq<char>, i: int, e: int) -> (int, Seq<Node>)
    decreases e - i, 3int,
{
    let (j, v) = emph_collect_raw(m, s, i, e);
    if v.len() == 0 {
        (i, Seq::empty())
    } else {
        (j, v)
    }
}

/// `'''` content `'''`.
pub open spec fn spec_bold(s: Seq<char>, i: int, e: int) -> Option<(int, Node)>
    decreases e - i, 0int,
{
    if tag3(s, i, e, '\'', '\'', '\'') {
        let (j, v) = emph_collect(Emph::Bold, s, i + 3, e);
        if tag3(s, j, e, '\'', '\'', '\'') {
            Some((j + 3, Node::Bold(v)))
        } else {
            None
        }
    } else {
        None
    }
}

/// `''` content `''`.
pub open spec fn spec_italic(s: Seq<char>, i: int, e: int) -> Option<(int, Node)>
    decreases e - i, 0int,
{
    if tag2(s, i, e, '\'', '\'') {
        let (j, v) = emph_collect(Emph::Italic, s, i + 2, e);
        if tag2(s, j, e, '\'', '\'') {
            Some((j + 2, Node::Italic(v)))
        } else {
            None
        }
    } else {
        None
    }
}

/// Links `[[target|label]]` and images `[{source|label}]`.
#[derive(Clone, Copy)]
pub enum Bracket {
    Link,
    Image,
}

pub open spec fn bracket_target(b: Bracket) -> Run {
    match b {
        Bracket::Link => Run::LinkTarget,
        Bracket::Image => Run::ImageSource,
    }
}

pub open spec fn bracket_label(b: Bracket) -> Run {
    match b {
        Bracket::Link => Run::LinkLabel,
        Bracket::Image => Run::ImageLabel,
    }
}

/// The inside of a bracket that starts at `p`: where the target ends, and where
/// the label starts and ends. Without a `|`, a link's label is its target and an
/// image's label is empty.
pub open spec fn bracket_body(b: Bracket, s: Seq<char>, p: int, e: int) -> Option<(int, int, int)> {
    let a = scan(s, p, e, bracket_target(b));
    let l = scan(s, a + 1, e, bracket_label(b));
    if a > p && at(s, a, e, '|') && l > a + 1 {
        Some((a, a + 1, l))
    } else {
        let a2 = scan(s, p, e, bracket_label(b));
        if a2 > p {
            match b {
                Bracket::Link => Some((a2, p, a2)),
                Bracket::Image => Some((a2, a2, a2)),
            }
        } else {
            None
        }
    }
}

pub open spec fn spec_bracket(b: Bracket, s: Seq<char>, i: int, e: int) -> Option<(int, Node)> {
    let opens = match b {
        Bracket::Link => tag2(s, i, e, '[', '['),
        Bracket::Image => tag2(s, i, e, '[', '{'),
    };
    if opens {
        match bracket_body(b, s, i + 2, e) {
            Some((a, l, q)) => {
                let closes = match b {
                    Bracket::Link => tag2(s, q, e, ']', ']'),
                    Bracket::Image => tag2(s, q, e, '}', ']'),
                };
                if closes {
                    Some(
                        (
                            q + 2,
                            match b {
                                Bracket::Link => Node::Link(s.subrange(i + 2, a), s.subrange(l, q)),
                                Bracket::Image => Node::Image(s.subrange(i + 2, a), s.subrange(l, q)),
                            },
                        ),
                    )
                } else {
                    None
                }
            },
            None => None,
        }
    } else {
        None
    }
}

/// A forced line break `\\`, or bold, or italic.
pub open spec fn spec_text_style(s: Seq<char>, i: int, e: int) -> Option<(int, Node)> {
    if tag2(s, i, e, '\\', '\\') {
        Some((i + 2, Node::ForceLinebreak))
    } else {
        match spec_bold(s, i, e) {
            Some(x) => Some(x),
            None => spec_italic(s, i, e),
        }
    }
}

/// A link, an image, or a text style.
pub open spec fn spec_lit(s: Seq<char>, i: int, e: int) -> Option<(int, Node)> {
    match spec_bracket(Bracket::Link, s, i, e) {
        Some(x) => Some(x),
        None => match spec_bracket(Bracket::Image, s, i, e) {
            Some(x) => Some(x),
            None => spec_text_style(s, i, e),
        },
    }
}

/// `[=` verbatim text `=]`, up to the first `=]`.
pub open spec fn spec_dont_format(s: Seq<char>, i: int, e: int) -> Option<(int, Node)> {
    if tag2(s, i, e, '[', '=') {
        match find2(s, i + 2, e, '=', ']') {
            Some(j) => Some((j + 2, Node::DontFormat(s.subrange(i + 2, j)))),
            None => None,
        }
    } else {
        None
    }
}

/// Verbatim text, or a link, an image or a text style.
pub open spec fn spec_dlit(s: Seq<char>, i: int, e: int) -> Option<(int, Node)> {
    match spec_dont_format(s, i, e) {
        Some(x) => Some(x),
        None => spec_lit(s, i, e),
    }
}

/// A parser's result, if any, ends inside the window and after its start.
pub open spec fn within(r: Option<(int, Node)>, i: int, e: int) -> bool {
    r matches Some((j, _)) ==> i < j <= e
}

impl<'a> Source<'a> {
    pub(crate) fn opt_text(&self, i: usize, k: usize) -> (r: Option<IPmwiki<'a>>)
        requires
            self.wf(),
            i <= k <= self.chars.len(),
        ensures
            opt_node(r) == opt_text(self.s(), i as int, k as int),
    {
        if i < k {
            Some(IPmwiki::Text(self.slice(i, k)))
        } else {
            None
        }
    }

    fn emph_term(&self, m: Emph, k: usize, e: usize) -> (r: bool)
        requires
            e <= self.chars.len(),
        ensures
            r == emph_term(m, self.s(), k as int, e as int),
    {
        match m {
            Emph::Bold => self.tag3(k, e, '\'', '\'', '\'') || self.at(k, e, '\n'),
            Emph::Italic => self.tag2(k, e, '\'', '\'') || self.at(k, e, '\n'),
        }
    }

    fn emph_step(&self, m: Emph, i: usize, e: usize) -> (r: Option<
        (usize, Option<IPmwiki<'a>>, Option<IPmwiki<'a>>),
    >)
        requires
            self.wf(),
            i <= e <= self.chars.len(),
        ensures
            stepped(r) == emph_step(m, self.s(), i as int, i as int, e as int),
            r matches Some((j, _, b)) ==> i <= j <= e && (b is Some ==> i < j),
        decreases e - i, 1int,
    {
        let mut k = i;
        while k < e
            invariant
                self.wf(),
                i <= k <= e <= self.chars.len(),
                emph_step(m, self.s(), i as int, k as int, e as int) == emph_step(
                    m,
                    self.s(),
                    i as int,
                    i as int,
                    e as int,
                ),
            decreases e - k,
        {
            if self.emph_term(m, k, e) {
                return Some((k, self.opt_text(i, k), None));
            }
            let inner = match m {
                Emph::Bold => self.italic(k, e),
                Emph::Italic => match self.bold(k, e) {
                    Some(x) => Some(x),
                    None => self.bracket(Bracket::Link, k, e),
                },
            };
            match inner {
                Some((r, v)) => {
                    return Some((r, self.opt_text(i, k), Some(v)));
                },
                None => {},
            }
            k = k + 1;
        }
        if i < e {
            Some((e, self.opt_text(i, e), None))
        } else {
            None
        }
    }

    fn emph_collect(&self, m: Emph, i: usize, e: usize) -> (r: (usize, Vec<IPmwiki<'a>>))
        requires
            self.wf(),
            i <= e <= self.chars.len(),
        ensures
            (r.0 as int, nodes(r.1@)) == emph_collect(m, self.s(), i as int, e as int),
            i <= r.0 <= e,
        decreases e - i, 2int,
    {
        let ghost s = self.s();
        let mut acc: Vec<IPmwiki<'a>> = Vec::new();
        let mut cur = i;
        let mut end = i;
        let mut done = false;
        while !done
            invariant
                self.wf(),
                s == self.s(),
                i <= cur <= e <= self.chars.len(),
                i <= end <= e,
                !done ==> emph_collect_raw(m, s, i as int, e as int) == (
                    emph_collect_raw(m, s, cur as int, e as int).0,
                    nodes(acc@) + emph_collect_raw(m, s, cur as int, e as int).1,
                ),
                done ==> emph_collect_raw(m, s, i as int, e as int) == (end as int, nodes(acc@)),
            decreases e - cur + (if done { 0int } else { 1int }),
        {
            let ghost before = nodes(acc@);
            match self.emph_step(m, cur, e) {
                None => {
                    assert(nodes(acc@) + Seq::<Node>::empty() =~= nodes(acc@));
                    end = cur;
                    done = true;
                },
                Some((r, a, b)) => {
                    push_opt(&mut acc, a);
                    match b {
                        Some(bv) => {
                            push_node(&mut acc, bv);
                            let ghost tail = emph_collect_raw(m, s, r as int, e as int);
                            assert(before + (opt_seq(opt_node(a)) + seq![bv.node()] + tail.1)
                                =~= nodes(acc@) + tail.1);
                            cur = r;
                        },
                        None => {
                            assert(before + opt_seq(opt_node(a)) =~= nodes(acc@));
                            end = r;
                            done = true;
                        },
                    }
                },
            }
        }
        if acc.len() == 0 {
            (i, acc)
        } else {
            (end, acc)
        }
    }

    pub(crate) fn bold(&self, i: usize, e: usize) -> (r: Option<(usize, IPmwiki<'a>)>)
        requires
            self.wf(),
            i <= e <= self.chars.len(),
        ensures
            parsed(r) == spec_bold(self.s(), i as int, e as int),
            within(parsed(r), i as int, e as int),
        decreases e - i, 0int,
    {
        if self.tag3(i, e, '\'', '\'', '\'') {
            let (j, v) = self.emph_collect(Emph::Bold, i + 3, e);
            if self.tag3(j, e, '\'', '\'', '\'') {
                Some((j + 3, IPmwiki::Bold(v)))
            } else {
                None
            }
        } else {
            None
        }
    }

    pub(crate) fn italic(&self, i: usize, e: usize) -> (r: Option<(usize, IPmwiki<'a>)>)
        requires
            self.wf(),
            i <= e <= self.chars.len(),
        ensures
            parsed(r) == spec_italic(self.s(), i as int, e as int),
            within(parsed(r), i as int, e as int),
        decreases e - i, 0int,
    {
        if self.tag2(i, e, '\'', '\'') {
            let (j, v) = self.emph_collect(Emph::Italic, i + 2, e);
            if self.tag2(j, e, '\'', '\'') {
                Some((j + 2, IPmwiki::Italic(v)))
            } else {
                None
            }
        } else {
            None
        }
    }

    fn bracket_body(&self, b: Bracket, p: usize, e: usize) -> (r: Option<(usize, usize, usize)>)
        requires
            p <= e <= self.chars.len(),
        ensures
            match r {
                Some((a, l, q)) => bracket_body(b, self.s(), p as int, e as int) == Some(
                    (a as int, l as int, q as int),
                ),
                None => bracket_body(b, self.s(), p as int, e as int) is None,
            },
            r matches Some((a, l, q)) ==> p < a <= e && p <= l <= q <= e,
    {
        let (target, label) = match b {
            Bracket::Link => (Run::LinkTarget, Run::LinkLabel),
            Bracket::Image => (Run::ImageSource, Run::ImageLabel),
        };
        let a = self.scan(p, e, target);
        if a > p && self.at(a, e, '|') {
            let l = self.scan(a + 1, e, label);
            if l > a + 1 {
                return Some((a, a + 1, l));
            }
        }
        let a2 = self.scan(p, e, label);
        if a2 > p {
            match b {
                Bracket::Link => Some((a2, p, a2)),
                Bracket::Image => Some((a2, a2, a2)),
            }
        } else {
            None
        }
    }

    pub(crate) fn bracket(&self, b: Bracket, i: usize, e: usize) -> (r: Option<(usize, IPmwiki<'a>)>)
        requires
            self.wf(),
            i <= e <= self.chars.len(),
        ensures
            parsed(r) == spec_bracket(b, self.s(), i as int, e as int),
            within(parsed(r), i as int, e as int),
    {
        let opens = match b {
            Bracket::Link => self.tag2(i, e, '[', '['),
            Bracket::Image => self.tag2(i, e, '[', '{'),
        };
        if !opens {
            return None;
        }
        match self.bracket_body(b, i + 2, e) {
            Some((a, l, q)) => {
                let closes = match b {
                    Bracket::Link => self.tag2(q, e, ']', ']'),
                    Bracket::Image => self.tag2(q, e, '}', ']'),
                };
                if closes {
                    let target = self.slice(i + 2, a);
                    let label = self.slice(l, q);
                    match b {
                        Bracket::Link => Some((q + 2, IPmwiki::Link(target, label))),
                        Bracket::Image => Some((q + 2, IPmwiki::Image(target, label))),
                    }
                } else {
                    None
                }
            },
            None => None,
        }
    }

    pub(crate) fn text_style(&self, i: usize, e: usize) -> (r: Option<(usize, IPmwiki<'a>)>)
        requires
            self.wf(),
            i <= e <= self.chars.len(),
        ensures
            parsed(r) == spec_text_style(self.s(), i as int, e as int),
            within(parsed(r), i as int, e as int),
    {
        if self.tag2(i, e, '\\', '\\') {
            Some((i + 2, IPmwiki::ForceLinebreak))
        } else {
            match self.bold(i, e) {
                Some(x) => Some(x),
                None => self.italic(i, e),
            }
        }
    }

    pub(crate) fn lit(&self, i: usize, e: usize) -> (r: Option<(usize, IPmwiki<'a>)>)
        requires
            self.wf(),
            i <= e <= self.chars.len(),
        ensures
            parsed(r) == spec_lit(self.s(), i as int, e as int),
            within(parsed(r), i as int, e as int),
    {
        match self.bracket(Bracket::Link, i, e) {
            Some(x) => Some(x),
            None => match self.bracket(Bracket::Image, i, e) {
                Some(x) => Some(x),
                None => self.text_style(i, e),
            },
        }
    }

    pub(crate) fn dont_format(&self, i: usize, e: usize) -> (r: Option<(usize, IPmwiki<'a>)>)
        requires
            self.wf(),
            i <= e <= self.chars.len(),
        ensures
            parsed(r) == spec_dont_format(self.s(), i as int, e as int),
            within(parsed(r), i as int, e as int),
    {
        if self.tag2(i, e, '[', '=') {
            match self.find2(i + 2, e, '=', ']') {
                Some(j) => Some((j + 2, IPmwiki::DontFormat(self.slice(i + 2, j)))),
                None => None,
            }
        } else {
            None
        }
    }

    pub(crate) fn dlit(&self, i: usize, e: usize) -> (r: Option<(usize, IPmwiki<'a>)>)
        requires
            self.wf(),
            i <= e <= self.chars.len(),
        ensures
            parsed(r) == spec_dlit(self.s(), i as int, e as int),
            within(parsed(r), i as int, e as int),
    {
        match self.dont_format(i, e) {
            Some(x) => Some(x),
            None => self.lit(i, e),
        }
    }
}

} // verus!
