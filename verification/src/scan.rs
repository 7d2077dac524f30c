use vstd::prelude::*;
use crate::source::Source;

verus! {

/// Whether `c` has the Unicode White_Space property, the set that
/// `char::is_whitespace` and the `trim` family of `str` go by.
pub open spec fn is_white_space(c: char) -> bool {
    let u = c as u32;
    (0x09 <= u && u <= 0x0d) || u == 0x20 || u == 0x85 || u == 0xa0 || u == 0x1680 || (0x2000 <= u
        && u <= 0x200a) || u == 0x2028 || u == 0x2029 || u == 0x202f || u == 0x205f || u == 0x3000
}

/// `char::is_whitespace`: true exactly on the characters with the Unicode
/// White_Space property, as its documentation states.
#[verifier::external_body]
pub(crate) fn char_is_whitespace(c: char) -> (r: bool)
    ensures
        r == is_white_space(c),
{
    c.is_whitespace()
}

/// The runs of characters that the grammar skips over.
#[derive(Clone, Copy)]
pub enum Run {
    /// Anything but `[`, `]`, `|` and a line break: the target of a link.
    LinkTarget,
    /// Anything but `[`, `]` and a line break: the label of a link.
    LinkLabel,
    /// Anything but `{`, `}`, `|` and a line break: the source of an image.
    ImageSource,
    /// Anything but `{`, `}` and a line break: the label of an image.
    ImageLabel,
    /// Anything but a line break.
    Line,
    /// Spaces and tabs.
    Blank,
    /// List markers, `*` and `#`.
    Marks,
    /// Exclamation marks.
    Bangs,
    /// White space.
    White,
}

pub open spec fn is_list_mark(c: char) -> bool {
    c == '*' || c == '#'
}

/// Whether a run of kind `r` goes on over `c`.
pub open spec fn continues(r: Run, c: char) -> bool {
    match r {
        Run::LinkTarget => c != '[' && c != ']' && c != '|' && c != '\n',
        Run::LinkLabel => c != '[' && c != ']' && c != '\n',
        Run::ImageSource => c != '{' && c != '}' && c != '|' && c != '\n',
        Run::ImageLabel => c != '{' && c != '}' && c != '\n',
        Run::Line => c != '\n',
        Run::Blank => c == ' ' || c == '\t',
        Run::Marks => is_list_mark(c),
        Run::Bangs => c == '!',
        Run::White => is_white_space(c),
    }
}

/// `s[i] == c`, with `i` inside the window that ends at `e`.
pub open spec fn at(s: Seq<char>, i: int, e: int, c: char) -> bool {
    0 <= i < e && s[i] == c
}

pub open spec fn tag2(s: Seq<char>, i: int, e: int, a: char, b: char) -> bool {
    at(s, i, e, a) && at(s, i + 1, e, b)
}

pub open spec fn tag3(s: Seq<char>, i: int, e: int, a: char, b: char, c: char) -> bool {
    at(s, i, e, a) && at(s, i + 1, e, b) && at(s, i + 2, e, c)
}

pub open spec fn tag4(s: Seq<char>, i: int, e: int, c: char) -> bool {
    at(s, i, e, c) && at(s, i + 1, e, c) && at(s, i + 2, e, c) && at(s, i + 3, e, c)
}

/// The end of the longest run of kind `r` that starts at `i` and stays before `e`.
pub open spec fn scan(s: Seq<char>, i: int, e: int, r: Run) -> int
    decreases e - i,
{
    if 0 <= i < e && continues(r, s[i]) {
        scan(s, i + 1, e, r)
    } else {
        i
    }
}

/// Where `s[b..t]` ends once its trailing white space is cut off.
pub open spec fn trim_end(s: Seq<char>, b: int, t: int) -> int
    decreases t - b,
{
    if b < t && is_white_space(s[t - 1]) {
        trim_end(s, b, t - 1)
    } else {
        t
    }
}

/// The first position at or after `i` where `a` then `b` stand, both before `e`.
pub open spec fn find2(s: Seq<char>, i: int, e: int, a: char, b: char) -> Option<int>
    decreases e - i,
{
    if 0 <= i && i + 1 < e {
        if s[i] == a && s[i + 1] == b {
            Some(i)
        } else {
            find2(s, i + 1, e, a, b)
        }
    } else {
        None
    }
}

/// Whether `s[a..b]` starts with `t`.
pub open spec fn starts_with(s: Seq<char>, a: int, b: int, t: Seq<char>) -> bool {
    &&& 0 <= a
    &&& a + t.len() <= b
    &&& forall|x: int| 0 <= x < t.len() ==> s[a + x] == t[x]
}

pub proof fn lemma_scan_bounds(s: Seq<char>, i: int, e: int, r: Run)
    requires
        0 <= i <= e,
    ensures
        i <= scan(s, i, e, r) <= e,
        forall|x: int| i <= x < scan(s, i, e, r) ==> continues(r, s[x]),
        scan(s, i, e, r) < e ==> !continues(r, s[scan(s, i, e, r)]),
    decreases e - i,
{
    if i < e && continues(r, s[i]) {
        lemma_scan_bounds(s, i + 1, e, r);
    }
}

pub proof fn lemma_trim_end_bounds(s: Seq<char>, b: int, t: int)
    requires
        b <= t,
    ensures
        b <= trim_end(s, b, t) <= t,
    decreases t - b,
{
    if b < t && is_white_space(s[t - 1]) {
        lemma_trim_end_bounds(s, b, t - 1);
    }
}

pub(crate) fn continues_x(r: &Run, c: char) -> (b: bool)
    ensures
        b == continues(*r, c),
{
    match r {
        Run::LinkTarget => c != '[' && c != ']' && c != '|' && c != '\n',
        Run::LinkLabel => c != '[' && c != ']' && c != '\n',
        Run::ImageSource => c != '{' && c != '}' && c != '|' && c != '\n',
        Run::ImageLabel => c != '{' && c != '}' && c != '\n',
        Run::Line => c != '\n',
        Run::Blank => c == ' ' || c == '\t',
        Run::Marks => c == '*' || c == '#',
        Run::Bangs => c == '!',
        Run::White => char_is_whitespace(c),
    }
}

impl<'a> Source<'a> {
    pub(crate) open spec fn s(&self) -> Seq<char> {
        self.chars@
    }

    /// The text of `s[a..b]`, borrowed from the input.
    pub(crate) fn slice(&self, a: usize, b: usize) -> (r: &'a str)
        requires
            self.wf(),
            a <= b <= self.chars.len(),
        ensures
            r@ == self.s().subrange(a as int, b as int),
    {
        self.text.substring_char(a, b)
    }

    pub(crate) fn at(&self, i: usize, e: usize, c: char) -> (r: bool)
        requires
            e <= self.chars.len(),
        ensures
            r == at(self.s(), i as int, e as int, c),
    {
        i < e && self.chars[i] == c
    }

    pub(crate) fn tag2(&self, i: usize, e: usize, a: char, b: char) -> (r: bool)
        requires
            e <= self.chars.len(),
        ensures
            r == tag2(self.s(), i as int, e as int, a, b),
    {
        self.at(i, e, a) && i < e && self.at(i + 1, e, b)
    }

    pub(crate) fn tag3(&self, i: usize, e: usize, a: char, b: char, c: char) -> (r: bool)
        requires
            e <= self.chars.len(),
        ensures
            r == tag3(self.s(), i as int, e as int, a, b, c),
    {
        self.tag2(i, e, a, b) && self.at(i + 2, e, c)
    }

    pub(crate) fn tag4(&self, i: usize, e: usize, c: char) -> (r: bool)
        requires
            e <= self.chars.len(),
        ensures
            r == tag4(self.s(), i as int, e as int, c),
    {
        self.tag3(i, e, c, c, c) && self.at(i + 3, e, c)
    }

    pub(crate) fn scan(&self, i: usize, e: usize, r: Run) -> (j: usize)
        requires
            i <= e <= self.chars.len(),
        ensures
            j == scan(self.s(), i as int, e as int, r),
            i <= j <= e,
    {
        let mut j = i;
        while j < e && continues_x(&r, self.chars[j])
            invariant
                i <= j <= e,
                e <= self.chars.len(),
                scan(self.s(), j as int, e as int, r) == scan(self.s(), i as int, e as int, r),
            decreases e - j,
        {
            j = j + 1;
        }
        j
    }

    pub(crate) fn trim_end(&self, b: usize, t: usize) -> (r: usize)
        requires
            b <= t <= self.chars.len(),
        ensures
            r == trim_end(self.s(), b as int, t as int),
            b <= r <= t,
    {
        let mut r = t;
        while b < r && char_is_whitespace(self.chars[r - 1])
            invariant
                b <= r <= t,
                t <= self.chars.len(),
                trim_end(self.s(), b as int, r as int) == trim_end(self.s(), b as int, t as int),
            decreases r - b,
        {
            r = r - 1;
        }
        r
    }

    pub(crate) fn find2(&self, i: usize, e: usize, a: char, b: char) -> (r: Option<usize>)
        requires
            i <= e <= self.chars.len(),
        ensures
            match r {
                Some(j) => find2(self.s(), i as int, e as int, a, b) == Some(j as int),
                None => find2(self.s(), i as int, e as int, a, b) is None,
            },
            r matches Some(j) ==> i <= j && j + 1 < e,
    {
        let mut j = i;
        while e - j >= 2
            invariant
                i <= j <= e,
                e <= self.chars.len(),
                find2(self.s(), j as int, e as int, a, b) == find2(self.s(), i as int, e as int, a, b),
            decreases e - j,
        {
            if self.chars[j] == a && self.chars[j + 1] == b {
                return Some(j);
            }
            j = j + 1;
        }
        None
    }

    /// Whether `s[a..b]` starts with the characters of `t`.
    pub(crate) fn starts_with(&self, a: usize, b: usize, t: &Vec<char>) -> (r: bool)
        requires
            b <= self.chars.len(),
        ensures
            r == starts_with(self.s(), a as int, b as int, t@),
    {
        if t.len() > b || a > b - t.len() {
            return false;
        }
        let mut x: usize = 0;
        while x < t.len()
            invariant
                a + t.len() <= b <= self.chars.len(),
                x <= t.len(),
                forall|y: int| 0 <= y < x ==> self.s()[a + y] == t@[y],
            decreases t.len() - x,
        {
            if self.chars[a + x] != t[x] {
                return false;
            }
            x = x + 1;
        }
        true
    }
}

} // verus!
