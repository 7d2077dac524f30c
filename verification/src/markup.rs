use vstd::prelude::*;
use crate::block::{bangs_before, cells, row_span, rows, spec_heading, spec_row, spec_table, Row};
use crate::doc::{flow_collect, flow_parse, flow_term, spec_blocks, spec_block, spec_line, spec_pmwiki_inner, Flow};
use crate::field::{field_collect, field_parse, field_term, Field};
use crate::list::{list_items, list_line, list_lines_more, list_node, spec_list, trimmed};
use crate::inline::{
    emph_collect, emph_collect_raw, emph_step, emph_term, opt_text, spec_bold, spec_bracket,
    spec_dlit, spec_dont_format, spec_italic, spec_lit, spec_text_style, Bracket, Emph,
};
use crate::laws::lemma_scan_skip;
use crate::parser::spec_document;
use crate::pmwiki::{opt_seq, Node};
use crate::scan::{
    at, continues, find2, is_list_mark, is_white_space, lemma_scan_bounds, scan, starts_with, trim_end,
    Run,
};
use crate::steps::{collect_raw_with, collect_with, step_with};

verus! {

/// Plain text `x` as the elements it makes: one text element, or nothing when empty.
pub open spec fn text_of(x: Seq<char>) -> Seq<Node> {
    if x.len() > 0 {
        seq![Node::Text(x)]
    } else {
        Seq::empty()
    }
}

pub(crate) proof fn lemma_opt_text_of(s: Seq<char>, i: int, k: int)
    requires
        0 <= i <= k <= s.len(),
    ensures
        opt_seq(opt_text(s, i, k)) == text_of(s.subrange(i, k)),
{
}

/// A run stops at the first character it does not go on over.
pub(crate) proof fn lemma_scan_to(s: Seq<char>, i: int, j: int, e: int, r: Run)
    requires
        0 <= i <= j <= e,
        forall|x: int| i <= x < j ==> continues(r, #[trigger] s[x]),
        j < e ==> !continues(r, s[j]),
    ensures
        scan(s, i, e, r) == j,
{
    lemma_scan_skip(s, i, j, e, r);
}

pub(crate) proof fn lemma_find2_skip(s: Seq<char>, i: int, j: int, e: int, a: char, b: char)
    requires
        0 <= i <= j,
        forall|x: int| i <= x < j && x + 1 < e ==> !(#[trigger] s[x] == a && s[x + 1] == b),
    ensures
        find2(s, i, e, a, b) == find2(s, j, e, a, b),
    decreases j - i,
{
    if i < j {
        lemma_find2_skip(s, i + 1, j, e, a, b);
    }
}

pub(crate) proof fn lemma_find2_from(s: Seq<char>, i: int, e: int, a: char, b: char)
    requires
        0 <= i,
    ensures
        find2(s, i, e, a, b) matches Some(j) ==> i <= j && j + 1 < e,
    decreases e - i,
{
    if i + 1 < e && !(s[i] == a && s[i + 1] == b) {
        lemma_find2_from(s, i + 1, e, a, b);
    }
}

/// A scan that nothing stops passes over the positions from `k` to `j`.
pub(crate) proof fn lemma_step_skip(
    term: spec_fn(int) -> Option<int>,
    parse: spec_fn(int) -> Option<(int, Node)>,
    s: Seq<char>,
    i: int,
    k: int,
    j: int,
    e: int,
)
    requires
        k <= j <= e,
        forall|x: int| k <= x < j ==> (#[trigger] term(x)) is None && parse(x) is None,
    ensures
        step_with(term, parse, s, i, k, e) == step_with(term, parse, s, i, j, e),
    decreases j - k,
{
    if k < j {
        assert(term(k) is None && parse(k) is None);
        lemma_step_skip(term, parse, s, i, k + 1, j, e);
    }
}

/// Text where nothing stops the scan and nothing is found is collected whole,
/// as one text element.
pub(crate) proof fn lemma_collect_plain(
    term: spec_fn(int) -> Option<int>,
    parse: spec_fn(int) -> Option<(int, Node)>,
    s: Seq<char>,
    i: int,
    e: int,
)
    requires
        0 <= i <= e <= s.len(),
        forall|x: int| i <= x < e ==> (#[trigger] term(x)) is None && parse(x) is None,
    ensures
        collect_with(term, parse, s, i, e).1 == text_of(s.subrange(i, e)),
{
    lemma_step_skip(term, parse, s, i, i, e, e);
    lemma_opt_text_of(s, i, e);
}

/// Two scans that stop and find alike collect alike.
pub(crate) proof fn lemma_step_same(
    t1: spec_fn(int) -> Option<int>,
    p1: spec_fn(int) -> Option<(int, Node)>,
    t2: spec_fn(int) -> Option<int>,
    p2: spec_fn(int) -> Option<(int, Node)>,
    s: Seq<char>,
    i: int,
    k: int,
    e: int,
)
    requires
        forall|x: int| k <= x < e ==> #[trigger] t1(x) == t2(x),
        forall|x: int| k <= x < e ==> #[trigger] p1(x) == p2(x),
    ensures
        step_with(t1, p1, s, i, k, e) == step_with(t2, p2, s, i, k, e),
    decreases e - k,
{
    if k < e {
        assert(t1(k) == t2(k));
        assert(p1(k) == p2(k));
        lemma_step_same(t1, p1, t2, p2, s, i, k + 1, e);
    }
}

pub(crate) proof fn lemma_collect_raw_same(
    t1: spec_fn(int) -> Option<int>,
    p1: spec_fn(int) -> Option<(int, Node)>,
    t2: spec_fn(int) -> Option<int>,
    p2: spec_fn(int) -> Option<(int, Node)>,
    s: Seq<char>,
    i: int,
    e: int,
)
    requires
        forall|x: int| i <= x < e ==> #[trigger] t1(x) == t2(x),
        forall|x: int| i <= x < e ==> #[trigger] p1(x) == p2(x),
    ensures
        collect_raw_with(t1, p1, s, i, e) == collect_raw_with(t2, p2, s, i, e),
    decreases e - i,
{
    lemma_step_same(t1, p1, t2, p2, s, i, i, e);
    match step_with(t1, p1, s, i, i, e) {
        Some((r, a, Some(b))) => {
            if i < r <= e {
                lemma_collect_raw_same(t1, p1, t2, p2, s, r, e);
            }
        },
        _ => {},
    }
}

/// Verbatim text runs to the first `=]`, whatever it holds, line breaks and
/// markup included: for every `t` without `=]` in it, `[=` `t` `=]` is verbatim
/// text `t` with nothing left over, as a block and as a whole document.
pub proof fn law_verbatim_runs_to_first_close(t: Seq<char>)
    requires
        forall|x: int| 0 <= x < t.len() - 1 ==> !(#[trigger] t[x] == '=' && t[x + 1] == ']'),
    ensures
        ({
            let s = seq!['[', '='] + t + seq!['=', ']'];
            &&& spec_dont_format(s, 0, s.len() as int) == Some(
                (s.len() as int, Node::DontFormat(t)),
            )
            &&& spec_pmwiki_inner(s, 0, s.len() as int) == Some(
                (s.len() as int, Node::DontFormat(t)),
            )
            &&& spec_document(s) == (s.len() as int, seq![Node::DontFormat(t)])
        }),
{
    let s = seq!['[', '='] + t + seq!['=', ']'];
    let n = t.len() as int;
    let len = s.len() as int;
    assert(len == n + 4);
    assert forall|x: int| 2 <= x < 2 + n implies #[trigger] s[x] == t[x - 2] by {}
    assert(s[0] == '[' && s[1] == '=');
    assert(s[2 + n] == '=' && s[3 + n] == ']');
    assert forall|x: int| 2 <= x < 2 + n && x + 1 < len implies !(#[trigger] s[x] == '=' && s[x + 1]
        == ']') by {
        if x + 1 < 2 + n {
            assert(s[x] == t[x - 2] && s[x + 1] == t[x - 1]);
        } else {
            assert(s[x + 1] == '=');
        }
    }
    lemma_find2_skip(s, 2, 2 + n, len, '=', ']');
    assert(find2(s, 2 + n, len, '=', ']') == Some(2 + n));
    assert(s.subrange(2, 2 + n) =~= t);
    lemma_scan_to(s, 0, 0, len, Run::Bangs);
    assert(spec_pmwiki_inner(s, 0, len) == Some((len, Node::DontFormat(t))));
    assert(spec_block(s, 0, len) == (len, Node::DontFormat(t)));
    assert(spec_blocks(s, 0, len) == (len, seq![Node::DontFormat(t)]));
}

/// No quote, bracket or line break.
pub open spec fn plain(x: Seq<char>) -> bool {
    forall|i: int|
        0 <= i < x.len() ==> #[trigger] x[i] != '\'' && x[i] != '[' && x[i] != ']' && x[i] != '\n'
}

/// A link target: not empty; no bracket, `|` or line break.
pub open spec fn link_target(t: Seq<char>) -> bool {
    &&& t.len() > 0
    &&& forall|i: int|
        0 <= i < t.len() ==> #[trigger] t[i] != '[' && t[i] != ']' && t[i] != '|' && t[i] != '\n'
}

proof fn lemma_italic_skip(s: Seq<char>, i: int, k: int, j: int, e: int)
    requires
        0 <= k <= j <= e,
        forall|x: int| k <= x < j ==> (#[trigger] s[x]) != '\'' && s[x] != '[' && s[x] != '\n',
    ensures
        emph_step(Emph::Italic, s, i, k, e) == emph_step(Emph::Italic, s, i, j, e),
    decreases j - k,
{
    if k < j {
        assert(s[k] != '\'' && s[k] != '[' && s[k] != '\n');
        assert(!emph_term(Emph::Italic, s, k, e));
        assert(spec_bold(s, k, e) is None);
        assert(spec_bracket(Bracket::Link, s, k, e) is None);
        lemma_italic_skip(s, i, k + 1, j, e);
    }
}

/// Inside italic text a link is a link: for plain `a` and `b` and a link
/// target `t`, the italic text `''a[[t]]b''` holds the text `a`, the link to
/// `t` labelled `t`, and the text `b` (empty texts left out), and takes the
/// whole input.
pub proof fn law_link_inside_italic(a: Seq<char>, t: Seq<char>, b: Seq<char>)
    requires
        plain(a),
        plain(b),
        link_target(t),
    ensures
        ({
            let s = seq!['\'', '\''] + a + seq!['[', '['] + t + seq![']', ']'] + b + seq!['\'', '\''];
            spec_italic(s, 0, s.len() as int) == Some(
                (
                    s.len() as int,
                    Node::Italic(text_of(a) + seq![Node::Link(t, t)] + text_of(b)),
                ),
            )
        }),
{
    let s = seq!['\'', '\''] + a + seq!['[', '['] + t + seq![']', ']'] + b + seq!['\'', '\''];
    let na = a.len() as int;
    let nt = t.len() as int;
    let nb = b.len() as int;
    let l0 = 2 + na;
    let t0 = l0 + 2;
    let t1 = t0 + nt;
    let b0 = t1 + 2;
    let e0 = b0 + nb;
    let len = s.len() as int;
    assert(len == e0 + 2);
    assert(s[0] == '\'' && s[1] == '\'');
    assert forall|x: int| 2 <= x < l0 implies #[trigger] s[x] == a[x - 2] by {}
    assert(s[l0] == '[' && s[l0 + 1] == '[');
    assert forall|x: int| t0 <= x < t1 implies #[trigger] s[x] == t[x - t0] by {}
    assert(s[t1] == ']' && s[t1 + 1] == ']');
    assert forall|x: int| b0 <= x < e0 implies #[trigger] s[x] == b[x - b0] by {}
    assert(s[e0] == '\'' && s[e0 + 1] == '\'');
    assert(s.subrange(2, l0) =~= a);
    assert(s.subrange(t0, t1) =~= t);
    assert(s.subrange(b0, e0) =~= b);
    // the text before the link
    assert forall|x: int| 2 <= x < l0 implies (#[trigger] s[x]) != '\'' && s[x] != '[' && s[x]
        != '\n' by {
        assert(s[x] == a[x - 2]);
    }
    lemma_italic_skip(s, 2, 2, l0, len);
    // the link
    assert forall|x: int| t0 <= x < t1 implies continues(Run::LinkTarget, #[trigger] s[x])
        && continues(Run::LinkLabel, s[x]) by {
        assert(s[x] == t[x - t0]);
    }
    lemma_scan_to(s, t0, t1, len, Run::LinkTarget);
    lemma_scan_to(s, t0, t1, len, Run::LinkLabel);
    assert(spec_bold(s, l0, len) is None);
    assert(spec_bracket(Bracket::Link, s, l0, len) == Some((b0, Node::Link(t, t))));
    assert(!emph_term(Emph::Italic, s, l0, len));
    assert(emph_step(Emph::Italic, s, 2, l0, len) == Some(
        (b0, opt_text(s, 2, l0), Some(Node::Link(t, t))),
    ));
    // the text after the link
    assert forall|x: int| b0 <= x < e0 implies (#[trigger] s[x]) != '\'' && s[x] != '[' && s[x]
        != '\n' by {
        assert(s[x] == b[x - b0]);
    }
    lemma_italic_skip(s, b0, b0, e0, len);
    assert(emph_term(Emph::Italic, s, e0, len));
    assert(emph_step(Emph::Italic, s, b0, e0, len) == Some((e0, opt_text(s, b0, e0), None::<Node>)));
    assert(emph_collect_raw(Emph::Italic, s, b0, len) == (e0, opt_seq(opt_text(s, b0, e0))));
    lemma_opt_text_of(s, 2, l0);
    lemma_opt_text_of(s, b0, e0);
    let v = text_of(a) + seq![Node::Link(t, t)] + text_of(b);
    assert(emph_collect_raw(Emph::Italic, s, 2, len) == (e0, v));
    assert(v.len() > 0);
    assert(emph_collect(Emph::Italic, s, 2, len) == (e0, v));
}

/// Plain text: no quote, bracket, backslash or line break.
pub open spec fn plain_text(x: Seq<char>) -> bool {
    plain(x) && forall|i: int| 0 <= i < x.len() ==> #[trigger] x[i] != '\\'
}

/// A bullet list for `*`, a numbered list for `#`.
pub open spec fn list_of(h: char, v: Seq<Node>) -> Node {
    if h == '*' {
        Node::BulletList(v)
    } else {
        Node::NumberedList(v)
    }
}

proof fn lemma_plain_no_lit(s: Seq<char>, x: int, e: int)
    requires
        0 <= x < e <= s.len(),
        s[x] != '[' && s[x] != '\\' && s[x] != '\'',
    ensures
        spec_lit(s, x, e) is None,
        spec_dlit(s, x, e) is None,
{
    assert(spec_bold(s, x, e) is None);
    assert(spec_italic(s, x, e) is None);
    assert(spec_text_style(s, x, e) is None);
}

/// Blanks before the marker of a list line change nothing: for a marker `h`,
/// plain texts `a` and `b` and any blanks (spaces and tabs), the lines
/// `h a`, line break, blanks, `h b` make one list of two items, ending at the
/// end of the input, whatever the blanks are, none included.
#[verifier::spinoff_prover]
#[verifier::rlimit(50)]
pub proof fn law_list_lines_may_start_with_blanks(h: char, a: Seq<char>, bl: Seq<char>, b: Seq<char>)
    requires
        is_list_mark(h),
        plain_text(a),
        plain_text(b),
        forall|x: int| 0 <= x < bl.len() ==> #[trigger] bl[x] == ' ' || bl[x] == '\t',
    ensures
        ({
            let s = seq![h, ' '] + a + seq!['\n'] + bl + seq![h, ' '] + b;
            spec_list(s, 0, s.len() as int) == Some(
                (
                    s.len() as int,
                    list_of(
                        h,
                        seq![Node::ListItem(text_of(a)), Node::ListItem(text_of(b))],
                    ),
                ),
            )
        }),
{
    let s = seq![h, ' '] + a + seq!['\n'] + bl + seq![h, ' '] + b;
    let na = a.len() as int;
    let nbl = bl.len() as int;
    let nb = b.len() as int;
    let n = 2 + na;
    let q = n + 1 + nbl;
    let y = q + 2;
    let len = s.len() as int;
    assert(len == y + nb);
    assert(s[0] == h && s[1] == ' ');
    assert forall|x: int| 2 <= x < n implies #[trigger] s[x] == a[x - 2] by {}
    assert(s[n] == '\n');
    assert forall|x: int| n + 1 <= x < q implies #[trigger] s[x] == bl[x - n - 1] by {}
    assert(s[q] == h && s[q + 1] == ' ');
    assert forall|x: int| y <= x < len implies #[trigger] s[x] == b[x - y] by {}
    assert(s.subrange(2, n) =~= a);
    assert(s.subrange(y, len) =~= b);
    assert(!is_white_space(h));
    // the first line
    lemma_scan_to(s, 0, 0, len, Run::White);
    lemma_scan_to(s, 0, 0, n, Run::White);
    lemma_scan_to(s, 0, 0, len, Run::Blank);
    lemma_scan_to(s, 1, 1, len, Run::Marks);
    assert forall|x: int| 2 <= x < n implies continues(Run::Line, #[trigger] s[x]) by {
        assert(s[x] == a[x - 2]);
    }
    lemma_scan_to(s, 2, n, len, Run::Line);
    assert(list_line(s, 0, len, h) == Some(n));
    // the second line, after its blanks
    assert forall|x: int| n + 1 <= x < q implies continues(Run::Blank, #[trigger] s[x])
        && continues(Run::White, s[x]) by {
        assert(s[x] == bl[x - n - 1]);
    }
    lemma_scan_to(s, n + 1, q, len, Run::Blank);
    lemma_scan_to(s, n + 1, q, len, Run::White);
    lemma_scan_to(s, q + 1, q + 1, len, Run::Marks);
    assert forall|x: int| y <= x < len implies continues(Run::Line, #[trigger] s[x]) by {
        assert(s[x] == b[x - y]);
    }
    lemma_scan_to(s, y, len, len, Run::Line);
    assert(list_line(s, n + 1, len, h) == Some(len));
    assert(list_lines_more(s, len, len, h) == (len, Seq::<(int, int)>::empty()));
    assert(list_lines_more(s, n, len, h) == (len, seq![(n + 1, len)]));
    let lines = seq![(0, n)] + seq![(n + 1, len)];
    let tag = seq![h];
    // the items' text
    assert forall|x: int| 2 <= x < n implies (#[trigger] field_term(Field::Lit, s, n)(x)) is None
        && field_parse(Field::Lit, s, n)(x) is None by {
        assert(s[x] == a[x - 2]);
        lemma_plain_no_lit(s, x, n);
    }
    lemma_collect_plain(field_term(Field::Lit, s, n), field_parse(Field::Lit, s, n), s, 2, n);
    assert forall|x: int| y <= x < len implies (#[trigger] field_term(Field::Lit, s, len)(x)) is None
        && field_parse(Field::Lit, s, len)(x) is None by {
        assert(s[x] == b[x - y]);
        lemma_plain_no_lit(s, x, len);
    }
    lemma_collect_plain(field_term(Field::Lit, s, len), field_parse(Field::Lit, s, len), s, y, len);
    assert(trimmed(s, lines[0]) == 0);
    assert(trimmed(s, lines[1]) == q);
    assert(starts_with(s, 0, n, tag));
    assert(starts_with(s, q, len, tag));
    let item_a = Node::ListItem(text_of(a));
    let item_b = Node::ListItem(text_of(b));
    assert(list_items(s, tag, lines, 0, 2, 2) == Seq::<Node>::empty());
    assert(list_items(s, tag, lines, 0, 2, 1) == seq![item_b] + Seq::<Node>::empty());
    assert(list_items(s, tag, lines, 0, 2, 0) == seq![item_a] + (seq![item_b] + Seq::<Node>::empty()));
    assert(seq![item_a] + (seq![item_b] + Seq::<Node>::empty()) =~= seq![item_a, item_b]);
    assert(list_node(s, tag, lines, 0, 2) == list_of(h, seq![item_a, item_b]));
}

/// A parse that goes on from `i` to each next element ends no earlier than `i`.
proof fn lemma_step_from(
    term: spec_fn(int) -> Option<int>,
    parse: spec_fn(int) -> Option<(int, Node)>,
    s: Seq<char>,
    i: int,
    k: int,
    e: int,
)
    requires
        k <= e,
        forall|x: int| k <= x < e ==> (#[trigger] term(x) matches Some(r) ==> x <= r),
        forall|x: int| k <= x < e ==> (#[trigger] parse(x) matches Some((r, _)) ==> x < r),
    ensures
        step_with(term, parse, s, i, k, e) matches Some((r, _, _)) ==> k <= r,
    decreases e - k,
{
    if k < e {
        assert(term(k) matches Some(r) ==> k <= r);
        assert(parse(k) matches Some((r, _)) ==> k < r);
        lemma_step_from(term, parse, s, i, k + 1, e);
    }
}

proof fn lemma_collect_from(
    term: spec_fn(int) -> Option<int>,
    parse: spec_fn(int) -> Option<(int, Node)>,
    s: Seq<char>,
    i: int,
    e: int,
)
    requires
        i <= e,
        forall|x: int| i <= x < e ==> (#[trigger] term(x) matches Some(r) ==> x <= r),
        forall|x: int| i <= x < e ==> (#[trigger] parse(x) matches Some((r, _)) ==> x < r),
    ensures
        collect_raw_with(term, parse, s, i, e).0 >= i,
        collect_with(term, parse, s, i, e).0 >= i,
    decreases e - i,
{
    lemma_step_from(term, parse, s, i, i, e);
    match step_with(term, parse, s, i, i, e) {
        Some((r, a, Some(b))) => {
            if i < r <= e {
                lemma_collect_from(term, parse, s, r, e);
            }
        },
        _ => {},
    }
}

proof fn lemma_emph_step_progress(m: Emph, s: Seq<char>, i: int, k: int, e: int)
    requires
        0 <= k <= e,
    ensures
        emph_step(m, s, i, k, e) matches Some((r, _, _)) ==> k <= r,
    decreases e - k, 1int,
{
    if k < e {
        lemma_bold_progress(s, k, e);
        lemma_italic_progress(s, k, e);
        lemma_bracket_progress(Bracket::Link, s, k, e);
        lemma_emph_step_progress(m, s, i, k + 1, e);
    }
}

proof fn lemma_emph_collect_raw_progress(m: Emph, s: Seq<char>, i: int, e: int)
    requires
        0 <= i <= e,
    ensures
        emph_collect_raw(m, s, i, e).0 >= i,
    decreases e - i, 2int,
{
    lemma_emph_step_progress(m, s, i, i, e);
    match emph_step(m, s, i, i, e) {
        Some((r, a, Some(b))) => {
            if i < r <= e {
                lemma_emph_collect_raw_progress(m, s, r, e);
            }
        },
        _ => {},
    }
}

proof fn lemma_emph_collect_progress(m: Emph, s: Seq<char>, i: int, e: int)
    requires
        0 <= i <= e,
    ensures
        emph_collect(m, s, i, e).0 >= i,
    decreases e - i, 3int,
{
    lemma_emph_collect_raw_progress(m, s, i, e);
}

proof fn lemma_bold_progress(s: Seq<char>, i: int, e: int)
    requires
        0 <= i <= e,
    ensures
        spec_bold(s, i, e) matches Some((r, _)) ==> i < r,
    decreases e - i, 0int,
{
    if crate::scan::tag3(s, i, e, '\'', '\'', '\'') {
        lemma_emph_collect_progress(Emph::Bold, s, i + 3, e);
    }
}

proof fn lemma_italic_progress(s: Seq<char>, i: int, e: int)
    requires
        0 <= i <= e,
    ensures
        spec_italic(s, i, e) matches Some((r, _)) ==> i < r,
    decreases e - i, 0int,
{
    if crate::scan::tag2(s, i, e, '\'', '\'') {
        lemma_emph_collect_progress(Emph::Italic, s, i + 2, e);
    }
}

proof fn lemma_bracket_progress(b: Bracket, s: Seq<char>, i: int, e: int)
    requires
        0 <= i <= e,
    ensures
        spec_bracket(b, s, i, e) matches Some((r, _)) ==> i < r,
{
    if i + 2 <= e {
        let p = i + 2;
        let target = crate::inline::bracket_target(b);
        let label = crate::inline::bracket_label(b);
        lemma_scan_bounds(s, p, e, target);
        lemma_scan_bounds(s, p, e, label);
        let a = scan(s, p, e, target);
        if a < e {
            lemma_scan_bounds(s, a + 1, e, label);
        }
    }
}

proof fn lemma_dlit_progress(s: Seq<char>, i: int, e: int)
    requires
        0 <= i <= e,
    ensures
        spec_dlit(s, i, e) matches Some((r, _)) ==> i < r,
{
    lemma_bold_progress(s, i, e);
    lemma_italic_progress(s, i, e);
    lemma_bracket_progress(Bracket::Link, s, i, e);
    lemma_bracket_progress(Bracket::Image, s, i, e);
    lemma_find2_from(s, i + 2, e, '=', ']');
}

/// The elements of a paragraph.
pub open spec fn line_items(n: Node) -> Seq<Node> {
    match n {
        Node::Line(v) => v,
        _ => Seq::empty(),
    }
}

/// A table cell holds what a paragraph would: for cell text `c` without `|` or
/// line breaks, the row `||c||` has one cell, and its elements are those of the
/// paragraph that `c` makes by itself (so links, text styles and verbatim text
/// are parsed in cells as in paragraphs); the row takes the whole input.
pub proof fn law_cell_holds_paragraph_markup(c: Seq<char>)
    requires
        forall|x: int| 0 <= x < c.len() ==> #[trigger] c[x] != '|' && c[x] != '\n',
    ensures
        ({
            let s = seq!['|', '|'] + c + seq!['|', '|'];
            spec_row(Row::Body, s, 0, s.len() as int) == Some(
                (
                    s.len() as int,
                    Node::TableRow(
                        seq![Node::TableCell(line_items(spec_line(s, 2, 2 + c.len() as int).1))],
                    ),
                ),
            )
        }),
{
    let s = seq!['|', '|'] + c + seq!['|', '|'];
    let nc = c.len() as int;
    let bb = 2 + nc;
    let len = s.len() as int;
    assert(len == bb + 2);
    assert(s[0] == '|' && s[1] == '|' && s[bb] == '|' && s[bb + 1] == '|');
    assert forall|x: int| 2 <= x < bb implies #[trigger] s[x] == c[x - 2] by {}
    assert forall|x: int| 2 <= x < len implies continues(Run::Line, #[trigger] s[x]) by {
        if x < bb {
            assert(s[x] == c[x - 2]);
        }
    }
    lemma_scan_to(s, 2, len, len, Run::Line);
    assert(!is_white_space(s[len - 1]));
    assert(trim_end(s, 2, len) == len);
    assert(row_span(Row::Body, s, 0, len) == Some((len, 2int, bb)));
    // the cell's content is the paragraph's
    let t1 = field_term(Field::Cell, s, bb);
    let p1 = field_parse(Field::Cell, s, bb);
    let t2 = flow_term(Flow::Line, s, bb);
    let p2 = flow_parse(Flow::Line, s, bb);
    assert forall|x: int| 2 <= x < bb implies #[trigger] t1(x) == t2(x) by {
        assert(s[x] == c[x - 2]);
    }
    assert forall|x: int| 2 <= x < bb implies #[trigger] p1(x) == p2(x) by {}
    lemma_collect_raw_same(t1, p1, t2, p2, s, 2, bb);
    let (c2, v) = field_collect(Field::Cell, s, 2, bb);
    assert(v == flow_collect(Flow::Line, s, 2, bb).1);
    // and it is the only cell
    assert forall|x: int| 2 <= x < bb implies (#[trigger] t1(x) matches Some(r) ==> x <= r) by {}
    assert forall|x: int| 2 <= x < bb implies (#[trigger] p1(x) matches Some((r, _)) ==> x < r) by {
        lemma_dlit_progress(s, x, bb);
    }
    lemma_collect_from(t1, p1, s, 2, bb);
    assert(c2 >= 2);
    if c2 < bb {
        assert(s[c2] == c[c2 - 2]);
    }
    assert(!crate::scan::tag2(s, c2, bb, '|', '|'));
    assert(cells(Row::Body, s, 2, bb) == seq![Node::TableCell(v)]);
}

/// A paragraph ends before a line break that any block follows, lists and
/// tables included: for a plain one-line text `p` (not itself the start of a
/// block) and a text `l` that a block parses from, the document `p`, line
/// break, `l` starts with the paragraph of `p` and then that block.
pub proof fn law_paragraph_ends_before_block(p: Seq<char>, l: Seq<char>)
    requires
        plain_text(p),
        p.len() > 0,
        !is_white_space(p[0]),
        p[0] != '!' && p[0] != '-' && p[0] != '|' && !is_list_mark(p[0]),
        l.len() > 0,
        l[0] != '\n',
        spec_pmwiki_inner(p + seq!['\n'] + l, p.len() + 1int, (p + seq!['\n'] + l).len() as int) is Some,
    ensures
        ({
            let s = p + seq!['\n'] + l;
            let d = spec_document(s).1;
            &&& d.len() >= 2
            &&& d[0] == Node::Line(seq![Node::Text(p)])
            &&& d[1] == spec_pmwiki_inner(s, p.len() + 1int, s.len() as int).unwrap().1
        }),
{
    let s = p + seq!['\n'] + l;
    let np = p.len() as int;
    let len = s.len() as int;
    assert(len == np + 1 + l.len());
    assert forall|x: int| 0 <= x < np implies #[trigger] s[x] == p[x] by {}
    assert(s[np] == '\n');
    assert(s[np + 1] == l[0]);
    assert(s.subrange(0, np) =~= p);
    // no block starts at `p`
    assert(s[0] == p[0]);
    lemma_scan_to(s, 0, 0, len, Run::Bangs);
    lemma_scan_to(s, 0, 0, len, Run::White);
    assert(spec_row(Row::Header, s, 0, len) is None);
    assert(spec_row(Row::Body, s, 0, len) is None);
    assert(rows(s, 0, len).1.len() == 0);
    assert(spec_table(s, 0, len) is None);
    assert(spec_pmwiki_inner(s, 0, len) is None);
    // the paragraph runs over `p` and stops before the line break
    let term = flow_term(Flow::Line, s, len);
    let parse = flow_parse(Flow::Line, s, len);
    assert forall|x: int| 0 <= x < np implies (#[trigger] term(x)) is None && parse(x) is None by {
        assert(s[x] == p[x]);
        lemma_plain_no_lit(s, x, len);
    }
    lemma_step_skip(term, parse, s, 0, 0, np, len);
    assert(term(np) == Some(np));
    assert(step_with(term, parse, s, 0, np, len) == Some((np, opt_text(s, 0, np), None::<Node>)));
    assert(opt_seq(opt_text(s, 0, np)) =~= seq![Node::Text(p)]);
    assert(collect_raw_with(term, parse, s, 0, len) == (np, seq![Node::Text(p)]));
    assert(spec_block(s, 0, len) == (np, Node::Line(seq![Node::Text(p)])));
    // then the block
    let blk = spec_pmwiki_inner(s, np + 1, len).unwrap();
    assert(spec_block(s, np + 1, len) == blk);
    assert(spec_blocks(s, np + 1, len).1[0] == blk.1);
    assert(spec_blocks(s, 0, len).1 == seq![Node::Line(seq![Node::Text(p)])] + spec_blocks(
        s,
        np + 1,
        len,
    ).1);
}


/// No quote or line break.
pub open spec fn unquoted(x: Seq<char>) -> bool {
    forall|i: int| 0 <= i < x.len() ==> #[trigger] x[i] != '\'' && x[i] != '\n'
}

proof fn lemma_bold_skip(s: Seq<char>, i: int, k: int, j: int, e: int)
    requires
        0 <= k <= j <= e,
        forall|x: int| k <= x < j ==> (#[trigger] s[x]) != '\'' && s[x] != '\n',
    ensures
        emph_step(Emph::Bold, s, i, k, e) == emph_step(Emph::Bold, s, i, j, e),
    decreases j - k,
{
    if k < j {
        assert(s[k] != '\'' && s[k] != '\n');
        assert(!emph_term(Emph::Bold, s, k, e));
        assert(spec_italic(s, k, e) is None);
        lemma_bold_skip(s, i, k + 1, j, e);
    }
}

/// Inside bold text italic text is italic: for `a` and `c` without quotes or
/// line breaks and a non-empty plain `m`, the bold text made of `a`, `m` in
/// italic quotes, and `c` holds the text `a`, italic `m`, and the text `c`
/// (empty texts left out), and takes the whole input.
pub proof fn law_italic_inside_bold(a: Seq<char>, m: Seq<char>, c: Seq<char>)
    requires
        unquoted(a),
        unquoted(c),
        plain(m),
        m.len() > 0,
    ensures
        ({
            let s = seq!['\'', '\'', '\''] + a + seq!['\'', '\''] + m + seq!['\'', '\''] + c + seq![
                '\'',
                '\'',
                '\'',
            ];
            spec_bold(s, 0, s.len() as int) == Some(
                (
                    s.len() as int,
                    Node::Bold(text_of(a) + seq![Node::Italic(text_of(m))] + text_of(c)),
                ),
            )
        }),
{
    let s = seq!['\'', '\'', '\''] + a + seq!['\'', '\''] + m + seq!['\'', '\''] + c + seq![
        '\'',
        '\'',
        '\'',
    ];
    let na = a.len() as int;
    let nm = m.len() as int;
    let nc = c.len() as int;
    let i0 = 3 + na;
    let m0 = i0 + 2;
    let m1 = m0 + nm;
    let c0 = m1 + 2;
    let e0 = c0 + nc;
    let len = s.len() as int;
    assert(len == e0 + 3);
    assert(s[0] == '\'' && s[1] == '\'' && s[2] == '\'');
    assert forall|x: int| 3 <= x < i0 implies #[trigger] s[x] == a[x - 3] by {}
    assert(s[i0] == '\'' && s[i0 + 1] == '\'');
    assert forall|x: int| m0 <= x < m1 implies #[trigger] s[x] == m[x - m0] by {}
    assert(s[m1] == '\'' && s[m1 + 1] == '\'');
    assert forall|x: int| c0 <= x < e0 implies #[trigger] s[x] == c[x - c0] by {}
    assert(s[e0] == '\'' && s[e0 + 1] == '\'' && s[e0 + 2] == '\'');
    assert(s.subrange(3, i0) =~= a);
    assert(s.subrange(m0, m1) =~= m);
    assert(s.subrange(c0, e0) =~= c);
    // the italic text
    assert forall|x: int| m0 <= x < m1 implies (#[trigger] s[x]) != '\'' && s[x] != '[' && s[x]
        != '\n' by {
        assert(s[x] == m[x - m0]);
    }
    lemma_italic_skip(s, m0, m0, m1, len);
    assert(emph_term(Emph::Italic, s, m1, len));
    assert(emph_step(Emph::Italic, s, m0, m1, len) == Some((m1, opt_text(s, m0, m1), None::<Node>)));
    lemma_opt_text_of(s, m0, m1);
    assert(emph_collect_raw(Emph::Italic, s, m0, len) == (m1, text_of(m)));
    assert(emph_collect(Emph::Italic, s, m0, len) == (m1, text_of(m)));
    let it = Node::Italic(text_of(m));
    assert(spec_italic(s, i0, len) == Some((c0, it)));
    // the bold text around it
    assert forall|x: int| 3 <= x < i0 implies (#[trigger] s[x]) != '\'' && s[x] != '\n' by {
        assert(s[x] == a[x - 3]);
    }
    lemma_bold_skip(s, 3, 3, i0, len);
    assert(s[i0 + 2] == m[0]);
    assert(!emph_term(Emph::Bold, s, i0, len));
    assert(emph_step(Emph::Bold, s, 3, i0, len) == Some((c0, opt_text(s, 3, i0), Some(it))));
    assert forall|x: int| c0 <= x < e0 implies (#[trigger] s[x]) != '\'' && s[x] != '\n' by {
        assert(s[x] == c[x - c0]);
    }
    lemma_bold_skip(s, c0, c0, e0, len);
    assert(emph_term(Emph::Bold, s, e0, len));
    assert(emph_step(Emph::Bold, s, c0, e0, len) == Some((e0, opt_text(s, c0, e0), None::<Node>)));
    assert(emph_collect_raw(Emph::Bold, s, c0, len) == (e0, opt_seq(opt_text(s, c0, e0))));
    lemma_opt_text_of(s, 3, i0);
    lemma_opt_text_of(s, c0, e0);
    let v = text_of(a) + seq![it] + text_of(c);
    assert(emph_collect_raw(Emph::Bold, s, 3, len) == (e0, v));
    assert(v.len() > 0);
    assert(emph_collect(Emph::Bold, s, 3, len) == (e0, v));
}

/// A link's label: for a link target `t` and a non-empty label `l` without
/// brackets or line breaks, `[[t|l]]` is the link to `t` labelled `l`, and
/// `[[t]]` the link to `t` labelled `t`; each takes the whole input.
pub proof fn law_link_label(t: Seq<char>, l: Seq<char>)
    requires
        link_target(t),
        l.len() > 0,
        forall|i: int| 0 <= i < l.len() ==> #[trigger] l[i] != '[' && l[i] != ']' && l[i] != '\n',
    ensures
        ({
            let s = seq!['[', '['] + t + seq!['|'] + l + seq![']', ']'];
            spec_bracket(Bracket::Link, s, 0, s.len() as int) == Some(
                (s.len() as int, Node::Link(t, l)),
            )
        }),
        ({
            let s = seq!['[', '['] + t + seq![']', ']'];
            spec_bracket(Bracket::Link, s, 0, s.len() as int) == Some(
                (s.len() as int, Node::Link(t, t)),
            )
        }),
{
    let s = seq!['[', '['] + t + seq!['|'] + l + seq![']', ']'];
    let nt = t.len() as int;
    let nl = l.len() as int;
    let len = s.len() as int;
    assert(len == nt + nl + 5);
    assert forall|x: int| 2 <= x < 2 + nt implies #[trigger] s[x] == t[x - 2] by {}
    assert(s[2 + nt] == '|');
    assert forall|x: int| 3 + nt <= x < 3 + nt + nl implies #[trigger] s[x] == l[x - 3 - nt] by {}
    assert(s[3 + nt + nl] == ']' && s[4 + nt + nl] == ']');
    assert forall|x: int| 2 <= x < 2 + nt implies continues(Run::LinkTarget, #[trigger] s[x]) by {
        assert(s[x] == t[x - 2]);
    }
    lemma_scan_to(s, 2, 2 + nt, len, Run::LinkTarget);
    assert forall|x: int| 3 + nt <= x < 3 + nt + nl implies continues(
        Run::LinkLabel,
        #[trigger] s[x],
    ) by {
        assert(s[x] == l[x - 3 - nt]);
    }
    lemma_scan_to(s, 3 + nt, 3 + nt + nl, len, Run::LinkLabel);
    assert(s.subrange(2, 2 + nt) =~= t);
    assert(s.subrange(3 + nt, 3 + nt + nl) =~= l);
    assert(spec_bracket(Bracket::Link, s, 0, len) == Some((len, Node::Link(t, l))));
    let s2 = seq!['[', '['] + t + seq![']', ']'];
    let len2 = s2.len() as int;
    assert forall|x: int| 2 <= x < 2 + nt implies #[trigger] s2[x] == t[x - 2] by {}
    assert(s2[2 + nt] == ']' && s2[3 + nt] == ']');
    assert forall|x: int| 2 <= x < 2 + nt implies continues(Run::LinkTarget, #[trigger] s2[x])
        && continues(Run::LinkLabel, s2[x]) by {
        assert(s2[x] == t[x - 2]);
    }
    lemma_scan_to(s2, 2, 2 + nt, len2, Run::LinkTarget);
    lemma_scan_to(s2, 2, 2 + nt, len2, Run::LinkLabel);
    assert(s2.subrange(2, 2 + nt) =~= t);
}

/// An image's label: for a source `t` and a label `l`, both non-empty and
/// without braces or line breaks, and no `|` in `t`, `[{t|l}]` is the image `t`
/// labelled `l`, and `[{t}]` the image `t` with an empty label; each takes the
/// whole input.
pub proof fn law_image_label(t: Seq<char>, l: Seq<char>)
    requires
        t.len() > 0,
        l.len() > 0,
        forall|i: int|
            0 <= i < t.len() ==> #[trigger] t[i] != '{' && t[i] != '}' && t[i] != '|' && t[i]
                != '\n',
        forall|i: int| 0 <= i < l.len() ==> #[trigger] l[i] != '{' && l[i] != '}' && l[i] != '\n',
    ensures
        ({
            let s = seq!['[', '{'] + t + seq!['|'] + l + seq!['}', ']'];
            spec_bracket(Bracket::Image, s, 0, s.len() as int) == Some(
                (s.len() as int, Node::Image(t, l)),
            )
        }),
        ({
            let s = seq!['[', '{'] + t + seq!['}', ']'];
            spec_bracket(Bracket::Image, s, 0, s.len() as int) == Some(
                (s.len() as int, Node::Image(t, Seq::empty())),
            )
        }),
{
    let s = seq!['[', '{'] + t + seq!['|'] + l + seq!['}', ']'];
    let nt = t.len() as int;
    let nl = l.len() as int;
    let len = s.len() as int;
    assert(len == nt + nl + 5);
    assert forall|x: int| 2 <= x < 2 + nt implies #[trigger] s[x] == t[x - 2] by {}
    assert(s[2 + nt] == '|');
    assert forall|x: int| 3 + nt <= x < 3 + nt + nl implies #[trigger] s[x] == l[x - 3 - nt] by {}
    assert(s[3 + nt + nl] == '}' && s[4 + nt + nl] == ']');
    assert forall|x: int| 2 <= x < 2 + nt implies continues(Run::ImageSource, #[trigger] s[x]) by {
        assert(s[x] == t[x - 2]);
    }
    lemma_scan_to(s, 2, 2 + nt, len, Run::ImageSource);
    assert forall|x: int| 3 + nt <= x < 3 + nt + nl implies continues(
        Run::ImageLabel,
        #[trigger] s[x],
    ) by {
        assert(s[x] == l[x - 3 - nt]);
    }
    lemma_scan_to(s, 3 + nt, 3 + nt + nl, len, Run::ImageLabel);
    assert(s.subrange(2, 2 + nt) =~= t);
    assert(s.subrange(3 + nt, 3 + nt + nl) =~= l);
    assert(spec_bracket(Bracket::Image, s, 0, len) == Some((len, Node::Image(t, l))));
    let s2 = seq!['[', '{'] + t + seq!['}', ']'];
    let len2 = s2.len() as int;
    assert forall|x: int| 2 <= x < 2 + nt implies #[trigger] s2[x] == t[x - 2] by {}
    assert(s2[2 + nt] == '}' && s2[3 + nt] == ']');
    assert forall|x: int| 2 <= x < 2 + nt implies continues(Run::ImageSource, #[trigger] s2[x])
        && continues(Run::ImageLabel, s2[x]) by {
        assert(s2[x] == t[x - 2]);
    }
    lemma_scan_to(s2, 2, 2 + nt, len2, Run::ImageSource);
    lemma_scan_to(s2, 2, 2 + nt, len2, Run::ImageLabel);
    assert(s2.subrange(2, 2 + nt) =~= t);
    assert(s2.subrange(2 + nt, 2 + nt) =~= Seq::<char>::empty());
}

/// A heading's level is one less than its `!` marks: for `n` from one to six
/// and a non-empty plain text `x` on one line that ends in neither white space
/// nor `!`, `n + 1` marks, a space and `x` make the heading of level `n` with
/// the text `x`, taking the whole input.
pub proof fn law_heading_level(n: int, x: Seq<char>)
    requires
        1 <= n <= 6,
        plain_text(x),
        x.len() > 0,
        !is_white_space(x.last()),
        x.last() != '!',
    ensures
        ({
            let s = Seq::new((n + 1) as nat, |i: int| '!') + seq![' '] + x;
            spec_heading(s, 0, s.len() as int) == Some(
                (s.len() as int, Node::Heading(n as u8, seq![Node::Text(x)])),
            )
        }),
{
    let marks = Seq::new((n + 1) as nat, |i: int| '!');
    let s = marks + seq![' '] + x;
    let nx = x.len() as int;
    let b = n + 2;
    let len = s.len() as int;
    assert(len == b + nx);
    assert forall|i: int| 0 <= i < n + 1 implies #[trigger] s[i] == '!' by {
        assert(s[i] == marks[i]);
    }
    assert(s[n + 1] == ' ');
    assert forall|i: int| b <= i < len implies #[trigger] s[i] == x[i - b] by {}
    assert forall|i: int| 0 <= i < n + 1 implies continues(Run::Bangs, #[trigger] s[i]) by {
        assert(s[i] == '!');
    }
    lemma_scan_to(s, 0, n + 1, len, Run::Bangs);
    assert forall|i: int| b <= i < len implies continues(Run::Line, #[trigger] s[i]) by {
        assert(s[i] == x[i - b]);
    }
    lemma_scan_to(s, b, len, len, Run::Line);
    assert(s[len - 1] == x.last());
    assert(trim_end(s, b, len) == len);
    assert(!bangs_before(s, len, n));
    assert forall|i: int| b <= i < len implies (#[trigger] field_term(Field::Dlit, s, len)(i)) is None
        && field_parse(Field::Dlit, s, len)(i) is None by {
        assert(s[i] == x[i - b]);
        lemma_plain_no_lit(s, i, len);
    }
    lemma_collect_plain(field_term(Field::Dlit, s, len), field_parse(Field::Dlit, s, len), s, b, len);
    assert(s.subrange(b, len) =~= x);
}


/// A horizontal rule is four `-` alone on their line: followed by the end of
/// the input or a line break, they are a rule that takes the four marks and
/// leaves the line break; followed by anything else, no block starts there.
pub proof fn law_horizontal_rule(l: Seq<char>)
    ensures
        ({
            let s = seq!['-', '-', '-', '-'] + l;
            &&& (l.len() == 0 || l[0] == '\n') ==> spec_pmwiki_inner(s, 0, s.len() as int) == Some(
                (4int, Node::HorizontalLine),
            )
            &&& (l.len() > 0 && l[0] != '\n') ==> spec_pmwiki_inner(s, 0, s.len() as int) is None
        }),
{
    let s = seq!['-', '-', '-', '-'] + l;
    let len = s.len() as int;
    assert(s[0] == '-' && s[1] == '-' && s[2] == '-' && s[3] == '-');
    if l.len() > 0 {
        assert(s[4] == l[0]);
    }
    lemma_scan_to(s, 0, 0, len, Run::Bangs);
    lemma_scan_to(s, 0, 0, len, Run::White);
    assert(spec_row(Row::Header, s, 0, len) is None);
    assert(spec_row(Row::Body, s, 0, len) is None);
    assert(spec_table(s, 0, len) is None);
}

/// A header row: for a non-empty plain text `a` without `|`, `||!a||` is a
/// header row of one header cell holding the text `a`, taking the whole input.
pub proof fn law_header_row(a: Seq<char>)
    requires
        plain_text(a),
        a.len() > 0,
        forall|x: int| 0 <= x < a.len() ==> #[trigger] a[x] != '|',
    ensures
        ({
            let s = seq!['|', '|', '!'] + a + seq!['|', '|'];
            spec_row(Row::Header, s, 0, s.len() as int) == Some(
                (
                    s.len() as int,
                    Node::TableHeaderRow(seq![Node::TableHeaderCell(seq![Node::Text(a)])]),
                ),
            )
        }),
{
    let s = seq!['|', '|', '!'] + a + seq!['|', '|'];
    let na = a.len() as int;
    let bb = 3 + na;
    let len = s.len() as int;
    assert(len == bb + 2);
    assert(s[0] == '|' && s[1] == '|' && s[2] == '!' && s[bb] == '|' && s[bb + 1] == '|');
    assert forall|x: int| 3 <= x < bb implies #[trigger] s[x] == a[x - 3] by {}
    assert forall|x: int| 3 <= x < len implies continues(Run::Line, #[trigger] s[x]) by {
        if x < bb {
            assert(s[x] == a[x - 3]);
        }
    }
    lemma_scan_to(s, 3, len, len, Run::Line);
    assert(row_span(Row::Header, s, 0, len) == Some((len, 3int, bb)));
    let term = field_term(Field::Cell, s, bb);
    let parse = field_parse(Field::Cell, s, bb);
    assert forall|x: int| 3 <= x < bb implies (#[trigger] term(x)) is None && parse(x) is None by {
        assert(s[x] == a[x - 3]);
        lemma_plain_no_lit(s, x, bb);
    }
    lemma_collect_plain(term, parse, s, 3, bb);
    assert(s.subrange(3, bb) =~= a);
    assert forall|x: int| 3 <= x < bb implies (#[trigger] term(x) matches Some(r) ==> x <= r) by {}
    assert forall|x: int| 3 <= x < bb implies (#[trigger] parse(x) matches Some((r, _)) ==> x < r) by {
        lemma_dlit_progress(s, x, bb);
    }
    lemma_collect_from(term, parse, s, 3, bb);
    let (c2, v) = field_collect(Field::Cell, s, 3, bb);
    if c2 < bb {
        assert(s[c2] == a[c2 - 3]);
    }
    assert(!crate::scan::tag3(s, c2, bb, '|', '|', '!'));
    assert(cells(Row::Header, s, 3, bb) == seq![Node::TableHeaderCell(seq![Node::Text(a)])]);
}

} // verus!
