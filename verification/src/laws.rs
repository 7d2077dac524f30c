use vstd::prelude::*;
use crate::inline::{
    emph_collect, emph_collect_raw, emph_step, opt_text, spec_bold, spec_bracket, spec_dlit,
    spec_dont_format, spec_italic, spec_lit, spec_text_style, Bracket, Emph,
};
use crate::block::{
    bangs_before, cells, ends_bars, row_span, rows, rows_more, spec_heading, spec_row, spec_table,
    Row,
};
use crate::doc::{
    flow_collect, flow_parse, spec_block, spec_blocks, spec_line, spec_pmwiki_inner, Flow,
};
use crate::field::{field_collect, field_parse, Field};
use crate::list::{
    child_count, lemma_child_count, list_items, list_line, list_lines_more, list_node, room,
    spec_list, trimmed,
};
use crate::parser::spec_document;
use crate::pmwiki::{opt_seq, Node};
use crate::scan::{at, lemma_scan_bounds, lemma_trim_end_bounds, scan, starts_with, trim_end, Run};
use crate::shape::{all_inline, block_wf, inline_wf, list_wf, row_wf};
use crate::steps::{collect_raw_with, collect_with, step_with};

verus! {

/// A parser's result, if any, is an inline element.
pub open spec fn inline_result(r: Option<(int, Node)>) -> bool {
    r matches Some((_, n)) ==> inline_wf(n)
}

pub open spec fn opt_inline(a: Option<Node>) -> bool {
    a matches Some(x) ==> inline_wf(x)
}

pub open spec fn step_inline(r: Option<(int, Option<Node>, Option<Node>)>) -> bool {
    r matches Some((_, a, b)) ==> opt_inline(a) && opt_inline(b)
}

proof fn lemma_all_inline_concat(a: Seq<Node>, b: Seq<Node>)
    requires
        all_inline(a),
        all_inline(b),
    ensures
        all_inline(a + b),
{
    assert forall|i: int| 0 <= i < (a + b).len() implies inline_wf(#[trigger] (a + b)[i]) by {
        if i < a.len() {
            assert((a + b)[i] == a[i]);
        } else {
            assert((a + b)[i] == b[i - a.len()]);
        }
    }
}

proof fn lemma_opt_text_inline(s: Seq<char>, i: int, k: int)
    requires
        0 <= i <= k <= s.len(),
    ensures
        opt_inline(opt_text(s, i, k)),
        all_inline(opt_seq(opt_text(s, i, k))),
{
    if i < k {
        assert(s.subrange(i, k).len() == k - i);
        assert(opt_seq(opt_text(s, i, k))[0] == opt_text(s, i, k).unwrap());
    }
}

proof fn lemma_step_inline(
    term: spec_fn(int) -> Option<int>,
    parse: spec_fn(int) -> Option<(int, Node)>,
    s: Seq<char>,
    i: int,
    k: int,
    e: int,
)
    requires
        0 <= i <= k <= e <= s.len(),
        forall|x: int| i <= x < e ==> inline_result(#[trigger] parse(x)),
    ensures
        step_inline(step_with(term, parse, s, i, k, e)),
    decreases e - k,
{
    if k < e {
        lemma_opt_text_inline(s, i, k);
        assert(inline_result(parse(k)));
        if term(k) is None && parse(k) is None {
            lemma_step_inline(term, parse, s, i, k + 1, e);
        }
    } else {
        lemma_opt_text_inline(s, i, e);
    }
}

proof fn lemma_collect_raw_inline(
    term: spec_fn(int) -> Option<int>,
    parse: spec_fn(int) -> Option<(int, Node)>,
    s: Seq<char>,
    i: int,
    e: int,
)
    requires
        0 <= i <= e <= s.len(),
        forall|x: int| i <= x < e ==> inline_result(#[trigger] parse(x)),
    ensures
        all_inline(collect_raw_with(term, parse, s, i, e).1),
    decreases e - i,
{
    lemma_step_inline(term, parse, s, i, i, e);
    match step_with(term, parse, s, i, i, e) {
        Some((r, a, Some(b))) => {
            assert(all_inline(opt_seq(a)));
            assert(all_inline(seq![b]));
            lemma_all_inline_concat(opt_seq(a), seq![b]);
            if i < r <= e {
                lemma_collect_raw_inline(term, parse, s, r, e);
                lemma_all_inline_concat(
                    opt_seq(a) + seq![b],
                    collect_raw_with(term, parse, s, r, e).1,
                );
            } else {
                assert(opt_seq(a).push(b) =~= opt_seq(a) + seq![b]);
            }
        },
        Some((r, a, None)) => {
            assert(all_inline(opt_seq(a)));
        },
        None => {},
    }
}

/// What a scan collects, given a parser that only finds inline elements, is
/// inline elements.
pub proof fn lemma_collect_inline(
    term: spec_fn(int) -> Option<int>,
    parse: spec_fn(int) -> Option<(int, Node)>,
    s: Seq<char>,
    i: int,
    e: int,
)
    requires
        0 <= i <= e <= s.len(),
        forall|x: int| i <= x < e ==> inline_result(#[trigger] parse(x)),
    ensures
        all_inline(collect_with(term, parse, s, i, e).1),
{
    lemma_collect_raw_inline(term, parse, s, i, e);
}

proof fn lemma_emph_step_inline(m: Emph, s: Seq<char>, i: int, k: int, e: int)
    requires
        0 <= i <= k <= e <= s.len(),
    ensures
        step_inline(emph_step(m, s, i, k, e)),
    decreases e - k, 1int,
{
    if k < e {
        lemma_opt_text_inline(s, i, k);
        match m {
            Emph::Bold => lemma_italic_inline(s, k, e),
            Emph::Italic => lemma_bold_inline(s, k, e),
        }
        if !crate::inline::emph_term(m, s, k, e) {
            let inner = match m {
                Emph::Bold => spec_italic(s, k, e),
                Emph::Italic => match spec_bold(s, k, e) {
                    Some(x) => Some(x),
                    None => spec_bracket(Bracket::Link, s, k, e),
                },
            };
            if inner is None {
                lemma_emph_step_inline(m, s, i, k + 1, e);
            }
        }
    } else {
        lemma_opt_text_inline(s, i, e);
    }
}

proof fn lemma_emph_collect_raw_inline(m: Emph, s: Seq<char>, i: int, e: int)
    requires
        0 <= i <= e <= s.len(),
    ensures
        all_inline(emph_collect_raw(m, s, i, e).1),
    decreases e - i, 2int,
{
    lemma_emph_step_inline(m, s, i, i, e);
    match emph_step(m, s, i, i, e) {
        Some((r, a, Some(b))) => {
            assert(all_inline(opt_seq(a)));
            assert(all_inline(seq![b]));
            lemma_all_inline_concat(opt_seq(a), seq![b]);
            if i < r <= e {
                lemma_emph_collect_raw_inline(m, s, r, e);
                lemma_all_inline_concat(opt_seq(a) + seq![b], emph_collect_raw(m, s, r, e).1);
            } else {
                assert(opt_seq(a).push(b) =~= opt_seq(a) + seq![b]);
            }
        },
        Some((r, a, None)) => {
            assert(all_inline(opt_seq(a)));
        },
        None => {},
    }
}

proof fn lemma_emph_collect_inline(m: Emph, s: Seq<char>, i: int, e: int)
    requires
        0 <= i <= e <= s.len(),
    ensures
        all_inline(emph_collect(m, s, i, e).1),
    decreases e - i, 3int,
{
    lemma_emph_collect_raw_inline(m, s, i, e);
}

proof fn lemma_bold_inline(s: Seq<char>, i: int, e: int)
    requires
        0 <= i <= e <= s.len(),
    ensures
        inline_result(spec_bold(s, i, e)),
    decreases e - i, 0int,
{
    if crate::scan::tag3(s, i, e, '\'', '\'', '\'') {
        lemma_emph_collect_inline(Emph::Bold, s, i + 3, e);
    }
}

proof fn lemma_italic_inline(s: Seq<char>, i: int, e: int)
    requires
        0 <= i <= e <= s.len(),
    ensures
        inline_result(spec_italic(s, i, e)),
    decreases e - i, 0int,
{
    if crate::scan::tag2(s, i, e, '\'', '\'') {
        lemma_emph_collect_inline(Emph::Italic, s, i + 2, e);
    }
}

/// Links, images, text styles and verbatim text are inline elements.
pub proof fn lemma_dlit_inline(s: Seq<char>, i: int, e: int)
    requires
        0 <= i <= e <= s.len(),
    ensures
        inline_result(spec_lit(s, i, e)),
        inline_result(spec_dlit(s, i, e)),
{
    lemma_bold_inline(s, i, e);
    lemma_italic_inline(s, i, e);
    assert(inline_result(spec_text_style(s, i, e)));
    assert(inline_result(spec_dont_format(s, i, e)));
}

proof fn lemma_field_inline(f: Field, s: Seq<char>, i: int, e: int)
    requires
        0 <= i <= e <= s.len(),
    ensures
        all_inline(field_collect(f, s, i, e).1),
{
    assert forall|x: int| i <= x < e implies inline_result(#[trigger] field_parse(f, s, e)(x)) by {
        lemma_dlit_inline(s, x, e);
    }
    lemma_collect_inline(crate::field::field_term(f, s, e), field_parse(f, s, e), s, i, e);
}

proof fn lemma_heading_wf(s: Seq<char>, i: int, e: int)
    requires
        0 <= i <= e <= s.len(),
    ensures
        spec_heading(s, i, e) matches Some((j, n)) ==> block_wf(n) && i <= j <= e,
{
    let run = scan(s, i, e, Run::Bangs) - i;
    let c = if run > 7 {
        7
    } else {
        run
    };
    let p = i + c;
    if c >= 2 && at(s, p, e, ' ') {
        let b = p + 1;
        lemma_scan_bounds(s, b, e, Run::Line);
        let j = scan(s, b, e, Run::Line);
        lemma_trim_end_bounds(s, b, j);
        let t = trim_end(s, b, j);
        let level = c - 1;
        if t - b >= level && bangs_before(s, t, level) {
            lemma_trim_end_bounds(s, b, t - level);
        }
        let body_end = if t - b >= level && bangs_before(s, t, level) {
            trim_end(s, b, t - level)
        } else {
            t
        };
        lemma_field_inline(Field::Dlit, s, b, body_end);
    }
}

/// A cell of the right kind for a row of kind `kind`.
pub open spec fn cell_of(kind: Row, n: Node) -> bool {
    match kind {
        Row::Header => n matches Node::TableHeaderCell(c) && all_inline(c),
        Row::Body => n matches Node::TableCell(c) && all_inline(c),
    }
}

proof fn lemma_cells_wf(kind: Row, s: Seq<char>, c: int, b: int)
    requires
        0 <= c <= b <= s.len(),
    ensures
        cells(kind, s, c, b).len() > 0,
        forall|x: int| 0 <= x < cells(kind, s, c, b).len() ==> cell_of(kind, #[trigger] cells(kind, s, c, b)[x]),
    decreases b - c,
{
    let (c2, v) = field_collect(Field::Cell, s, c, b);
    lemma_field_inline(Field::Cell, s, c, b);
    let cell = match kind {
        Row::Header => Node::TableHeaderCell(v),
        Row::Body => Node::TableCell(v),
    };
    let (sep, w) = match kind {
        Row::Header => (crate::scan::tag3(s, c2, b, '|', '|', '!'), 3int),
        Row::Body => (crate::scan::tag2(s, c2, b, '|', '|'), 2int),
    };
    if sep && c <= c2 {
        lemma_cells_wf(kind, s, c2 + w, b);
        let rest = cells(kind, s, c2 + w, b);
        assert forall|x: int| 0 <= x < (seq![cell] + rest).len() implies cell_of(kind, #[trigger] (seq![cell] + rest)[x]) by {
            if x > 0 {
                assert((seq![cell] + rest)[x] == rest[x - 1]);
            }
        }
    }
}

proof fn lemma_row_span_bounds(kind: Row, s: Seq<char>, i: int, e: int)
    requires
        0 <= i <= e <= s.len(),
    ensures
        row_span(kind, s, i, e) matches Some((l, a, b)) ==> i <= l <= e && 0 <= a <= b <= e,
{
    let w = match kind {
        Row::Header => 3int,
        Row::Body => 2int,
    };
    if i + w <= e {
        let p = i + w;
        lemma_scan_bounds(s, p, e, Run::Line);
        let q = scan(s, p, e, Run::Line);
        lemma_trim_end_bounds(s, p, q);
        lemma_trim_end_bounds(s, p, e);
    }
}

proof fn lemma_row_wf(kind: Row, s: Seq<char>, i: int, e: int)
    requires
        0 <= i <= e <= s.len(),
    ensures
        spec_row(kind, s, i, e) matches Some((l, n)) ==> row_wf(n) && i <= l <= e && match kind {
            Row::Header => n is TableHeaderRow,
            Row::Body => n is TableRow,
        },
{
    lemma_row_span_bounds(kind, s, i, e);
    if let Some((l, a, b)) = row_span(kind, s, i, e) {
        lemma_cells_wf(kind, s, a, b);
    }
}

/// Body rows, well formed.
pub open spec fn body_rows(v: Seq<Node>) -> bool {
    forall|x: int| 0 <= x < v.len() ==> row_wf(#[trigger] v[x]) && v[x] is TableRow
}

proof fn lemma_rows_more_wf(s: Seq<char>, p: int, e: int)
    requires
        0 <= p <= e <= s.len(),
    ensures
        body_rows(rows_more(s, p, e).1),
        p <= rows_more(s, p, e).0 <= e,
    decreases e - p,
{
    if at(s, p, e, '\n') {
        lemma_row_wf(Row::Body, s, p + 1, e);
        match spec_row(Row::Body, s, p + 1, e) {
            Some((r, n)) => {
                if p < r <= e {
                    lemma_rows_more_wf(s, r, e);
                    let m = rows_more(s, r, e).1;
                    assert forall|x: int| 0 <= x < (seq![n] + m).len() implies row_wf(#[trigger] (seq![n] + m)[x]) && (seq![n] + m)[x] is TableRow by {
                        if x > 0 {
                            assert((seq![n] + m)[x] == m[x - 1]);
                        }
                    }
                }
            },
            None => {},
        }
    }
}

proof fn lemma_rows_wf(s: Seq<char>, p: int, e: int)
    requires
        0 <= p <= e <= s.len(),
    ensures
        body_rows(rows(s, p, e).1),
        p <= rows(s, p, e).0 <= e,
{
    lemma_row_wf(Row::Body, s, p, e);
    match spec_row(Row::Body, s, p, e) {
        Some((r, n)) => {
            lemma_rows_more_wf(s, r, e);
            let m = rows_more(s, r, e).1;
            assert forall|x: int| 0 <= x < (seq![n] + m).len() implies row_wf(#[trigger] (seq![n] + m)[x]) && (seq![n] + m)[x] is TableRow by {
                if x > 0 {
                    assert((seq![n] + m)[x] == m[x - 1]);
                }
            }
        },
        None => {},
    }
}

proof fn lemma_table_wf(s: Seq<char>, i: int, e: int)
    requires
        0 <= i <= e <= s.len(),
    ensures
        spec_table(s, i, e) matches Some((j, n)) ==> block_wf(n) && i <= j <= e,
{
    lemma_row_wf(Row::Header, s, i, e);
    match spec_row(Row::Header, s, i, e) {
        Some((r, h)) => {
            lemma_rows_wf(s, r, e);
            let body = rows(s, r, e).1;
            let v = seq![h] + body;
            assert forall|x: int| 0 <= x < v.len() implies row_wf(#[trigger] v[x]) && (v[x] is TableHeaderRow ==> x == 0) by {
                if x > 0 {
                    assert(v[x] == body[x - 1]);
                }
            }
        },
        None => {
            lemma_rows_wf(s, i, e);
        },
    }
}

/// Line spans that lie in `s`, each starting no later than it ends.
pub open spec fn spans_in(s: Seq<char>, lines: Seq<(int, int)>, lo: int, hi: int) -> bool {
    forall|x: int| lo <= x < hi ==> 0 <= (#[trigger] lines[x]).0 <= lines[x].1 <= s.len()
}

/// An entry of a list: an item of inline elements, or a well-formed list.
pub open spec fn entry_wf(n: Node) -> bool {
    match n {
        Node::ListItem(c) => all_inline(c),
        _ => list_wf(n),
    }
}

proof fn lemma_list_node_wf(s: Seq<char>, tag: Seq<char>, lines: Seq<(int, int)>, lo: int, hi: int)
    requires
        0 <= lo <= hi <= lines.len(),
        spans_in(s, lines, lo, hi),
    ensures
        list_wf(list_node(s, tag, lines, lo, hi)),
    decreases hi - lo, room(s, tag, lines, lo), hi - lo + 1,
{
    if lo < hi {
        lemma_list_items_wf(s, tag, lines, lo, hi, lo);
    }
    let items = if 0 <= lo < hi {
        list_items(s, tag, lines, lo, hi, lo)
    } else {
        Seq::empty()
    };
    assert forall|x: int| 0 <= x < items.len() implies entry_wf(#[trigger] items[x]) by {}
}

proof fn lemma_list_items_wf(
    s: Seq<char>,
    tag: Seq<char>,
    lines: Seq<(int, int)>,
    lo: int,
    hi: int,
    i: int,
)
    requires
        0 <= lo <= i <= hi <= lines.len(),
        spans_in(s, lines, lo, hi),
    ensures
        forall|x: int| 0 <= x < list_items(s, tag, lines, lo, hi, i).len() ==> entry_wf(#[trigger] list_items(s, tag, lines, lo, hi, i)[x]),
    decreases hi - lo, room(s, tag, lines, lo), hi - i,
{
    if i < hi {
        let le = lines[i].1;
        lemma_scan_bounds(s, lines[i].0, le, Run::White);
        let ts = trimmed(s, lines[i]);
        let k = tag.len();
        if starts_with(s, ts, le, tag) && at(s, ts + k, le, ' ') {
            lemma_field_inline(Field::Lit, s, ts + k + 1, le);
            lemma_list_items_wf(s, tag, lines, lo, hi, i + 1);
            let item = Node::ListItem(field_collect(Field::Lit, s, ts + k + 1, le).1);
            let rest = list_items(s, tag, lines, lo, hi, i + 1);
            assert(list_items(s, tag, lines, lo, hi, i) == seq![item] + rest);
            assert forall|x: int| 0 <= x < (seq![item] + rest).len() implies entry_wf(#[trigger] (seq![item] + rest)[x]) by {
                if x > 0 {
                    assert((seq![item] + rest)[x] == rest[x - 1]);
                }
            }
        } else if ts + k + 1 <= le {
            let ctag = Seq::new((k + 1) as nat, |x: int| s[ts + x]);
            let n = child_count(s, ctag, lines, i + 1, hi);
            lemma_child_count(s, ctag, lines, i + 1, hi);
            lemma_list_node_wf(s, ctag, lines, i, i + 1 + n);
            lemma_list_items_wf(s, tag, lines, lo, hi, i + 1 + n);
            let sub = list_node(s, ctag, lines, i, i + 1 + n);
            let rest = list_items(s, tag, lines, lo, hi, i + 1 + n);
            assert(entry_wf(sub));
            assert(list_items(s, tag, lines, lo, hi, i) == seq![sub] + rest);
            assert forall|x: int| 0 <= x < (seq![sub] + rest).len() implies entry_wf(#[trigger] (seq![sub] + rest)[x]) by {
                if x > 0 {
                    assert((seq![sub] + rest)[x] == rest[x - 1]);
                }
            }
        } else {
            lemma_list_items_wf(s, tag, lines, lo, hi, i + 1);
            assert(list_items(s, tag, lines, lo, hi, i) == list_items(s, tag, lines, lo, hi, i + 1));
        }
    }
}

proof fn lemma_list_line_bounds(s: Seq<char>, p: int, e: int, h: char)
    requires
        0 <= p <= e,
    ensures
        list_line(s, p, e, h) matches Some(le) ==> p < le <= e,
{
    lemma_scan_bounds(s, p, e, Run::Blank);
    let q = scan(s, p, e, Run::Blank);
    if q < e {
        lemma_scan_bounds(s, q + 1, e, Run::Marks);
        let r = scan(s, q + 1, e, Run::Marks);
        if r < e {
            lemma_scan_bounds(s, r + 1, e, Run::Line);
        }
    }
}

proof fn lemma_list_lines_more_bounds(s: Seq<char>, p: int, e: int, h: char)
    requires
        0 <= p <= e <= s.len(),
    ensures
        spans_in(s, list_lines_more(s, p, e, h).1, 0, list_lines_more(s, p, e, h).1.len() as int),
        p <= list_lines_more(s, p, e, h).0 <= e,
    decreases e - p,
{
    if at(s, p, e, '\n') {
        lemma_list_line_bounds(s, p + 1, e, h);
        match list_line(s, p + 1, e, h) {
            Some(le) => {
                lemma_list_lines_more_bounds(s, le, e, h);
                let more = list_lines_more(s, le, e, h).1;
                let v = seq![(p + 1, le)] + more;
                assert forall|x: int| 0 <= x < v.len() implies 0 <= (#[trigger] v[x]).0 <= v[x].1 <= s.len() by {
                    if x > 0 {
                        assert(v[x] == more[x - 1]);
                    }
                }
            },
            None => {},
        }
    }
}

proof fn lemma_list_wf(s: Seq<char>, i: int, e: int)
    requires
        0 <= i <= e <= s.len(),
    ensures
        spec_list(s, i, e) matches Some((j, n)) ==> block_wf(n) && i <= j <= e,
{
    lemma_scan_bounds(s, i, e, Run::White);
    let t = scan(s, i, e, Run::White);
    if 0 <= t < e && crate::scan::is_list_mark(s[t]) {
        let h = s[t];
        lemma_list_line_bounds(s, t, e, h);
        match list_line(s, t, e, h) {
            Some(le) => {
                lemma_list_lines_more_bounds(s, le, e, h);
                let more = list_lines_more(s, le, e, h).1;
                let lines = seq![(t, le)] + more;
                assert forall|x: int| 0 <= x < lines.len() implies 0 <= (#[trigger] lines[x]).0 <= lines[x].1 <= s.len() by {
                    if x > 0 {
                        assert(lines[x] == more[x - 1]);
                    }
                }
                lemma_list_node_wf(s, seq![h], lines, 0, lines.len() as int);
            },
            None => {},
        }
    }
}

/// A block found by `pmwiki_inner` is well formed.
pub proof fn lemma_pmwiki_inner_wf(s: Seq<char>, i: int, e: int)
    requires
        0 <= i <= e <= s.len(),
    ensures
        spec_pmwiki_inner(s, i, e) matches Some((_, n)) ==> block_wf(n),
{
    lemma_heading_wf(s, i, e);
    lemma_table_wf(s, i, e);
    lemma_list_wf(s, i, e);
}

proof fn lemma_block_wf(s: Seq<char>, p: int, e: int)
    requires
        0 <= p <= e <= s.len(),
    ensures
        block_wf(spec_block(s, p, e).1),
{
    lemma_pmwiki_inner_wf(s, p, e);
    if spec_pmwiki_inner(s, p, e) is None {
        assert forall|x: int| p <= x < e implies inline_result(#[trigger] flow_parse(Flow::Line, s, e)(x)) by {
            lemma_dlit_inline(s, x, e);
        }
        lemma_collect_inline(crate::doc::flow_term(Flow::Line, s, e), flow_parse(Flow::Line, s, e), s, p, e);
    }
}

proof fn lemma_blocks_wf(s: Seq<char>, p: int, e: int)
    requires
        0 <= p <= e <= s.len(),
    ensures
        spec_blocks(s, p, e).1.len() >= 1,
        forall|x: int| 0 <= x < spec_blocks(s, p, e).1.len() ==> block_wf(#[trigger] spec_blocks(s, p, e).1[x]),
    decreases e - p,
{
    lemma_block_wf(s, p, e);
    let (j, n) = spec_block(s, p, e);
    if p <= j && at(s, j, e, '\n') {
        lemma_blocks_wf(s, j + 1, e);
        let rest = spec_blocks(s, j + 1, e).1;
        assert forall|x: int| 0 <= x < (seq![n] + rest).len() implies block_wf(#[trigger] (seq![n] + rest)[x]) by {
            if x > 0 {
                assert((seq![n] + rest)[x] == rest[x - 1]);
            }
        }
    }
}

/// Every document parses into at least one element, and each element is well
/// formed: a paragraph of inline elements (plain text never empty; bold and
/// italic made of inline elements), a heading of level one to six, a horizontal
/// rule, verbatim text, a table of well-formed rows with a header row only
/// first, or a list of items and lists.
pub proof fn lemma_document_wf(s: Seq<char>)
    ensures
        spec_document(s).1.len() >= 1,
        forall|x: int| 0 <= x < spec_document(s).1.len() ==> block_wf(#[trigger] spec_document(s).1[x]),
{
    lemma_blocks_wf(s, 0, s.len() as int);
}

pub(crate) proof fn lemma_scan_skip(s: Seq<char>, i: int, j: int, e: int, r: Run)
    requires
        0 <= i <= j <= e,
        forall|x: int| i <= x < j ==> crate::scan::continues(r, #[trigger] s[x]),
    ensures
        scan(s, i, e, r) == scan(s, j, e, r),
    decreases j - i,
{
    if i < j {
        lemma_scan_skip(s, i + 1, j, e, r);
    }
}

/// White space before a list changes nothing: parsing a list from anywhere in
/// the white space before it gives the same list, ending at the same place.
pub proof fn lemma_list_skips_white_space(s: Seq<char>, i: int, j: int, e: int)
    requires
        0 <= i <= j <= e,
        forall|x: int| i <= x < j ==> crate::scan::is_white_space(#[trigger] s[x]),
    ensures
        spec_list(s, j, e) == spec_list(s, i, e),
{
    lemma_scan_skip(s, i, j, e, Run::White);
}

} // verus!
