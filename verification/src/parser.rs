use vstd::prelude::*;
use crate::block::{spec_heading, spec_row, spec_table, Row};
use crate::doc::{flow_collect, flow_step, spec_blocks, spec_pmwiki_inner, Flow};
use crate::field::{field_collect, field_step, Field};
use crate::inline::{spec_bracket, Bracket};
use crate::list::spec_list;
use crate::pmwiki::{nodes, opt_node, IPmwiki, Node};
use crate::source::Source;

verus! {

/// A parser that did not match; `input` is the text it was given.
#[derive(Debug, PartialEq, Eq)]
pub struct ParseError<'a> {
    pub input: &'a str,
}

/// What a parser's result says of the model `m` of a run over the whole `input`:
/// on a match ending at `j` with `v`, the unparsed rest is `input[j..]` and the
/// element is `v`; with no match, an error that holds `input`.
pub open spec fn answers<'a>(
    r: Result<(&'a str, IPmwiki<'a>), ParseError<'a>>,
    input: &'a str,
    m: Option<(int, Node)>,
) -> bool {
    match m {
        Some((j, v)) => 0 < j <= input@.len() && r is Ok && r->Ok_0.0@ == input@.subrange(
            j,
            input@.len() as int,
        ) && r->Ok_0.1.node() == v,
        None => r is Err && r->Err_0.input == input,
    }
}

/// The whole document: its blocks and paragraphs, and where they stop.
pub open spec fn spec_document(s: Seq<char>) -> (int, Seq<Node>) {
    spec_blocks(s, 0, s.len() as int)
}

/// The element parsers that a scan can look for.
#[derive(Clone, Copy, Debug, PartialEq, Eq)]
pub enum Parser {
    /// A link, an image or a text style.
    Lit,
    /// Verbatim text, or what `Lit` finds.
    Dlit,
    /// A block: a horizontal rule, heading, verbatim text, table or list.
    PmwikiInner,
}

/// One scanning step with parser `p` over all of `s`.
pub open spec fn parser_step(p: Parser, s: Seq<char>) -> Option<(int, Option<Node>, Option<Node>)> {
    match p {
        Parser::Lit => field_step(Field::Lit, s, 0, s.len() as int),
        Parser::Dlit => field_step(Field::Dlit, s, 0, s.len() as int),
        Parser::PmwikiInner => flow_step(Flow::Block, s, 0, s.len() as int),
    }
}

/// Steps with parser `p` repeated over all of `s` while each ends in an element.
pub open spec fn parser_collect(p: Parser, s: Seq<char>) -> (int, Seq<Node>) {
    match p {
        Parser::Lit => field_collect(Field::Lit, s, 0, s.len() as int),
        Parser::Dlit => field_collect(Field::Dlit, s, 0, s.len() as int),
        Parser::PmwikiInner => flow_collect(Flow::Block, s, 0, s.len() as int),
    }
}

fn rest<'a>(src: &Source<'a>, j: usize) -> (r: &'a str)
    requires
        src.wf(),
        j <= src.chars.len(),
    ensures
        r@ == src.text@.subrange(j as int, src.text@.len() as int),
{
    src.slice(j, src.chars.len())
}

fn answer<'a>(src: &Source<'a>, r: Option<(usize, IPmwiki<'a>)>) -> (a: Result<
    (&'a str, IPmwiki<'a>),
    ParseError<'a>,
>)
    requires
        src.wf(),
        r matches Some((j, _)) ==> 0 < j <= src.chars.len(),
    ensures
        answers(
            a,
            src.text,
            match r {
                Some((j, v)) => Some((j as int, v.node())),
                None => None,
            },
        ),
{
    match r {
        Some((j, v)) => Ok((rest(src, j), v)),
        None => Err(ParseError { input: src.text }),
    }
}

/// Parses a whole document into its blocks and paragraphs. Every input parses;
/// the text after the point where the blocks stop is the rest, which is empty
/// or does not start with a line break.
pub fn try_pmwikis<'a>(input: &'a str) -> (r: Result<(&'a str, Vec<IPmwiki<'a>>), ParseError<'a>>)
    ensures
        r is Ok,
        r->Ok_0.0@.len() == 0 || r->Ok_0.0@[0] != '\n',
        r->Ok_0.0@ == input@.subrange(spec_document(input@).0, input@.len() as int),
        nodes(r->Ok_0.1@) == spec_document(input@).1,
{
    let src = Source::new(input);
    let (j, v) = src.blocks(0, src.chars.len());
    Ok((rest(&src, j), v))
}

/// The blocks and paragraphs of a document.
pub fn pmwikis<'a>(input: &'a str) -> (r: Vec<IPmwiki<'a>>)
    ensures
        nodes(r@) == spec_document(input@).1,
{
    match try_pmwikis(input) {
        Ok((_, v)) => v,
        Err(_) => Vec::new(),
    }
}

/// A block at the start of `input`.
pub fn pmwiki_inner<'a>(input: &'a str) -> (r: Result<(&'a str, IPmwiki<'a>), ParseError<'a>>)
    ensures
        answers(r, input, spec_pmwiki_inner(input@, 0, input@.len() as int)),
{
    let src = Source::new(input);
    let r = src.pmwiki_inner(0, src.chars.len());
    answer(&src, r)
}

/// A list at the start of `input`, after any white space.
pub fn list<'a>(input: &'a str) -> (r: Result<(&'a str, IPmwiki<'a>), ParseError<'a>>)
    ensures
        answers(r, input, spec_list(input@, 0, input@.len() as int)),
{
    let src = Source::new(input);
    let r = src.list(0, src.chars.len());
    answer(&src, r)
}

/// A heading at the start of `input`.
pub fn heading<'a>(input: &'a str) -> (r: Result<(&'a str, IPmwiki<'a>), ParseError<'a>>)
    ensures
        answers(r, input, spec_heading(input@, 0, input@.len() as int)),
{
    let src = Source::new(input);
    let r = src.heading(0, src.chars.len());
    answer(&src, r)
}

/// A link `[[target]]` or `[[target|label]]` at the start of `input`.
pub fn link<'a>(input: &'a str) -> (r: Result<(&'a str, IPmwiki<'a>), ParseError<'a>>)
    ensures
        answers(r, input, spec_bracket(Bracket::Link, input@, 0, input@.len() as int)),
{
    let src = Source::new(input);
    let r = src.bracket(Bracket::Link, 0, src.chars.len());
    answer(&src, r)
}

/// An image `[{source}]` or `[{source|label}]` at the start of `input`.
pub fn image<'a>(input: &'a str) -> (r: Result<(&'a str, IPmwiki<'a>), ParseError<'a>>)
    ensures
        answers(r, input, spec_bracket(Bracket::Image, input@, 0, input@.len() as int)),
{
    let src = Source::new(input);
    let r = src.bracket(Bracket::Image, 0, src.chars.len());
    answer(&src, r)
}

/// A table header row at the start of `input`.
pub fn table_header_row<'a>(input: &'a str) -> (r: Result<(&'a str, IPmwiki<'a>), ParseError<'a>>)
    ensures
        answers(r, input, spec_row(Row::Header, input@, 0, input@.len() as int)),
{
    let src = Source::new(input);
    let r = src.row(Row::Header, 0, src.chars.len());
    answer(&src, r)
}

/// A table body row at the start of `input`.
pub fn table_cell_row<'a>(input: &'a str) -> (r: Result<(&'a str, IPmwiki<'a>), ParseError<'a>>)
    ensures
        answers(r, input, spec_row(Row::Body, input@, 0, input@.len() as int)),
{
    let src = Source::new(input);
    let r = src.row(Row::Body, 0, src.chars.len());
    answer(&src, r)
}

/// A table at the start of `input`.
pub fn table<'a>(input: &'a str) -> (r: Result<(&'a str, IPmwiki<'a>), ParseError<'a>>)
    ensures
        answers(r, input, spec_table(input@, 0, input@.len() as int)),
{
    let src = Source::new(input);
    let r = src.table(0, src.chars.len());
    answer(&src, r)
}

/// Scans `input` for the first place where `parser` matches. Returns the plain
/// text before it (none if empty) and what it found, with the rest after it;
/// where it matches nowhere, all of a non-empty `input` as text; an error for an
/// empty `input`.
pub fn take_while_parser_fail<'a>(parser: Parser, input: &'a str) -> (r: Result<
    (&'a str, (Option<IPmwiki<'a>>, Option<IPmwiki<'a>>)),
    ParseError<'a>,
>)
    ensures
        match parser_step(parser, input@) {
            Some((j, a, b)) => r is Ok && r->Ok_0.0@ == input@.subrange(j, input@.len() as int)
                && opt_node(r->Ok_0.1.0) == a && opt_node(r->Ok_0.1.1) == b,
            None => r is Err && r->Err_0.input == input,
        },
{
    let src = Source::new(input);
    let e = src.chars.len();
    let r = match parser {
        Parser::Lit => src.field_step(Field::Lit, 0, e),
        Parser::Dlit => src.field_step(Field::Dlit, 0, e),
        Parser::PmwikiInner => src.flow_step(Flow::Block, 0, e),
    };
    match r {
        Some((j, a, b)) => Ok((rest(&src, j), (a, b))),
        None => Err(ParseError { input }),
    }
}

/// Repeats `take_while_parser_fail` for as long as each scan ends in an element
/// and collects what they return, in order; an error when that is nothing.
pub fn collect_opt_pair1<'a>(parser: Parser, input: &'a str) -> (r: Result<
    (&'a str, Vec<IPmwiki<'a>>),
    ParseError<'a>,
>)
    ensures
        parser_collect(parser, input@).1.len() == 0 ==> r is Err && r->Err_0.input == input,
        parser_collect(parser, input@).1.len() > 0 ==> r is Ok && r->Ok_0.0@ == input@.subrange(
            parser_collect(parser, input@).0,
            input@.len() as int,
        ) && nodes(r->Ok_0.1@) == parser_collect(parser, input@).1,
{
    let src = Source::new(input);
    let e = src.chars.len();
    let (j, v) = match parser {
        Parser::Lit => src.field_collect(Field::Lit, 0, e),
        Parser::Dlit => src.field_collect(Field::Dlit, 0, e),
        Parser::PmwikiInner => src.flow_collect(Flow::Block, 0, e),
    };
    if v.len() == 0 {
        Err(ParseError { input })
    } else {
        Ok((rest(&src, j), v))
    }
}

} // verus!
