use pmwiki_nom::parser::{
    collect_opt_pair1, heading, image, link, list, pmwiki_inner, pmwikis, table, table_cell_row,
    table_header_row, take_while_parser_fail, try_pmwikis, ParseError, Parser,
};
use pmwiki_nom::pmwiki::IPmwiki::{
    BulletList, DontFormat, Heading, HorizontalLine, Line, ListItem, NumberedList, Table,
    TableCell, TableHeaderCell, TableHeaderRow, TableRow, Text,
};

#[test]
fn every_input_parses_into_something() {
    assert_eq!(pmwikis(""), vec![Line(vec![])]);
    assert_eq!(pmwikis("\n"), vec![Line(vec![Text("\n")])]);
}

#[test]
fn parsing_stops_before_text_that_no_line_break_leads_to() {
    assert_eq!(try_pmwikis("[=a=]b"), Ok(("b", vec![DontFormat("a")])));
    assert_eq!(pmwikis("[=a=]b"), vec![DontFormat("a")]);
    assert_eq!(
        try_pmwikis("||!a||\nfoo"),
        Ok((
            "foo",
            vec![Table(vec![TableHeaderRow(vec![TableHeaderCell(vec![Text("a")])])])]
        ))
    );
}

#[test]
fn heading_levels_run_from_one_to_six() {
    assert_eq!(pmwikis("!!!!!!! x"), vec![Heading(6, vec![Text("x")])]);
    assert_eq!(pmwikis("!!!!!!!! x"), vec![Line(vec![Text("!!!!!!!! x")])]);
    assert_eq!(heading("! a"), Err(ParseError { input: "! a" }));
}

#[test]
fn heading_drops_closing_marks_of_its_level() {
    assert_eq!(heading("!! title !"), Ok(("", Heading(1, vec![Text("title")]))));
    assert_eq!(heading("!!! t !! "), Ok(("", Heading(2, vec![Text("t")]))));
    assert_eq!(heading("!! a\nb"), Ok(("\nb", Heading(1, vec![Text("a")]))));
}

#[test]
fn failed_parsers_report_their_input() {
    assert_eq!(link("[[a"), Err(ParseError { input: "[[a" }));
    assert_eq!(link("[[a|b]c]]"), Err(ParseError { input: "[[a|b]c]]" }));
    assert_eq!(image("x"), Err(ParseError { input: "x" }));
    assert_eq!(list("a"), Err(ParseError { input: "a" }));
    assert_eq!(table("|a|"), Err(ParseError { input: "|a|" }));
    assert_eq!(table_header_row("||a||"), Err(ParseError { input: "||a||" }));
    assert_eq!(pmwiki_inner("plain"), Err(ParseError { input: "plain" }));
    assert_eq!(take_while_parser_fail(Parser::Lit, ""), Err(ParseError { input: "" }));
    assert_eq!(collect_opt_pair1(Parser::Lit, ""), Err(ParseError { input: "" }));
}

#[test]
fn scans_find_plain_text_when_nothing_matches() {
    assert_eq!(
        take_while_parser_fail(Parser::Dlit, "abc"),
        Ok(("", (Some(Text("abc")), None)))
    );
    assert_eq!(collect_opt_pair1(Parser::Lit, "abc"), Ok(("", vec![Text("abc")])));
    assert_eq!(
        take_while_parser_fail(Parser::Dlit, "x[=y=]z"),
        Ok(("z", (Some(Text("x")), Some(DontFormat("y")))))
    );
}

#[test]
fn list_skips_leading_white_space() {
    assert_eq!(
        list("\t \u{3000}* a"),
        Ok(("", BulletList(vec![ListItem(vec![Text("a")])])))
    );
    assert_eq!(list("x* a"), Err(ParseError { input: "x* a" }));
}

#[test]
fn numbered_lists() {
    assert_eq!(
        pmwikis("# one\n# two"),
        vec![NumberedList(vec![
            ListItem(vec![Text("one")]),
            ListItem(vec![Text("two")])
        ])]
    );
}

#[test]
fn rows_leave_their_line_break() {
    assert_eq!(
        table_cell_row("||a||\nmore"),
        Ok(("\nmore", TableRow(vec![TableCell(vec![Text("a")])])))
    );
    assert_eq!(pmwiki_inner("----\nx"), Ok(("\nx", HorizontalLine)));
}

#[test]
fn paragraphs_end_before_blocks_and_blank_lines() {
    assert_eq!(
        pmwikis("a\n!! b"),
        vec![Line(vec![Text("a")]), Heading(1, vec![Text("b")])]
    );
    assert_eq!(
        pmwikis("a\n\n\nb"),
        vec![Line(vec![Text("a")]), Line(vec![Text("\nb")])]
    );
    assert_eq!(pmwikis("----a"), vec![Line(vec![Text("----a")])]);
}

#[test]
fn emphasis_stays_on_one_line() {
    assert_eq!(pmwikis("'''a\nb'''"), vec![Line(vec![Text("'''a\nb'''")])]);
}

#[test]
fn verbatim_text_keeps_markup() {
    assert_eq!(
        pmwikis("a [='''x'''=] b"),
        vec![Line(vec![Text("a "), DontFormat("'''x'''"), Text(" b")])]
    );
}
