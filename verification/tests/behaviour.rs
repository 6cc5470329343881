use creole::creole::ICreole::{
    Bold, BulletList, DontFormat, ForceLinebreak, Heading, HorizontalLine, Image, Italic, Line,
    Link, ListItem, NumberedList, Table, TableCell, TableRow, Text,
};
use creole::parser::{
    creole_inner, creoles, heading, hello_parser, image, link, list, table, table_header_row,
    try_creoles,
};
use creole::prelude::ICreole;
use creole::grammar::Markup::{CreoleInner, Lit};
use creole::parser::{collect_opt_pair1, take_while_parser_fail};
use nom::error::{Error, ErrorKind};

fn failure(rest: &str, code: ErrorKind) -> nom::Err<Error<&str>> {
    nom::Err::Error(Error::new(rest, code))
}

#[test]
fn plain_line_is_one_text() {
    assert_eq!(creoles("just words, nothing else"), vec![Line(vec![Text("just words, nothing else")])]);
}

#[test]
fn single_line_break_continues_paragraph() {
    assert_eq!(creoles("one\ntwo"), vec![Line(vec![Text("one\ntwo")])]);
}

#[test]
fn blank_line_separates_paragraphs() {
    assert_eq!(
        creoles("one\n\ntwo"),
        vec![Line(vec![Text("one")]), Line(vec![Text("two")])]
    );
}

#[test]
fn heading_levels() {
    assert_eq!(creoles("====== six"), vec![Heading(6, vec![Text("six")])]);
    assert_eq!(creoles("= x=y"), vec![Heading(1, vec![Text("x=y")])]);
    assert!(heading("======= seven").is_err());
    assert!(heading("=nospace").is_err());
    assert!(heading("x").is_err());
}

#[test]
fn bold_and_italic_lines() {
    assert_eq!(creoles("**strong**"), vec![Line(vec![Bold(vec![Text("strong")])])]);
    assert_eq!(creoles("//slant//"), vec![Line(vec![Italic(vec![Text("slant")])])]);
    assert_eq!(
        creoles("**a //b// c**"),
        vec![Line(vec![Bold(vec![Text("a "), Italic(vec![Text("b")]), Text(" c")])])]
    );
    assert_eq!(creoles("**open"), vec![Line(vec![Text("**open")])]);
}

#[test]
fn forced_line_break() {
    assert_eq!(creoles("\\\\"), vec![Line(vec![ForceLinebreak])]);
}

#[test]
fn links_and_images() {
    assert_eq!(link("[[t|l]] rest"), Ok((" rest", Link("t", "l"))));
    assert_eq!(link("[[only]]"), Ok(("", Link("only", "only"))));
    assert!(link("[[]]").is_err());
    assert!(link("[[a").is_err());
    assert!(link("[[a|b").is_err());
    assert!(link("a").is_err());
    assert_eq!(image("{{p.png|pic}}x"), Ok(("x", Image("p.png", "pic"))));
    assert!(image("{{}}").is_err());
    assert!(image("{p}").is_err());
}

#[test]
fn lists() {
    assert_eq!(list("# one"), Ok(("", NumberedList(vec![ListItem(vec![Text("one")])]))));
    assert_eq!(
        list("* a\n* b\nplain"),
        Ok((
            "\nplain",
            BulletList(vec![ListItem(vec![Text("a")]), ListItem(vec![Text("b")])])
        ))
    );
    assert_eq!(
        list("* **x**"),
        Ok(("", BulletList(vec![ListItem(vec![Bold(vec![Text("x")])])])))
    );
    assert!(list("*nospace").is_err());
    assert!(list("- a").is_err());
    assert_eq!(
        creoles("* a\n# b"),
        vec![
            BulletList(vec![ListItem(vec![Text("a")])]),
            NumberedList(vec![ListItem(vec![Text("b")])])
        ]
    );
}

#[test]
fn tables() {
    assert_eq!(
        table("|x|y|"),
        Ok(("", Table(vec![TableRow(vec![TableCell(vec![Text("x")]), TableCell(vec![Text("y")])])])))
    );
    assert!(table("|x").is_err());
    assert!(table("x|").is_err());
    assert!(table_header_row("|a|").is_err());
    assert_eq!(
        creoles("|1|\n|2|\ntext"),
        vec![
            Table(vec![
                TableRow(vec![TableCell(vec![Text("1")])]),
                TableRow(vec![TableCell(vec![Text("2")])]),
            ]),
            Line(vec![Text("text")]),
        ]
    );
}

#[test]
fn unformatted_block() {
    assert_eq!(
        creoles("{{{\n**not bold**\n}}}"),
        vec![DontFormat("**not bold**")]
    );
    assert_eq!(
        creole_inner("{{{\nx\n}}}tail"),
        Ok(("tail", DontFormat("x")))
    );
    assert_eq!(
        try_creoles("{{{\nx\n}}}tail"),
        Ok(("tail", vec![DontFormat("x")]))
    );
}

#[test]
fn horizontal_rule_and_blocks() {
    assert_eq!(creole_inner("----"), Ok(("", HorizontalLine)));
    assert!(creole_inner("plain").is_err());
    assert_eq!(try_creoles("----x"), Ok(("x", vec![HorizontalLine])));
    assert_eq!(
        creoles("text\n----"),
        vec![Line(vec![Text("text")]), HorizontalLine]
    );
}

#[test]
fn empty_and_newlines() {
    assert_eq!(creoles(""), vec![Line(vec![])]);
    assert_eq!(creoles("\n"), vec![Line(vec![Text("\n")])]);
    assert_eq!(creoles("\n\n"), vec![Line(vec![]), Line(vec![])]);
}

#[test]
fn unicode_text() {
    assert_eq!(creoles("é **ü**"), vec![Line(vec![Text("é "), Bold(vec![Text("ü")])])]);
}

#[test]
fn hello() {
    assert_eq!(hello_parser("hello"), Ok(("", "hello")));
    assert_eq!(hello_parser("hello world"), Ok((" world", "hello")));
    assert!(hello_parser("goodbye hello again").is_err());
    assert!(hello_parser("hell").is_err());
}

#[test]
fn clone_keeps_the_tree() {
    let v = creoles("= t\n* a\n** b");
    let w: Vec<ICreole> = v.iter().map(|c| c.clone()).collect();
    assert_eq!(v, w);
}

#[test]
fn failures_say_where_and_why() {
    assert_eq!(heading("x"), Err(failure("x", ErrorKind::Char)));
    assert_eq!(heading("==x"), Err(failure("x", ErrorKind::Char)));
    assert_eq!(heading("======= seven"), Err(failure("= seven", ErrorKind::Char)));
    assert_eq!(link("x"), Err(failure("x", ErrorKind::Tag)));
    assert_eq!(link("[[a"), Err(failure("", ErrorKind::Tag)));
    assert_eq!(link("[[a|b"), Err(failure("", ErrorKind::Tag)));
    assert_eq!(link("[[]]"), Err(failure("]]", ErrorKind::IsNot)));
    assert_eq!(image("{{a}"), Err(failure("}", ErrorKind::Tag)));
    assert_eq!(image("{a}"), Err(failure("{a}", ErrorKind::Tag)));
    assert_eq!(table_header_row("|a|"), Err(failure("|a|", ErrorKind::Tag)));
    assert_eq!(table_header_row("|=a"), Err(failure("a", ErrorKind::Verify)));
    assert_eq!(table("x"), Err(failure("x", ErrorKind::Tag)));
    assert_eq!(list("- a"), Err(failure("- a", ErrorKind::OneOf)));
    assert_eq!(list(""), Err(failure("", ErrorKind::OneOf)));
    assert_eq!(list("*a"), Err(failure("*a", ErrorKind::Tag)));
    assert_eq!(creole_inner("plain"), Err(failure("plain", ErrorKind::OneOf)));
    assert_eq!(hello_parser("bye"), Err(failure("bye", ErrorKind::Tag)));
    assert_eq!(take_while_parser_fail(Lit, ""), Err(failure("", ErrorKind::Eof)));
    assert_eq!(collect_opt_pair1(Lit, ""), Err(failure("", ErrorKind::Eof)));
    assert_eq!(take_while_parser_fail(CreoleInner, ""), Err(failure("", ErrorKind::Eof)));
    assert_eq!(collect_opt_pair1(CreoleInner, ""), Err(failure("", ErrorKind::Eof)));
}

#[test]
fn item_steps() {
    assert_eq!(take_while_parser_fail(Lit, "plain"), Ok(("", (Some(Text("plain")), None))));
    assert_eq!(take_while_parser_fail(Lit, "[[x]]y"), Ok(("y", (None, Some(Link("x", "x"))))));
    assert_eq!(
        collect_opt_pair1(Lit, "a\\\\b"),
        Ok(("", vec![Text("a"), ForceLinebreak, Text("b")]))
    );
}

#[test]
fn block_steps() {
    assert_eq!(
        take_while_parser_fail(CreoleInner, "ab\n----\nc"),
        Ok(("\nc", (Some(Text("ab\n")), Some(HorizontalLine))))
    );
    assert_eq!(take_while_parser_fail(CreoleInner, "= h"), Ok(("", (None, Some(Heading(1, vec![Text("h")]))))));
    assert_eq!(take_while_parser_fail(CreoleInner, "just text"), Ok(("", (Some(Text("just text")), None))));
    assert_eq!(
        collect_opt_pair1(CreoleInner, "x\n* a\ny"),
        Ok(("", vec![Text("x\n"), BulletList(vec![ListItem(vec![Text("a")])]), Text("\ny")]))
    );
    assert_eq!(
        collect_opt_pair1(CreoleInner, "----**"),
        Ok(("", vec![HorizontalLine, Text("**")]))
    );
}

fn check_shape(c: &ICreole) {
    match c {
        Text(t) => assert!(!t.is_empty()),
        Heading(n, v) => {
            assert!(1 <= *n && *n <= 6);
            v.iter().for_each(check_shape);
        }
        BulletList(v) | NumberedList(v) => {
            for x in v {
                assert!(matches!(x, ListItem(_) | BulletList(_) | NumberedList(_)));
                check_shape(x);
            }
        }
        Table(v) => {
            for x in v {
                assert!(matches!(x, ICreole::TableHeaderRow(_) | TableRow(_)));
                check_shape(x);
            }
        }
        ICreole::TableHeaderRow(v) => {
            for x in v {
                assert!(matches!(x, ICreole::TableHeaderCell(_)));
                check_shape(x);
            }
        }
        TableRow(v) => {
            for x in v {
                assert!(matches!(x, TableCell(_)));
                check_shape(x);
            }
        }
        Line(v) | Bold(v) | Italic(v) | ListItem(v) | ICreole::TableHeaderCell(v) | TableCell(v) => {
            v.iter().for_each(check_shape)
        }
        _ => {}
    }
}

#[test]
fn trees_are_well_formed() {
    let doc = "= t\n* a\n*# b\n** **c**\n|=h|=|\n|x||\n\na //i// [[l|m]]\n----\n{{{\nraw\n}}}";
    for c in creoles(doc).iter() {
        check_shape(c);
    }
}
