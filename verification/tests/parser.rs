use creole::creole::ICreole::{
    Bold, BulletList, ForceLinebreak, Heading, HorizontalLine, Image, Italic, Line, Link, ListItem,
    NumberedList, Table, TableCell, TableHeaderCell, TableHeaderRow, TableRow, Text,
};
use creole::grammar::Markup::{CreoleInner, Lit};
use creole::parser::{
    collect_opt_pair1, creoles, heading, image, link, list, table, table_header_row,
    take_while_parser_fail, try_creoles,
};

#[test]
fn text_tests() {
    assert_eq!(creoles("ab1"), vec![Line(vec![Text("ab1")])]);
}

#[test]
fn text_style_tests() {
    assert_eq!(try_creoles("t"), Ok(("", vec![Line(vec![Text("t")])])));

    assert_eq!(
        try_creoles("**b**"),
        Ok(("", vec![Line(vec![Bold(vec![Text("b")])])]))
    );

    assert_eq!(
        try_creoles("//i//"),
        Ok(("", vec![Line(vec![Italic(vec![Text("i")])])]))
    );

    assert_eq!(
        try_creoles("a**b**//c//d"),
        Ok((
            "",
            vec![Line(vec![
                Text("a"),
                Bold(vec![Text("b")]),
                Italic(vec![Text("c")]),
                Text("d")
            ])]
        ))
    );
    assert_eq!(
        try_creoles("**a//b//c**"),
        Ok((
            "",
            vec![Line(vec![Bold(vec![
                Text("a"),
                Italic(vec![Text("b")]),
                Text("c")
            ])])]
        ))
    );
}

#[test]
fn linebreak_tests() {
    assert_eq!(
        try_creoles("a\\\\b"),
        Ok(("", vec![Line(vec![Text("a"), ForceLinebreak, Text("b"),])]))
    );

    assert_eq!(creoles("a\\b"), vec![Line(vec![Text("a\\b")])]);

    assert_eq!(
        try_creoles("a\nb\n\nc"),
        Ok(("", vec![Line(vec![Text("a\nb")]), Line(vec![Text("c")])]))
    );
}

#[test]
fn list_tests() {
    assert_eq!(list("* "), Ok(("", BulletList(vec![ListItem(vec![])]))));
    assert_eq!(
        list("* a"),
        Ok(("", BulletList(vec![ListItem(vec![Text("a")])])))
    );
    assert_eq!(
        list("** b"),
        Ok((
            "",
            BulletList(vec![BulletList(vec![ListItem(vec![Text("b")])])])
        ))
    );
    assert_eq!(
        list("*** c"),
        Ok((
            "",
            BulletList(vec![BulletList(vec![BulletList(vec![ListItem(vec![
                Text("c")
            ])])])])
        ))
    );
    assert_eq!(
        list(
            "* a
** b"
        ),
        Ok((
            "",
            BulletList(vec![
                ListItem(vec![Text("a")]),
                BulletList(vec![ListItem(vec![Text("b")])]),
            ])
        ))
    );
    assert_eq!(
        list(
            "* a
** b
** c"
        ),
        Ok((
            "",
            BulletList(vec![
                ListItem(vec![Text("a")]),
                BulletList(vec![ListItem(vec![Text("b")]), ListItem(vec![Text("c")]),])
            ])
        ))
    );
    assert_eq!(
        list(
            "* a
** ab
* b
** ba"
        ),
        Ok((
            "",
            BulletList(vec![
                ListItem(vec![Text("a")]),
                BulletList(vec![ListItem(vec![Text("ab")])]),
                ListItem(vec![Text("b")]),
                BulletList(vec![ListItem(vec![Text("ba")])])
            ])
        ))
    );
    assert_eq!(
        list(
            "* [[a]]
** //b//
** **c**"
        ),
        Ok((
            "",
            BulletList(vec![
                ListItem(vec![Link("a", "a")]),
                BulletList(vec![
                    ListItem(vec![Italic(vec![Text("b")])]),
                    ListItem(vec![Bold(vec![Text("c")])]),
                ]),
            ])
        ))
    );
    assert_eq!(
        list(
            "* a
** aa
** ab
* b
** ba"
        ),
        Ok((
            "",
            BulletList(vec![
                ListItem(vec![Text("a")]),
                BulletList(vec![ListItem(vec![Text("aa")]), ListItem(vec![Text("ab")]),]),
                ListItem(vec![Text("b")]),
                BulletList(vec![ListItem(vec![Text("ba")])]),
            ])
        ))
    );
    assert_eq!(
        creoles(
            "* a
** aa
** ab
* b
*# b1"
        ),
        vec![BulletList(vec![
            ListItem(vec![Text("a")]),
            BulletList(vec![ListItem(vec![Text("aa")]), ListItem(vec![Text("ab")]),]),
            ListItem(vec![Text("b")]),
            NumberedList(vec![ListItem(vec![Text("b1")])])
        ])]
    );
    assert_eq!(
        try_creoles(
            "* a
*# a1
*# a2
*## a31
#### 1111
#### 1112
### 112
##* 11a
##* 11b
##*# 11c1
##*# 11c2
* b"
        ),
        Ok((
            "",
            vec![
                BulletList(vec![
                    ListItem(vec![Text("a")]),
                    NumberedList(vec![
                        ListItem(vec![Text("a1")]),
                        ListItem(vec![Text("a2")]),
                        NumberedList(vec![ListItem(vec![Text("a31")])])
                    ])
                ]),
                NumberedList(vec![NumberedList(vec![
                    NumberedList(vec![
                        NumberedList(vec![
                            ListItem(vec![Text("1111")]),
                            ListItem(vec![Text("1112")])
                        ]),
                        ListItem(vec![Text("112")])
                    ]),
                    BulletList(vec![
                        ListItem(vec![Text("11a")]),
                        ListItem(vec![Text("11b")]),
                        NumberedList(vec![
                            ListItem(vec![Text("11c1")]),
                            ListItem(vec![Text("11c2")])
                        ])
                    ])
                ])]),
                BulletList(vec![ListItem(vec![Text("b")])])
            ]
        ))
    );
}

#[test]
fn parser_tests() {
    assert_eq!(
        take_while_parser_fail(Lit, "a b **a**"),
        Ok(("", (Some(Text("a b ")), Some(Bold(vec![Text("a")])),)))
    );
    assert_eq!(
        collect_opt_pair1(Lit, "a b **a**"),
        Ok(("", vec![Text("a b "), Bold(vec![Text("a")]),]))
    );
    assert_eq!(
        collect_opt_pair1(CreoleInner, "a\n= b"),
        Ok(("", vec![Text("a\n"), Heading(1, vec![Text("b")]),]))
    );
    assert_eq!(
        collect_opt_pair1(Lit, "a b **a**"),
        Ok(("", vec![Text("a b "), Bold(vec![Text("a")]),]))
    );
    assert_eq!(
        collect_opt_pair1(Lit, "[[a|b]] //Live// Editor ([[c|d]])"),
        Ok((
            "",
            vec![
                Link("a", "b"),
                Text(" "),
                Italic(vec![Text("Live")]),
                Text(" Editor ("),
                Link("c", "d"),
                Text(")"),
            ]
        ))
    );
}

#[test]
fn heading_tests() {
    assert_eq!(heading("= "), Ok(("", Heading(1, vec![]))));
    assert_eq!(heading("= a"), Ok(("", Heading(1, vec![Text("a")]))));
    assert_eq!(
        heading("= [[a]]"),
        Ok(("", Heading(1, vec![Link("a", "a")])))
    );
    assert_eq!(
        heading("= a:[[a]]"),
        Ok(("", Heading(1, vec![Text("a:"), Link("a", "a")])))
    );
    assert_eq!(
        try_creoles("= a"),
        Ok(("", vec![Heading(1, vec![Text("a")])]))
    );
    assert_eq!(
        try_creoles("= a:[[a]]"),
        Ok(("", vec![Heading(1, vec![Text("a:"), Link("a", "a")])]))
    );

    assert_eq!(heading("=== b"), Ok(("", Heading(3, vec![Text("b")]))));
    assert_eq!(heading("==== c"), Ok(("", Heading(4, vec![Text("c")]))));
    assert_eq!(creoles("== b"), vec![Heading(2, vec![Text("b")])]);
    assert_eq!(creoles("=== c"), vec![Heading(3, vec![Text("c")])]);

    assert_eq!(
        try_creoles("= [[a]]//a"),
        Ok(("", vec![Heading(1, vec![Link("a", "a"), Text("//a")])]))
    );
    assert_eq!(try_creoles("= [[http://www.wikicreole.org|Creole]] //Live// Editor ([[https://github.com/chidea/wasm-creole-live-editor|github]])"), Ok(("", vec![
        Heading(1, vec![
            Link("http://www.wikicreole.org", "Creole"),
            Text(" "),
            Italic(vec![Text("Live")]),
            Text(" Editor ("),
            Link("https://github.com/chidea/wasm-creole-live-editor", "github"),
            Text(")"),
        ])])));
}

#[test]
fn link_tests() {
    assert_eq!(creoles("[[a]]"), vec![Line(vec![Link("a", "a")])]);
    assert_eq!(
        creoles("[[https://google.com|google]]"),
        vec![Line(vec![Link("https://google.com", "google")])]
    );
    assert_eq!(link("[[a]]"), Ok(("", Link("a", "a"))));
    assert_eq!(creoles("[a]"), vec![Line(vec![Text("[a]")])]);
    assert_eq!(link("[[link|label]]"), Ok(("", Link("link", "label"))));
    assert_eq!(
        link("[[https://google.com|google]]"),
        Ok(("", Link("https://google.com", "google")))
    );
}

#[test]
fn table_tests() {
    assert_eq!(
        table_header_row("|=a|=|=c|"),
        Ok((
            "",
            TableHeaderRow(vec![
                TableHeaderCell(vec![Text("a")]),
                TableHeaderCell(vec![]),
                TableHeaderCell(vec![Text("c")]),
            ])
        ))
    );
    assert_eq!(
        table("|=a|=|=c|"),
        Ok((
            "",
            Table(vec![TableHeaderRow(vec![
                TableHeaderCell(vec![Text("a")]),
                TableHeaderCell(vec![]),
                TableHeaderCell(vec![Text("c")]),
            ])])
        ))
    );

    assert_eq!(
        table(
            "|=|=table|=header|
|a|table|row|
|b|table|row|
|c||empty|"
        ),
        Ok((
            "",
            Table(vec![
                TableHeaderRow(vec![
                    TableHeaderCell(vec![]),
                    TableHeaderCell(vec![Text("table")]),
                    TableHeaderCell(vec![Text("header")]),
                ]),
                TableRow(vec![
                    TableCell(vec![Text("a")]),
                    TableCell(vec![Text("table")]),
                    TableCell(vec![Text("row")]),
                ]),
                TableRow(vec![
                    TableCell(vec![Text("b")]),
                    TableCell(vec![Text("table")]),
                    TableCell(vec![Text("row")]),
                ]),
                TableRow(vec![
                    TableCell(vec![Text("c")]),
                    TableCell(vec![]),
                    TableCell(vec![Text("empty")]),
                ]),
            ])
        ))
    );
    assert_eq!(
        try_creoles(
            "|=|=a|=b|
|0|1|2|
|3|4|5|"
        ),
        Ok((
            "",
            vec![Table(vec![
                TableHeaderRow(vec![
                    TableHeaderCell(vec![]),
                    TableHeaderCell(vec![Text("a")]),
                    TableHeaderCell(vec![Text("b")])
                ]),
                TableRow(vec![
                    TableCell(vec![Text("0")]),
                    TableCell(vec![Text("1")]),
                    TableCell(vec![Text("2")])
                ]),
                TableRow(vec![
                    TableCell(vec![Text("3")]),
                    TableCell(vec![Text("4")]),
                    TableCell(vec![Text("5")])
                ])
            ])]
        ))
    );
}

#[test]
fn image_tests() {
    assert_eq!(image("{{a.jpg}}"), Ok(("", Image("a.jpg", ""))));
    assert_eq!(image("{{a.jpg|label}}"), Ok(("", Image("a.jpg", "label"))));
    assert_eq!(creoles("{{a.jpg}}"), vec![Line(vec![Image("a.jpg", "")])]);
    assert_eq!(
        creoles("{{a.jpg|label}}"),
        vec![Line(vec![Image("a.jpg", "label")])]
    );

    assert_eq!(
        creoles("{{a.jpg|[[label]]}}"),
        vec![Line(vec![Image("a.jpg", "[[label]]")])]
    );
}

#[test]
fn other_tests() {
    assert_eq!(try_creoles(""), Ok(("", vec![Line(vec![])])));
    assert_eq!(try_creoles("----"), Ok(("", vec![HorizontalLine])));
    assert_eq!(creoles("----"), vec![HorizontalLine]);
    assert_eq!(
        creoles("----\na"),
        vec![HorizontalLine, Line(vec![Text("a")])]
    );
}

#[test]
fn mixed_tests() {
    assert_eq!(
        try_creoles("= 大"),
        Ok(("", vec![Heading(1, vec![Text("大")])]))
    );
    assert_eq!(
        try_creoles("= a\n= b\n----"),
        Ok((
            "",
            vec![
                Heading(1, vec![Text("a")]),
                Heading(1, vec![Text("b")]),
                HorizontalLine,
            ]
        ))
    );
    assert_eq!(
        try_creoles(
            "= t

= A"
        ),
        Ok((
            "",
            vec![
                Heading(1, vec![Text("t")]),
                Line(vec![]),
                Heading(1, vec![Text("A")]),
            ]
        ))
    );
}
