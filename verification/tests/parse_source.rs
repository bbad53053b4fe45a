use slimr::parser::ast::from_str;
use slimr::parser::ast_types::{Attr, Cont, Elem, Include, Node};
use slimr::parser::decl::{ParseError, ParseErrorKind};

fn strings(items: &[&str]) -> Vec<String> {
    items.iter().map(|s| s.to_string()).collect()
}

fn fails(source: &str, kind: ParseErrorKind, line: usize) {
    assert_eq!(from_str(source), Err(ParseError { kind, line }), "{:?}", source);
}

#[test]
fn empty_source_has_no_nodes() {
    assert_eq!(from_str(""), Ok(vec![]));
    assert_eq!(from_str("\n\n"), Ok(vec![]));
    assert_eq!(from_str("   \n \n"), Ok(vec![]));
}

#[test]
fn single_tag() {
    assert_eq!(from_str("hello"), Ok(vec![Node::ELEM(Elem::from_ta("hello"))]));
    assert_eq!(from_str("hello\n"), Ok(vec![Node::ELEM(Elem::from_ta("hello"))]));
    assert_eq!(
        from_str("my-tag_1"),
        Ok(vec![Node::ELEM(Elem::from_ta("my-tag_1"))])
    );
}

#[test]
fn shorthand_equals_explicit_fields() {
    assert_eq!(
        from_str("div#main.a.b"),
        Ok(vec![Node::ELEM(Elem::from_ta_id_cl(
            "div",
            "main",
            strings(&["a", "b"])
        ))])
    );
    assert_eq!(
        from_str("div.a#main.b"),
        Ok(vec![Node::ELEM(Elem::from_ta_id_cl(
            "div",
            "main",
            strings(&["a", "b"])
        ))])
    );
    assert_eq!(
        from_str("p#x"),
        Ok(vec![Node::ELEM(Elem::from_ta_id("p", "x"))])
    );
    assert_eq!(
        from_str("p.world.universe"),
        Ok(vec![Node::ELEM(Elem::from_ta_cl(
            "p",
            strings(&["world", "universe"])
        ))])
    );
    let by_hand = Elem {
        tag: "div".to_string(),
        id: Some("main".to_string()),
        classes: Some(strings(&["a", "b"])),
        attr: None,
        cont: None,
        children: None,
    };
    assert_eq!(from_str("div#main.a.b"), Ok(vec![Node::ELEM(by_hand)]));
}

#[test]
fn attributes_lose_their_quotes() {
    let expected = Elem::from_ta_at(
        "img",
        vec![
            Attr {
                name: "src".to_string(),
                value: "a b.png".to_string(),
            },
            Attr {
                name: "alt".to_string(),
                value: "say \"hi\"".to_string(),
            },
            Attr {
                name: "src".to_string(),
                value: "".to_string(),
            },
        ],
    );
    assert_eq!(
        from_str("img src=\"a b.png\"   alt='say \"hi\"' src=''"),
        Ok(vec![Node::ELEM(expected)])
    );
}

#[test]
fn rest_of_the_line_is_content() {
    assert_eq!(
        from_str("h1 Hello  World "),
        Ok(vec![Node::ELEM(Elem::from_ta_col("h1", "Hello  World "))])
    );
    assert_eq!(
        from_str("h1 {{arg}}"),
        Ok(vec![Node::ELEM(Elem::from_ta_col("h1", "{{arg}}"))])
    );
    assert_eq!(
        from_str("h1   "),
        Ok(vec![Node::ELEM(Elem::from_ta("h1"))])
    );
    let mut e = Elem::from_ta_at(
        "a",
        vec![Attr {
            name: "href".to_string(),
            value: "/".to_string(),
        }],
    );
    e.cont = Some(Cont::LINE("x = \"y\"".to_string()));
    assert_eq!(from_str("a href=\"/\" x = \"y\""), Ok(vec![Node::ELEM(e)]));
}

#[test]
fn nesting_follows_indentation() {
    let source = "ul\n  li one\n  li\n    b two\n\n  li three\np\n";
    let expected = vec![
        Node::ELEM(Elem::from_ta_ch(
            "ul",
            vec![
                Node::ELEM(Elem::from_ta_col("li", "one")),
                Node::ELEM(Elem::from_ta_ch(
                    "li",
                    vec![Node::ELEM(Elem::from_ta_col("b", "two"))],
                )),
                Node::ELEM(Elem::from_ta_col("li", "three")),
            ],
        )),
        Node::ELEM(Elem::from_ta("p")),
    ];
    assert_eq!(from_str(source), Ok(expected));
}

#[test]
fn text_lines_make_a_block() {
    let source = "p\n  | first\n  |second\n  |  third\n  |\nq";
    let expected = vec![
        Node::ELEM(Elem::from_ta_cob(
            "p",
            strings(&["first", "second", " third", ""]),
        )),
        Node::ELEM(Elem::from_ta("q")),
    ];
    assert_eq!(from_str(source), Ok(expected));
}

#[test]
fn content_line_and_children_together() {
    let mut e = Elem::from_ta_ch("p", vec![Node::ELEM(Elem::from_ta("b"))]);
    e.cont = Some(Cont::LINE("text".to_string()));
    assert_eq!(from_str("p text\n  b"), Ok(vec![Node::ELEM(e)]));
}

#[test]
fn inclusion_line() {
    assert_eq!(
        from_str("include parts/head.slimr\nmain\n  include  a b"),
        Ok(vec![
            Node::INCLUDE(Include {
                path: "parts/head.slimr".to_string()
            }),
            Node::ELEM(Elem::from_ta_ch(
                "main",
                vec![Node::INCLUDE(Include {
                    path: "a b".to_string()
                })]
            )),
        ])
    );
    assert_eq!(
        from_str("included x"),
        Ok(vec![Node::ELEM(Elem::from_ta_col("included", "x"))])
    );
}

#[test]
fn malformed_tag_lines() {
    fails("#id", ParseErrorKind::MalformedTag, 1);
    fails("ok\n=x", ParseErrorKind::MalformedTag, 2);
    fails("p#a#b", ParseErrorKind::MalformedTag, 1);
    fails("p#", ParseErrorKind::MalformedTag, 1);
    fails("p. x", ParseErrorKind::MalformedTag, 1);
    fails("p!x", ParseErrorKind::MalformedTag, 1);
    fails("include", ParseErrorKind::MalformedTag, 1);
    fails("include   ", ParseErrorKind::MalformedTag, 1);
    fails("include#a b", ParseErrorKind::MalformedTag, 1);
    fails("\n\n| text", ParseErrorKind::MalformedTag, 3);
}

#[test]
fn unterminated_quotes() {
    fails("a href=\"x", ParseErrorKind::UnterminatedQuote, 1);
    fails("p\n  a href='x\"", ParseErrorKind::UnterminatedQuote, 2);
}

#[test]
fn bad_indentation() {
    fails(" p", ParseErrorKind::BadIndentation, 1);
    fails("  p", ParseErrorKind::BadIndentation, 1);
    fails("p\n   q", ParseErrorKind::BadIndentation, 2);
    fails("p\n    q", ParseErrorKind::BadIndentation, 2);
    fails("p\n  q\n r", ParseErrorKind::BadIndentation, 3);
    fails("p\n  | text\n    q", ParseErrorKind::BadIndentation, 3);
    fails("p\n  | text\n    | deeper", ParseErrorKind::BadIndentation, 3);
}

#[test]
fn mixed_content() {
    fails("p\n  | text\n  q", ParseErrorKind::MixedContent, 3);
    fails("p\n  q\n  | text", ParseErrorKind::MixedContent, 3);
    fails("p line\n  | text", ParseErrorKind::MixedContent, 2);
}

#[test]
fn inclusion_with_children() {
    fails("include a\n  p", ParseErrorKind::IncludeWithChildren, 2);
    fails("div\n  include a\n\n    | t", ParseErrorKind::IncludeWithChildren, 4);
}

#[test]
fn first_fault_in_reading_order_wins() {
    fails("p#\n q", ParseErrorKind::MalformedTag, 1);
    fails("p\n q\nr#", ParseErrorKind::BadIndentation, 2);
}
