use slimr::parser::ast::from_str;
use slimr::parser::ast_types::{Attr, Cont, Elem, Node};
use slimr::parser::decl::{parse_declaration, ParseError, ParseErrorKind};
use slimr::parser::scan::{count_line, find_line, scan, CharClass};
use slimr::text::{from_chars, has_char, to_chars};

#[test]
fn characters_round_trip() {
    let v = to_chars("a\u{e9}\u{2713}z");
    assert_eq!(v, vec!['a', '\u{e9}', '\u{2713}', 'z']);
    assert_eq!(from_chars(&v, 1, 3), "\u{e9}\u{2713}");
    assert_eq!(from_chars(&v, 2, 2), "");
    assert_eq!(from_chars(&v, 0, 4), "a\u{e9}\u{2713}z");
    assert_eq!(to_chars(""), Vec::<char>::new());
}

#[test]
fn finds_a_character() {
    assert!(has_char("say \"hi\"", '"'));
    assert!(!has_char("say 'hi'", '"'));
    assert!(!has_char("", '"'));
    assert!(has_char("\"", '"'));
}

#[test]
fn classes_of_characters() {
    for c in ['a', 'z', 'A', 'Z', '0', '9', '-', '_'] {
        assert!(CharClass::Name.test(c), "{:?}", c);
    }
    for c in [' ', '.', '#', '=', '"', '\'', '|', '\n', '{', '\u{e9}', '/', ':', '@', '[', '`'] {
        assert!(!CharClass::Name.test(c), "{:?}", c);
    }
    assert!(CharClass::Space.test(' '));
    assert!(!CharClass::Space.test('\t'));
    assert!(CharClass::Except('x').test('y'));
    assert!(!CharClass::Except('x').test('x'));
}

#[test]
fn runs_end_where_the_class_ends() {
    let v = to_chars("  ab-1 c");
    assert_eq!(scan(&v, 0, v.len(), CharClass::Space), 2);
    assert_eq!(scan(&v, 2, v.len(), CharClass::Name), 6);
    assert_eq!(scan(&v, 2, 4, CharClass::Name), 4);
    assert_eq!(scan(&v, 6, v.len(), CharClass::Name), 6);
    assert_eq!(scan(&v, 0, v.len(), CharClass::Except('c')), 7);
    assert_eq!(scan(&v, 0, v.len(), CharClass::Except('\n')), 8);
    assert_eq!(scan(&v, 8, 8, CharClass::Space), 8);
}

#[test]
fn lines_are_found_and_counted() {
    let v = to_chars("a\n\n   \n  b\nc");
    assert_eq!(find_line(&v, 0), 0);
    assert_eq!(find_line(&v, 2), 7);
    assert_eq!(find_line(&v, 7), 7);
    assert_eq!(find_line(&v, 11), 11);
    assert_eq!(find_line(&v, 12), 12);
    assert_eq!(count_line(&v, 0), 1);
    assert_eq!(count_line(&v, 1), 1);
    assert_eq!(count_line(&v, 2), 2);
    assert_eq!(count_line(&v, 7), 4);
    assert_eq!(count_line(&v, 11), 5);
    let blank = to_chars("  \n ");
    assert_eq!(find_line(&blank, 0), blank.len());
}

#[test]
fn one_declaration() {
    let v = to_chars("xx a.b rest");
    assert_eq!(
        parse_declaration(&v, 3, v.len()),
        Ok(Node::ELEM(Elem {
            tag: "a".to_string(),
            id: None,
            classes: Some(vec!["b".to_string()]),
            attr: None,
            cont: Some(Cont::LINE("rest".to_string())),
            children: None,
        }))
    );
    assert_eq!(
        parse_declaration(&v, 3, 6),
        Ok(Node::ELEM(Elem::from_ta_cl("a", vec!["b".to_string()])))
    );
    assert_eq!(
        parse_declaration(&v, 2, v.len()),
        Err(ParseErrorKind::MalformedTag)
    );
    assert_eq!(
        parse_declaration(&v, 3, 3),
        Err(ParseErrorKind::MalformedTag)
    );
}

#[test]
fn text_beyond_ascii_is_kept() {
    let mut e = Elem::from_ta_cl("p", vec!["a".to_string()]);
    e.attr = Some(vec![Attr {
        name: "t".to_string(),
        value: "\u{e9}".to_string(),
    }]);
    e.cont = Some(Cont::LINE("\u{2713} ok".to_string()));
    e.children = Some(vec![Node::ELEM(Elem::from_ta_col(
        "q",
        "\u{4e16}\u{754c}",
    ))]);
    assert_eq!(
        from_str("p.a t=\"\u{e9}\" \u{2713} ok\n  q \u{4e16}\u{754c}"),
        Ok(vec![Node::ELEM(e)])
    );
    assert_eq!(
        from_str("p\n\u{e9}"),
        Err(ParseError {
            kind: ParseErrorKind::MalformedTag,
            line: 2
        })
    );
}
