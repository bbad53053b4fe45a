use slimr::parser::ast_types::{Attr, Cont, Elem, Node};
use slimr::renderer::{render_ast, render_elem_content, render_node};

fn strings(items: &[&str]) -> Vec<String> {
    items.iter().map(|s| s.to_string()).collect()
}

#[test]
fn renders_simple_tag() {
    assert_eq!(render_ast(vec![Node::ELEM(Elem::from_ta("hello"))]), "<hello />");
}

#[test]
fn renders_two_tags() {
    assert_eq!(
        render_ast(vec![
            Node::ELEM(Elem::from_ta("hello")),
            Node::ELEM(Elem::from_ta("world"))
        ]),
        "<hello /><world />"
    );
}

#[test]
fn renders_tag_cont() {
    assert_eq!(
        render_ast(vec![Node::ELEM(Elem::from_ta_col("hello", "world"))]),
        "<hello>world</hello>"
    );
}

#[test]
fn renders_tag_children() {
    assert_eq!(
        render_ast(vec![Node::ELEM(Elem::from_ta_ch(
            "hello",
            vec![Node::ELEM(Elem::from_ta("world"))]
        ))]),
        "<hello><world /></hello>"
    );
}

#[test]
fn renders_id() {
    assert_eq!(
        render_ast(vec![Node::ELEM(Elem::from_ta_id("hello", "world"))]),
        "<hello id=\"world\" />"
    );
}

#[test]
fn renders_classes() {
    assert_eq!(
        render_ast(vec![Node::ELEM(Elem::from_ta_cl(
            "hello",
            strings(&["world", "universe"])
        ))]),
        "<hello class=\"world universe\" />"
    );
}

#[test]
fn renders_attributes() {
    assert_eq!(
        render_ast(vec![Node::ELEM(Elem::from_ta_at(
            "hello",
            vec![
                Attr {
                    name: "world".to_string(),
                    value: "great".to_string()
                },
                Attr {
                    name: "sun".to_string(),
                    value: "shining".to_string()
                }
            ]
        ))]),
        "<hello world=\"great\" sun=\"shining\" />"
    );
}

#[test]
fn renders_single_quoted() {
    assert_eq!(
        render_ast(vec![Node::ELEM(Elem::from_ta_at(
            "img",
            vec![Attr {
                name: "Mr".to_string(),
                value: "Thomas \"Neo\" Anderson".to_string()
            }]
        ))]),
        "<img Mr='Thomas \"Neo\" Anderson' />"
    );
}

#[test]
fn renders_attributes_on_children() {
    assert_eq!(
        render_ast(vec![Node::ELEM(Elem::from_ta_at_ch(
            "hello",
            vec![Attr {
                name: "world".to_string(),
                value: "great".to_string()
            }],
            vec![Node::ELEM(Elem::from_ta_at(
                "how",
                vec![Attr {
                    name: "are".to_string(),
                    value: "you?".to_string()
                }]
            ))]
        ))]),
        "<hello world=\"great\"><how are=\"you?\" /></hello>"
    );
}

#[test]
fn renders_nothing_for_no_nodes() {
    assert_eq!(render_ast(vec![]), "");
}

#[test]
fn attribute_quotes_follow_the_value() {
    let plain = Attr {
        name: "a".to_string(),
        value: "it's".to_string(),
    };
    assert_eq!(plain.to_string(), "a=\"it's\"");
    let quoted = Attr {
        name: "a".to_string(),
        value: "say \"hi\" and 'bye'".to_string(),
    };
    assert_eq!(quoted.to_string(), "a='say \"hi\" and 'bye''");
    let empty = Attr {
        name: "a".to_string(),
        value: String::new(),
    };
    assert_eq!(empty.to_string(), "a=\"\"");
}

#[test]
fn block_is_joined_with_breaks() {
    let block = Cont::BLOCK(strings(&["a", "b", "c"]));
    assert_eq!(render_elem_content(&block), "a<br>b<br>c");
    assert_eq!(render_elem_content(&Cont::BLOCK(strings(&["a"]))), "a");
    assert_eq!(render_elem_content(&Cont::BLOCK(vec![])), "");
    assert_eq!(render_elem_content(&Cont::LINE("x<y".to_string())), "x<y");
}

#[test]
fn plain_form_of_content() {
    assert_eq!(Cont::LINE("one".to_string()).to_string(), "one");
    assert_eq!(Cont::BLOCK(strings(&["a", "b"])).to_string(), "a\nb\n");
}

#[test]
fn empty_block_closes_the_tag_itself() {
    let e = Elem::from_ta_cob("p", vec![]);
    assert_eq!(render_node(&Node::ELEM(e)), "<p />");
    let e = Elem::from_ta_cob("p", strings(&[""]));
    assert_eq!(render_node(&Node::ELEM(e)), "<p />");
    let e = Elem::from_ta_col("p", "");
    assert_eq!(render_node(&Node::ELEM(e)), "<p />");
}

#[test]
fn descendant_text_wraps_the_ancestors() {
    let leaf = Elem::from_ta_col("b", "x");
    let mid = Elem::from_ta_ch("i", vec![Node::ELEM(leaf)]);
    let top = Elem::from_ta_ch("p", vec![Node::ELEM(mid)]);
    assert_eq!(render_node(&Node::ELEM(top)), "<p><i><b>x</b></i></p>");
}

#[test]
fn everything_at_once_in_order() {
    let mut e = Elem::from_ta_id_cl_cob(
        "div",
        "main",
        strings(&["b", "a"]),
        strings(&["one", "two"]),
    );
    e.attr = Some(vec![
        Attr {
            name: "z".to_string(),
            value: "1".to_string(),
        },
        Attr {
            name: "a".to_string(),
            value: "2".to_string(),
        },
        Attr {
            name: "z".to_string(),
            value: "1".to_string(),
        },
    ]);
    e.children = Some(vec![
        Node::ELEM(Elem::from_ta("y")),
        Node::ELEM(Elem::from_ta("x")),
    ]);
    assert_eq!(
        render_node(&Node::ELEM(e)),
        "<div id=\"main\" class=\"b a\" z=\"1\" a=\"2\" z=\"1\">one<br>two<y /><x /></div>"
    );
}

#[test]
fn constructors_fill_the_named_fields() {
    let e = Elem::from_ta_at_cob(
        "t",
        vec![Attr {
            name: "n".to_string(),
            value: "v".to_string(),
        }],
        strings(&["l"]),
    );
    assert_eq!(e.tag, "t");
    assert_eq!(e.id, None);
    assert_eq!(e.classes, None);
    assert_eq!(e.attr.as_ref().map(|a| a.len()), Some(1));
    assert_eq!(e.cont, Some(Cont::BLOCK(strings(&["l"]))));
    assert_eq!(e.children, None);
    let e = Elem::from_ta_id_cl("t", "i", strings(&["c"]));
    assert_eq!(e.id, Some("i".to_string()));
    assert_eq!(e.classes, Some(strings(&["c"])));
    assert_eq!(e.cont, None);
}
