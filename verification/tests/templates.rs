use slimr::binder::{substitute, BindingError};
use slimr::parser::ast::from_str;
use slimr::parser::ast_types::{Elem, Include, Node};
use slimr::parser::decl::{ParseError, ParseErrorKind};
use slimr::renderer::{
    include_paths, render_ast, render_ast_with, render_bound, render_path, render_source,
    IncludeResolutionError, RenderError,
};
use slimr::table::Table;
use slimr::template_manager::TemplateManager;

fn bindings(pairs: &[(&str, &str)]) -> Table {
    let mut t = Table::new();
    for (k, v) in pairs {
        t.insert(k, v);
    }
    t
}

#[test]
fn renders_single_var() {
    let b = bindings(&[("arg", "hello")]);
    assert_eq!(
        render_bound("h1 {{arg}}", &TemplateManager::new(), &b),
        Ok("<h1>hello</h1>".to_string())
    );
}

#[test]
fn renders_two_vars() {
    let b = bindings(&[("first", "John"), ("last", "Smith")]);
    assert_eq!(
        render_bound("h1 Hello Mr. {{first}} {{last}}", &TemplateManager::new(), &b),
        Ok("<h1>Hello Mr. John Smith</h1>".to_string())
    );
}

#[test]
fn handles_lifetimes() {
    let arg: &str = "hello";
    let b = bindings(&[("arg", arg)]);
    assert_eq!(
        render_bound("h1 {{arg}}", &TemplateManager::new(), &b),
        Ok("<h1>hello</h1>".to_string())
    );
}

#[test]
fn reads_slimr_file() {
    let mut tm = TemplateManager::new();
    tm.insert("testing/templates/basic_tag.slimr", "h1 Hello {{name}}\n");
    let rendered = render_path("testing/templates/basic_tag.slimr", &tm).unwrap();
    let b = bindings(&[("name", "World")]);
    assert_eq!(substitute(&rendered, &b), Ok("<h1>Hello World</h1>".to_string()));
}

#[test]
fn placeholders_pass_through_rendering() {
    assert_eq!(
        render_source("h1 {{arg}}", &TemplateManager::new()),
        Ok("<h1>{{arg}}</h1>".to_string())
    );
}

#[test]
fn unbound_placeholder_is_an_error() {
    let b = bindings(&[("a", "1")]);
    assert_eq!(
        substitute("x {{a}} {{b}}", &b),
        Err(BindingError { position: 8 })
    );
    assert_eq!(
        render_bound("p {{b}}", &TemplateManager::new(), &b),
        Err(RenderError::Binding(BindingError { position: 3 }))
    );
}

#[test]
fn substitution_edge_cases() {
    let b = bindings(&[("a", "1"), ("a", "2"), ("", "empty"), ("x", "{{a}}")]);
    assert_eq!(substitute("{{a}}", &b), Ok("2".to_string()));
    assert_eq!(substitute("{{}}", &b), Ok("empty".to_string()));
    assert_eq!(substitute("{{x}}", &b), Ok("{{a}}".to_string()));
    assert_eq!(substitute("open {{a", &b), Ok("open {{a".to_string()));
    assert_eq!(substitute("{a}}", &b), Ok("{a}}".to_string()));
    assert_eq!(substitute("", &b), Ok(String::new()));
    assert_eq!(substitute("{{a}}{{a}}!", &b), Ok("22!".to_string()));
}

#[test]
fn table_keeps_the_last_entry() {
    let mut t = Table::new();
    assert_eq!(t.get("k"), None);
    t.insert("k", "one");
    t.insert("other", "x");
    t.insert("k", "two");
    assert_eq!(t.get("k"), Some("two".to_string()));
    assert_eq!(t.get("other"), Some("x".to_string()));
    assert_eq!(t.get("K"), None);
}

#[test]
fn inclusion_is_spliced_in_place() {
    let mut tm = TemplateManager::new();
    tm.insert("parts/head", "header\n  h1 Title\n");
    tm.insert("parts/foot", "footer bye");
    let source = "include parts/head\nmain\n  p text\n  include parts/foot\n";
    assert_eq!(
        render_source(source, &tm),
        Ok("<header><h1>Title</h1></header><main><p>text</p><footer>bye</footer></main>"
            .to_string())
    );
    let inline = "header\n  h1 Title\nmain\n  p text\n  footer bye\n";
    assert_eq!(render_source(inline, &tm), render_source(source, &tm));
}

#[test]
fn missing_inclusion_fails_the_rendering() {
    let mut tm = TemplateManager::new();
    tm.insert("a", "p\n  include b\n");
    let missing = |path: &str| {
        Err(RenderError::IncludeResolution(
            IncludeResolutionError::PathNotFound(path.to_string()),
        ))
    };
    assert_eq!(
        render_source("h1 fine\ninclude nowhere\nh2 fine", &tm),
        missing("nowhere")
    );
    assert_eq!(
        render_source("div\n  p ok\n  include nowhere", &tm),
        missing("nowhere")
    );
    assert_eq!(render_source("include a", &tm), missing("b"));
    assert_eq!(render_path("nowhere", &tm), missing("nowhere"));
    assert_eq!(render_path("a", &tm), missing("b"));
    assert_eq!(
        render_bound("include nowhere", &tm, &Table::new()),
        missing("nowhere")
    );
}

#[test]
fn circular_inclusion_is_detected() {
    let mut tm = TemplateManager::new();
    tm.insert("a", "div\n  include b\n");
    tm.insert("b", "include a");
    tm.insert("self", "include self");
    let cycle = |path: &str| {
        Err(RenderError::IncludeResolution(
            IncludeResolutionError::CycleDetected(path.to_string()),
        ))
    };
    assert_eq!(render_path("a", &tm), cycle("a"));
    assert_eq!(render_path("b", &tm), cycle("b"));
    assert_eq!(render_path("self", &tm), cycle("self"));
    assert_eq!(render_source("include a", &tm), cycle("a"));
    assert_eq!(render_source("p\ninclude self", &tm), cycle("self"));
}

#[test]
fn long_chain_and_repeated_inclusion_are_no_circle() {
    let mut tm = TemplateManager::new();
    tm.insert("t0", "p end");
    for i in 1..=40 {
        tm.insert(&format!("t{}", i), &format!("include t{}", i - 1));
    }
    assert_eq!(render_source("include t40", &tm), Ok("<p>end</p>".to_string()));
    assert_eq!(render_path("t40", &tm), Ok("<p>end</p>".to_string()));
    assert_eq!(
        render_source("include t1\ninclude t1\ndiv\n  include t0", &tm),
        Ok("<p>end</p><p>end</p><div><p>end</p></div>".to_string())
    );
    assert_eq!(tm.len(), 41);
}

#[test]
fn fault_in_an_included_template_fails_the_rendering() {
    let mut tm = TemplateManager::new();
    tm.insert("bad", "p\n\n   q\n");
    let fault = ParseError {
        kind: ParseErrorKind::BadIndentation,
        line: 3,
    };
    assert_eq!(
        render_source("h1 ok\ninclude bad", &tm),
        Err(RenderError::Parse(Some("bad".to_string()), fault))
    );
    assert_eq!(
        render_path("bad", &tm),
        Err(RenderError::Parse(Some("bad".to_string()), fault))
    );
    assert_eq!(
        render_source("p\n\n   q\n", &tm),
        Err(RenderError::Parse(None, fault))
    );
}

#[test]
fn paths_of_inclusions_in_reading_order() {
    let nodes = from_str("include a\ndiv\n  p\n    include b\n  include a\ninclude c").unwrap();
    assert_eq!(
        include_paths(&nodes),
        vec!["a".to_string(), "b".to_string(), "a".to_string(), "c".to_string()]
    );
    assert_eq!(include_paths(&from_str("p\n  q").unwrap()), Vec::<String>::new());
}

#[test]
fn tree_without_inclusions_ignores_the_templates() {
    let mut tm = TemplateManager::new();
    tm.insert("p", "b");
    let source = "p#x.y a=\"1\" text\n  q\n    | l1\n    | l2\n";
    let nodes = from_str(source).unwrap();
    assert_eq!(
        render_source(source, &tm),
        Ok(render_ast(nodes.clone()))
    );
    assert_eq!(
        render_ast(nodes),
        "<p id=\"x\" class=\"y\" a=\"1\">text<q>l1<br>l2</q></p>"
    );
}

#[test]
fn copies_are_equal_and_deep() {
    let nodes = from_str("div#a.b c='d' e\n  p\n    | x\n  include y").unwrap();
    let copy = nodes.clone();
    assert_eq!(copy, nodes);
    let mut changed = nodes[0].clone();
    if let Node::ELEM(e) = &mut changed {
        e.children = None;
    }
    assert_ne!(changed, nodes[0]);
    assert_eq!(copy[0], nodes[0]);
}

#[test]
fn tree_with_inclusions_renders_with_templates() {
    let mut tm = TemplateManager::new();
    tm.insert("x", "b bold");
    let nodes = vec![
        Node::ELEM(Elem::from_ta_ch(
            "p",
            vec![Node::INCLUDE(Include {
                path: "x".to_string(),
            })],
        )),
        Node::INCLUDE(Include {
            path: "x".to_string(),
        }),
    ];
    assert_eq!(
        render_ast_with(&nodes, &tm),
        Ok("<p><b>bold</b></p><b>bold</b>".to_string())
    );
    assert_eq!(
        render_ast_with(&nodes, &TemplateManager::new()),
        Err(RenderError::IncludeResolution(
            IncludeResolutionError::PathNotFound("x".to_string())
        ))
    );
    assert_eq!(render_ast_with(&vec![], &tm), Ok(String::new()));
}

#[test]
fn element_whose_inclusion_renders_nothing_closes_itself() {
    let mut tm = TemplateManager::new();
    tm.insert("empty", "\n\n");
    assert_eq!(
        render_source("p\n  include empty", &tm),
        Ok("<p />".to_string())
    );
}
