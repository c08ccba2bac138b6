use custom_theme::errors::ThemeErr;
use custom_theme::load;
use custom_theme::schema::ast::{
    AstContent, AstGlobalLayout, AstLayout, AstMetaConfig, AstNode, AstPageConfig, AstThemeConfig,
    NodeType,
};
use custom_theme::schema::ctx::ThemeContext;
use custom_theme::schema::ir::{Content, Node};
use custom_theme::schema::value::{Number, Value};
use custom_theme::transform;

fn node() -> AstNode {
    AstNode {
        id: None,
        nt: None,
        class_list: None,
        inline_style: None,
        props: None,
        children: None,
        consume: None,
        actions: None,
        hooks: None,
    }
}

fn kind(nt: NodeType) -> AstNode {
    let mut n = node();
    n.nt = Some(nt);
    n
}

fn num(v: u64) -> Value {
    Value::Number(Number::PosInt(v))
}

fn text(s: &str) -> Value {
    Value::String(s.to_string())
}

fn placed(start: u64, span: u64) -> AstNode {
    let mut n = kind(NodeType::Component);
    n.props = Some(vec![("start".to_string(), num(start)), ("span".to_string(), num(span))]);
    n
}

fn document(global: Option<AstGlobalLayout>, pages: Vec<(String, AstPageConfig)>) -> AstThemeConfig {
    AstThemeConfig {
        config: AstMetaConfig {
            version: "1".to_string(),
            theme_name: "t".to_string(),
            variables: None,
        },
        layout: AstLayout { global, pages },
    }
}

fn page(name: &str, content: AstContent) -> AstPageConfig {
    AstPageConfig { name: name.to_string(), content }
}

fn style_of<'a>(n: &'a Node, key: &str) -> Option<&'a Value> {
    n.style.iter().find(|(k, _)| k == key).map(|(_, v)| v)
}

#[test]
fn minimal_document_compiles_without_errors() {
    let doc = document(
        None,
        vec![(
            "home".to_string(),
            page("Home", AstContent::Many(vec![kind(NodeType::Component)])),
        )],
    );
    let ir = load(doc).expect("a minimal document compiles");
    assert_eq!(ir.config.version, "1");
    assert_eq!(ir.config.theme_name, "t");
    assert_eq!(ir.layout.pages.len(), 1);
    assert_eq!(ir.layout.pages[0].0, "home");
    assert_eq!(ir.layout.pages[0].1.name, "Home");
    match &ir.layout.pages[0].1.content {
        Content::Many(nodes) => {
            assert_eq!(nodes.len(), 1);
            assert_eq!(nodes[0].id, 0);
            assert_eq!(nodes[0].node_type, "component");
            assert_eq!(nodes[0].class_name, "");
            assert!(nodes[0].style.is_empty());
            assert_eq!(nodes[0].children, None);
        }
        Content::One(_) => panic!("the content was a sequence"),
    }
}

#[test]
fn missing_global_becomes_an_empty_node() {
    let doc = document(None, vec![]);
    let ir = load(doc).expect("an empty document compiles");
    assert_eq!(
        ir.layout.global,
        Node {
            id: 0,
            node_type: String::new(),
            class_name: String::new(),
            style: vec![],
            children: None,
            actions: None,
            hooks: None,
        }
    );
    assert_eq!(ir.layout.global, Node::default());
}

#[test]
fn global_without_widget_becomes_an_empty_node() {
    let doc = document(Some(AstGlobalLayout { widget: None }), vec![]);
    let ir = load(doc).expect("compiles");
    assert_eq!(ir.layout.global, Node::default());
}

#[test]
fn global_widget_is_compiled_first() {
    let doc = document(
        Some(AstGlobalLayout { widget: Some(kind(NodeType::Node)) }),
        vec![("a".to_string(), page("A", AstContent::One(kind(NodeType::Component))))],
    );
    let ir = load(doc).expect("compiles");
    assert_eq!(ir.layout.global.id, 0);
    assert_eq!(ir.layout.global.node_type, "node");
    match &ir.layout.pages[0].1.content {
        Content::One(n) => assert_eq!(n.id, 1),
        Content::Many(_) => panic!("the content was one node"),
    }
}

#[test]
fn overflow_is_reported_once_and_the_theme_is_still_built() {
    let mut row = kind(NodeType::Row);
    row.props = Some(vec![("cols".to_string(), num(4))]);
    row.children = Some(vec![placed(3, 3)]);
    let doc = document(None, vec![("p".to_string(), page("P", AstContent::One(row)))]);

    let mut ctx = ThemeContext::load();
    let built = transform::run(doc, &mut ctx);
    let ir = built.expect("the pipeline completes");
    assert_eq!(
        ctx.err_list,
        vec![ThemeErr::TypeConflict(
            "Row".to_string(),
            "child_id:Some(1) layout overflow".to_string()
        )]
    );
    match &ir.layout.pages[0].1.content {
        Content::One(n) => {
            assert_eq!(n.id, 0);
            assert_eq!(n.children.as_ref().map(|c| c.len()), Some(1));
        }
        Content::Many(_) => panic!("the content was one node"),
    }
}

#[test]
fn load_returns_the_errors_where_there_are_any() {
    let mut row = kind(NodeType::Row);
    row.props = Some(vec![("cols".to_string(), num(4))]);
    row.children = Some(vec![placed(3, 3), placed(4, 1), placed(4, 2)]);
    let doc = document(None, vec![("p".to_string(), page("P", AstContent::One(row)))]);
    let errors = load(doc).expect_err("two children leave the grid");
    assert_eq!(
        errors,
        vec![
            ThemeErr::TypeConflict(
                "Row".to_string(),
                "child_id:Some(1) layout overflow".to_string()
            ),
            ThemeErr::TypeConflict(
                "Row".to_string(),
                "child_id:Some(3) layout overflow".to_string()
            ),
        ]
    );
}

#[test]
fn a_child_that_ends_on_the_last_unit_does_not_overflow() {
    let mut col = kind(NodeType::Col);
    col.props = Some(vec![("rows".to_string(), num(4))]);
    col.children = Some(vec![placed(3, 2)]);
    let doc = document(None, vec![("p".to_string(), page("P", AstContent::One(col)))]);
    assert!(load(doc).is_ok());
}

#[test]
fn variables_of_the_document_are_resolved() {
    let mut n = kind(NodeType::Component);
    n.class_list = Some(vec!["text-$tone".to_string(), "p-2".to_string()]);
    n.inline_style = Some(vec![("border".to_string(), text("1px solid $tone"))]);
    let mut doc = document(None, vec![("p".to_string(), page("P", AstContent::One(n)))]);
    doc.config.variables = Some(vec![("tone".to_string(), "red".to_string())]);
    let ir = load(doc).expect("compiles");
    match &ir.layout.pages[0].1.content {
        Content::One(n) => {
            assert_eq!(n.class_name, "text-red p-2");
            assert_eq!(style_of(n, "border"), Some(&text("1px solid red")));
        }
        Content::Many(_) => panic!("the content was one node"),
    }
}

#[test]
fn row_and_children_get_their_grid_style() {
    let mut row = kind(NodeType::Row);
    row.inline_style = Some(vec![("color".to_string(), text("blue"))]);
    row.children = Some(vec![
        kind(NodeType::Component),
        kind(NodeType::Component),
        kind(NodeType::Component),
    ]);
    let doc = document(None, vec![("p".to_string(), page("P", AstContent::One(row)))]);
    let ir = load(doc).expect("compiles");
    match &ir.layout.pages[0].1.content {
        Content::One(n) => {
            assert_eq!(n.node_type, "row");
            assert_eq!(
                n.style,
                vec![
                    ("color".to_string(), text("blue")),
                    ("width".to_string(), text("100%")),
                    ("height".to_string(), text("100%")),
                    ("display".to_string(), text("grid")),
                    (
                        "grid-template-columns".to_string(),
                        text("repeat(12, minmax(0, 1fr))")
                    ),
                ]
            );
            let kids = n.children.as_ref().expect("the row has children");
            assert_eq!(kids.len(), 3);
            assert_eq!(style_of(&kids[0], "grid-column"), Some(&text("1 / span 1")));
            assert_eq!(style_of(&kids[1], "grid-column"), Some(&text("2 / span 1")));
            assert_eq!(style_of(&kids[2], "grid-column"), Some(&text("3 / span 10")));
            assert_eq!(kids[0].id, 1);
            assert_eq!(kids[1].id, 2);
            assert_eq!(kids[2].id, 3);
        }
        Content::Many(_) => panic!("the content was one node"),
    }
}

#[test]
fn column_uses_rows() {
    let mut col = kind(NodeType::Col);
    col.props = Some(vec![("rows".to_string(), num(3))]);
    col.children = Some(vec![kind(NodeType::Component)]);
    let doc = document(None, vec![("p".to_string(), page("P", AstContent::One(col)))]);
    let ir = load(doc).expect("compiles");
    match &ir.layout.pages[0].1.content {
        Content::One(n) => {
            assert_eq!(n.node_type, "col");
            assert_eq!(
                style_of(n, "grid-template-rows"),
                Some(&text("repeat(3, minmax(0, 1fr))"))
            );
            assert_eq!(style_of(n, "grid-template-columns"), None);
            let kids = n.children.as_ref().expect("the column has children");
            assert_eq!(style_of(&kids[0], "grid-row"), Some(&text("1 / span 3")));
        }
        Content::Many(_) => panic!("the content was one node"),
    }
}

#[test]
fn pages_share_one_counter() {
    let doc = document(
        None,
        vec![
            (
                "a".to_string(),
                page("A", AstContent::Many(vec![node(), node()])),
            ),
            ("b".to_string(), page("B", AstContent::One(node()))),
        ],
    );
    let ir = load(doc).expect("compiles");
    match &ir.layout.pages[0].1.content {
        Content::Many(nodes) => {
            assert_eq!(nodes[0].id, 0);
            assert_eq!(nodes[1].id, 1);
            assert_eq!(nodes[0].node_type, "node");
        }
        Content::One(_) => panic!("the content was a sequence"),
    }
    match &ir.layout.pages[1].1.content {
        Content::One(n) => assert_eq!(n.id, 2),
        Content::Many(_) => panic!("the content was one node"),
    }
}
