use custom_theme::errors::ThemeErr;
use custom_theme::schema::ast::{
    Action, AstContent, AstGlobalLayout, AstLayout, AstMetaConfig, AstNode, AstPageConfig,
    AstThemeConfig, NodeType,
};
use custom_theme::schema::ctx::ThemeContext;
use custom_theme::schema::ir::{Content, Node, PageConfig, ThemeIr};
use custom_theme::schema::value::Value;
use custom_theme::transform::ready::{
    has_children_placed, is_document_within_depth, is_identified_document, is_identified_tree,
    is_placed_document, is_placed_tree, is_within_depth,
};
use custom_theme::transform::prune::clear_props;
use custom_theme::transform::style::{resolve_span, try_resolve_span};
use custom_theme::transform::validate::{
    check_grid_bounds, check_id_presence, check_node, check_nodes, check_nt_presence,
    check_style_integrity,
};
use custom_theme::transform::{assemble, prune, resolve, style, try_run, validate};
use custom_theme::try_load;

fn blank() -> AstNode {
    AstNode {
        id: None,
        nt: None,
        class_list: None,
        inline_style: None,
        props: None,
        children: None,
        consume: None,
        actions: None,
        hooks: None,
    }
}

fn made(nt: NodeType) -> AstNode {
    let mut n = blank();
    n.nt = Some(nt);
    n
}

fn at(id: u32, start: i64, span: i64) -> AstNode {
    let mut n = made(NodeType::Component);
    n.id = Some(id);
    n.props = Some(vec![
        ("start".to_string(), Value::from_i64(start)),
        ("span".to_string(), Value::from_i64(span)),
    ]);
    n
}

fn t(s: &str) -> Value {
    Value::String(s.to_string())
}

fn paper(global: Option<AstGlobalLayout>, pages: Vec<(&str, AstContent)>) -> AstThemeConfig {
    AstThemeConfig {
        config: AstMetaConfig {
            version: "2".to_string(),
            theme_name: "paper".to_string(),
            variables: None,
        },
        layout: AstLayout {
            global,
            pages: pages
                .into_iter()
                .map(|(k, content)| {
                    (
                        k.to_string(),
                        AstPageConfig { name: k.to_uppercase(), content },
                    )
                })
                .collect(),
        },
    }
}

#[test]
fn a_row_becomes_a_grid() {
    let mut row = made(NodeType::Row);
    row.props = Some(vec![("cols".to_string(), Value::from_i64(6))]);
    row.inline_style = Some(vec![
        ("display".to_string(), t("flex")),
        ("gap".to_string(), t("4px")),
    ]);
    let mut kid = at(1, 2, 3);
    kid.inline_style = Some(vec![("color".to_string(), t("red"))]);
    row.children = Some(vec![kid, at(2, -1, 0)]);
    resolve_span(&mut row);
    assert_eq!(
        row.inline_style,
        Some(vec![
            ("display".to_string(), t("grid")),
            ("gap".to_string(), t("4px")),
            ("width".to_string(), t("100%")),
            ("height".to_string(), t("100%")),
            (
                "grid-template-columns".to_string(),
                t("repeat(6, minmax(0, 1fr))")
            ),
        ])
    );
    let kids = row.children.as_ref().expect("children");
    assert_eq!(
        kids[0].inline_style,
        Some(vec![
            ("color".to_string(), t("red")),
            ("grid-column".to_string(), t("2 / span 3")),
        ])
    );
    assert_eq!(
        kids[1].inline_style,
        Some(vec![("grid-column".to_string(), t("-1 / span 0"))])
    );
    assert_eq!(kids[0].props, at(1, 2, 3).props);
}

#[test]
fn a_column_becomes_a_grid_of_rows() {
    let mut col = made(NodeType::Col);
    col.children = Some(vec![at(1, 1, 12)]);
    assert!(try_resolve_span(&mut col));
    assert_eq!(
        col.inline_style,
        Some(vec![
            ("width".to_string(), t("100%")),
            ("height".to_string(), t("100%")),
            ("display".to_string(), t("grid")),
            (
                "grid-template-rows".to_string(),
                t("repeat(12, minmax(0, 1fr))")
            ),
        ])
    );
    let kids = col.children.as_ref().expect("children");
    assert_eq!(
        kids[0].inline_style,
        Some(vec![("grid-row".to_string(), t("1 / span 12"))])
    );
}

#[test]
fn other_kinds_are_left_alone_by_the_style_step() {
    for nt in [NodeType::Node, NodeType::Component] {
        let mut n = made(nt);
        n.children = Some(vec![blank()]);
        let before = format!("{:?}", n);
        assert!(try_resolve_span(&mut n));
        assert_eq!(format!("{:?}", n), before);
    }
    let mut n = blank();
    n.children = Some(vec![blank()]);
    let before = format!("{:?}", n);
    resolve_span(&mut n);
    assert_eq!(format!("{:?}", n), before);
}

#[test]
fn a_child_without_place_stops_the_style_step() {
    let mut row = made(NodeType::Row);
    row.children = Some(vec![at(1, 1, 1), blank()]);
    assert!(!try_resolve_span(&mut row));
    assert!(!has_children_placed(&row));
    assert!(!is_placed_tree(&row));
    let mut row = made(NodeType::Row);
    row.children = Some(vec![at(1, 1, 1)]);
    assert!(has_children_placed(&row));
    assert!(is_placed_tree(&row));
    let mut plain = blank();
    plain.children = Some(vec![blank()]);
    assert!(has_children_placed(&plain));
    assert!(is_placed_tree(&plain));
    let mut bad = made(NodeType::Col);
    bad.children = Some(vec![blank()]);
    let mut top = blank();
    top.children = Some(vec![blank(), bad]);
    assert!(has_children_placed(&top));
    assert!(!is_placed_tree(&top));
}

#[test]
fn questions_about_identities() {
    let mut n = blank();
    assert!(!is_identified_tree(&n));
    n.id = Some(1);
    assert!(is_identified_tree(&n));
    n.children = Some(vec![blank()]);
    assert!(!is_identified_tree(&n));
    let d = paper(None, vec![]);
    assert!(is_identified_document(&d));
    assert!(is_placed_document(&d));
    let d = paper(
        Some(AstGlobalLayout { widget: Some(blank()) }),
        vec![("a", AstContent::Many(vec![]))],
    );
    assert!(!is_identified_document(&d));
    assert!(is_placed_document(&d));
    let mut row = made(NodeType::Row);
    row.id = Some(0);
    row.children = Some(vec![blank()]);
    let d = paper(None, vec![("a", AstContent::Many(vec![at(1, 1, 1), row]))]);
    assert!(!is_placed_document(&d));
    assert!(!is_identified_document(&d));
    let d = paper(
        Some(AstGlobalLayout { widget: None }),
        vec![("a", AstContent::One(at(1, 1, 1))), ("b", AstContent::Many(vec![at(2, 1, 1)]))],
    );
    assert!(is_placed_document(&d));
    assert!(is_identified_document(&d));
}

#[test]
fn missing_identity_and_kind_are_reported() {
    let mut ctx = ThemeContext::load();
    let n = blank();
    check_id_presence(&n, &mut ctx);
    check_nt_presence(&n, &mut ctx);
    assert_eq!(
        ctx.err_list,
        vec![
            ThemeErr::FieldMissing("id".to_string()),
            ThemeErr::FieldMissing("nt".to_string())
        ]
    );
    let mut ok = made(NodeType::Node);
    ok.id = Some(0);
    check_id_presence(&ok, &mut ctx);
    check_nt_presence(&ok, &mut ctx);
    assert_eq!(ctx.err_list.len(), 2);
}

#[test]
fn bounds_of_rows_and_columns() {
    let mut ctx = ThemeContext::load();
    let mut row = made(NodeType::Row);
    row.props = Some(vec![("cols".to_string(), Value::from_i64(4))]);
    row.children = Some(vec![at(1, 1, 4), at(2, 2, 4), at(3, 5, 0), at(4, 5, 1)]);
    let mut nameless = at(0, 4, 2);
    nameless.id = None;
    row.children.as_mut().expect("children").push(nameless);
    check_grid_bounds(&row, &mut ctx);
    assert_eq!(
        ctx.err_list,
        vec![
            ThemeErr::TypeConflict(
                "Row".to_string(),
                "child_id:Some(2) layout overflow".to_string()
            ),
            ThemeErr::TypeConflict(
                "Row".to_string(),
                "child_id:Some(4) layout overflow".to_string()
            ),
            ThemeErr::TypeConflict(
                "Row".to_string(),
                "child_id:None layout overflow".to_string()
            ),
        ]
    );
    let mut ctx = ThemeContext::load();
    let mut col = made(NodeType::Col);
    col.children = Some(vec![at(7, 12, 2), at(8, 12, 1)]);
    check_grid_bounds(&col, &mut ctx);
    assert_eq!(
        ctx.err_list,
        vec![ThemeErr::TypeConflict(
            "Col".to_string(),
            "child_id:Some(7) layout overflow".to_string()
        )]
    );
    let mut ctx = ThemeContext::load();
    let mut plain = made(NodeType::Component);
    plain.children = Some(vec![at(1, 100, 100)]);
    check_grid_bounds(&plain, &mut ctx);
    check_grid_bounds(&made(NodeType::Row), &mut ctx);
    assert!(ctx.err_list.is_empty());
    let mut huge = made(NodeType::Row);
    huge.children = Some(vec![at(1, i64::MAX, i64::MAX), at(2, i64::MIN, i64::MIN)]);
    check_grid_bounds(&huge, &mut ctx);
    assert_eq!(ctx.err_list.len(), 1);
}

#[test]
fn a_container_without_display_is_reported() {
    let mut ctx = ThemeContext::load();
    check_style_integrity(&made(NodeType::Row), &mut ctx);
    let mut col = made(NodeType::Col);
    col.inline_style = Some(vec![("width".to_string(), t("1"))]);
    check_style_integrity(&col, &mut ctx);
    assert_eq!(
        ctx.err_list,
        vec![
            ThemeErr::FieldMissing("display:grid".to_string()),
            ThemeErr::FieldMissing("display:grid".to_string())
        ]
    );
    let mut ctx = ThemeContext::load();
    let mut ok = made(NodeType::Row);
    ok.inline_style = Some(vec![("display".to_string(), t("none"))]);
    check_style_integrity(&ok, &mut ctx);
    check_style_integrity(&made(NodeType::Component), &mut ctx);
    check_style_integrity(&blank(), &mut ctx);
    assert!(ctx.err_list.is_empty());
}

#[test]
fn errors_come_in_the_order_of_the_tree() {
    let mut row = made(NodeType::Row);
    row.id = Some(9);
    row.props = Some(vec![("cols".to_string(), Value::from_i64(2))]);
    let mut kid = at(1, 2, 2);
    kid.nt = None;
    row.children = Some(vec![kid]);
    let mut top = blank();
    top.children = Some(vec![row, made(NodeType::Node)]);
    let mut ctx = ThemeContext::load();
    ctx.err_list.push(ThemeErr::Io("earlier".to_string()));
    check_node(&top, &mut ctx);
    assert_eq!(
        ctx.err_list,
        vec![
            ThemeErr::Io("earlier".to_string()),
            ThemeErr::FieldMissing("id".to_string()),
            ThemeErr::FieldMissing("nt".to_string()),
            ThemeErr::TypeConflict(
                "Row".to_string(),
                "child_id:Some(1) layout overflow".to_string()
            ),
            ThemeErr::FieldMissing("display:grid".to_string()),
            ThemeErr::FieldMissing("nt".to_string()),
            ThemeErr::FieldMissing("id".to_string()),
        ]
    );
    let mut ctx = ThemeContext::load();
    check_nodes(&vec![blank(), made(NodeType::Node)], &mut ctx);
    assert_eq!(
        ctx.err_list,
        vec![
            ThemeErr::FieldMissing("id".to_string()),
            ThemeErr::FieldMissing("nt".to_string()),
            ThemeErr::FieldMissing("id".to_string()),
        ]
    );
}

#[test]
fn validating_a_document_reads_it_only() {
    let d = paper(
        Some(AstGlobalLayout { widget: Some(blank()) }),
        vec![
            ("a", AstContent::One(made(NodeType::Row))),
            ("b", AstContent::Many(vec![blank()])),
        ],
    );
    let before = format!("{:?}", d);
    let mut ctx = ThemeContext::load();
    ctx.id_idx = 5;
    validate::run(&d, &mut ctx);
    assert_eq!(format!("{:?}", d), before);
    assert_eq!(ctx.id_idx, 5);
    assert_eq!(
        ctx.err_list,
        vec![
            ThemeErr::FieldMissing("id".to_string()),
            ThemeErr::FieldMissing("nt".to_string()),
            ThemeErr::FieldMissing("id".to_string()),
            ThemeErr::FieldMissing("display:grid".to_string()),
            ThemeErr::FieldMissing("id".to_string()),
            ThemeErr::FieldMissing("nt".to_string()),
        ]
    );
}

#[test]
fn pruning_takes_the_props_off_every_node() {
    let mut inner = at(2, 1, 1);
    inner.children = Some(vec![at(3, 1, 1)]);
    let mut d = paper(
        Some(AstGlobalLayout { widget: Some(at(0, 1, 1)) }),
        vec![("a", AstContent::Many(vec![at(1, 1, 1), inner]))],
    );
    let ctx = ThemeContext::load();
    prune::run(&mut d, &ctx);
    assert_eq!(
        d.layout.global.as_ref().and_then(|g| g.widget.as_ref()).map(|n| n.props.clone()),
        Some(None)
    );
    match &d.layout.pages[0].1.content {
        AstContent::Many(nodes) => {
            assert_eq!(nodes[0].props, None);
            assert_eq!(nodes[0].id, Some(1));
            assert_eq!(nodes[1].props, None);
            let kids = nodes[1].children.as_ref().expect("children");
            assert_eq!(kids[0].props, None);
            assert_eq!(kids[0].id, Some(3));
        }
        AstContent::One(_) => panic!("the content was a sequence"),
    }
}

#[test]
fn resolving_and_styling_a_document() {
    let mut n = at(1, 1, 1);
    n.class_list = Some(vec!["$c".to_string()]);
    let mut row = made(NodeType::Row);
    row.id = Some(0);
    row.children = Some(vec![n]);
    let mut d = paper(None, vec![("a", AstContent::One(row))]);
    let mut ctx = ThemeContext::load();
    ctx.variables = vec![("c".to_string(), t("blue"))];
    resolve::resolve_variables(&mut d, &ctx);
    style::run(&mut d, &ctx);
    match &d.layout.pages[0].1.content {
        AstContent::One(row) => {
            let kids = row.children.as_ref().expect("children");
            assert_eq!(kids[0].class_list, Some(vec!["blue".to_string()]));
            assert_eq!(
                kids[0].inline_style,
                Some(vec![("grid-column".to_string(), t("1 / span 1"))])
            );
            assert_eq!(row.inline_style.as_ref().map(|s| s.len()), Some(4));
        }
        AstContent::Many(_) => panic!("the content was one node"),
    }
}

#[test]
fn kinds_from_names() {
    assert_eq!(NodeType::from("row"), NodeType::Row);
    assert_eq!(NodeType::from("col"), NodeType::Col);
    assert_eq!(NodeType::from("component"), NodeType::Component);
    assert_eq!(NodeType::from("node"), NodeType::Node);
    assert_eq!(NodeType::from("Row"), NodeType::Node);
    assert_eq!(NodeType::from(""), NodeType::Node);
    assert_eq!(NodeType::from("rows"), NodeType::Node);
}

#[test]
fn a_node_is_assembled() {
    let mut kid = made(NodeType::Col);
    kid.id = Some(8);
    let mut n = made(NodeType::Row);
    n.id = Some(3);
    n.class_list = Some(vec!["a".to_string(), "b c".to_string(), "".to_string()]);
    n.inline_style = Some(vec![("k".to_string(), Value::from_i64(1))]);
    n.props = Some(vec![("gone".to_string(), Value::Null)]);
    n.consume = Some(vec!["gone".to_string()]);
    n.hooks = Some(vec!["h".to_string()]);
    n.actions = Some(vec![
        (
            "click".to_string(),
            Action { command: "open".to_string(), params: Some(t("x")) },
        ),
        (
            "hover".to_string(),
            Action { command: "peek".to_string(), params: None },
        ),
    ]);
    n.children = Some(vec![kid]);
    let node = Node::from(n);
    assert_eq!(node.id, 3);
    assert_eq!(node.node_type, "row");
    assert_eq!(node.class_name, "a b c ");
    assert_eq!(node.style, vec![("k".to_string(), Value::from_i64(1))]);
    assert_eq!(node.hooks, Some(vec!["h".to_string()]));
    let actions = node.actions.as_ref().expect("actions");
    assert_eq!(actions.len(), 2);
    assert_eq!(actions[0].0, "click");
    assert_eq!(actions[0].1.command, "open");
    assert_eq!(actions[0].1.params, Some(t("x")));
    assert_eq!(actions[1].0, "hover");
    assert_eq!(actions[1].1.params, None);
    let kids = node.children.as_ref().expect("children");
    assert_eq!(kids.len(), 1);
    assert_eq!(kids[0].id, 8);
    assert_eq!(kids[0].node_type, "col");
    assert_eq!(kids[0].class_name, "");
    assert_eq!(kids[0].children, None);
}

#[test]
fn kinds_get_their_names() {
    for (nt, name) in [
        (Some(NodeType::Node), "node"),
        (Some(NodeType::Row), "row"),
        (Some(NodeType::Col), "col"),
        (Some(NodeType::Component), "component"),
        (None, "node"),
    ] {
        let mut n = blank();
        n.id = Some(0);
        n.nt = nt;
        assert_eq!(Node::from(n).node_type, name);
    }
    let mut one = blank();
    one.id = Some(0);
    one.class_list = Some(vec!["only".to_string()]);
    assert_eq!(Node::from(one).class_name, "only");
    let mut none = blank();
    none.id = Some(0);
    none.class_list = Some(vec![]);
    assert_eq!(Node::from(none).class_name, "");
}

#[test]
fn pages_and_documents_are_assembled() {
    let page = PageConfig::from(AstPageConfig {
        name: "Home".to_string(),
        content: AstContent::Many(vec![at(1, 1, 1), at(2, 1, 1)]),
    });
    assert_eq!(page.name, "Home");
    match &page.content {
        Content::Many(nodes) => assert_eq!(nodes.iter().map(|n| n.id).collect::<Vec<_>>(), vec![1, 2]),
        Content::One(_) => panic!("the content was a sequence"),
    }
    let d = paper(
        Some(AstGlobalLayout { widget: Some(at(5, 1, 1)) }),
        vec![("b", AstContent::One(at(6, 1, 1))), ("a", AstContent::Many(vec![]))],
    );
    let ir = ThemeIr::from(d);
    assert_eq!(ir.config.version, "2");
    assert_eq!(ir.config.theme_name, "paper");
    assert_eq!(ir.layout.global.id, 5);
    assert_eq!(ir.layout.pages[0].0, "b");
    assert_eq!(ir.layout.pages[0].1.name, "B");
    assert_eq!(ir.layout.pages[1].0, "a");
    assert_eq!(ir.layout.pages[1].1.content, Content::Many(vec![]));
    let mut ctx = ThemeContext::load();
    ctx.id_idx = 3;
    let ir = assemble::run(paper(None, vec![]), &mut ctx);
    assert_eq!(ir.layout.global, Node::default());
    assert_eq!(ctx.id_idx, 3);
}

#[test]
fn compiling_what_leaves_the_integers_returns_nothing() {
    let mut row = made(NodeType::Row);
    row.children = Some(vec![at(1, i64::MAX, 1)]);
    let d = paper(None, vec![("a", AstContent::One(row))]);
    assert_eq!(try_load(d), None);
    let mut ctx = ThemeContext::load();
    ctx.id_idx = u32::MAX;
    ctx.err_list.push(ThemeErr::Io("kept".to_string()));
    let d = paper(None, vec![("a", AstContent::One(blank()))]);
    assert_eq!(try_run(d, &mut ctx), None);
    assert_eq!(ctx.err_list, vec![ThemeErr::Io("kept".to_string())]);
    let d = paper(None, vec![("a", AstContent::One(blank()))]);
    let mut ctx = ThemeContext::load();
    let built = try_run(d, &mut ctx).expect("fits");
    assert!(built.is_ok());
    assert_eq!(ctx.id_idx, 1);
}

#[test]
fn a_variable_that_holds_text_places_nothing() {
    let mut kid = made(NodeType::Component);
    kid.props = Some(vec![("span".to_string(), t("$wide"))]);
    let mut row = made(NodeType::Row);
    row.props = Some(vec![("cols".to_string(), t("$cols"))]);
    row.children = Some(vec![kid, made(NodeType::Component)]);
    let mut d = paper(None, vec![("a", AstContent::One(row))]);
    d.config.variables = Some(vec![
        ("wide".to_string(), "5".to_string()),
        ("cols".to_string(), "8".to_string()),
    ]);
    let ir = try_load(d).expect("fits").expect("no error");
    match &ir.layout.pages[0].1.content {
        Content::One(row) => {
            let kids = row.children.as_ref().expect("children");
            assert_eq!(
                kids[0].style,
                vec![("grid-column".to_string(), t("1 / span 1"))]
            );
            assert_eq!(
                kids[1].style,
                vec![("grid-column".to_string(), t("2 / span 11"))]
            );
        }
        Content::Many(_) => panic!("the content was one node"),
    }
}

fn chain(depth: usize) -> AstNode {
    let mut n = blank();
    for _ in 1..depth {
        let mut up = blank();
        up.children = Some(vec![blank(), n]);
        n = up;
    }
    n
}

#[test]
fn depth_of_trees() {
    assert!(!is_within_depth(&blank(), 0));
    assert!(is_within_depth(&blank(), 1));
    let mut flat = blank();
    flat.children = Some(vec![]);
    assert!(is_within_depth(&flat, 1));
    assert!(!is_within_depth(&chain(3), 2));
    assert!(is_within_depth(&chain(3), 3));
    assert!(is_within_depth(&chain(3), usize::MAX));
    assert!(!is_within_depth(&chain(40), 39));
    assert!(is_within_depth(&chain(40), 40));
}

#[test]
fn depth_of_documents() {
    let d = paper(None, vec![]);
    assert!(is_document_within_depth(&d, 0));
    let d = paper(
        Some(AstGlobalLayout { widget: Some(chain(2)) }),
        vec![
            ("a", AstContent::One(chain(4))),
            ("b", AstContent::Many(vec![chain(1), chain(5)])),
            ("c", AstContent::Many(vec![])),
        ],
    );
    assert!(is_document_within_depth(&d, 5));
    assert!(!is_document_within_depth(&d, 4));
    assert!(!is_document_within_depth(&d, 1));
    let d = paper(Some(AstGlobalLayout { widget: Some(chain(3)) }), vec![]);
    assert!(!is_document_within_depth(&d, 2));
    assert!(is_document_within_depth(&d, 3));
}

#[test]
fn clearing_the_props_of_one_node() {
    let mut n = at(4, 1, 2);
    n.children = Some(vec![at(5, 1, 1)]);
    clear_props(&mut n);
    assert_eq!(n.props, None);
    assert_eq!(n.id, Some(4));
    let kids = n.children.expect("children");
    assert_eq!(kids[0].props, at(5, 1, 1).props);
}
