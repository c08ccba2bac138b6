use custom_theme::schema::ast::{
    AstContent, AstGlobalLayout, AstLayout, AstMetaConfig, AstNode, AstPageConfig, AstThemeConfig,
    NodeType,
};
use custom_theme::schema::ctx::ThemeContext;
use custom_theme::schema::value::{Number, Value};
use custom_theme::transform::grid::{
    fill_spans, fill_starts, place_children, set_prop, sort_children,
};
use custom_theme::transform::identity::{fill_id, identify, identify_all, identify_document};
use custom_theme::transform::normalize::{fill_props, run, try_fill_props, try_run, DEFAULT_UNITS};
use custom_theme::transform::util::{extract_grid_props, get_prop_as_i64};
use custom_theme::transform::{try_walk_node, walk_node, walk_nodes, walk_roots, LogicStep};

fn bare() -> AstNode {
    AstNode {
        id: None,
        nt: None,
        class_list: None,
        inline_style: None,
        props: None,
        children: None,
        consume: None,
        actions: None,
        hooks: None,
    }
}

fn of(nt: NodeType) -> AstNode {
    let mut n = bare();
    n.nt = Some(nt);
    n
}

fn with(props: Vec<(&str, i64)>) -> AstNode {
    let mut n = of(NodeType::Component);
    n.props = Some(props.into_iter().map(|(k, v)| (k.to_string(), Value::from_i64(v))).collect());
    n
}

fn tagged(tag: &str, props: Vec<(&str, i64)>) -> AstNode {
    let mut n = with(props);
    n.hooks = Some(vec![tag.to_string()]);
    n
}

fn tag(n: &AstNode) -> String {
    n.hooks.as_ref().map(|h| h[0].clone()).unwrap_or_default()
}

fn starts(kids: &Vec<AstNode>) -> Vec<Option<i64>> {
    kids.iter().map(|k| get_prop_as_i64(k, "start")).collect()
}

fn spans(kids: &Vec<AstNode>) -> Vec<Option<i64>> {
    kids.iter().map(|k| get_prop_as_i64(k, "span")).collect()
}

fn doc(global: Option<AstNode>, pages: Vec<AstContent>) -> AstThemeConfig {
    AstThemeConfig {
        config: AstMetaConfig {
            version: "1".to_string(),
            theme_name: "t".to_string(),
            variables: None,
        },
        layout: AstLayout {
            global: global.map(|n| AstGlobalLayout { widget: Some(n) }),
            pages: pages
                .into_iter()
                .enumerate()
                .map(|(i, content)| {
                    (
                        format!("p{}", i),
                        AstPageConfig { name: format!("P{}", i), content },
                    )
                })
                .collect(),
        },
    }
}

#[test]
fn default_units_are_twelve() {
    assert_eq!(DEFAULT_UNITS, 12);
}

#[test]
fn reading_integer_props() {
    let mut n = with(vec![("start", 3), ("span", -2)]);
    assert_eq!(get_prop_as_i64(&n, "start"), Some(3));
    assert_eq!(get_prop_as_i64(&n, "span"), Some(-2));
    assert_eq!(get_prop_as_i64(&n, "cols"), None);
    assert_eq!(extract_grid_props(&n), (3, -2));
    n.props = Some(vec![
        ("start".to_string(), Value::String("3".to_string())),
        ("span".to_string(), Value::Number(Number::Float("2.0".to_string()))),
        ("cols".to_string(), Value::Number(Number::PosInt(u64::MAX))),
    ]);
    assert_eq!(get_prop_as_i64(&n, "start"), None);
    assert_eq!(get_prop_as_i64(&n, "span"), None);
    assert_eq!(get_prop_as_i64(&n, "cols"), None);
    assert_eq!(get_prop_as_i64(&bare(), "start"), None);
}

#[test]
fn binding_a_prop() {
    let mut n = bare();
    set_prop(&mut n, "start", 4);
    assert_eq!(n.props, Some(vec![("start".to_string(), Value::from_i64(4))]));
    set_prop(&mut n, "span", -1);
    set_prop(&mut n, "start", 5);
    assert_eq!(
        n.props,
        Some(vec![
            ("start".to_string(), Value::from_i64(5)),
            ("span".to_string(), Value::from_i64(-1))
        ])
    );
}

#[test]
fn auto_grid_of_three_children() {
    let mut row = of(NodeType::Row);
    row.props = Some(vec![("cols".to_string(), Value::from_i64(12))]);
    row.children = Some(vec![
        of(NodeType::Component),
        of(NodeType::Component),
        of(NodeType::Component),
    ]);
    fill_props(&mut row);
    let kids = row.children.as_ref().expect("the children stay");
    assert_eq!(starts(kids), vec![Some(1), Some(2), Some(3)]);
    assert_eq!(spans(kids), vec![Some(1), Some(1), Some(10)]);
}

#[test]
fn waterline_follows_declared_starts_and_spans() {
    let mut kids = vec![
        with(vec![("span", 3)]),
        with(vec![]),
        with(vec![("start", 8)]),
        with(vec![("span", 2)]),
        with(vec![]),
    ];
    assert!(fill_starts(&mut kids));
    assert_eq!(
        starts(&kids),
        vec![Some(1), Some(4), Some(8), Some(9), Some(11)]
    );
    assert_eq!(spans(&kids), vec![Some(3), None, None, Some(2), None]);
}

#[test]
fn a_start_that_is_no_integer_is_filled_in() {
    let mut odd = of(NodeType::Component);
    odd.props = Some(vec![("start".to_string(), Value::String("2".to_string()))]);
    let mut kids = vec![with(vec![("start", 5)]), odd];
    assert!(fill_starts(&mut kids));
    assert_eq!(starts(&kids), vec![Some(5), Some(6)]);
    assert_eq!(
        kids[1].props,
        Some(vec![("start".to_string(), Value::from_i64(6))])
    );
}

#[test]
fn children_are_ordered_by_start_and_ties_keep_their_order() {
    let mut kids = vec![
        tagged("a", vec![("start", 5)]),
        tagged("b", vec![("start", 1)]),
        tagged("c", vec![("start", 5)]),
        tagged("d", vec![("start", 3)]),
        tagged("e", vec![("start", 1)]),
        tagged("f", vec![]),
    ];
    sort_children(&mut kids);
    let order: Vec<String> = kids.iter().map(tag).collect();
    assert_eq!(order, vec!["f", "b", "e", "d", "a", "c"]);
}

#[test]
fn ordering_nothing_and_one() {
    let mut none: Vec<AstNode> = vec![];
    sort_children(&mut none);
    assert!(none.is_empty());
    let mut one = vec![tagged("a", vec![("start", 9)])];
    sort_children(&mut one);
    assert_eq!(tag(&one[0]), "a");
}

#[test]
fn spans_reach_to_the_next_start() {
    let mut kids = vec![
        with(vec![("start", 1)]),
        with(vec![("start", 4), ("span", 7)]),
        with(vec![("start", 6)]),
        with(vec![("start", 6)]),
        with(vec![("start", 9)]),
    ];
    assert!(fill_spans(&mut kids, 12));
    assert_eq!(
        spans(&kids),
        vec![Some(3), Some(7), Some(1), Some(3), Some(4)]
    );
}

#[test]
fn a_last_child_behind_the_grid_spans_one_unit() {
    let mut kids = vec![with(vec![("start", 13)])];
    assert!(fill_spans(&mut kids, 12));
    assert_eq!(spans(&kids), vec![Some(1)]);
    let mut kids = vec![with(vec![("start", 12)])];
    assert!(fill_spans(&mut kids, 12));
    assert_eq!(spans(&kids), vec![Some(1)]);
    let mut kids = vec![with(vec![("start", 1)])];
    assert!(fill_spans(&mut kids, 0));
    assert_eq!(spans(&kids), vec![Some(1)]);
}

#[test]
fn placing_with_declared_starts_out_of_order() {
    let mut kids = vec![
        tagged("a", vec![("start", 7)]),
        tagged("b", vec![]),
        tagged("c", vec![("start", 2), ("span", 2)]),
        tagged("d", vec![]),
    ];
    assert!(place_children(&mut kids, 12));
    let order: Vec<String> = kids.iter().map(tag).collect();
    assert_eq!(order, vec!["c", "d", "a", "b"]);
    assert_eq!(starts(&kids), vec![Some(2), Some(4), Some(7), Some(8)]);
    assert_eq!(spans(&kids), vec![Some(2), Some(3), Some(1), Some(5)]);
}

#[test]
fn coverage_of_adjacent_children() {
    let mut kids = vec![
        with(vec![]),
        with(vec![("span", 4)]),
        with(vec![]),
        with(vec![("start", 9)]),
    ];
    assert!(place_children(&mut kids, 12));
    let s: Vec<i64> = starts(&kids).into_iter().map(|v| v.expect("placed")).collect();
    let w: Vec<i64> = spans(&kids).into_iter().map(|v| v.expect("placed")).collect();
    assert_eq!(s, vec![1, 2, 6, 9]);
    assert_eq!(w, vec![1, 4, 3, 4]);
    for i in 0..3 {
        assert!(s[i] + w[i] <= s[i + 1]);
    }
    assert_eq!(s[0] + w[0], s[1]);
    assert_eq!(s[2] + w[2], s[3]);
    assert_eq!(s[3] + w[3], 12 + 1);
}

#[test]
fn placement_that_leaves_the_integers_is_refused() {
    let mut kids = vec![with(vec![("start", i64::MAX)])];
    assert!(!fill_starts(&mut kids));
    let mut kids = vec![with(vec![("start", i64::MAX), ("span", -1)])];
    assert!(fill_starts(&mut kids));
    let mut kids = vec![with(vec![("span", i64::MAX)])];
    assert!(!place_children(&mut kids, 12));
    let mut kids = vec![with(vec![("start", i64::MIN), ("span", 1)]), with(vec![("start", 1)])];
    assert!(place_children(&mut kids, 12));
    let mut kids = vec![with(vec![("start", i64::MIN)])];
    assert!(!fill_spans(&mut kids, 12));
    let mut kids = vec![with(vec![("start", -2)])];
    assert!(fill_spans(&mut kids, i64::MAX - 3));
    assert_eq!(spans(&kids), vec![Some(i64::MAX)]);
    let mut kids = vec![with(vec![("start", -2)])];
    assert!(!fill_spans(&mut kids, i64::MAX - 2));
    let mut row = of(NodeType::Row);
    row.children = Some(vec![with(vec![("start", i64::MAX)])]);
    assert!(!try_fill_props(&mut row));
}

#[test]
fn a_plain_node_gets_props_and_a_kind() {
    let mut n = bare();
    n.children = Some(vec![bare()]);
    assert!(try_fill_props(&mut n));
    assert_eq!(n.props, Some(vec![]));
    assert_eq!(n.nt, Some(NodeType::Node));
    let kids = n.children.expect("the child stays");
    assert_eq!(kids[0].props, None);
    assert_eq!(kids[0].nt, None);
}

#[test]
fn a_container_writes_its_units_down() {
    let mut row = of(NodeType::Row);
    fill_props(&mut row);
    assert_eq!(row.props, Some(vec![("cols".to_string(), Value::from_i64(12))]));
    assert_eq!(row.children, None);

    let mut col = of(NodeType::Col);
    col.props = Some(vec![("rows".to_string(), Value::from_i64(3))]);
    col.children = Some(vec![bare(), bare()]);
    fill_props(&mut col);
    assert_eq!(col.props, Some(vec![("rows".to_string(), Value::from_i64(3))]));
    let kids = col.children.as_ref().expect("the children stay");
    assert_eq!(starts(kids), vec![Some(1), Some(2)]);
    assert_eq!(spans(kids), vec![Some(1), Some(2)]);

    let mut odd = of(NodeType::Row);
    odd.props = Some(vec![("cols".to_string(), Value::String("wide".to_string()))]);
    odd.children = Some(vec![bare()]);
    fill_props(&mut odd);
    assert_eq!(
        odd.props,
        Some(vec![("cols".to_string(), Value::String("wide".to_string()))])
    );
    let kids = odd.children.as_ref().expect("the child stays");
    assert_eq!(spans(kids), vec![Some(12)]);
}

#[test]
fn nested_containers_are_laid_out() {
    let mut inner = of(NodeType::Col);
    inner.children = Some(vec![bare(), bare()]);
    let mut outer = of(NodeType::Row);
    outer.props = Some(vec![("cols".to_string(), Value::from_i64(4))]);
    outer.children = Some(vec![inner, bare()]);
    let ctx = ThemeContext::load();
    walk_node(&mut outer, &ctx, LogicStep::FillProps);
    let kids = outer.children.as_ref().expect("the children stay");
    assert_eq!(starts(kids), vec![Some(1), Some(2)]);
    assert_eq!(spans(kids), vec![Some(1), Some(3)]);
    assert_eq!(get_prop_as_i64(&kids[0], "rows"), Some(12));
    let inner = kids[0].children.as_ref().expect("the inner children stay");
    assert_eq!(starts(inner), vec![Some(1), Some(2)]);
    assert_eq!(spans(inner), vec![Some(1), Some(11)]);
    assert_eq!(inner[0].nt, Some(NodeType::Node));
    assert_eq!(kids[1].nt, Some(NodeType::Node));
}

#[test]
fn walking_fails_where_a_step_cannot_be_taken() {
    let ctx = ThemeContext::load();
    let mut row = of(NodeType::Row);
    row.children = Some(vec![bare()]);
    let mut top = bare();
    top.children = Some(vec![row]);
    assert!(!try_walk_node(&mut top, &ctx, LogicStep::ResolveSpan));

    let mut deep = of(NodeType::Row);
    deep.children = Some(vec![with(vec![("span", i64::MAX)])]);
    let mut nodes = vec![bare(), deep];
    assert!(!walk_nodes(&mut nodes, &ctx, LogicStep::FillProps));
    let mut nodes = vec![bare(), of(NodeType::Row)];
    assert!(walk_nodes(&mut nodes, &ctx, LogicStep::FillProps));
    assert!(walk_nodes(&mut nodes, &ctx, LogicStep::ClearProps));
    assert_eq!(nodes[1].props, None);
}

#[test]
fn filling_one_identity() {
    let mut ctx = ThemeContext::load();
    ctx.id_idx = 7;
    let mut n = bare();
    fill_id(&mut n, &mut ctx);
    assert_eq!(n.id, Some(7));
    assert_eq!(ctx.id_idx, 8);
    fill_id(&mut n, &mut ctx);
    assert_eq!(n.id, Some(7));
    assert_eq!(ctx.id_idx, 8);
    let mut named = bare();
    named.id = Some(100);
    ctx.id_idx = u32::MAX;
    fill_id(&mut named, &mut ctx);
    assert_eq!(named.id, Some(100));
    assert_eq!(ctx.id_idx, u32::MAX);
}

#[test]
fn identities_count_through_the_tree() {
    let mut leaf = bare();
    leaf.id = Some(40);
    let mut mid = bare();
    mid.children = Some(vec![bare(), leaf, bare()]);
    let mut top = bare();
    top.children = Some(vec![mid, bare()]);
    let mut ctx = ThemeContext::load();
    ctx.id_idx = 10;
    assert!(identify(&mut top, &mut ctx));
    assert_eq!(ctx.id_idx, 15);
    assert_eq!(top.id, Some(10));
    let kids = top.children.as_ref().expect("children");
    assert_eq!(kids[0].id, Some(11));
    assert_eq!(kids[1].id, Some(14));
    let below = kids[0].children.as_ref().expect("children");
    assert_eq!(below[0].id, Some(12));
    assert_eq!(below[1].id, Some(40));
    assert_eq!(below[2].id, Some(13));
}

#[test]
fn identities_that_leave_the_integers_are_refused() {
    let mut ctx = ThemeContext::load();
    ctx.id_idx = u32::MAX - 1;
    let mut nodes = vec![bare()];
    assert!(identify_all(&mut nodes, &mut ctx));
    assert_eq!(nodes[0].id, Some(u32::MAX - 1));
    assert_eq!(ctx.id_idx, u32::MAX);
    let mut more = vec![bare()];
    assert!(!identify_all(&mut more, &mut ctx));
    let mut named = bare();
    named.id = Some(3);
    let mut all_named = vec![named];
    assert!(identify_all(&mut all_named, &mut ctx));
    assert_eq!(ctx.id_idx, u32::MAX);

    let mut ctx = ThemeContext::load();
    ctx.id_idx = u32::MAX - 1;
    let mut top = bare();
    top.children = Some(vec![bare()]);
    assert!(!identify(&mut top, &mut ctx));
    let mut d = doc(Some(bare()), vec![AstContent::One(bare())]);
    let mut ctx = ThemeContext::load();
    ctx.id_idx = u32::MAX - 1;
    assert!(!identify_document(&mut d, &mut ctx));
    assert!(ctx.err_list.is_empty());
}

#[test]
fn normalising_a_document() {
    let mut row = of(NodeType::Row);
    row.children = Some(vec![
        tagged("late", vec![("start", 5)]),
        tagged("early", vec![("start", 2)]),
    ]);
    let mut d = doc(
        Some(bare()),
        vec![
            AstContent::One(row),
            AstContent::Many(vec![bare(), bare()]),
        ],
    );
    let mut ctx = ThemeContext::load();
    run(&mut d, &mut ctx);
    assert_eq!(ctx.id_idx, 6);
    assert!(ctx.err_list.is_empty());
    let global = d.layout.global.as_ref().and_then(|g| g.widget.as_ref()).expect("global");
    assert_eq!(global.id, Some(0));
    assert_eq!(global.nt, Some(NodeType::Node));
    match &d.layout.pages[0].1.content {
        AstContent::One(row) => {
            assert_eq!(row.id, Some(1));
            let kids = row.children.as_ref().expect("children");
            assert_eq!(tag(&kids[0]), "early");
            assert_eq!(kids[0].id, Some(2));
            assert_eq!(tag(&kids[1]), "late");
            assert_eq!(kids[1].id, Some(3));
            assert_eq!(spans(kids), vec![Some(3), Some(8)]);
        }
        AstContent::Many(_) => panic!("the content was one node"),
    }
    match &d.layout.pages[1].1.content {
        AstContent::Many(nodes) => {
            assert_eq!(nodes[0].id, Some(4));
            assert_eq!(nodes[1].id, Some(5));
        }
        AstContent::One(_) => panic!("the content was a sequence"),
    }
}

#[test]
fn normalising_twice_hands_out_no_identity() {
    let mut row = of(NodeType::Row);
    row.children = Some(vec![bare(), with(vec![("start", 1)]), bare()]);
    let mut d = doc(None, vec![AstContent::One(row), AstContent::One(bare())]);
    let mut ctx = ThemeContext::load();
    assert!(try_run(&mut d, &mut ctx));
    assert_eq!(ctx.id_idx, 5);
    let once = doc_ids(&d);
    let snapshot = format!("{:?}", d);
    assert!(try_run(&mut d, &mut ctx));
    assert_eq!(ctx.id_idx, 5);
    assert_eq!(doc_ids(&d), once);
    assert_eq!(format!("{:?}", d), snapshot);
    ctx.id_idx = 1000;
    run(&mut d, &mut ctx);
    assert_eq!(ctx.id_idx, 1000);
    assert_eq!(doc_ids(&d), once);
}

fn ids(n: &AstNode, out: &mut Vec<Option<u32>>) {
    out.push(n.id);
    if let Some(kids) = &n.children {
        for k in kids {
            ids(k, out);
        }
    }
}

fn doc_ids(d: &AstThemeConfig) -> Vec<Option<u32>> {
    let mut out = vec![];
    if let Some(n) = d.layout.global.as_ref().and_then(|g| g.widget.as_ref()) {
        ids(n, &mut out);
    }
    for (_, page) in &d.layout.pages {
        match &page.content {
            AstContent::One(n) => ids(n, &mut out),
            AstContent::Many(ns) => {
                for n in ns {
                    ids(n, &mut out)
                }
            }
        }
    }
    out
}

#[test]
fn a_document_that_leaves_the_integers_is_refused() {
    let mut row = of(NodeType::Row);
    row.children = Some(vec![with(vec![("start", i64::MAX)])]);
    let mut d = doc(None, vec![AstContent::Many(vec![bare(), row])]);
    let mut ctx = ThemeContext::load();
    assert!(!try_run(&mut d, &mut ctx));
    let mut d = doc(None, vec![AstContent::One(bare())]);
    let mut ctx = ThemeContext::load();
    ctx.id_idx = u32::MAX;
    assert!(!try_run(&mut d, &mut ctx));
    let ctx = ThemeContext::load();
    let mut row = of(NodeType::Row);
    row.children = Some(vec![bare()]);
    let mut d = doc(Some(row), vec![]);
    assert!(!walk_roots(&mut d, &ctx, LogicStep::ResolveSpan));
}
