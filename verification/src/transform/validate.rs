//! Validation: the defects of a document are collected, all of them, and
//! the document is left as it is.

use crate::errors::{errors_view, ErrView, ThemeErr};
use crate::schema::ast::{
    content_all, lemma_children_view, nodes_view, AstContent, AstNode, AstThemeConfig,
    ContentView, DocumentView, NodeType, NodeView, PageView,
};
use crate::schema::ctx::ThemeContext;
use crate::schema::value::{find, lookup};
use crate::text::{decimal, push_decimal, push_str, string_of};
use crate::transform::normalize::{is_container, unit_limit, DEFAULT_UNITS};
use crate::transform::style::{all_placed, children_placed, document_placed, forest_placed};
use crate::transform::util::{
    extract_grid_props, get_prop_as_i64, is_placed, span_of, start_of,
};
use vstd::prelude::*;

verus! {

/// The name under which a kind of node is reported.
pub open spec fn kind_name(nt: Option<NodeType>) -> Seq<char> {
    match nt {
        Some(NodeType::Row) => "Row"@,
        Some(NodeType::Col) => "Col"@,
        Some(NodeType::Component) => "Component"@,
        _ => "Node"@,
    }
}

/// How an identity is reported.
pub open spec fn id_text(id: Option<u32>) -> Seq<char> {
    match id {
        Some(id) => "Some("@ + decimal(id as nat) + ")"@,
        None => "None"@,
    }
}

/// The detail of the error for a child that leaves its container's grid.
pub open spec fn overflow_detail(id: Option<u32>) -> Seq<char> {
    "child_id:"@ + id_text(id) + " layout overflow"@
}

/// Whether a child leaves a grid of `limit` units: whether its last unit,
/// `start + span - 1`, lies behind the last one of the grid.
pub open spec fn overflows(kid: NodeView, limit: int) -> bool {
    match (start_of(kid), span_of(kid)) {
        (Some(start), Some(span)) => start + span - 1 > limit,
        _ => false,
    }
}

/// The error for a node without identity.
pub open spec fn id_errors(n: NodeView) -> Seq<ErrView> {
    if n.id is None {
        seq![ErrView::FieldMissing("id"@)]
    } else {
        Seq::empty()
    }
}

/// The error for a node without kind.
pub open spec fn nt_errors(n: NodeView) -> Seq<ErrView> {
    if n.nt is None {
        seq![ErrView::FieldMissing("nt"@)]
    } else {
        Seq::empty()
    }
}

/// The errors for those of the first `k` children that leave the grid of
/// their container, in the order of the children.
pub open spec fn overflow_errors(
    kids: Seq<NodeView>,
    k: int,
    nt: Option<NodeType>,
    limit: int,
) -> Seq<ErrView>
    decreases k,
{
    if k <= 0 || k > kids.len() {
        Seq::empty()
    } else if overflows(kids[k - 1], limit) {
        overflow_errors(kids, k - 1, nt, limit).push(
            ErrView::TypeConflict(kind_name(nt), overflow_detail(kids[k - 1].id)),
        )
    } else {
        overflow_errors(kids, k - 1, nt, limit)
    }
}

/// The errors for the children of a container that leave its grid.
pub open spec fn bounds_errors(n: NodeView) -> Seq<ErrView> {
    if is_container(n.nt) && n.children is Some {
        overflow_errors(n.children->0, n.children->0.len() as int, n.nt, unit_limit(n))
    } else {
        Seq::empty()
    }
}

/// The error for a container whose style does not declare a display.
pub open spec fn style_errors(n: NodeView) -> Seq<ErrView> {
    if is_container(n.nt) && (match n.inline_style {
        Some(members) => lookup(members, "display"@) is None,
        None => true,
    }) {
        seq![ErrView::FieldMissing("display:grid"@)]
    } else {
        Seq::empty()
    }
}

/// The errors of one node: for its identity, its kind, the bounds of its
/// grid and its style, in this order.
pub open spec fn node_errors(n: NodeView) -> Seq<ErrView> {
    id_errors(n) + nt_errors(n) + bounds_errors(n) + style_errors(n)
}

/// The errors of the tree below `n`: those of the node, then those of the
/// trees below it in their order.
pub open spec fn tree_errors(n: NodeView) -> Seq<ErrView>
    decreases n, 1nat, 0int,
{
    node_errors(n) + match n.children {
        Some(kids) => forest_errors(kids, kids.len() as int),
        None => Seq::empty(),
    }
}

/// The errors of the first `k` trees, in their order.
pub open spec fn forest_errors(nodes: Seq<NodeView>, k: int) -> Seq<ErrView>
    decreases nodes, 0nat, k,
{
    if k <= 0 || k > nodes.len() {
        Seq::empty()
    } else {
        forest_errors(nodes, k - 1) + tree_errors(nodes[k - 1])
    }
}

/// The errors of a content.
pub open spec fn content_errors(c: ContentView) -> Seq<ErrView> {
    match c {
        ContentView::One(node) => tree_errors(node),
        ContentView::Many(nodes) => forest_errors(nodes, nodes.len() as int),
    }
}

/// The errors of the first `k` pages, in their order.
pub open spec fn pages_errors(pages: Seq<(Seq<char>, PageView)>, k: int) -> Seq<ErrView>
    decreases k,
{
    if k <= 0 || k > pages.len() {
        Seq::empty()
    } else {
        pages_errors(pages, k - 1) + content_errors(pages[k - 1].1.content)
    }
}

/// The errors of a document: those of the shared tree, then those of the
/// pages in their order.
pub open spec fn document_errors(d: DocumentView) -> Seq<ErrView> {
    (match d.layout.global {
        Some(Some(node)) => tree_errors(node),
        _ => Seq::empty(),
    }) + pages_errors(d.layout.pages, d.layout.pages.len() as int)
}

fn report(ctx: &mut ThemeContext, e: ThemeErr)
    ensures
        errors_view(final(ctx).err_list@) == errors_view(old(ctx).err_list@).push(e@),
        final(ctx).id_idx == old(ctx).id_idx,
        final(ctx).variables == old(ctx).variables,
{
    ctx.err_list.push(e);
    assert(errors_view(ctx.err_list@) =~= errors_view(old(ctx).err_list@).push(e@));
}

fn missing(field: &str) -> (e: ThemeErr)
    ensures
        e@ == ErrView::FieldMissing(field@),
{
    let mut out: Vec<char> = Vec::new();
    push_str(&mut out, field);
    ThemeErr::FieldMissing(string_of(&out))
}

fn conflict(row: bool, id: Option<u32>) -> (e: ThemeErr)
    ensures
        e@ == ErrView::TypeConflict(
            kind_name(
                if row {
                    Some(NodeType::Row)
                } else {
                    Some(NodeType::Col)
                },
            ),
            overflow_detail(id),
        ),
{
    let mut kind: Vec<char> = Vec::new();
    push_str(&mut kind, if row {
        "Row"
    } else {
        "Col"
    });
    let mut detail: Vec<char> = Vec::new();
    push_str(&mut detail, "child_id:");
    match id {
        Some(id) => {
            push_str(&mut detail, "Some(");
            push_decimal(&mut detail, id as u128);
            push_str(&mut detail, ")");
        },
        None => {
            push_str(&mut detail, "None");
        },
    }
    push_str(&mut detail, " layout overflow");
    assert(detail@ =~= overflow_detail(id));
    ThemeErr::TypeConflict(string_of(&kind), string_of(&detail))
}

/// Reports a node without identity.
pub fn check_id_presence(node: &AstNode, ctx: &mut ThemeContext)
    ensures
        errors_view(final(ctx).err_list@) == errors_view(old(ctx).err_list@) + id_errors(node@),
        final(ctx).id_idx == old(ctx).id_idx,
        final(ctx).variables == old(ctx).variables,
{
    if node.id.is_none() {
        report(ctx, missing("id"));
    }
    assert(errors_view(ctx.err_list@) =~= errors_view(old(ctx).err_list@) + id_errors(node@));
}

/// Reports a node without kind.
pub fn check_nt_presence(node: &AstNode, ctx: &mut ThemeContext)
    ensures
        errors_view(final(ctx).err_list@) == errors_view(old(ctx).err_list@) + nt_errors(node@),
        final(ctx).id_idx == old(ctx).id_idx,
        final(ctx).variables == old(ctx).variables,
{
    if node.nt.is_none() {
        report(ctx, missing("nt"));
    }
    assert(errors_view(ctx.err_list@) =~= errors_view(old(ctx).err_list@) + nt_errors(node@));
}

/// Reports each child of a container that leaves the container's grid.
pub fn check_grid_bounds(node: &AstNode, ctx: &mut ThemeContext)
    requires
        children_placed(node@),
    ensures
        errors_view(final(ctx).err_list@) == errors_view(old(ctx).err_list@) + bounds_errors(
            node@,
        ),
        final(ctx).id_idx == old(ctx).id_idx,
        final(ctx).variables == old(ctx).variables,
{
    proof {
        lemma_children_view(*node);
    }
    let ghost start = errors_view(ctx.err_list@);
    assert(start + Seq::<ErrView>::empty() =~= start);
    let row = match node.nt {
        Some(NodeType::Row) => true,
        Some(NodeType::Col) => false,
        _ => {
            return ;
        },
    };
    let limit = match get_prop_as_i64(node, if row {
        "cols"
    } else {
        "rows"
    }) {
        Some(units) => units,
        None => DEFAULT_UNITS,
    };
    match &node.children {
        Some(children) => {
            let ghost kids = nodes_view(children@);
            let mut i: usize = 0;
            while i < children.len()
                invariant
                    i <= children.len(),
                    kids == nodes_view(children@),
                    node@.children == Some(kids),
                    children_placed(node@),
                    is_container(node@.nt),
                    node@.nt == if row {
                        Some(NodeType::Row)
                    } else {
                        Some(NodeType::Col)
                    },
                    errors_view(ctx.err_list@) == start + overflow_errors(
                        kids,
                        i as int,
                        node@.nt,
                        limit as int,
                    ),
                    ctx.id_idx == old(ctx).id_idx,
                    ctx.variables == old(ctx).variables,
                decreases children.len() - i,
            {
                assert(kids[i as int] == children@[i as int]@);
                assert(is_placed(node@.children->0[i as int]));
                let (first, span) = extract_grid_props(&children[i]);
                let ghost so_far = errors_view(ctx.err_list@);
                if first as i128 + span as i128 - 1 > limit as i128 {
                    report(ctx, conflict(row, children[i].id));
                    assert(errors_view(ctx.err_list@) =~= start + overflow_errors(
                        kids,
                        i + 1,
                        node@.nt,
                        limit as int,
                    ));
                }
                i = i + 1;
            }
        },
        None => {},
    }
}

/// Reports a container whose style does not declare a display.
pub fn check_style_integrity(node: &AstNode, ctx: &mut ThemeContext)
    ensures
        errors_view(final(ctx).err_list@) == errors_view(old(ctx).err_list@) + style_errors(
            node@,
        ),
        final(ctx).id_idx == old(ctx).id_idx,
        final(ctx).variables == old(ctx).variables,
{
    let container = match node.nt {
        Some(NodeType::Row) => true,
        Some(NodeType::Col) => true,
        _ => false,
    };
    if container {
        let has_display = match &node.inline_style {
            Some(members) => find(members, "display") < members.len(),
            None => false,
        };
        if !has_display {
            report(ctx, missing("display:grid"));
        }
    }
    assert(errors_view(ctx.err_list@) =~= errors_view(old(ctx).err_list@) + style_errors(node@));
}

/// Reports the defects of the tree below `node`: see `tree_errors`.
pub fn check_node(node: &AstNode, ctx: &mut ThemeContext)
    requires
        all_placed(node@),
    ensures
        errors_view(final(ctx).err_list@) == errors_view(old(ctx).err_list@) + tree_errors(node@),
        final(ctx).id_idx == old(ctx).id_idx,
        final(ctx).variables == old(ctx).variables,
    decreases node,
{
    let ghost start = errors_view(ctx.err_list@);
    check_id_presence(node, ctx);
    check_nt_presence(node, ctx);
    check_grid_bounds(node, ctx);
    check_style_integrity(node, ctx);
    assert(errors_view(ctx.err_list@) =~= start + node_errors(node@));
    proof {
        lemma_children_view(*node);
    }
    match &node.children {
        Some(children) => {
            check_nodes(children, ctx);
            assert(errors_view(ctx.err_list@) =~= start + tree_errors(node@));
        },
        None => {
            assert(errors_view(ctx.err_list@) =~= start + tree_errors(node@));
        },
    }
}

/// Reports the defects of each tree, in their order.
pub fn check_nodes(nodes: &Vec<AstNode>, ctx: &mut ThemeContext)
    requires
        forest_placed(nodes_view(nodes@)),
    ensures
        errors_view(final(ctx).err_list@) == errors_view(old(ctx).err_list@) + forest_errors(
            nodes_view(nodes@),
            nodes.len() as int,
        ),
        final(ctx).id_idx == old(ctx).id_idx,
        final(ctx).variables == old(ctx).variables,
    decreases nodes,
{
    let ghost start = errors_view(ctx.err_list@);
    let ghost kids = nodes_view(nodes@);
    assert(start + Seq::<ErrView>::empty() =~= start);
    let mut i: usize = 0;
    while i < nodes.len()
        invariant
            i <= nodes.len(),
            kids == nodes_view(nodes@),
            forest_placed(kids),
            errors_view(ctx.err_list@) == start + forest_errors(kids, i as int),
            ctx.id_idx == old(ctx).id_idx,
            ctx.variables == old(ctx).variables,
        decreases nodes.len() - i,
    {
        assert(kids[i as int] == nodes@[i as int]@);
        check_node(&nodes[i], ctx);
        assert(errors_view(ctx.err_list@) =~= start + forest_errors(kids, i + 1));
        i = i + 1;
    }
}

fn check_content(content: &AstContent, ctx: &mut ThemeContext)
    requires
        content_all(content@, |n: NodeView| all_placed(n)),
    ensures
        errors_view(final(ctx).err_list@) == errors_view(old(ctx).err_list@) + content_errors(
            content@,
        ),
        final(ctx).id_idx == old(ctx).id_idx,
        final(ctx).variables == old(ctx).variables,
{
    match content {
        AstContent::One(node) => check_node(node, ctx),
        AstContent::Many(nodes) => {
            let ghost kids = nodes_view(nodes@);
            assert forall|i: int| 0 <= i < kids.len() implies all_placed(#[trigger] kids[i]) by {
                assert(content@->Many_0[i] == kids[i]);
            }
            check_nodes(nodes, ctx)
        },
    }
}

/// Reports the defects of the document: see `document_errors`. The
/// document is only read.
pub fn run(ast: &AstThemeConfig, ctx: &mut ThemeContext)
    requires
        document_placed(ast@),
    ensures
        errors_view(final(ctx).err_list@) == errors_view(old(ctx).err_list@) + document_errors(
            ast@,
        ),
        final(ctx).id_idx == old(ctx).id_idx,
        final(ctx).variables == old(ctx).variables,
{
    let ghost start = errors_view(ctx.err_list@);
    assert(start + Seq::<ErrView>::empty() =~= start);
    match &ast.layout.global {
        Some(shared) => match &shared.widget {
            Some(node) => {
                check_node(node, ctx);
            },
            None => {},
        },
        None => {},
    }
    let ghost shared_errors: Seq<ErrView> = match ast@.layout.global {
        Some(Some(node)) => tree_errors(node),
        _ => Seq::empty(),
    };
    let ghost pages = ast@.layout.pages;
    assert(start + shared_errors + Seq::<ErrView>::empty() =~= start + shared_errors);
    let mut i: usize = 0;
    while i < ast.layout.pages.len()
        invariant
            i <= ast.layout.pages.len(),
            pages == ast@.layout.pages,
            document_placed(ast@),
            errors_view(ctx.err_list@) == start + shared_errors + pages_errors(pages, i as int),
            ctx.id_idx == old(ctx).id_idx,
            ctx.variables == old(ctx).variables,
        decreases ast.layout.pages.len() - i,
    {
        assert(pages[i as int].1.content == ast.layout.pages@[i as int].1.content@);
        check_content(&ast.layout.pages[i].1.content, ctx);
        assert(errors_view(ctx.err_list@) =~= start + shared_errors + pages_errors(pages, i + 1));
        i = i + 1;
    }
    assert(start + shared_errors + pages_errors(pages, pages.len() as int) =~= start
        + document_errors(ast@));
}

/// The number of those of the first `k` children that leave a grid of
/// `limit` units.
pub open spec fn overflow_count(kids: Seq<NodeView>, k: int, limit: int) -> nat
    decreases k,
{
    if k <= 0 || k > kids.len() {
        0
    } else if overflows(kids[k - 1], limit) {
        overflow_count(kids, k - 1, limit) + 1
    } else {
        overflow_count(kids, k - 1, limit)
    }
}

/// Every child that leaves the grid of its container is reported, once,
/// and no other child is: there are as many errors as such children, and
/// the error of each of them is among the errors.
pub proof fn lemma_overflow_reported(
    kids: Seq<NodeView>,
    k: int,
    nt: Option<NodeType>,
    limit: int,
)
    requires
        0 <= k <= kids.len(),
    ensures
        overflow_errors(kids, k, nt, limit).len() == overflow_count(kids, k, limit),
        forall|i: int|
            0 <= i < k && overflows(#[trigger] kids[i], limit) ==> overflow_errors(
                kids,
                k,
                nt,
                limit,
            ).contains(ErrView::TypeConflict(kind_name(nt), overflow_detail(kids[i].id))),
    decreases k,
{
    if k > 0 {
        lemma_overflow_reported(kids, k - 1, nt, limit);
        let before = overflow_errors(kids, k - 1, nt, limit);
        let now = overflow_errors(kids, k, nt, limit);
        assert forall|i: int| 0 <= i < k && overflows(#[trigger] kids[i], limit) implies now.contains(
            ErrView::TypeConflict(kind_name(nt), overflow_detail(kids[i].id)),
        ) by {
            let e = ErrView::TypeConflict(kind_name(nt), overflow_detail(kids[i].id));
            if i < k - 1 {
                let at = choose|at: int| 0 <= at < before.len() && before[at] == e;
                assert(now[at] == e);
            } else {
                assert(now[now.len() - 1] == e);
            }
        }
    }
}

} // verus!
