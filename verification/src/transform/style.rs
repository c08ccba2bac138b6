//! Style synthesis: rows and columns become grids, and their children get
//! their place on the grid as style declarations.

use crate::schema::ast::{
    lemma_children_view, lemma_roots_both, lemma_roots_implies, lemma_roots_map, nodes_view,
    roots_all, AstNode, AstThemeConfig, DocumentView, NodeType, NodeView,
};
use crate::schema::ir::{all_identified, document_identified};
use crate::schema::ctx::ThemeContext;
use crate::schema::value::{insert, members_view, put, Value, ValueView};
use crate::text::{int_text, push_int, push_str, string_of};
use crate::transform::normalize::{is_container, unit_limit, DEFAULT_UNITS};
use crate::transform::util::{get_prop_as_i64, is_placed, span_of, start_of};
use crate::transform::{
    lemma_walked_doc_wf, walk_fits, walk_fits_doc, walk_roots, walked, walked_all,
    walked_doc, LogicStep,
};
use vstd::prelude::*;

verus! {

/// The style member that says how many tracks a grid has: the columns of a
/// row, the rows of any other kind.
pub open spec fn tracks_key(nt: Option<NodeType>) -> Seq<char> {
    if nt == Some(NodeType::Row) {
        "grid-template-columns"@
    } else {
        "grid-template-rows"@
    }
}

/// The style member that places a child on the grid: on the columns of a
/// row, on the rows of any other kind.
pub open spec fn place_key(nt: Option<NodeType>) -> Seq<char> {
    if nt == Some(NodeType::Row) {
        "grid-column"@
    } else {
        "grid-row"@
    }
}

/// The declaration of `units` tracks of equal width.
pub open spec fn tracks_text(units: int) -> Seq<char> {
    "repeat("@ + int_text(units) + ", minmax(0, 1fr))"@
}

/// The declaration of a place on the grid: the first track, and the number
/// of tracks spanned.
pub open spec fn place_text(start: int, span: int) -> Seq<char> {
    int_text(start) + " / span "@ + int_text(span)
}

/// The style of a container of `units` tracks: what the author declared,
/// with full width and height, the grid display and the tracks merged in.
pub open spec fn grid_style(
    style: Option<Seq<(Seq<char>, ValueView)>>,
    nt: Option<NodeType>,
    units: int,
) -> Seq<(Seq<char>, ValueView)> {
    let declared = match style {
        Some(members) => members,
        None => Seq::empty(),
    };
    put(
        put(
            put(
                put(declared, "width"@, ValueView::String("100%"@)),
                "height"@,
                ValueView::String("100%"@),
            ),
            "display"@,
            ValueView::String("grid"@),
        ),
        tracks_key(nt),
        ValueView::String(tracks_text(units)),
    )
}

/// A child of a container of kind `nt`, with its place on the grid merged
/// into its style.
pub open spec fn placed_in(kid: NodeView, nt: Option<NodeType>) -> NodeView {
    NodeView {
        inline_style: Some(
            put(
                match kid.inline_style {
                    Some(members) => members,
                    None => Seq::empty(),
                },
                place_key(nt),
                ValueView::String(
                    place_text(
                        match start_of(kid) {
                            Some(start) => start as int,
                            None => 0,
                        },
                        match span_of(kid) {
                            Some(span) => span as int,
                            None => 0,
                        },
                    ),
                ),
            ),
        ),
        ..kid
    }
}

/// Whether every child of the node, where it is a container, has its start
/// and its span.
pub open spec fn children_placed(n: NodeView) -> bool {
    is_container(n.nt) ==> match n.children {
        Some(kids) => forall|i: int| 0 <= i < kids.len() ==> is_placed(#[trigger] kids[i]),
        None => true,
    }
}

/// The node with its layout turned into style: a container gets the style
/// of a grid, and each of its children its place on that grid; any other
/// node stays as it is.
pub open spec fn span_resolved(n: NodeView) -> NodeView {
    if is_container(n.nt) {
        NodeView {
            inline_style: Some(grid_style(n.inline_style, n.nt, unit_limit(n))),
            children: match n.children {
                Some(kids) => Some(Seq::new(kids.len(), |i: int| placed_in(kids[i], n.nt))),
                None => None,
            },
            ..n
        }
    } else {
        n
    }
}

fn tracks_value(units: i64) -> (v: Value)
    ensures
        v@ == ValueView::String(tracks_text(units as int)),
{
    let mut out: Vec<char> = Vec::new();
    push_str(&mut out, "repeat(");
    push_int(&mut out, units as i128);
    push_str(&mut out, ", minmax(0, 1fr))");
    Value::String(string_of(&out))
}

fn place_value(start: i64, span: i64) -> (v: Value)
    ensures
        v@ == ValueView::String(place_text(start as int, span as int)),
{
    let mut out: Vec<char> = Vec::new();
    push_int(&mut out, start as i128);
    push_str(&mut out, " / span ");
    push_int(&mut out, span as i128);
    Value::String(string_of(&out))
}

/// Merges one declaration into the style of a node.
fn set_style(node: &mut AstNode, key: &str, v: Value)
    ensures
        final(node)@ == (NodeView {
            inline_style: Some(
                put(
                    match old(node)@.inline_style {
                        Some(members) => members,
                        None => Seq::empty(),
                    },
                    key@,
                    v@,
                ),
            ),
            ..old(node)@
        }),
{
    if node.inline_style.is_none() {
        let fresh: Vec<(String, Value)> = Vec::new();
        assert(members_view(fresh@) =~= Seq::empty());
        node.inline_style = Some(fresh);
    }
    match &mut node.inline_style {
        Some(members) => {
            insert(members, key, v);
        },
        None => {},
    }
    proof {
        lemma_children_view(*node);
        lemma_children_view(*old(node));
    }
}

/// Turns the layout of one node into style: see `span_resolved`. Returns
/// whether every child of the node, where it is a container, has its start
/// and its span; where one has not, the node is left partly processed.
pub fn try_resolve_span(ast_node: &mut AstNode) -> (ok: bool)
    ensures
        ok == children_placed(old(ast_node)@),
        ok ==> final(ast_node)@ == span_resolved(old(ast_node)@),
{
    proof {
        lemma_children_view(*ast_node);
    }
    let row = match ast_node.nt {
        Some(NodeType::Row) => true,
        Some(NodeType::Col) => false,
        _ => {
            return true;
        },
    };
    let units = match get_prop_as_i64(ast_node, if row {
        "cols"
    } else {
        "rows"
    }) {
        Some(units) => units,
        None => DEFAULT_UNITS,
    };
    set_style(ast_node, "width", Value::from_str("100%"));
    set_style(ast_node, "height", Value::from_str("100%"));
    set_style(ast_node, "display", Value::from_str("grid"));
    set_style(
        ast_node,
        if row {
            "grid-template-columns"
        } else {
            "grid-template-rows"
        },
        tracks_value(units),
    );
    proof {
        lemma_children_view(*ast_node);
    }
    match &mut ast_node.children {
        Some(children) => {
            let ghost before = children@;
            let ghost kind = old(ast_node)@.nt;
            let mut i: usize = 0;
            while i < children.len()
                invariant
                    i <= children.len(),
                    children@.len() == before.len(),
                    kind == old(ast_node)@.nt,
                    kind == if row {
                        Some(NodeType::Row)
                    } else {
                        Some(NodeType::Col)
                    },
                    old(ast_node)@.children == Some(nodes_view(before)),
                    forall|j: int| 0 <= j < i ==> is_placed(#[trigger] before[j]@),
                    forall|j: int|
                        0 <= j < i ==> (#[trigger] children@[j])@ == placed_in(before[j]@, kind),
                    forall|j: int| i <= j < before.len() ==> children@[j] == before[j],
                decreases children.len() - i,
            {
                let start = get_prop_as_i64(&children[i], "start");
                let span = get_prop_as_i64(&children[i], "span");
                match (start, span) {
                    (Some(start), Some(span)) => {
                        set_style(
                            &mut children[i],
                            if row {
                                "grid-column"
                            } else {
                                "grid-row"
                            },
                            place_value(start, span),
                        );
                    },
                    _ => {
                        assert(!is_placed(nodes_view(before)[i as int]));
                        return false;
                    },
                }
                i = i + 1;
            }
            assert(nodes_view(children@) =~= span_resolved(old(ast_node)@).children->0);
            assert forall|j: int| 0 <= j < before.len() implies is_placed(
                #[trigger] nodes_view(before)[j],
            ) by {
                assert(is_placed(before[j]@));
            }
        },
        None => {},
    }
    proof {
        lemma_children_view(*ast_node);
    }
    true
}

/// Turns the layout of one node into style: see `span_resolved`.
pub fn resolve_span(ast_node: &mut AstNode)
    requires
        children_placed(old(ast_node)@),
    ensures
        final(ast_node)@ == span_resolved(old(ast_node)@),
{
    let ok = try_resolve_span(ast_node);
    assert(ok);
}

/// Whether every container of the tree below `n` has its children placed.
pub open spec fn all_placed(n: NodeView) -> bool
    decreases n,
{
    &&& children_placed(n)
    &&& match n.children {
        Some(kids) => forall|i: int| 0 <= i < kids.len() ==> all_placed(#[trigger] kids[i]),
        None => true,
    }
}

/// Whether every container of each tree has its children placed.
pub open spec fn forest_placed(nodes: Seq<NodeView>) -> bool {
    forall|i: int| 0 <= i < nodes.len() ==> all_placed(#[trigger] nodes[i])
}

/// Whether every container of the document has its children placed.
pub open spec fn document_placed(d: DocumentView) -> bool {
    roots_all(d, |n: NodeView| all_placed(n))
}

/// The document with the layout of every node turned into style.
pub open spec fn styled_doc(d: DocumentView) -> DocumentView {
    walked_doc(LogicStep::ResolveSpan, Seq::empty(), d)
}

/// Where every container of a tree has its children placed, the layout of
/// every node can be turned into style; the tree that comes out has the
/// identities that it had, and its containers still have their children
/// placed.
pub proof fn lemma_styled(n: NodeView)
    requires
        all_placed(n),
    ensures
        walk_fits(LogicStep::ResolveSpan, Seq::empty(), n),
        all_placed(walked(LogicStep::ResolveSpan, Seq::empty(), n)),
        same_but_style(walked(LogicStep::ResolveSpan, Seq::empty(), n), n),
    decreases n,
{
    let step = LogicStep::ResolveSpan;
    let vars = Seq::<(Seq<char>, ValueView)>::empty();
    match n.children {
        Some(kids) => {
            let below = walked_all(step, vars, kids);
            assert forall|i: int| 0 <= i < kids.len() implies walk_fits(step, vars, #[trigger] kids[i])
                && all_placed(below[i]) && same_but_style(below[i], kids[i]) by {
                lemma_styled(kids[i]);
            }
            let m = NodeView { children: Some(below), ..n };
            if is_container(n.nt) {
                assert forall|i: int| 0 <= i < kids.len() implies is_placed(
                    #[trigger] below[i],
                ) by {
                    assert(is_placed(kids[i]));
                }
            }
            let out = walked(step, vars, n);
            assert(out == span_resolved(m));
            if is_container(n.nt) {
                assert forall|i: int| 0 <= i < kids.len() implies is_placed(
                    #[trigger] out.children->0[i],
                ) && all_placed(out.children->0[i]) by {
                    assert(out.children->0[i] == placed_in(below[i], n.nt));
                    lemma_all_placed_but_style(placed_in(below[i], n.nt), below[i]);
                }
            }
            assert(same_kids_but_style(out.children->0, kids)) by {
                assert forall|i: int| 0 <= i < kids.len() implies same_but_style(
                    #[trigger] out.children->0[i],
                    kids[i],
                ) by {
                    if is_container(n.nt) {
                        assert(out.children->0[i] == placed_in(below[i], n.nt));
                    }
                }
            }
        },
        None => {},
    }
}

/// Whether `a` is `b` but for its style and the styles in the trees below
/// it.
pub open spec fn same_but_style(a: NodeView, b: NodeView) -> bool
    decreases a,
{
    &&& a.id == b.id
    &&& a.nt == b.nt
    &&& a.props == b.props
    &&& a.class_list == b.class_list
    &&& a.consume == b.consume
    &&& a.actions == b.actions
    &&& a.hooks == b.hooks
    &&& match a.children {
        Some(kids) => b.children is Some && kids.len() == b.children->0.len() && forall|i: int|
            0 <= i < kids.len() ==> same_but_style(#[trigger] kids[i], b.children->0[i]),
        None => b.children is None,
    }
}

/// Whether each of `a` is the node at its place in `b` but for the styles.
pub open spec fn same_kids_but_style(a: Seq<NodeView>, b: Seq<NodeView>) -> bool {
    a.len() == b.len() && forall|i: int| 0 <= i < a.len() ==> same_but_style(#[trigger] a[i], b[i])
}

/// Whether the children of a container are placed does not depend on the
/// style of the node.
pub proof fn lemma_all_placed_but_style(a: NodeView, b: NodeView)
    requires
        all_placed(b),
        a == (NodeView { inline_style: a.inline_style, ..b }),
    ensures
        all_placed(a),
{
}

/// Turns the layout of every node of the document into style.
pub fn run(ast: &mut AstThemeConfig, ctx: &ThemeContext)
    requires
        walk_fits_doc(LogicStep::ResolveSpan, Seq::empty(), old(ast)@),
    ensures
        final(ast)@ == styled_doc(old(ast)@),
        old(ast).wf() ==> final(ast).wf(),
{
    proof {
        if ast.wf() {
            lemma_walked_doc_wf(LogicStep::ResolveSpan, Seq::empty(), ast@);
        }
    }
    let ok = walk_roots(ast, ctx, LogicStep::ResolveSpan);
    assert(ok);
}

/// A tree that differs only in its styles from one whose nodes all have an
/// identity has an identity on all its nodes too.
pub proof fn lemma_identified_but_style(a: NodeView, b: NodeView)
    requires
        same_but_style(a, b),
        all_identified(b),
    ensures
        all_identified(a),
    decreases a,
{
    match a.children {
        Some(kids) => {
            assert forall|i: int| 0 <= i < kids.len() implies all_identified(#[trigger] kids[i]) by {
                assert(all_identified(b.children->0[i]));
                lemma_identified_but_style(kids[i], b.children->0[i]);
            }
        },
        None => {},
    }
}

/// Where every container of a document has its children placed, the layout
/// of every node can be turned into style; the containers of the document
/// that comes out still have their children placed, and its nodes have the
/// identities that they had.
pub proof fn lemma_styled_doc(d: DocumentView)
    requires
        document_placed(d),
    ensures
        walk_fits_doc(LogicStep::ResolveSpan, Seq::empty(), d),
        document_placed(styled_doc(d)),
        document_identified(d) ==> document_identified(styled_doc(d)),
{
    let f = |n: NodeView| walked(LogicStep::ResolveSpan, Seq::empty(), n);
    let placed = |n: NodeView| all_placed(n);
    let named = |n: NodeView| all_identified(n);
    let fits = |n: NodeView| walk_fits(LogicStep::ResolveSpan, Seq::empty(), n);
    assert forall|n: NodeView| #[trigger] placed(n) implies fits(n) && placed(f(n)) by {
        lemma_styled(n);
    }
    lemma_roots_implies(d, placed, fits);
    lemma_roots_map(d, f, placed, placed);
    if document_identified(d) {
        let both = |n: NodeView| all_placed(n) && all_identified(n);
        lemma_roots_both(d, placed, named, both);
        assert forall|n: NodeView| #[trigger] both(n) implies named(f(n)) by {
            lemma_styled(n);
            lemma_identified_but_style(f(n), n);
        }
        lemma_roots_map(d, f, both, named);
    }
}

} // verus!
