//! Normalisation: the layout fields of every node are filled in, and every
//! node gets an identity.

use crate::schema::ast::{
    lemma_children_view, lemma_roots_map, AstNode, AstThemeConfig, ContentView, DocumentView,
    NodeType, NodeView,
};
use crate::schema::ctx::ThemeContext;
use crate::schema::ir::{all_identified, document_identified};
use crate::schema::value::{find, insert, int_value, lookup, members_view, put, Value, ValueView};
use crate::transform::grid::{
    covered, inserted, kept_by_props, lemma_placed, lemma_placed_keeps, lemma_placed_members, lemma_sorted_members, ordered, place_children,
    placed, placement_fits, same_but_props, sort_key, sorted_by_start, starts_filled,
};
use crate::transform::identity::{
    bag_upto, content_bag, counted, document_bag, document_ids, document_unnamed, identified_doc,
    identify_document, ids_bag, lemma_bag_alike, lemma_pages_bag_alike,
    lemma_identified_doc_wf,
    lemma_identified_doc, lemma_identified_doc_counts, lemma_identified_doc_stays, unnamed,
    lemma_missing_alike, lemma_missing_pages_alike, missing_all, missing_content, missing_doc,
    missing_ids, missing_upto,
};
use crate::transform::style::{all_placed, document_placed};
use crate::transform::util::{get_prop_as_i64, int_prop};
use crate::transform::{
    lemma_walked_doc_wf, walk_fits, walk_fits_doc, walk_roots, walked, walked_all,
    walked_doc, LogicStep,
};
use vstd::prelude::*;

verus! {

/// The number of grid units of a container that does not say how many it
/// has.
pub const DEFAULT_UNITS: i64 = 12;

/// Whether a node of this kind lays its children out on a grid.
pub open spec fn is_container(nt: Option<NodeType>) -> bool {
    nt == Some(NodeType::Row) || nt == Some(NodeType::Col)
}

/// The name of the field that holds the number of grid units of a
/// container: `cols` for a row, `rows` for any other kind.
pub open spec fn units_key(nt: Option<NodeType>) -> Seq<char> {
    if nt == Some(NodeType::Row) {
        "cols"@
    } else {
        "rows"@
    }
}

/// The number of grid units of a container: what its `props` say, or
/// `DEFAULT_UNITS`.
pub open spec fn unit_limit(n: NodeView) -> int {
    match int_prop(n.props, units_key(n.nt)) {
        Some(units) => units as int,
        None => DEFAULT_UNITS as int,
    }
}

/// The `props` of a node, with the number of grid units written down where
/// the node is a container that does not say it.
pub open spec fn own_props(n: NodeView) -> Seq<(Seq<char>, ValueView)> {
    let members = match n.props {
        Some(members) => members,
        None => Seq::empty(),
    };
    if is_container(n.nt) && lookup(members, units_key(n.nt)) is None {
        put(members, units_key(n.nt), int_value(DEFAULT_UNITS as int))
    } else {
        members
    }
}

/// The node with its layout fields filled in: it has `props` and a kind;
/// a container says how many grid units it has, and its children are
/// placed.
pub open spec fn props_filled(n: NodeView) -> NodeView {
    let kind = match n.nt {
        Some(kind) => kind,
        None => NodeType::Node,
    };
    let filled = NodeView { nt: Some(kind), props: Some(own_props(n)), ..n };
    if is_container(n.nt) {
        NodeView {
            children: match n.children {
                Some(kids) => Some(placed(kids, unit_limit(filled))),
                None => None,
            },
            ..filled
        }
    } else {
        filled
    }
}

/// Whether filling in the layout fields of `n` stays within 64-bit integers.
pub open spec fn props_fit(n: NodeView) -> bool {
    is_container(n.nt) ==> match n.children {
        Some(kids) => placement_fits(
            kids,
            unit_limit(NodeView { props: Some(own_props(n)), ..n }),
        ),
        None => true,
    }
}

/// Fills in the layout fields of one node: see `props_filled`. Returns
/// whether that stays within 64-bit integers; where it does not, the node
/// is left partly processed.
pub fn try_fill_props(node: &mut AstNode) -> (ok: bool)
    ensures
        ok == props_fit(old(node)@),
        ok ==> final(node)@ == props_filled(old(node)@),
        ok && is_container(old(node)@.nt) && old(node)@.children is Some ==> covered(
            old(node)@.children->0,
            unit_limit(props_filled(old(node)@)),
        ),
{
    proof {
        lemma_children_view(*node);
    }
    if node.props.is_none() {
        let fresh: Vec<(String, Value)> = Vec::new();
        assert(members_view(fresh@) =~= Seq::empty());
        node.props = Some(fresh);
    }
    let declared = node.nt;
    if node.nt.is_none() {
        node.nt = Some(NodeType::Node);
    }
    let key = match declared {
        Some(NodeType::Row) => "cols",
        Some(NodeType::Col) => "rows",
        _ => {
            proof {
                lemma_children_view(*node);
            }
            return true;
        },
    };
    assert(key@ == units_key(declared));
    match &mut node.props {
        Some(members) => {
            if find(members, key) >= members.len() {
                insert(members, key, Value::from_i64(DEFAULT_UNITS));
            }
        },
        None => {},
    }
    let limit = match get_prop_as_i64(node, key) {
        Some(units) => units,
        None => DEFAULT_UNITS,
    };
    let ok = match &mut node.children {
        Some(children) => place_children(children, limit),
        None => true,
    };
    proof {
        lemma_children_view(*node);
    }
    ok
}

/// Fills in the layout fields of one node: see `props_filled`.
pub fn fill_props(node: &mut AstNode)
    requires
        props_fit(old(node)@),
    ensures
        final(node)@ == props_filled(old(node)@),
        is_container(old(node)@.nt) && old(node)@.children is Some ==> covered(
            old(node)@.children->0,
            unit_limit(props_filled(old(node)@)),
        ),
{
    let ok = try_fill_props(node);
    assert(ok);
}

/// The tree below `n` with the layout fields of every node filled in, the
/// nodes below a node before the node itself.
pub open spec fn laid_out(n: NodeView) -> NodeView {
    walked(LogicStep::FillProps, Seq::empty(), n)
}

/// Whether laying out the tree below `n` stays within 64-bit integers.
pub open spec fn layout_fits(n: NodeView) -> bool {
    walk_fits(LogicStep::FillProps, Seq::empty(), n)
}

/// The document with the layout fields of every node filled in.
pub open spec fn laid_out_doc(d: DocumentView) -> DocumentView {
    walked_doc(LogicStep::FillProps, Seq::empty(), d)
}

/// The normalised document: the layout fields of every node are filled in,
/// and every node has an identity, counted from `next`.
pub open spec fn normalized(d: DocumentView, next: int) -> DocumentView {
    identified_doc(laid_out_doc(d), next)
}

/// Whether normalising `d` stays within the machine's integers: laying out
/// within 64 bits, and the identities, counted from `next`, within 32.
pub open spec fn normalize_fits(d: DocumentView, next: int) -> bool {
    &&& walk_fits_doc(LogicStep::FillProps, Seq::empty(), d)
    &&& next + missing_doc(d) <= u32::MAX
}

/// Normalises the document: fills in the layout fields of every node, then
/// gives every node that has no identity the next free one. Returns whether
/// that stays within the machine's integers; where it does not, the
/// document is left partly processed.
pub fn try_run(ast: &mut AstThemeConfig, ctx: &mut ThemeContext) -> (ok: bool)
    ensures
        ok == normalize_fits(old(ast)@, old(ctx).id_idx as int),
        ok ==> final(ast)@ == normalized(old(ast)@, old(ctx).id_idx as int),
        ok ==> final(ctx).id_idx == old(ctx).id_idx + missing_doc(old(ast)@),
        final(ctx).err_list == old(ctx).err_list,
        final(ctx).variables == old(ctx).variables,
        ok && document_identified(old(ast)@) ==> final(ctx).id_idx == old(ctx).id_idx
            && final(ast)@ == laid_out_doc(old(ast)@),
        ok && old(ast).wf() ==> final(ast).wf(),
{
    proof {
        lemma_laid_out_doc_misses(ast@);
        if document_identified(ast@) {
            lemma_identity_fill_idempotent(ast@, ctx.id_idx as int);
        }
        if ast.wf() {
            lemma_walked_doc_wf(LogicStep::FillProps, Seq::empty(), ast@);
            lemma_identified_doc_wf(laid_out_doc(ast@), ctx.id_idx as int);
        }
    }
    if !walk_roots(ast, ctx, LogicStep::FillProps) {
        return false;
    }
    identify_document(ast, ctx)
}

/// Normalises the document: fills in the layout fields of every node, then
/// gives every node that has no identity the next free one.
pub fn run(ast: &mut AstThemeConfig, ctx: &mut ThemeContext)
    requires
        normalize_fits(old(ast)@, old(ctx).id_idx as int),
    ensures
        final(ast)@ == normalized(old(ast)@, old(ctx).id_idx as int),
        final(ctx).id_idx == old(ctx).id_idx + missing_doc(old(ast)@),
        final(ctx).err_list == old(ctx).err_list,
        final(ctx).variables == old(ctx).variables,
        document_identified(old(ast)@) ==> final(ctx).id_idx == old(ctx).id_idx && final(ast)@
            == laid_out_doc(old(ast)@),
        old(ast).wf() ==> final(ast).wf(),
{
    let ok = try_run(ast, ctx);
    assert(ok);
}

/// What holds of every laid-out tree below a node, and still holds of a
/// tree when an integer is bound in the `props` of its root, holds of every
/// tree below the laid-out node: laying out a node changes the trees below
/// it in the `props` of their roots and in their order only.
pub proof fn lemma_laid_out_children(n: NodeView, q: spec_fn(NodeView) -> bool)
    requires
        kept_by_props(q),
        n.children is Some,
        forall|i: int| 0 <= i < n.children->0.len() ==> q(laid_out(#[trigger] n.children->0[i])),
    ensures
        laid_out(n).children is Some,
        laid_out(n).children->0.len() == n.children->0.len(),
        forall|i: int|
            0 <= i < n.children->0.len() ==> q(#[trigger] laid_out(n).children->0[i]),
{
    let kids = n.children->0;
    let below = walked_all(LogicStep::FillProps, Seq::empty(), kids);
    let m = NodeView { children: Some(below), ..n };
    assert(laid_out(n) == props_filled(m));
    assert forall|i: int| 0 <= i < kids.len() implies q(#[trigger] below[i]) by {
        assert(q(laid_out(kids[i])));
    }
    if is_container(n.nt) {
        let limit = unit_limit(NodeView { nt: n.nt, props: Some(own_props(m)), ..m });
        lemma_placed_keeps(below, limit, q);
        assert(laid_out(n).children == Some(placed(below, limit)));
    }
}

/// Once a tree is laid out, every container in it has its children placed:
/// each child has its start and its span.
pub proof fn lemma_laid_out_placed(n: NodeView)
    requires
        layout_fits(n),
    ensures
        all_placed(laid_out(n)),
    decreases n,
{
    match n.children {
        Some(kids) => {
            let q = |x: NodeView| all_placed(x);
            assert forall|i: int| 0 <= i < kids.len() implies q(laid_out(#[trigger] kids[i])) by {
                lemma_laid_out_placed(kids[i]);
            }
            assert(kept_by_props(q));
            lemma_laid_out_children(n, q);
            let below = walked_all(LogicStep::FillProps, Seq::empty(), kids);
            let m = NodeView { children: Some(below), ..n };
            assert(laid_out(n) == props_filled(m));
            if is_container(n.nt) {
                lemma_placed(
                    below,
                    unit_limit(NodeView { nt: n.nt, props: Some(own_props(m)), ..m }),
                );
            }
        },
        None => {},
    }
}

/// In a normalised document every node has an identity, and every child of
/// a row or a column has its start and its span.
pub proof fn lemma_normalized(d: DocumentView, next: int)
    requires
        walk_fits_doc(LogicStep::FillProps, Seq::empty(), d),
    ensures
        document_identified(normalized(d, next)),
        document_placed(normalized(d, next)),
{
    let f = |n: NodeView| walked(LogicStep::FillProps, Seq::empty(), n);
    let pre = |n: NodeView| walk_fits(LogicStep::FillProps, Seq::empty(), n);
    let post = |n: NodeView| all_placed(n);
    assert forall|n: NodeView| #[trigger] pre(n) implies post(f(n)) by {
        lemma_laid_out_placed(n);
    }
    lemma_roots_map(d, f, pre, post);
    lemma_identified_doc(laid_out_doc(d), next);
}

/// Laying out a tree leaves every node with the identity that it had: a
/// tree whose nodes all have one keeps them all.
pub proof fn lemma_laid_out_identified(n: NodeView)
    requires
        all_identified(n),
    ensures
        all_identified(laid_out(n)),
    decreases n,
{
    match n.children {
        Some(kids) => {
            let q = |x: NodeView| all_identified(x);
            assert forall|i: int| 0 <= i < kids.len() implies q(laid_out(#[trigger] kids[i])) by {
                lemma_laid_out_identified(kids[i]);
            }
            assert(kept_by_props(q));
            lemma_laid_out_children(n, q);
        },
        None => {},
    }
}

/// Normalising a document whose nodes all have an identity hands out none:
/// the count of the identities stays where it was, and every node keeps
/// the identity that it had.
pub proof fn lemma_identity_fill_idempotent(d: DocumentView, next: int)
    requires
        document_identified(d),
    ensures
        missing_doc(d) == 0,
        normalized(d, next) == laid_out_doc(d),
        document_identified(normalized(d, next)),
{
    lemma_laid_out_doc_misses(d);
    let f = |n: NodeView| walked(LogicStep::FillProps, Seq::empty(), n);
    let named = |n: NodeView| all_identified(n);
    assert forall|n: NodeView| #[trigger] named(n) implies named(f(n)) by {
        lemma_laid_out_identified(n);
    }
    lemma_roots_map(d, f, named, named);
    lemma_identified_doc_stays(laid_out_doc(d), next);
}

/// Normalising a second time hands out no identity: whatever document was
/// normalised, and wherever the count stands the second time, the count
/// stays and every node keeps the identity that the first time gave it.
pub proof fn lemma_normalize_twice(d: DocumentView, first: int, second: int)
    ensures
        missing_doc(normalized(d, first)) == 0,
        normalized(normalized(d, first), second) == laid_out_doc(normalized(d, first)),
{
    lemma_identified_doc(laid_out_doc(d), first);
    lemma_identity_fill_idempotent(normalized(d, first), second);
}

/// One tree more misses what the trees before it miss and what it misses.
proof fn lemma_missing_push(nodes: Seq<NodeView>, x: NodeView)
    ensures
        missing_all(nodes.push(x)) == missing_all(nodes) + missing_ids(x),
{
    let longer = nodes.push(x);
    assert(longer.drop_last() =~= nodes);
    lemma_missing_prefix(longer, nodes, nodes.len() as int);
}

/// The first trees of a list miss what they miss, whatever follows them.
proof fn lemma_missing_prefix(longer: Seq<NodeView>, nodes: Seq<NodeView>, k: int)
    requires
        0 <= k <= nodes.len() <= longer.len(),
        forall|i: int| 0 <= i < nodes.len() ==> longer[i] == nodes[i],
    ensures
        missing_upto(longer, k) == missing_upto(nodes, k),
    decreases k,
{
    if k > 0 {
        lemma_missing_prefix(longer, nodes, k - 1);
    }
}

/// Putting a tree among others adds what it misses to what they miss.
proof fn lemma_missing_inserted(sorted: Seq<NodeView>, x: NodeView)
    ensures
        missing_all(inserted(sorted, x)) == missing_all(sorted) + missing_ids(x),
    decreases sorted.len(),
{
    if sorted.len() == 0 {
        assert(inserted(sorted, x) =~= sorted.push(x));
        lemma_missing_push(sorted, x);
    } else if sort_key(sorted.last()) <= sort_key(x) {
        lemma_missing_push(sorted, x);
    } else {
        lemma_missing_inserted(sorted.drop_last(), x);
        lemma_missing_push(inserted(sorted.drop_last(), x), sorted.last());
        assert(sorted.drop_last().push(sorted.last()) =~= sorted);
        lemma_missing_push(sorted.drop_last(), sorted.last());
    }
}

/// Ordering trees changes nothing in what they miss.
proof fn lemma_missing_sorted(nodes: Seq<NodeView>)
    ensures
        missing_all(sorted_by_start(nodes)) == missing_all(nodes),
    decreases nodes.len(),
{
    if nodes.len() > 0 {
        lemma_missing_sorted(nodes.drop_last());
        lemma_missing_inserted(sorted_by_start(nodes.drop_last()), nodes.last());
        assert(nodes.drop_last().push(nodes.last()) =~= nodes);
        lemma_missing_push(nodes.drop_last(), nodes.last());
    }
}

/// Placing children changes nothing in the identities that they miss.
proof fn lemma_missing_placed(kids: Seq<NodeView>, limit: int)
    ensures
        missing_all(placed(kids, limit)) == missing_all(kids),
{
    let a = starts_filled(kids);
    let b = ordered(kids);
    let c = placed(kids, limit);
    lemma_sorted_members(a);
    assert forall|i: int| 0 <= i < kids.len() implies missing_ids(#[trigger] a[i]) == missing_ids(
        kids[i],
    ) by {
        assert(same_but_props(a[i], kids[i]));
    }
    lemma_missing_alike(a, kids, kids.len() as int);
    lemma_missing_sorted(a);
    assert forall|i: int| 0 <= i < b.len() implies missing_ids(#[trigger] c[i]) == missing_ids(
        b[i],
    ) by {
        assert(same_but_props(c[i], b[i]));
    }
    lemma_missing_alike(c, b, b.len() as int);
}

/// Laying out a tree changes nothing in the identities that it misses.
pub proof fn lemma_laid_out_misses(n: NodeView)
    ensures
        missing_ids(laid_out(n)) == missing_ids(n),
        laid_out(n).id == n.id,
    decreases n,
{
    let step = LogicStep::FillProps;
    let vars = Seq::<(Seq<char>, ValueView)>::empty();
    match n.children {
        Some(kids) => {
            let below = walked_all(step, vars, kids);
            assert forall|i: int| 0 <= i < kids.len() implies missing_ids(#[trigger] below[i])
                == missing_ids(kids[i]) by {
                lemma_laid_out_misses(kids[i]);
            }
            lemma_missing_alike(below, kids, kids.len() as int);
            let m = NodeView { children: Some(below), ..n };
            assert(laid_out(n) == props_filled(m));
            if is_container(n.nt) {
                let limit = unit_limit(
                    NodeView { nt: n.nt, props: Some(own_props(m)), ..m },
                );
                lemma_missing_placed(below, limit);
                lemma_placed_members(below, limit);
                assert(laid_out(n).children == Some(placed(below, limit)));
            }
        },
        None => {},
    }
}

/// Laying out a document changes nothing in the identities that it misses:
/// normalising moves the count of the identities by the number of nodes of
/// the document that have none.
pub proof fn lemma_laid_out_doc_misses(d: DocumentView)
    ensures
        missing_doc(laid_out_doc(d)) == missing_doc(d),
{
    let out = laid_out_doc(d);
    match d.layout.global {
        Some(Some(node)) => {
            lemma_laid_out_misses(node);
        },
        _ => {},
    }
    let pages = d.layout.pages;
    assert forall|i: int| 0 <= i < pages.len() implies missing_content(
        (#[trigger] out.layout.pages[i]).1.content,
    ) == missing_content(pages[i].1.content) by {
        match pages[i].1.content {
            ContentView::One(node) => {
                lemma_laid_out_misses(node);
            },
            ContentView::Many(nodes) => {
                let laid = out.layout.pages[i].1.content->Many_0;
                assert forall|j: int| 0 <= j < nodes.len() implies missing_ids(#[trigger] laid[j])
                    == missing_ids(nodes[j]) by {
                    lemma_laid_out_misses(nodes[j]);
                }
                lemma_missing_alike(laid, nodes, nodes.len() as int);
            },
        }
    }
    lemma_missing_pages_alike(out.layout.pages, pages, pages.len() as int);
}

/// Laying out a tree gives no node an identity.
pub proof fn lemma_laid_out_unnamed(n: NodeView)
    requires
        unnamed(n),
    ensures
        unnamed(laid_out(n)),
    decreases n,
{
    match n.children {
        Some(kids) => {
            let q = |x: NodeView| unnamed(x);
            assert forall|i: int| 0 <= i < kids.len() implies q(laid_out(#[trigger] kids[i])) by {
                lemma_laid_out_unnamed(kids[i]);
            }
            assert(kept_by_props(q));
            lemma_laid_out_children(n, q);
        },
        None => {},
    }
}

/// In a document of which no node declares an identity, normalising
/// numbers the nodes one after the other from the count on, in the order in
/// which the normalised document holds them. Within 32 bits, no two nodes
/// then have the same identity: see `lemma_counted_differ`.
pub proof fn lemma_normalized_counts(d: DocumentView, next: int)
    requires
        document_unnamed(d),
    ensures
        document_ids(normalized(d, next)) == counted(next, missing_doc(d)),
{
    let f = |n: NodeView| walked(LogicStep::FillProps, Seq::empty(), n);
    let bare = |n: NodeView| unnamed(n);
    assert forall|n: NodeView| #[trigger] bare(n) implies bare(f(n)) by {
        lemma_laid_out_unnamed(n);
    }
    lemma_roots_map(d, f, bare, bare);
    lemma_laid_out_doc_misses(d);
    lemma_identified_doc_counts(laid_out_doc(d), next);
}

/// One tree more has the identities of the trees before it and its own.
proof fn lemma_bag_push(nodes: Seq<NodeView>, x: NodeView)
    ensures
        bag_upto(nodes.push(x), (nodes.len() + 1) as int) == bag_upto(nodes, nodes.len() as int).add(
            ids_bag(x),
        ),
{
    lemma_bag_prefix(nodes.push(x), nodes, nodes.len() as int);
}

/// The first trees of a list have their identities, whatever follows them.
proof fn lemma_bag_prefix(longer: Seq<NodeView>, nodes: Seq<NodeView>, k: int)
    requires
        0 <= k <= nodes.len() <= longer.len(),
        forall|i: int| 0 <= i < nodes.len() ==> longer[i] == nodes[i],
    ensures
        bag_upto(longer, k) == bag_upto(nodes, k),
    decreases k,
{
    if k > 0 {
        lemma_bag_prefix(longer, nodes, k - 1);
    }
}

/// Putting a tree among others adds its identities to theirs.
proof fn lemma_bag_inserted(sorted: Seq<NodeView>, x: NodeView)
    ensures
        bag_upto(inserted(sorted, x), (sorted.len() + 1) as int) == bag_upto(
            sorted,
            sorted.len() as int,
        ).add(ids_bag(x)),
        inserted(sorted, x).len() == sorted.len() + 1,
    decreases sorted.len(),
{
    if sorted.len() == 0 {
        assert(inserted(sorted, x) =~= sorted.push(x));
        lemma_bag_push(sorted, x);
    } else if sort_key(sorted.last()) <= sort_key(x) {
        lemma_bag_push(sorted, x);
    } else {
        let shorter = sorted.drop_last();
        lemma_bag_inserted(shorter, x);
        lemma_bag_push(inserted(shorter, x), sorted.last());
        assert(shorter.push(sorted.last()) =~= sorted);
        lemma_bag_push(shorter, sorted.last());
        assert(bag_upto(shorter, shorter.len() as int).add(ids_bag(x)).add(ids_bag(sorted.last()))
            =~= bag_upto(shorter, shorter.len() as int).add(ids_bag(sorted.last())).add(
            ids_bag(x),
        ));
    }
}

/// Ordering trees changes nothing in the identities that they have.
proof fn lemma_bag_sorted(nodes: Seq<NodeView>)
    ensures
        bag_upto(sorted_by_start(nodes), nodes.len() as int) == bag_upto(
            nodes,
            nodes.len() as int,
        ),
        sorted_by_start(nodes).len() == nodes.len(),
    decreases nodes.len(),
{
    if nodes.len() > 0 {
        lemma_bag_sorted(nodes.drop_last());
        lemma_bag_inserted(sorted_by_start(nodes.drop_last()), nodes.last());
        assert(nodes.drop_last().push(nodes.last()) =~= nodes);
        lemma_bag_push(nodes.drop_last(), nodes.last());
    }
}

/// Placing children changes nothing in the identities that they have.
proof fn lemma_bag_placed(kids: Seq<NodeView>, limit: int)
    ensures
        bag_upto(placed(kids, limit), kids.len() as int) == bag_upto(kids, kids.len() as int),
        placed(kids, limit).len() == kids.len(),
{
    let a = starts_filled(kids);
    let b = ordered(kids);
    let c = placed(kids, limit);
    lemma_sorted_members(a);
    assert forall|i: int| 0 <= i < kids.len() implies ids_bag(#[trigger] a[i]) == ids_bag(
        kids[i],
    ) by {
        assert(same_but_props(a[i], kids[i]));
    }
    lemma_bag_alike(a, kids, kids.len() as int);
    lemma_bag_sorted(a);
    assert forall|i: int| 0 <= i < b.len() implies ids_bag(#[trigger] c[i]) == ids_bag(b[i]) by {
        assert(same_but_props(c[i], b[i]));
    }
    lemma_bag_alike(c, b, b.len() as int);
}

/// Laying out a tree leaves every node with the identity that it had: the
/// laid-out tree has the identities of the tree, each as often.
pub proof fn lemma_laid_out_keeps_ids(n: NodeView)
    ensures
        ids_bag(laid_out(n)) == ids_bag(n),
    decreases n,
{
    let step = LogicStep::FillProps;
    let vars = Seq::<(Seq<char>, ValueView)>::empty();
    match n.children {
        Some(kids) => {
            let below = walked_all(step, vars, kids);
            assert forall|i: int| 0 <= i < kids.len() implies ids_bag(#[trigger] below[i])
                == ids_bag(kids[i]) by {
                lemma_laid_out_keeps_ids(kids[i]);
            }
            lemma_bag_alike(below, kids, kids.len() as int);
            let m = NodeView { children: Some(below), ..n };
            assert(laid_out(n) == props_filled(m));
            if is_container(n.nt) {
                let limit = unit_limit(
                    NodeView { nt: n.nt, props: Some(own_props(m)), ..m },
                );
                lemma_bag_placed(below, limit);
                assert(laid_out(n).children == Some(placed(below, limit)));
            }
        },
        None => {},
    }
}

/// Normalising a document whose nodes all have an identity leaves every
/// node with the identity that it had: the normalised document has the
/// identities of the document, each as often.
pub proof fn lemma_normalized_keeps_ids(d: DocumentView, next: int)
    requires
        document_identified(d),
    ensures
        document_bag(normalized(d, next)) == document_bag(d),
{
    lemma_identity_fill_idempotent(d, next);
    let out = laid_out_doc(d);
    match d.layout.global {
        Some(Some(node)) => {
            lemma_laid_out_keeps_ids(node);
        },
        _ => {},
    }
    let pages = d.layout.pages;
    assert forall|i: int| 0 <= i < pages.len() implies content_bag(
        (#[trigger] out.layout.pages[i]).1.content,
    ) == content_bag(pages[i].1.content) by {
        match pages[i].1.content {
            ContentView::One(node) => {
                lemma_laid_out_keeps_ids(node);
            },
            ContentView::Many(nodes) => {
                let laid = out.layout.pages[i].1.content->Many_0;
                assert forall|j: int| 0 <= j < nodes.len() implies ids_bag(#[trigger] laid[j])
                    == ids_bag(nodes[j]) by {
                    lemma_laid_out_keeps_ids(nodes[j]);
                }
                lemma_bag_alike(laid, nodes, nodes.len() as int);
            },
        }
    }
    lemma_pages_bag_alike(out.layout.pages, pages, pages.len() as int);
}

} // verus!
