//! Identities: every node of a document gets one, counted through the
//! document in the order in which the nodes are written.

use crate::schema::ast::{
    content_all, document_wf, lemma_children_view, node_wf, nodes_view, own_wf,
    pages_view, roots_all, AstContent, AstNode, AstThemeConfig, ContentView, DocumentView,
    LayoutView, NodeView, PageView,
};
use crate::schema::ctx::ThemeContext;
use crate::schema::ir::{all_identified, document_identified};
use crate::transform::style::{all_placed, document_placed};
use crate::transform::util::is_placed;
use crate::transform::normalize::is_container;
use vstd::multiset::Multiset;
use vstd::prelude::*;

verus! {

/// The number of nodes of the tree below `n` that have no identity.
pub open spec fn missing_ids(n: NodeView) -> nat
    decreases n, 1nat, 0int,
{
    (if n.id is None {
        1nat
    } else {
        0nat
    }) + match n.children {
        Some(kids) => missing_upto(kids, kids.len() as int),
        None => 0,
    }
}

/// The number of nodes of the first `k` trees that have no identity.
pub open spec fn missing_upto(nodes: Seq<NodeView>, k: int) -> nat
    decreases nodes, 0nat, k,
{
    if k <= 0 || k > nodes.len() {
        0
    } else {
        missing_upto(nodes, k - 1) + missing_ids(nodes[k - 1])
    }
}

/// The number of nodes of the trees that have no identity.
pub open spec fn missing_all(nodes: Seq<NodeView>) -> nat {
    missing_upto(nodes, nodes.len() as int)
}

/// The tree below `n` with an identity on every node. A node that has none
/// gets the next free one, counted from `next`: the node itself before the
/// nodes below it, and those in their order.
pub open spec fn identified(n: NodeView, next: int) -> NodeView
    decreases n, 1nat,
{
    NodeView {
        id: Some(
            match n.id {
                Some(id) => id,
                None => next as u32,
            },
        ),
        children: match n.children {
            Some(kids) => Some(
                identified_all(
                    kids,
                    next + if n.id is None {
                        1int
                    } else {
                        0int
                    },
                ),
            ),
            None => None,
        },
        ..n
    }
}

/// The trees with an identity on every node, counted from `next` through
/// the trees in their order.
pub open spec fn identified_all(nodes: Seq<NodeView>, next: int) -> Seq<NodeView>
    decreases nodes, 0nat,
{
    Seq::new(
        nodes.len(),
        |i: int|
            if 0 <= i < nodes.len() {
                identified(nodes[i], next + missing_upto(nodes, i))
            } else {
                arbitrary()
            },
    )
}

/// The more trees are counted, the more nodes without identity there are.
pub proof fn lemma_missing_upto_grows(nodes: Seq<NodeView>, a: int, b: int)
    requires
        0 <= a <= b <= nodes.len(),
    ensures
        missing_upto(nodes, a) <= missing_upto(nodes, b),
    decreases b - a,
{
    if a < b {
        lemma_missing_upto_grows(nodes, a, b - 1);
    }
}

/// Gives the node an identity if it has none: the next free one.
pub fn fill_id(node: &mut AstNode, ctx: &mut ThemeContext)
    requires
        old(node).id is None ==> old(ctx).id_idx < u32::MAX,
    ensures
        final(node)@ == (NodeView {
            id: Some(
                match old(node).id {
                    Some(id) => id,
                    None => old(ctx).id_idx,
                },
            ),
            ..old(node)@
        }),
        final(node).children == old(node).children,
        final(ctx).id_idx == old(ctx).id_idx + if old(node).id is None {
            1int
        } else {
            0int
        },
        final(ctx).err_list == old(ctx).err_list,
        final(ctx).variables == old(ctx).variables,
{
    if node.id.is_none() {
        node.id = Some(ctx.id_idx);
        ctx.id_idx = ctx.id_idx + 1;
    }
    proof {
        lemma_children_view(*node);
        lemma_children_view(*old(node));
    }
}

/// Gives every node of the tree that has no identity the next free one:
/// see `identified`. Returns whether the identities stay within 32 bits;
/// where they do not, the tree is left partly processed.
pub fn identify(node: &mut AstNode, ctx: &mut ThemeContext) -> (ok: bool)
    ensures
        ok == (old(ctx).id_idx + missing_ids(old(node)@) <= u32::MAX),
        ok ==> final(node)@ == identified(old(node)@, old(ctx).id_idx as int),
        ok ==> final(ctx).id_idx == old(ctx).id_idx + missing_ids(old(node)@),
        final(ctx).err_list == old(ctx).err_list,
        final(ctx).variables == old(ctx).variables,
    decreases *old(node),
{
    proof {
        lemma_children_view(*node);
    }
    if node.id.is_none() && ctx.id_idx == u32::MAX {
        return false;
    }
    fill_id(node, ctx);
    let ghost below = ctx.id_idx as int;
    match &mut node.children {
        Some(children) => {
            let ghost before = children@;
            let ghost kids = nodes_view(before);
            let mut i: usize = 0;
            while i < children.len()
                invariant
                    i <= children.len(),
                    children@.len() == before.len(),
                    kids == nodes_view(before),
                    old(node)@.children == Some(kids),
                    below == old(ctx).id_idx + if old(node).id is None {
                        1int
                    } else {
                        0int
                    },
                    ctx.id_idx == below + missing_upto(kids, i as int),
                    ctx.err_list == old(ctx).err_list,
                    ctx.variables == old(ctx).variables,
                    forall|j: int|
                        0 <= j < i ==> (#[trigger] children@[j])@ == identified(
                            before[j]@,
                            below + missing_upto(kids, j),
                        ),
                    forall|j: int| i <= j < before.len() ==> children@[j] == before[j],
                    forall|j: int|
                        0 <= j < before.len() ==> decreases_to!(*old(node) => #[trigger] before[j]),
                decreases children.len() - i,
            {
                proof {
                    lemma_missing_upto_grows(kids, i + 1, kids.len() as int);
                    assert(kids[i as int] == before[i as int]@);
                }
                if !identify(&mut children[i], ctx) {
                    return false;
                }
                i = i + 1;
            }
            assert(nodes_view(children@) =~= identified_all(kids, below));
        },
        None => {},
    }
    proof {
        lemma_children_view(*node);
    }
    true
}

/// Gives every node of the trees that has no identity the next free one:
/// see `identified_all`. Returns whether the identities stay within 32
/// bits; where they do not, the trees are left partly processed.
pub fn identify_all(nodes: &mut Vec<AstNode>, ctx: &mut ThemeContext) -> (ok: bool)
    ensures
        ok == (old(ctx).id_idx + missing_all(nodes_view(old(nodes)@)) <= u32::MAX),
        ok ==> nodes_view(final(nodes)@) == identified_all(
            nodes_view(old(nodes)@),
            old(ctx).id_idx as int,
        ),
        ok ==> final(ctx).id_idx == old(ctx).id_idx + missing_all(nodes_view(old(nodes)@)),
        final(ctx).err_list == old(ctx).err_list,
        final(ctx).variables == old(ctx).variables,
{
    let ghost before = nodes@;
    let ghost kids = nodes_view(before);
    let ghost below = ctx.id_idx as int;
    let mut i: usize = 0;
    while i < nodes.len()
        invariant
            i <= nodes.len(),
            nodes@.len() == before.len(),
            kids == nodes_view(before),
            before == old(nodes)@,
            below == old(ctx).id_idx,
            ctx.id_idx == below + missing_upto(kids, i as int),
            ctx.err_list == old(ctx).err_list,
            ctx.variables == old(ctx).variables,
            forall|j: int|
                0 <= j < i ==> (#[trigger] nodes@[j])@ == identified(
                    before[j]@,
                    below + missing_upto(kids, j),
                ),
            forall|j: int| i <= j < before.len() ==> nodes@[j] == before[j],
        decreases nodes.len() - i,
    {
        proof {
            lemma_missing_upto_grows(kids, i + 1, kids.len() as int);
            assert(kids[i as int] == before[i as int]@);
        }
        if !identify(&mut nodes[i], ctx) {
            return false;
        }
        i = i + 1;
    }
    assert(nodes_view(nodes@) =~= identified_all(kids, below));
    true
}

/// The number of nodes of the content that have no identity.
pub open spec fn missing_content(c: ContentView) -> nat {
    match c {
        ContentView::One(node) => missing_ids(node),
        ContentView::Many(nodes) => missing_all(nodes),
    }
}

/// The number of nodes of the first `k` pages that have no identity.
pub open spec fn missing_pages(pages: Seq<(Seq<char>, PageView)>, k: int) -> nat
    decreases k,
{
    if k <= 0 || k > pages.len() {
        0
    } else {
        missing_pages(pages, k - 1) + missing_content(pages[k - 1].1.content)
    }
}

/// The number of nodes of the shared tree that have no identity.
pub open spec fn missing_global(global: Option<Option<NodeView>>) -> nat {
    match global {
        Some(Some(node)) => missing_ids(node),
        _ => 0,
    }
}

/// The number of nodes of the document that have no identity.
pub open spec fn missing_doc(d: DocumentView) -> nat {
    missing_global(d.layout.global) + missing_pages(d.layout.pages, d.layout.pages.len() as int)
}

/// The content with an identity on every node, counted from `next`.
pub open spec fn identified_content(c: ContentView, next: int) -> ContentView {
    match c {
        ContentView::One(node) => ContentView::One(identified(node, next)),
        ContentView::Many(nodes) => ContentView::Many(identified_all(nodes, next)),
    }
}

/// The pages with an identity on every node, counted from `next` through
/// the pages in their order.
pub open spec fn identified_pages(pages: Seq<(Seq<char>, PageView)>, next: int) -> Seq<
    (Seq<char>, PageView),
> {
    Seq::new(
        pages.len(),
        |i: int|
            (
                pages[i].0,
                PageView {
                    name: pages[i].1.name,
                    content: identified_content(pages[i].1.content, next + missing_pages(pages, i)),
                },
            ),
    )
}

/// The document with an identity on every node, counted from `next`: the
/// shared tree first, then the pages in their order.
pub open spec fn identified_doc(d: DocumentView, next: int) -> DocumentView {
    DocumentView {
        layout: LayoutView {
            global: match d.layout.global {
                Some(Some(node)) => Some(Some(identified(node, next))),
                other => other,
            },
            pages: identified_pages(d.layout.pages, next + missing_global(d.layout.global)),
        },
        ..d
    }
}

/// The more pages are counted, the more nodes without identity there are.
pub proof fn lemma_missing_pages_grows(pages: Seq<(Seq<char>, PageView)>, a: int, b: int)
    requires
        0 <= a <= b <= pages.len(),
    ensures
        missing_pages(pages, a) <= missing_pages(pages, b),
    decreases b - a,
{
    if a < b {
        lemma_missing_pages_grows(pages, a, b - 1);
    }
}

fn identify_content(content: &mut AstContent, ctx: &mut ThemeContext) -> (ok: bool)
    ensures
        ok == (old(ctx).id_idx + missing_content(old(content)@) <= u32::MAX),
        ok ==> final(content)@ == identified_content(old(content)@, old(ctx).id_idx as int),
        ok ==> final(ctx).id_idx == old(ctx).id_idx + missing_content(old(content)@),
        final(ctx).err_list == old(ctx).err_list,
        final(ctx).variables == old(ctx).variables,
{
    match content {
        AstContent::One(node) => identify(node, ctx),
        AstContent::Many(nodes) => identify_all(nodes, ctx),
    }
}

/// Gives every node of the document that has no identity the next free
/// one: see `identified_doc`. Returns whether the identities stay within 32
/// bits; where they do not, the document is left partly processed.
pub fn identify_document(ast: &mut AstThemeConfig, ctx: &mut ThemeContext) -> (ok: bool)
    ensures
        ok == (old(ctx).id_idx + missing_doc(old(ast)@) <= u32::MAX),
        ok ==> final(ast)@ == identified_doc(old(ast)@, old(ctx).id_idx as int),
        ok ==> final(ctx).id_idx == old(ctx).id_idx + missing_doc(old(ast)@),
        final(ctx).err_list == old(ctx).err_list,
        final(ctx).variables == old(ctx).variables,
{
    let ghost pages = old(ast)@.layout.pages;
    proof {
        lemma_missing_pages_grows(pages, 0, pages.len() as int);
    }
    match &mut ast.layout.global {
        Some(shared) => match &mut shared.widget {
            Some(node) => {
                if !identify(node, ctx) {
                    return false;
                }
            },
            None => {},
        },
        None => {},
    }
    let ghost before = ast.layout.pages@;
    let ghost below = ctx.id_idx as int;
    let mut i: usize = 0;
    while i < ast.layout.pages.len()
        invariant
            i <= ast.layout.pages.len(),
            ast.layout.pages@.len() == before.len(),
            before == old(ast).layout.pages@,
            pages == pages_view(before),
            ast.config == old(ast).config,
            ast.layout@.global == identified_doc(
                old(ast)@,
                old(ctx).id_idx as int,
            ).layout.global,
            below == old(ctx).id_idx + missing_global(old(ast)@.layout.global),
            ctx.id_idx == below + missing_pages(pages, i as int),
            ctx.err_list == old(ctx).err_list,
            ctx.variables == old(ctx).variables,
            forall|j: int|
                0 <= j < i ==> (#[trigger] ast.layout.pages@[j]).0 == before[j].0
                    && ast.layout.pages@[j].1.name == before[j].1.name
                    && ast.layout.pages@[j].1.content@ == identified_content(
                    before[j].1.content@,
                    below + missing_pages(pages, j),
                ),
            forall|j: int| i <= j < before.len() ==> ast.layout.pages@[j] == before[j],
        decreases ast.layout.pages.len() - i,
    {
        proof {
            lemma_missing_pages_grows(pages, i + 1, pages.len() as int);
            assert(pages[i as int].1.content == before[i as int].1.content@);
        }
        if !identify_content(&mut ast.layout.pages[i].1.content, ctx) {
            return false;
        }
        i = i + 1;
    }
    assert(ast@.layout.pages =~= identified_doc(old(ast)@, old(ctx).id_idx as int).layout.pages);
    true
}

/// Giving identities leaves every node with one, and leaves the children
/// of containers placed as they were.
pub proof fn lemma_identified(n: NodeView, next: int)
    ensures
        all_identified(identified(n, next)),
        all_placed(n) ==> all_placed(identified(n, next)),
        identified(n, next).props == n.props,
        identified(n, next).nt == n.nt,
    decreases n,
{
    match n.children {
        Some(kids) => {
            let below = next + if n.id is None {
                1int
            } else {
                0int
            };
            let out = identified_all(kids, below);
            assert forall|i: int| 0 <= i < kids.len() implies all_identified(#[trigger] out[i]) && (
            all_placed(kids[i]) ==> all_placed(out[i])) && out[i].props == kids[i].props by {
                lemma_identified(kids[i], below + missing_upto(kids, i));
            }
            if all_placed(n) && is_container(n.nt) {
                assert forall|i: int| 0 <= i < kids.len() implies is_placed(#[trigger] out[i]) by {
                    assert(is_placed(kids[i]));
                }
            }
        },
        None => {},
    }
}

/// Giving identities to a document leaves every node with one, and leaves
/// the children of containers placed as they were.
pub proof fn lemma_identified_doc(d: DocumentView, next: int)
    ensures
        document_identified(identified_doc(d, next)),
        document_placed(d) ==> document_placed(identified_doc(d, next)),
{
    let out = identified_doc(d, next);
    match d.layout.global {
        Some(Some(node)) => {
            lemma_identified(node, next);
        },
        _ => {},
    }
    let below = next + missing_global(d.layout.global);
    let pages = d.layout.pages;
    assert forall|i: int| 0 <= i < pages.len() implies content_all(
        (#[trigger] out.layout.pages[i]).1.content,
        |n: NodeView| all_identified(n),
    ) && (document_placed(d) ==> content_all(
        out.layout.pages[i].1.content,
        |n: NodeView| all_placed(n),
    )) by {
        let at = below + missing_pages(pages, i);
        assert(out.layout.pages[i].1.content == identified_content(pages[i].1.content, at));
        if document_placed(d) {
            assert(content_all(pages[i].1.content, |n: NodeView| all_placed(n)));
        }
        match pages[i].1.content {
            ContentView::One(node) => {
                lemma_identified(node, at);
            },
            ContentView::Many(nodes) => {
                let named = identified_all(nodes, at);
                assert forall|j: int| 0 <= j < nodes.len() implies all_identified(
                    #[trigger] named[j],
                ) && (document_placed(d) ==> all_placed(named[j])) by {
                    lemma_identified(nodes[j], at + missing_upto(nodes, j));
                    if document_placed(d) {
                        assert(all_placed(nodes[j]));
                    }
                }
            },
        }
    }
}

/// A tree whose nodes all have an identity misses none, and giving
/// identities leaves it as it is, wherever the count stands.
pub proof fn lemma_identified_stays(n: NodeView, next: int)
    requires
        all_identified(n),
    ensures
        missing_ids(n) == 0,
        identified(n, next) == n,
    decreases n,
{
    match n.children {
        Some(kids) => {
            lemma_forest_identified_stays(kids, next, kids.len() as int);
            assert(identified_all(kids, next) =~= kids) by {
                assert forall|i: int| 0 <= i < kids.len() implies identified_all(kids, next)[i]
                    == kids[i] by {
                    lemma_forest_identified_stays(kids, next, i);
                    lemma_identified_stays(kids[i], next + missing_upto(kids, i));
                }
            }
        },
        None => {},
    }
}

/// Trees whose nodes all have an identity miss none.
pub proof fn lemma_forest_identified_stays(nodes: Seq<NodeView>, next: int, k: int)
    requires
        forall|i: int| 0 <= i < nodes.len() ==> all_identified(#[trigger] nodes[i]),
        0 <= k <= nodes.len(),
    ensures
        missing_upto(nodes, k) == 0,
    decreases nodes, k,
{
    if k > 0 {
        lemma_forest_identified_stays(nodes, next, k - 1);
        lemma_identified_stays(nodes[k - 1], next);
    }
}

/// A document whose nodes all have an identity misses none, and giving
/// identities leaves it as it is, wherever the count stands.
pub proof fn lemma_identified_doc_stays(d: DocumentView, next: int)
    requires
        document_identified(d),
    ensures
        missing_doc(d) == 0,
        identified_doc(d, next) == d,
{
    match d.layout.global {
        Some(Some(node)) => {
            lemma_identified_stays(node, next);
        },
        _ => {},
    }
    let pages = d.layout.pages;
    assert forall|i: int| 0 <= i < pages.len() implies missing_content(
        (#[trigger] pages[i]).1.content,
    ) == 0 && forall|at: int| identified_content(pages[i].1.content, at) == pages[i].1.content by {
        assert(content_all(pages[i].1.content, |n: NodeView| all_identified(n)));
        match pages[i].1.content {
            ContentView::One(node) => {
                assert forall|at: int| identified_content(pages[i].1.content, at)
                    == pages[i].1.content by {
                    lemma_identified_stays(node, at);
                }
                lemma_identified_stays(node, next);
            },
            ContentView::Many(nodes) => {
                lemma_forest_identified_stays(nodes, next, nodes.len() as int);
                assert forall|at: int| identified_content(pages[i].1.content, at)
                    == pages[i].1.content by {
                    assert(identified_all(nodes, at) =~= nodes) by {
                        assert forall|j: int| 0 <= j < nodes.len() implies identified_all(
                            nodes,
                            at,
                        )[j] == nodes[j] by {
                            lemma_identified_stays(nodes[j], at + missing_upto(nodes, j));
                        }
                    }
                }
            },
        }
    }
    lemma_pages_missing_none(pages, pages.len() as int);
    assert(identified_doc(d, next).layout.pages =~= pages);
}

/// Pages of which none misses an identity miss none together.
proof fn lemma_pages_missing_none(pages: Seq<(Seq<char>, PageView)>, k: int)
    requires
        0 <= k <= pages.len(),
        forall|i: int| 0 <= i < pages.len() ==> missing_content((#[trigger] pages[i]).1.content) == 0,
    ensures
        missing_pages(pages, k) == 0,
    decreases k,
{
    if k > 0 {
        lemma_pages_missing_none(pages, k - 1);
    }
}

/// Trees that miss as many identities, place by place, miss as many
/// together.
pub proof fn lemma_missing_alike(a: Seq<NodeView>, b: Seq<NodeView>, k: int)
    requires
        a.len() == b.len(),
        0 <= k <= a.len(),
        forall|i: int| 0 <= i < a.len() ==> missing_ids(#[trigger] a[i]) == missing_ids(b[i]),
    ensures
        missing_upto(a, k) == missing_upto(b, k),
    decreases k,
{
    if k > 0 {
        lemma_missing_alike(a, b, k - 1);
    }
}

/// Pages that miss as many identities, page by page, miss as many together.
pub proof fn lemma_missing_pages_alike(
    a: Seq<(Seq<char>, PageView)>,
    b: Seq<(Seq<char>, PageView)>,
    k: int,
)
    requires
        a.len() == b.len(),
        0 <= k <= a.len(),
        forall|i: int|
            0 <= i < a.len() ==> missing_content((#[trigger] a[i]).1.content) == missing_content(
                b[i].1.content,
            ),
    ensures
        missing_pages(a, k) == missing_pages(b, k),
    decreases k,
{
    if k > 0 {
        lemma_missing_pages_alike(a, b, k - 1);
    }
}


/// The identities of the tree below `n`, read in the order in which the
/// nodes are written: a node before the nodes below it.
pub open spec fn ids_of(n: NodeView) -> Seq<Option<u32>>
    decreases n, 1nat, 0int,
{
    seq![n.id] + match n.children {
        Some(kids) => ids_upto(kids, kids.len() as int),
        None => Seq::empty(),
    }
}

/// The identities of the first `k` trees, read in their order.
pub open spec fn ids_upto(nodes: Seq<NodeView>, k: int) -> Seq<Option<u32>>
    decreases nodes, 0nat, k,
{
    if k <= 0 || k > nodes.len() {
        Seq::empty()
    } else {
        ids_upto(nodes, k - 1) + ids_of(nodes[k - 1])
    }
}

/// The identities of a content, read in order.
pub open spec fn content_ids(c: ContentView) -> Seq<Option<u32>> {
    match c {
        ContentView::One(node) => ids_of(node),
        ContentView::Many(nodes) => ids_upto(nodes, nodes.len() as int),
    }
}

/// The identities of the first `k` pages, read in order.
pub open spec fn pages_ids(pages: Seq<(Seq<char>, PageView)>, k: int) -> Seq<Option<u32>>
    decreases k,
{
    if k <= 0 || k > pages.len() {
        Seq::empty()
    } else {
        pages_ids(pages, k - 1) + content_ids(pages[k - 1].1.content)
    }
}

/// The identities of a document, read in order: those of the shared tree,
/// then those of the pages.
pub open spec fn document_ids(d: DocumentView) -> Seq<Option<u32>> {
    (match d.layout.global {
        Some(Some(node)) => ids_of(node),
        _ => Seq::empty(),
    }) + pages_ids(d.layout.pages, d.layout.pages.len() as int)
}

/// Whether no node of the tree below `n` has an identity.
pub open spec fn unnamed(n: NodeView) -> bool
    decreases n,
{
    &&& n.id is None
    &&& match n.children {
        Some(kids) => forall|i: int| 0 <= i < kids.len() ==> unnamed(#[trigger] kids[i]),
        None => true,
    }
}

/// Whether no node of the document has an identity.
pub open spec fn document_unnamed(d: DocumentView) -> bool {
    roots_all(d, |n: NodeView| unnamed(n))
}

/// The identities `from`, `from + 1`, and so on, `count` of them.
pub open spec fn counted(from: int, count: nat) -> Seq<Option<u32>> {
    Seq::new(count, |i: int| Some((from + i) as u32))
}

/// In a tree of which no node had an identity, giving identities numbers
/// the nodes one after the other, in the order in which they are written.
pub proof fn lemma_identified_counts(n: NodeView, next: int)
    requires
        unnamed(n),
    ensures
        ids_of(identified(n, next)) == counted(next, missing_ids(n)),
    decreases n, 1nat, 0int,
{
    match n.children {
        Some(kids) => {
            lemma_forest_identified_counts(kids, next + 1, kids.len() as int);
            assert(ids_of(identified(n, next)) =~= counted(next, missing_ids(n)));
        },
        None => {
            assert(ids_of(identified(n, next)) =~= counted(next, missing_ids(n)));
        },
    }
}

/// In trees of which no node had an identity, giving identities numbers
/// the nodes one after the other, through the trees in their order.
pub proof fn lemma_forest_identified_counts(nodes: Seq<NodeView>, next: int, k: int)
    requires
        forall|i: int| 0 <= i < nodes.len() ==> unnamed(#[trigger] nodes[i]),
        0 <= k <= nodes.len(),
    ensures
        ids_upto(identified_all(nodes, next), k) == counted(next, missing_upto(nodes, k)),
    decreases nodes, 0nat, k,
{
    if k > 0 {
        lemma_forest_identified_counts(nodes, next, k - 1);
        lemma_identified_counts(nodes[k - 1], next + missing_upto(nodes, k - 1));
        assert(ids_upto(identified_all(nodes, next), k) =~= counted(
            next,
            missing_upto(nodes, k),
        ));
    } else {
        assert(ids_upto(identified_all(nodes, next), k) =~= counted(
            next,
            missing_upto(nodes, k),
        ));
    }
}

/// In a document of which no node had an identity, giving identities
/// numbers the nodes one after the other, in the order in which they are
/// written.
pub proof fn lemma_identified_doc_counts(d: DocumentView, next: int)
    requires
        document_unnamed(d),
    ensures
        document_ids(identified_doc(d, next)) == counted(next, missing_doc(d)),
{
    let out = identified_doc(d, next);
    match d.layout.global {
        Some(Some(node)) => {
            lemma_identified_counts(node, next);
        },
        _ => {},
    }
    let below = next + missing_global(d.layout.global);
    lemma_pages_identified_count(d.layout.pages, below, d.layout.pages.len() as int);
    assert(document_ids(out) =~= counted(next, missing_doc(d)));
}

proof fn lemma_pages_identified_count(pages: Seq<(Seq<char>, PageView)>, next: int, k: int)
    requires
        forall|i: int|
            0 <= i < pages.len() ==> content_all(
                (#[trigger] pages[i]).1.content,
                |n: NodeView| unnamed(n),
            ),
        0 <= k <= pages.len(),
    ensures
        pages_ids(identified_pages(pages, next), k) == counted(next, missing_pages(pages, k)),
    decreases k,
{
    if k > 0 {
        lemma_pages_identified_count(pages, next, k - 1);
        let at = next + missing_pages(pages, k - 1);
        assert(content_all(pages[k - 1].1.content, |n: NodeView| unnamed(n)));
        match pages[k - 1].1.content {
            ContentView::One(node) => {
                lemma_identified_counts(node, at);
            },
            ContentView::Many(nodes) => {
                lemma_forest_identified_counts(nodes, at, nodes.len() as int);
            },
        }
        assert(pages_ids(identified_pages(pages, next), k) =~= counted(
            next,
            missing_pages(pages, k),
        ));
    } else {
        assert(pages_ids(identified_pages(pages, next), k) =~= counted(
            next,
            missing_pages(pages, k),
        ));
    }
}

/// Identities that are counted one after the other within 32 bits are all
/// different.
pub proof fn lemma_counted_differ(from: int, count: nat, i: int, j: int)
    requires
        0 <= from,
        from + count <= u32::MAX + 1,
        0 <= i < j < count,
    ensures
        counted(from, count)[i] != counted(from, count)[j],
{
}

/// Giving identities leaves a well-formed tree well formed.
pub proof fn lemma_identified_wf(n: NodeView, next: int)
    requires
        node_wf(n),
    ensures
        node_wf(identified(n, next)),
    decreases n,
{
    assert(own_wf(n));
    assert(own_wf(identified(n, next)));
    match n.children {
        Some(kids) => {
            let below = next + if n.id is None {
                1int
            } else {
                0int
            };
            let out = identified_all(kids, below);
            assert forall|i: int| 0 <= i < kids.len() implies node_wf(#[trigger] out[i]) by {
                lemma_identified_wf(kids[i], below + missing_upto(kids, i));
            }
        },
        None => {},
    }
}

/// Giving identities leaves a well-formed document well formed.
pub proof fn lemma_identified_doc_wf(d: DocumentView, next: int)
    requires
        document_wf(d),
    ensures
        document_wf(identified_doc(d, next)),
{
    let out = identified_doc(d, next);
    match d.layout.global {
        Some(Some(node)) => {
            lemma_identified_wf(node, next);
        },
        _ => {},
    }
    let below = next + missing_global(d.layout.global);
    let pages = d.layout.pages;
    assert forall|i: int, j: int| 0 <= i < j < pages.len() implies (#[trigger] out.layout.pages[i]).0
        != (#[trigger] out.layout.pages[j]).0 by {
        assert(pages[i].0 != pages[j].0);
    }
    assert forall|i: int| 0 <= i < pages.len() implies content_all(
        (#[trigger] out.layout.pages[i]).1.content,
        |n: NodeView| node_wf(n),
    ) by {
        let at = below + missing_pages(pages, i);
        assert(out.layout.pages[i].1.content == identified_content(pages[i].1.content, at));
        assert(content_all(pages[i].1.content, |n: NodeView| node_wf(n)));
        match pages[i].1.content {
            ContentView::One(node) => {
                lemma_identified_wf(node, at);
            },
            ContentView::Many(nodes) => {
                let named = identified_all(nodes, at);
                assert forall|j: int| 0 <= j < nodes.len() implies node_wf(
                    #[trigger] named[j],
                ) by {
                    assert(node_wf(nodes[j]));
                    lemma_identified_wf(nodes[j], at + missing_upto(nodes, j));
                }
            },
        }
    }
}

/// The identities of the tree below `n`, each as often as a node has it,
/// in no order.
pub open spec fn ids_bag(n: NodeView) -> Multiset<Option<u32>>
    decreases n, 1nat, 0int,
{
    Multiset::singleton(n.id).add(
        match n.children {
            Some(kids) => bag_upto(kids, kids.len() as int),
            None => Multiset::empty(),
        },
    )
}

/// The identities of the first `k` trees, each as often as a node has it.
pub open spec fn bag_upto(nodes: Seq<NodeView>, k: int) -> Multiset<Option<u32>>
    decreases nodes, 0nat, k,
{
    if k <= 0 || k > nodes.len() {
        Multiset::empty()
    } else {
        bag_upto(nodes, k - 1).add(ids_bag(nodes[k - 1]))
    }
}

/// The identities of a content, each as often as a node has it.
pub open spec fn content_bag(c: ContentView) -> Multiset<Option<u32>> {
    match c {
        ContentView::One(node) => ids_bag(node),
        ContentView::Many(nodes) => bag_upto(nodes, nodes.len() as int),
    }
}

/// The identities of the first `k` pages, each as often as a node has it.
pub open spec fn pages_bag(pages: Seq<(Seq<char>, PageView)>, k: int) -> Multiset<Option<u32>>
    decreases k,
{
    if k <= 0 || k > pages.len() {
        Multiset::empty()
    } else {
        pages_bag(pages, k - 1).add(content_bag(pages[k - 1].1.content))
    }
}

/// The identities of a document, each as often as a node has it.
pub open spec fn document_bag(d: DocumentView) -> Multiset<Option<u32>> {
    (match d.layout.global {
        Some(Some(node)) => ids_bag(node),
        _ => Multiset::empty(),
    }).add(pages_bag(d.layout.pages, d.layout.pages.len() as int))
}

/// Trees that have the same identities, place by place, have the same
/// together.
pub proof fn lemma_bag_alike(a: Seq<NodeView>, b: Seq<NodeView>, k: int)
    requires
        a.len() == b.len(),
        0 <= k <= a.len(),
        forall|i: int| 0 <= i < a.len() ==> ids_bag(#[trigger] a[i]) == ids_bag(b[i]),
    ensures
        bag_upto(a, k) == bag_upto(b, k),
    decreases k,
{
    if k > 0 {
        lemma_bag_alike(a, b, k - 1);
    }
}

/// Pages that have the same identities, page by page, have the same
/// together.
pub proof fn lemma_pages_bag_alike(
    a: Seq<(Seq<char>, PageView)>,
    b: Seq<(Seq<char>, PageView)>,
    k: int,
)
    requires
        a.len() == b.len(),
        0 <= k <= a.len(),
        forall|i: int|
            0 <= i < a.len() ==> content_bag((#[trigger] a[i]).1.content) == content_bag(
                b[i].1.content,
            ),
    ensures
        pages_bag(a, k) == pages_bag(b, k),
    decreases k,
{
    if k > 0 {
        lemma_pages_bag_alike(a, b, k - 1);
    }
}

/// Trees that have the same identities in the same order, place by place,
/// have the same together.
pub proof fn lemma_ids_alike(a: Seq<NodeView>, b: Seq<NodeView>, k: int)
    requires
        a.len() == b.len(),
        0 <= k <= a.len(),
        forall|i: int| 0 <= i < a.len() ==> ids_of(#[trigger] a[i]) == ids_of(b[i]),
    ensures
        ids_upto(a, k) == ids_upto(b, k),
    decreases k,
{
    if k > 0 {
        lemma_ids_alike(a, b, k - 1);
    }
}

} // verus!
