//! Whether a document is ready for a pass: questions that a caller can ask
//! before it calls a pass that does not take every document.

use crate::schema::ast::{
    content_all, lemma_children_view, nodes_view, roots_all, AstContent, AstNode, AstThemeConfig,
    ContentView, DocumentView, NodeType, NodeView,
};
use crate::schema::ir::{all_identified, document_identified};
use crate::transform::style::{all_placed, children_placed, document_placed};
use crate::transform::util::{get_prop_as_i64, is_placed};
use vstd::prelude::*;

verus! {

/// Whether every child of the node, where it is a container, has its start
/// and its span.
pub fn has_children_placed(node: &AstNode) -> (b: bool)
    ensures
        b == children_placed(node@),
{
    proof {
        lemma_children_view(*node);
    }
    match node.nt {
        Some(NodeType::Row) => {},
        Some(NodeType::Col) => {},
        _ => {
            return true;
        },
    }
    match &node.children {
        Some(children) => {
            let mut i: usize = 0;
            while i < children.len()
                invariant
                    i <= children.len(),
                    node@.children == Some(nodes_view(children@)),
                    node@.nt == Some(NodeType::Row) || node@.nt == Some(NodeType::Col),
                    forall|j: int| 0 <= j < i ==> is_placed(#[trigger] nodes_view(children@)[j]),
                decreases children.len() - i,
            {
                assert(nodes_view(children@)[i as int] == children@[i as int]@);
                if get_prop_as_i64(&children[i], "start").is_none() || get_prop_as_i64(
                    &children[i],
                    "span",
                ).is_none() {
                    assert(!is_placed(node@.children->0[i as int]));
                    return false;
                }
                i = i + 1;
            }
            true
        },
        None => true,
    }
}

/// Whether every container of the tree has its children placed.
pub fn is_placed_tree(node: &AstNode) -> (b: bool)
    ensures
        b == all_placed(node@),
    decreases node,
{
    proof {
        lemma_children_view(*node);
    }
    if !has_children_placed(node) {
        return false;
    }
    match &node.children {
        Some(children) => {
            let mut i: usize = 0;
            while i < children.len()
                invariant
                    i <= children.len(),
                    node@.children == Some(nodes_view(children@)),
                    forall|j: int| 0 <= j < i ==> all_placed(#[trigger] nodes_view(children@)[j]),
                    forall|j: int|
                        0 <= j < children.len() ==> decreases_to!(node => #[trigger] children@[j]),
                decreases children.len() - i,
            {
                assert(nodes_view(children@)[i as int] == children@[i as int]@);
                if !is_placed_tree(&children[i]) {
                    assert(!all_placed(node@.children->0[i as int]));
                    return false;
                }
                i = i + 1;
            }
            true
        },
        None => true,
    }
}

/// Whether every node of the tree has an identity.
pub fn is_identified_tree(node: &AstNode) -> (b: bool)
    ensures
        b == all_identified(node@),
    decreases node,
{
    proof {
        lemma_children_view(*node);
    }
    if node.id.is_none() {
        return false;
    }
    match &node.children {
        Some(children) => {
            let mut i: usize = 0;
            while i < children.len()
                invariant
                    i <= children.len(),
                    node@.children == Some(nodes_view(children@)),
                    forall|j: int|
                        0 <= j < i ==> all_identified(#[trigger] nodes_view(children@)[j]),
                    forall|j: int|
                        0 <= j < children.len() ==> decreases_to!(node => #[trigger] children@[j]),
                decreases children.len() - i,
            {
                assert(nodes_view(children@)[i as int] == children@[i as int]@);
                if !is_identified_tree(&children[i]) {
                    assert(!all_identified(node@.children->0[i as int]));
                    return false;
                }
                i = i + 1;
            }
            true
        },
        None => true,
    }
}

fn is_placed_content(content: &AstContent) -> (b: bool)
    ensures
        b == content_all(content@, |n: NodeView| all_placed(n)),
{
    match content {
        AstContent::One(node) => is_placed_tree(node),
        AstContent::Many(nodes) => {
            let ghost kids = nodes_view(nodes@);
            let mut i: usize = 0;
            while i < nodes.len()
                invariant
                    i <= nodes.len(),
                    kids == nodes_view(nodes@),
                    content@ == ContentView::Many(kids),
                    forall|j: int| 0 <= j < i ==> all_placed(#[trigger] kids[j]),
                decreases nodes.len() - i,
            {
                assert(kids[i as int] == nodes@[i as int]@);
                if !is_placed_tree(&nodes[i]) {
                    assert(!all_placed(content@->Many_0[i as int]));
                    return false;
                }
                i = i + 1;
            }
            true
        },
    }
}

fn is_identified_content(content: &AstContent) -> (b: bool)
    ensures
        b == content_all(content@, |n: NodeView| all_identified(n)),
{
    match content {
        AstContent::One(node) => is_identified_tree(node),
        AstContent::Many(nodes) => {
            let ghost kids = nodes_view(nodes@);
            let mut i: usize = 0;
            while i < nodes.len()
                invariant
                    i <= nodes.len(),
                    kids == nodes_view(nodes@),
                    content@ == ContentView::Many(kids),
                    forall|j: int| 0 <= j < i ==> all_identified(#[trigger] kids[j]),
                decreases nodes.len() - i,
            {
                assert(kids[i as int] == nodes@[i as int]@);
                if !is_identified_tree(&nodes[i]) {
                    assert(!all_identified(content@->Many_0[i as int]));
                    return false;
                }
                i = i + 1;
            }
            true
        },
    }
}

/// Whether every container of the document has its children placed: what
/// turning the layout into style, and validating, ask for.
pub fn is_placed_document(ast: &AstThemeConfig) -> (b: bool)
    ensures
        b == document_placed(ast@),
{
    match &ast.layout.global {
        Some(shared) => match &shared.widget {
            Some(node) => {
                if !is_placed_tree(node) {
                    return false;
                }
            },
            None => {},
        },
        None => {},
    }
    let ghost pages = ast@.layout.pages;
    let mut i: usize = 0;
    while i < ast.layout.pages.len()
        invariant
            i <= ast.layout.pages.len(),
            pages == ast@.layout.pages,
            match ast@.layout.global {
                Some(Some(node)) => all_placed(node),
                _ => true,
            },
            forall|j: int|
                0 <= j < i ==> content_all(
                    (#[trigger] pages[j]).1.content,
                    |n: NodeView| all_placed(n),
                ),
        decreases ast.layout.pages.len() - i,
    {
        assert(pages[i as int].1.content == ast.layout.pages@[i as int].1.content@);
        if !is_placed_content(&ast.layout.pages[i].1.content) {
            return false;
        }
        i = i + 1;
    }
    true
}

/// Whether every node of the document has an identity: what assembling
/// asks for.
pub fn is_identified_document(ast: &AstThemeConfig) -> (b: bool)
    ensures
        b == document_identified(ast@),
{
    match &ast.layout.global {
        Some(shared) => match &shared.widget {
            Some(node) => {
                if !is_identified_tree(node) {
                    return false;
                }
            },
            None => {},
        },
        None => {},
    }
    let ghost pages = ast@.layout.pages;
    let mut i: usize = 0;
    while i < ast.layout.pages.len()
        invariant
            i <= ast.layout.pages.len(),
            pages == ast@.layout.pages,
            match ast@.layout.global {
                Some(Some(node)) => all_identified(node),
                _ => true,
            },
            forall|j: int|
                0 <= j < i ==> content_all(
                    (#[trigger] pages[j]).1.content,
                    |n: NodeView| all_identified(n),
                ),
        decreases ast.layout.pages.len() - i,
    {
        assert(pages[i as int].1.content == ast.layout.pages@[i as int].1.content@);
        if !is_identified_content(&ast.layout.pages[i].1.content) {
            return false;
        }
        i = i + 1;
    }
    true
}

/// The depth of a tree: the number of nodes on the longest way from its
/// root down.
pub open spec fn depth(n: NodeView) -> nat
    decreases n, 1nat, 0int,
{
    1 + match n.children {
        Some(kids) => deepest(kids, kids.len() as int),
        None => 0,
    }
}

/// The depth of the deepest of the first `k` trees; 0 where there is none.
pub open spec fn deepest(nodes: Seq<NodeView>, k: int) -> nat
    decreases nodes, 0nat, k,
{
    if k <= 0 || k > nodes.len() {
        0
    } else if deepest(nodes, k - 1) >= depth(nodes[k - 1]) {
        deepest(nodes, k - 1)
    } else {
        depth(nodes[k - 1])
    }
}

/// Whether no tree of the document is deeper than `limit`.
pub open spec fn document_within(d: DocumentView, limit: nat) -> bool {
    roots_all(d, |n: NodeView| depth(n) <= limit)
}

/// The deepest of some trees is as deep as each of them, and no deeper
/// than all of them.
pub proof fn lemma_deepest(nodes: Seq<NodeView>, k: int, bound: nat)
    requires
        0 <= k <= nodes.len(),
    ensures
        deepest(nodes, k) <= bound <==> forall|i: int|
            0 <= i < k ==> depth(#[trigger] nodes[i]) <= bound,
    decreases k,
{
    if k > 0 {
        lemma_deepest(nodes, k - 1, bound);
        if deepest(nodes, k) <= bound {
            assert forall|i: int| 0 <= i < k implies depth(#[trigger] nodes[i]) <= bound by {
                if i == k - 1 {
                } else {
                    assert(deepest(nodes, k - 1) <= bound);
                }
            }
        }
    }
}

/// Whether the tree is no deeper than `limit`. The walk itself goes no
/// deeper than `limit`, however deep the tree is.
pub fn is_within_depth(node: &AstNode, limit: usize) -> (b: bool)
    ensures
        b == (depth(node@) <= limit),
    decreases limit,
{
    proof {
        lemma_children_view(*node);
    }
    if limit == 0 {
        return false;
    }
    match &node.children {
        Some(children) => {
            let ghost kids = nodes_view(children@);
            let mut i: usize = 0;
            while i < children.len()
                invariant
                    i <= children.len(),
                    limit > 0,
                    kids == nodes_view(children@),
                    node@.children == Some(kids),
                    forall|j: int| 0 <= j < i ==> depth(#[trigger] kids[j]) <= limit - 1,
                decreases children.len() - i,
            {
                assert(kids[i as int] == children@[i as int]@);
                if !is_within_depth(&children[i], limit - 1) {
                    proof {
                        lemma_deepest(kids, kids.len() as int, (limit - 1) as nat);
                    }
                    return false;
                }
                i = i + 1;
            }
            proof {
                lemma_deepest(kids, kids.len() as int, (limit - 1) as nat);
            }
            true
        },
        None => true,
    }
}

fn is_content_within_depth(content: &AstContent, limit: usize) -> (b: bool)
    ensures
        b == content_all(content@, |n: NodeView| depth(n) <= limit),
{
    match content {
        AstContent::One(node) => is_within_depth(node, limit),
        AstContent::Many(nodes) => {
            let ghost kids = nodes_view(nodes@);
            let mut i: usize = 0;
            while i < nodes.len()
                invariant
                    i <= nodes.len(),
                    kids == nodes_view(nodes@),
                    content@ == ContentView::Many(kids),
                    forall|j: int| 0 <= j < i ==> depth(#[trigger] kids[j]) <= limit,
                decreases nodes.len() - i,
            {
                assert(kids[i as int] == nodes@[i as int]@);
                if !is_within_depth(&nodes[i], limit) {
                    assert(!(depth(content@->Many_0[i as int]) <= limit));
                    return false;
                }
                i = i + 1;
            }
            true
        },
    }
}

/// Whether no tree of the document is deeper than `limit`: what a caller
/// asks before it lets the passes, which walk a tree to its full depth,
/// work on a document that it does not trust.
pub fn is_document_within_depth(ast: &AstThemeConfig, limit: usize) -> (b: bool)
    ensures
        b == document_within(ast@, limit as nat),
{
    match &ast.layout.global {
        Some(shared) => match &shared.widget {
            Some(node) => {
                if !is_within_depth(node, limit) {
                    return false;
                }
            },
            None => {},
        },
        None => {},
    }
    let ghost pages = ast@.layout.pages;
    let mut i: usize = 0;
    while i < ast.layout.pages.len()
        invariant
            i <= ast.layout.pages.len(),
            pages == ast@.layout.pages,
            match ast@.layout.global {
                Some(Some(node)) => depth(node) <= limit,
                _ => true,
            },
            forall|j: int|
                0 <= j < i ==> content_all(
                    (#[trigger] pages[j]).1.content,
                    |n: NodeView| depth(n) <= limit,
                ),
        decreases ast.layout.pages.len() - i,
    {
        assert(pages[i as int].1.content == ast.layout.pages@[i as int].1.content@);
        if !is_content_within_depth(&ast.layout.pages[i].1.content, limit) {
            return false;
        }
        i = i + 1;
    }
    true
}

} // verus!
