//! Pruning: the fields that only the passes need are taken off the nodes.

use crate::schema::ast::{lemma_children_view, AstNode, AstThemeConfig, DocumentView, NodeView};
use crate::schema::ctx::ThemeContext;
use crate::schema::ast::lemma_roots_map;
use crate::schema::ir::{all_identified, document_identified};
use crate::schema::value::ValueView;
use crate::transform::{
    lemma_walk_always_fits_doc, lemma_walked_doc_wf, walk_roots, walked, walked_all,
    walked_doc, LogicStep,
};
use vstd::prelude::*;

verus! {

/// The node without its `props`.
pub open spec fn props_cleared(n: NodeView) -> NodeView {
    NodeView { props: None, ..n }
}

/// Takes the `props` off one node.
pub fn clear_props(ast: &mut AstNode)
    ensures
        final(ast)@ == props_cleared(old(ast)@),
{
    ast.props = None;
    proof {
        lemma_children_view(*ast);
        lemma_children_view(*old(ast));
    }
}

/// The document with the `props` taken off every node.
pub open spec fn pruned_doc(d: DocumentView) -> DocumentView {
    walked_doc(LogicStep::ClearProps, Seq::empty(), d)
}

/// A tree whose nodes all have an identity keeps them when it is pruned.
pub proof fn lemma_pruned(n: NodeView)
    requires
        all_identified(n),
    ensures
        all_identified(walked(LogicStep::ClearProps, Seq::empty(), n)),
    decreases n,
{
    let step = LogicStep::ClearProps;
    let vars = Seq::<(Seq<char>, ValueView)>::empty();
    match n.children {
        Some(kids) => {
            let below = walked_all(step, vars, kids);
            assert forall|i: int| 0 <= i < kids.len() implies all_identified(
                #[trigger] below[i],
            ) by {
                lemma_pruned(kids[i]);
            }
        },
        None => {},
    }
}

/// Takes the `props` off every node of the document.
pub fn run(ast: &mut AstThemeConfig, ctx: &ThemeContext)
    ensures
        final(ast)@ == pruned_doc(old(ast)@),
        old(ast).wf() ==> final(ast).wf(),
{
    proof {
        if ast.wf() {
            lemma_walked_doc_wf(LogicStep::ClearProps, Seq::empty(), ast@);
        }
        lemma_walk_always_fits_doc(LogicStep::ClearProps, Seq::empty(), ast@);
    }
    let ok = walk_roots(ast, ctx, LogicStep::ClearProps);
    assert(ok);
}

/// A document whose nodes all have an identity keeps them when it is
/// pruned.
pub proof fn lemma_pruned_doc(d: DocumentView)
    requires
        document_identified(d),
    ensures
        document_identified(pruned_doc(d)),
{
    let f = |n: NodeView| walked(LogicStep::ClearProps, Seq::empty(), n);
    let named = |n: NodeView| all_identified(n);
    assert forall|n: NodeView| #[trigger] named(n) implies named(f(n)) by {
        lemma_pruned(n);
    }
    lemma_roots_map(d, f, named, named);
}

} // verus!
