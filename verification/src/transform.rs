//! The passes that turn a parsed theme document into the tree that a
//! renderer consumes.

use crate::errors::{errors_view, ThemeErr};
use crate::schema::ast::{
    content_all, document_wf, lemma_children_view, lemma_map_roots_pages, lemma_roots_any,
    lemma_roots_map, map_content, map_roots, node_wf, nodes_view, own_wf, roots_all,
    AstContent, AstNode, AstThemeConfig, DocumentView, NodeView,
};
use crate::schema::ctx::ThemeContext;
use crate::schema::ir::{assembled_doc, ir_wf, lemma_assembled_doc_wf, IrView, ThemeIr};
use crate::schema::value::{
    int_value, lemma_put_distinct, members_wf, members_view, put, Value, ValueView,
};
use crate::transform::util::{span_of, start_of};
use crate::transform::grid::{kept_by_props, lemma_placed_keeps, with_prop};
use crate::transform::identity::{lemma_identified_doc_wf, missing_doc};
use crate::transform::normalize::{
    is_container, lemma_normalized, normalize_fits, normalized, own_props, props_filled,
    props_fit, try_fill_props, unit_limit, units_key, DEFAULT_UNITS,
};
use crate::transform::prune::{clear_props, lemma_pruned_doc, props_cleared, pruned_doc};
use crate::transform::resolve::{
    lemma_resolved_doc_misses, lemma_resolved_members_wf, replace_variables, resolved_doc,
    variables_replaced,
};
use crate::transform::style::{
    children_placed, lemma_styled_doc, place_key, place_text, placed_in, span_resolved,
    styled_doc, tracks_key, tracks_text, try_resolve_span,
};
use crate::transform::validate::document_errors;
use vstd::pervasive::unreached;
use vstd::prelude::*;

pub mod assemble;
pub mod grid;
pub mod identity;
pub mod normalize;
pub mod prune;
pub mod ready;
pub mod resolve;
pub mod style;
pub mod util;
pub mod validate;

verus! {

/// A step that rewrites one node, given the node with the trees below it
/// already rewritten.
#[derive(Debug, Clone, Copy, PartialEq, Eq, Structural)]
pub enum LogicStep {
    /// Resolve the variables of the node.
    ReplaceVariables,
    /// Fill in the layout fields of the node and place its children.
    FillProps,
    /// Turn the layout of the node into style.
    ResolveSpan,
    /// Take the `props` off the node.
    ClearProps,
}

/// The variables that a step reads: those of the context for
/// `ReplaceVariables`, none for the other steps.
pub open spec fn step_vars(step: LogicStep, variables: Seq<(String, Value)>) -> Seq<
    (Seq<char>, ValueView),
> {
    if step == LogicStep::ReplaceVariables {
        members_view(variables)
    } else {
        Seq::empty()
    }
}

/// What a step makes of one node.
pub open spec fn stepped(step: LogicStep, vars: Seq<(Seq<char>, ValueView)>, n: NodeView) -> NodeView {
    match step {
        LogicStep::ReplaceVariables => variables_replaced(n, vars),
        LogicStep::FillProps => props_filled(n),
        LogicStep::ResolveSpan => span_resolved(n),
        LogicStep::ClearProps => props_cleared(n),
    }
}

/// What a step asks of the node it rewrites.
pub open spec fn step_fits(step: LogicStep, n: NodeView) -> bool {
    match step {
        LogicStep::FillProps => props_fit(n),
        LogicStep::ResolveSpan => children_placed(n),
        _ => true,
    }
}

/// The tree below `n` with the step taken at every node, at the nodes below
/// a node before the node itself.
pub open spec fn walked(step: LogicStep, vars: Seq<(Seq<char>, ValueView)>, n: NodeView) -> NodeView
    decreases n, 1nat,
{
    stepped(
        step,
        vars,
        NodeView {
            children: match n.children {
                Some(kids) => Some(walked_all(step, vars, kids)),
                None => None,
            },
            ..n
        },
    )
}

/// Each of the trees walked.
pub open spec fn walked_all(
    step: LogicStep,
    vars: Seq<(Seq<char>, ValueView)>,
    nodes: Seq<NodeView>,
) -> Seq<NodeView>
    decreases nodes, 0nat,
{
    Seq::new(
        nodes.len(),
        |i: int|
            if 0 <= i < nodes.len() {
                walked(step, vars, nodes[i])
            } else {
                arbitrary()
            },
    )
}

/// Whether the step can be taken at every node of the tree below `n`: each
/// node, with the trees below it walked, is one that the step accepts.
pub open spec fn walk_fits(step: LogicStep, vars: Seq<(Seq<char>, ValueView)>, n: NodeView) -> bool
    decreases n,
{
    &&& match n.children {
        Some(kids) => forall|i: int|
            0 <= i < kids.len() ==> walk_fits(step, vars, #[trigger] kids[i]),
        None => true,
    }
    &&& step_fits(
        step,
        NodeView {
            children: match n.children {
                Some(kids) => Some(walked_all(step, vars, kids)),
                None => None,
            },
            ..n
        },
    )
}

/// Whether the step can be taken at every node of each tree.
pub open spec fn walk_fits_all(
    step: LogicStep,
    vars: Seq<(Seq<char>, ValueView)>,
    nodes: Seq<NodeView>,
) -> bool {
    forall|i: int| 0 <= i < nodes.len() ==> walk_fits(step, vars, #[trigger] nodes[i])
}

/// The document with the step taken at every node of every tree.
pub open spec fn walked_doc(
    step: LogicStep,
    vars: Seq<(Seq<char>, ValueView)>,
    d: DocumentView,
) -> DocumentView {
    map_roots(d, |n: NodeView| walked(step, vars, n))
}

/// Whether the step can be taken at every node of the document.
pub open spec fn walk_fits_doc(
    step: LogicStep,
    vars: Seq<(Seq<char>, ValueView)>,
    d: DocumentView,
) -> bool {
    roots_all(d, |n: NodeView| walk_fits(step, vars, n))
}

/// Takes the step at one node. Returns whether the node is one that the
/// step accepts; where it is not, the node is left partly processed.
fn take_step(node: &mut AstNode, ctx: &ThemeContext, step: LogicStep) -> (ok: bool)
    ensures
        ok == step_fits(step, old(node)@),
        ok ==> final(node)@ == stepped(step, step_vars(step, ctx.variables@), old(node)@),
{
    match step {
        LogicStep::ReplaceVariables => {
            replace_variables(node, ctx);
            true
        },
        LogicStep::FillProps => try_fill_props(node),
        LogicStep::ResolveSpan => try_resolve_span(node),
        LogicStep::ClearProps => {
            clear_props(node);
            true
        },
    }
}

/// Takes the step at every node of the tree, at the nodes below a node
/// before the node itself. Returns whether the step can be taken at every
/// node; where it cannot, the tree is left partly processed.
pub fn try_walk_node(node: &mut AstNode, ctx: &ThemeContext, step: LogicStep) -> (ok: bool)
    ensures
        ok == walk_fits(step, step_vars(step, ctx.variables@), old(node)@),
        ok ==> final(node)@ == walked(step, step_vars(step, ctx.variables@), old(node)@),
    decreases *old(node),
{
    let ghost vars = step_vars(step, ctx.variables@);
    proof {
        lemma_children_view(*node);
    }
    match &mut node.children {
        Some(children) => {
            let ghost before = children@;
            let mut i: usize = 0;
            while i < children.len()
                invariant
                    i <= children.len(),
                    children@.len() == before.len(),
                    vars == step_vars(step, ctx.variables@),
                    old(node)@.children == Some(nodes_view(before)),
                    forall|j: int|
                        0 <= j < i ==> (#[trigger] children@[j])@ == walked(step, vars, before[j]@),
                    forall|j: int| i <= j < before.len() ==> children@[j] == before[j],
                    forall|j: int|
                        0 <= j < before.len() ==> decreases_to!(*old(node) => #[trigger] before[j]),
                    forall|j: int| 0 <= j < i ==> walk_fits(step, vars, #[trigger] before[j]@),
                decreases children.len() - i,
            {
                if !try_walk_node(&mut children[i], ctx, step) {
                    assert(nodes_view(before)[i as int] == before[i as int]@);
                    return false;
                }
                i = i + 1;
            }
            assert(nodes_view(children@) =~= walked_all(step, vars, nodes_view(before)));
            assert forall|j: int| 0 <= j < before.len() implies walk_fits(
                step,
                vars,
                #[trigger] nodes_view(before)[j],
            ) by {
                assert(walk_fits(step, vars, before[j]@));
            }
        },
        None => {},
    }
    proof {
        lemma_children_view(*node);
    }
    take_step(node, ctx, step)
}

/// Takes the step at every node of the tree, at the nodes below a node
/// before the node itself.
pub fn walk_node(node: &mut AstNode, ctx: &ThemeContext, step: LogicStep)
    requires
        walk_fits(step, step_vars(step, ctx.variables@), old(node)@),
    ensures
        final(node)@ == walked(step, step_vars(step, ctx.variables@), old(node)@),
{
    let ok = try_walk_node(node, ctx, step);
    assert(ok);
}

/// Takes the step at every node of each tree. Returns whether the step can
/// be taken at every node; where it cannot, the trees are left partly
/// processed.
pub fn walk_nodes(nodes: &mut Vec<AstNode>, ctx: &ThemeContext, step: LogicStep) -> (ok: bool)
    ensures
        ok == walk_fits_all(step, step_vars(step, ctx.variables@), nodes_view(old(nodes)@)),
        ok ==> nodes_view(final(nodes)@) == walked_all(
            step,
            step_vars(step, ctx.variables@),
            nodes_view(old(nodes)@),
        ),
{
    let ghost vars = step_vars(step, ctx.variables@);
    let ghost before = nodes@;
    let mut i: usize = 0;
    while i < nodes.len()
        invariant
            i <= nodes.len(),
            nodes@.len() == before.len(),
            before == old(nodes)@,
            vars == step_vars(step, ctx.variables@),
            forall|j: int| 0 <= j < i ==> (#[trigger] nodes@[j])@ == walked(step, vars, before[j]@),
            forall|j: int| i <= j < before.len() ==> nodes@[j] == before[j],
            forall|j: int| 0 <= j < i ==> walk_fits(step, vars, #[trigger] before[j]@),
        decreases nodes.len() - i,
    {
        if !try_walk_node(&mut nodes[i], ctx, step) {
            assert(nodes_view(before)[i as int] == before[i as int]@);
            return false;
        }
        i = i + 1;
    }
    assert(nodes_view(nodes@) =~= walked_all(step, vars, nodes_view(before)));
    assert forall|j: int| 0 <= j < before.len() implies walk_fits(
        step,
        vars,
        #[trigger] nodes_view(before)[j],
    ) by {
        assert(walk_fits(step, vars, before[j]@));
    }
    true
}

fn walk_content(content: &mut AstContent, ctx: &ThemeContext, step: LogicStep) -> (ok: bool)
    ensures
        ok == content_all(
            old(content)@,
            |n: NodeView| walk_fits(step, step_vars(step, ctx.variables@), n),
        ),
        ok ==> final(content)@ == map_content(
            old(content)@,
            |n: NodeView| walked(step, step_vars(step, ctx.variables@), n),
        ),
{
    let ghost vars = step_vars(step, ctx.variables@);
    match content {
        AstContent::One(node) => try_walk_node(node, ctx, step),
        AstContent::Many(nodes) => {
            let ghost kids = nodes_view(nodes@);
            let ok = walk_nodes(nodes, ctx, step);
            proof {
                let fits = |n: NodeView| walk_fits(step, vars, n);
                if ok {
                    assert(nodes_view(nodes@) =~= map_content(
                        old(content)@,
                        |n: NodeView| walked(step, vars, n),
                    )->Many_0);
                    assert forall|j: int| 0 <= j < kids.len() implies fits(#[trigger] kids[j]) by {
                        assert(walk_fits(step, vars, kids[j]));
                    }
                } else {
                    if content_all(old(content)@, fits) {
                        assert forall|j: int| 0 <= j < kids.len() implies walk_fits(
                            step,
                            vars,
                            #[trigger] kids[j],
                        ) by {
                            assert(fits(old(content)@->Many_0[j]));
                        }
                    }
                }
            }
            ok
        },
    }
}

/// Takes the step at every node of the document: in the shared tree, then
/// in the pages in their order. Returns whether the step can be taken at
/// every node; where it cannot, the document is left partly processed.
pub fn walk_roots(ast: &mut AstThemeConfig, ctx: &ThemeContext, step: LogicStep) -> (ok: bool)
    ensures
        ok == walk_fits_doc(step, step_vars(step, ctx.variables@), old(ast)@),
        ok ==> final(ast)@ == walked_doc(step, step_vars(step, ctx.variables@), old(ast)@),
{
    let ghost vars = step_vars(step, ctx.variables@);
    match &mut ast.layout.global {
        Some(shared) => match &mut shared.widget {
            Some(node) => {
                if !try_walk_node(node, ctx, step) {
                    return false;
                }
            },
            None => {},
        },
        None => {},
    }
    let ghost before = ast.layout.pages@;
    let mut i: usize = 0;
    while i < ast.layout.pages.len()
        invariant
            i <= ast.layout.pages.len(),
            ast.layout.pages@.len() == before.len(),
            before == old(ast).layout.pages@,
            vars == step_vars(step, ctx.variables@),
            ast.config == old(ast).config,
            ast.layout@.global == walked_doc(step, vars, old(ast)@).layout.global,
            match old(ast)@.layout.global {
                Some(Some(node)) => walk_fits(step, vars, node),
                _ => true,
            },
            forall|j: int|
                0 <= j < i ==> content_all(
                    (#[trigger] old(ast)@.layout.pages[j]).1.content,
                    |n: NodeView| walk_fits(step, vars, n),
                ),
            forall|j: int|
                0 <= j < i ==> (#[trigger] ast.layout.pages@[j]).0 == before[j].0
                    && ast.layout.pages@[j].1.name == before[j].1.name
                    && ast.layout.pages@[j].1.content@ == map_content(
                    before[j].1.content@,
                    |n: NodeView| walked(step, vars, n),
                ),
            forall|j: int| i <= j < before.len() ==> ast.layout.pages@[j] == before[j],
        decreases ast.layout.pages.len() - i,
    {
        assert(old(ast)@.layout.pages[i as int].1.content == before[i as int].1.content@);
        if !walk_content(&mut ast.layout.pages[i].1.content, ctx, step) {
            return false;
        }
        i = i + 1;
    }
    assert(ast@.layout.pages =~= walked_doc(step, vars, old(ast)@).layout.pages);
    true
}

/// The document as it is validated: variables resolved against `vars`,
/// normalised with identities counted from `next`, and styled.
pub open spec fn prepared(
    d: DocumentView,
    vars: Seq<(Seq<char>, ValueView)>,
    next: int,
) -> DocumentView {
    styled_doc(normalized(resolved_doc(d, vars), next))
}

/// The compiled theme of a document: the prepared document, pruned and
/// assembled.
pub open spec fn compiled(
    d: DocumentView,
    vars: Seq<(Seq<char>, ValueView)>,
    next: int,
) -> IrView {
    assembled_doc(pruned_doc(prepared(d, vars, next)))
}

/// Whether compiling the document stays within the machine's integers:
/// whether normalising it does, once its variables are resolved.
pub open spec fn run_fits(
    d: DocumentView,
    vars: Seq<(Seq<char>, ValueView)>,
    next: int,
) -> bool {
    normalize_fits(resolved_doc(d, vars), next)
}

/// Compiles a document: resolves its variables, normalises it, turns its
/// layout into style, validates it, prunes it and assembles the theme.
/// Returns nothing where that does not stay within the machine's integers;
/// no error is reported then.
///
/// The theme is built whatever the validation finds; what it finds is
/// appended to the errors of the context, and a caller that finds errors
/// there must not use the theme.
pub fn try_run(ast_config: AstThemeConfig, ctx: &mut ThemeContext) -> (r: Option<
    Result<ThemeIr, Vec<ThemeErr>>,
>)
    ensures
        r is Some == run_fits(
            ast_config@,
            members_view(old(ctx).variables@),
            old(ctx).id_idx as int,
        ),
        r is Some ==> r->0 is Ok && r->0->Ok_0@ == compiled(
            ast_config@,
            members_view(old(ctx).variables@),
            old(ctx).id_idx as int,
        ),
        r is Some ==> errors_view(final(ctx).err_list@) == errors_view(old(ctx).err_list@)
            + document_errors(
            prepared(ast_config@, members_view(old(ctx).variables@), old(ctx).id_idx as int),
        ),
        r is Some ==> final(ctx).id_idx == old(ctx).id_idx + missing_doc(ast_config@),
        r is None ==> final(ctx).err_list == old(ctx).err_list,
        final(ctx).variables == old(ctx).variables,
        r is Some && ast_config.wf() && old(ctx).wf() ==> r->0->Ok_0.wf(),
{
    let ghost vars = members_view(ctx.variables@);
    let ghost next = ctx.id_idx as int;
    let ghost errors = errors_view(ctx.err_list@);
    let mut ast = ast_config;
    proof {
        lemma_resolved_doc_misses(ast_config@, vars);
        if ast_config.wf() && ctx.wf() {
            lemma_compiled_wf(ast_config@, vars, next);
        }
    }
    resolve::resolve_variables(&mut ast, ctx);
    if !normalize::try_run(&mut ast, ctx) {
        return None;
    }
    proof {
        lemma_normalized(resolved_doc(ast_config@, vars), next);
        lemma_styled_doc(ast@);
    }
    style::run(&mut ast, ctx);
    validate::run(&ast, ctx);
    proof {
        lemma_pruned_doc(ast@);
    }
    prune::run(&mut ast, ctx);
    let ir = assemble::run(ast, ctx);
    Some(Ok(ir))
}

/// Compiles a document: resolves its variables, normalises it, turns its
/// layout into style, validates it, prunes it and assembles the theme.
///
/// The theme is built whatever the validation finds; what it finds is
/// appended to the errors of the context, and a caller that finds errors
/// there must not use the theme.
pub fn run(ast_config: AstThemeConfig, ctx: &mut ThemeContext) -> (r: Result<ThemeIr, Vec<ThemeErr>>)
    requires
        run_fits(ast_config@, members_view(old(ctx).variables@), old(ctx).id_idx as int),
    ensures
        r is Ok,
        r->Ok_0@ == compiled(
            ast_config@,
            members_view(old(ctx).variables@),
            old(ctx).id_idx as int,
        ),
        errors_view(final(ctx).err_list@) == errors_view(old(ctx).err_list@) + document_errors(
            prepared(ast_config@, members_view(old(ctx).variables@), old(ctx).id_idx as int),
        ),
        final(ctx).id_idx == old(ctx).id_idx + missing_doc(ast_config@),
        final(ctx).variables == old(ctx).variables,
        ast_config.wf() && old(ctx).wf() ==> r->Ok_0.wf(),
{
    match try_run(ast_config, ctx) {
        Some(built) => built,
        None => unreached(),
    }
}

/// Resolving variables and pruning can be done on every tree.
pub proof fn lemma_walk_always_fits(
    step: LogicStep,
    vars: Seq<(Seq<char>, ValueView)>,
    n: NodeView,
)
    requires
        step == LogicStep::ReplaceVariables || step == LogicStep::ClearProps,
    ensures
        walk_fits(step, vars, n),
    decreases n,
{
    match n.children {
        Some(kids) => {
            assert forall|i: int| 0 <= i < kids.len() implies walk_fits(
                step,
                vars,
                #[trigger] kids[i],
            ) by {
                lemma_walk_always_fits(step, vars, kids[i]);
            }
        },
        None => {},
    }
}

/// Resolving variables and pruning can be done on every document.
pub proof fn lemma_walk_always_fits_doc(
    step: LogicStep,
    vars: Seq<(Seq<char>, ValueView)>,
    d: DocumentView,
)
    requires
        step == LogicStep::ReplaceVariables || step == LogicStep::ClearProps,
    ensures
        walk_fits_doc(step, vars, d),
{
    let ok = |n: NodeView| walk_fits(step, vars, n);
    assert forall|n: NodeView| #[trigger] ok(n) by {
        lemma_walk_always_fits(step, vars, n);
    }
    lemma_roots_any(d, ok);
}

/// Binding an integer in the `props` of a well-formed tree leaves the tree
/// well formed.
pub proof fn lemma_with_prop_wf()
    ensures
        kept_by_props(|n: NodeView| node_wf(n)),
{
    let q = |n: NodeView| node_wf(n);
    assert forall|b: NodeView, key: Seq<char>, v: int| q(b) implies #[trigger] q(
        with_prop(b, key, v),
    ) by {
        let members = match b.props {
            Some(members) => members,
            None => Seq::empty(),
        };
        assert(own_wf(b));
        lemma_put_distinct(members, key, int_value(v));
        assert(own_wf(with_prop(b, key, v)));
    }
}

/// A step leaves a well-formed tree well formed, where the trees below the
/// node are: no name comes to stand twice in a style, in `props` or among
/// actions, and no number in another form than its own. For the step that
/// resolves variables, the variables must be well formed.
pub proof fn lemma_stepped_wf(step: LogicStep, vars: Seq<(Seq<char>, ValueView)>, n: NodeView)
    requires
        node_wf(n),
        step == LogicStep::ReplaceVariables ==> members_wf(vars),
    ensures
        node_wf(stepped(step, vars, n)),
{
    let out = stepped(step, vars, n);
    assert(own_wf(n));
    match step {
        LogicStep::ReplaceVariables => {
            match n.inline_style {
                Some(members) => {
                    lemma_resolved_members_wf(members, vars);
                },
                None => {},
            }
            match n.props {
                Some(members) => {
                    lemma_resolved_members_wf(members, vars);
                },
                None => {},
            }
            assert(own_wf(out));
        },
        LogicStep::FillProps => {
            let members = match n.props {
                Some(members) => members,
                None => Seq::empty(),
            };
            lemma_put_distinct(members, units_key(n.nt), int_value(DEFAULT_UNITS as int));
            assert(own_wf(out));
            if is_container(n.nt) && n.children is Some {
                lemma_with_prop_wf();
                lemma_placed_keeps(
                    n.children->0,
                    unit_limit(NodeView { nt: n.nt, props: Some(own_props(n)), ..n }),
                    |x: NodeView| node_wf(x),
                );
            }
        },
        LogicStep::ResolveSpan => {
            if is_container(n.nt) {
                let full = ValueView::String("100%"@);
                let declared = match n.inline_style {
                    Some(members) => members,
                    None => Seq::empty(),
                };
                let one = put(declared, "width"@, full);
                let two = put(one, "height"@, full);
                let three = put(two, "display"@, ValueView::String("grid"@));
                lemma_put_distinct(declared, "width"@, full);
                lemma_put_distinct(one, "height"@, full);
                lemma_put_distinct(two, "display"@, ValueView::String("grid"@));
                lemma_put_distinct(
                    three,
                    tracks_key(n.nt),
                    ValueView::String(tracks_text(unit_limit(n))),
                );
                assert(own_wf(out));
                match n.children {
                    Some(kids) => {
                        assert forall|i: int| 0 <= i < kids.len() implies node_wf(
                            #[trigger] out.children->0[i],
                        ) by {
                            let kid = kids[i];
                            assert(node_wf(kid));
                            assert(own_wf(kid));
                            assert(out.children->0[i] == placed_in(kid, n.nt));
                            lemma_put_distinct(
                                match kid.inline_style {
                                    Some(members) => members,
                                    None => Seq::empty(),
                                },
                                place_key(n.nt),
                                ValueView::String(
                                    place_text(
                                        match start_of(kid) {
                                            Some(start) => start as int,
                                            None => 0,
                                        },
                                        match span_of(kid) {
                                            Some(span) => span as int,
                                            None => 0,
                                        },
                                    ),
                                ),
                            );
                            assert(own_wf(placed_in(kid, n.nt)));
                        }
                    },
                    None => {},
                }
            }
        },
        LogicStep::ClearProps => {
            assert(own_wf(out));
        },
    }
}

/// Walking a well-formed tree with a step leaves it well formed.
pub proof fn lemma_walked_wf(step: LogicStep, vars: Seq<(Seq<char>, ValueView)>, n: NodeView)
    requires
        node_wf(n),
        step == LogicStep::ReplaceVariables ==> members_wf(vars),
    ensures
        node_wf(walked(step, vars, n)),
    decreases n,
{
    match n.children {
        Some(kids) => {
            let below = walked_all(step, vars, kids);
            assert forall|i: int| 0 <= i < kids.len() implies node_wf(
                #[trigger] below[i],
            ) by {
                lemma_walked_wf(step, vars, kids[i]);
            }
            let m = NodeView { children: Some(below), ..n };
            assert(own_wf(n));
            assert(own_wf(m));
            lemma_stepped_wf(step, vars, m);
        },
        None => {
            lemma_stepped_wf(step, vars, n);
        },
    }
}

/// Walking a well-formed document with a step leaves it well formed.
pub proof fn lemma_walked_doc_wf(
    step: LogicStep,
    vars: Seq<(Seq<char>, ValueView)>,
    d: DocumentView,
)
    requires
        document_wf(d),
        step == LogicStep::ReplaceVariables ==> members_wf(vars),
    ensures
        document_wf(walked_doc(step, vars, d)),
{
    let f = |n: NodeView| walked(step, vars, n);
    let whole = |n: NodeView| node_wf(n);
    assert forall|n: NodeView| #[trigger] whole(n) implies whole(f(n)) by {
        lemma_walked_wf(step, vars, n);
    }
    lemma_roots_map(d, f, whole, whole);
    lemma_map_roots_pages(d, f);
}

/// The compiled theme of a well-formed document is well formed: where no
/// name occurs twice among the pages of the document or in what its nodes
/// hold by name, and the variables are well formed, no pass makes a name
/// occur twice or writes a number in another form than its own.
pub proof fn lemma_compiled_wf(
    d: DocumentView,
    vars: Seq<(Seq<char>, ValueView)>,
    next: int,
)
    requires
        document_wf(d),
        members_wf(vars),
    ensures
        document_wf(prepared(d, vars, next)),
        ir_wf(compiled(d, vars, next)),
{
    let none = Seq::<(Seq<char>, ValueView)>::empty();
    lemma_walked_doc_wf(LogicStep::ReplaceVariables, vars, d);
    let resolved = resolved_doc(d, vars);
    lemma_walked_doc_wf(LogicStep::FillProps, none, resolved);
    lemma_identified_doc_wf(walked_doc(LogicStep::FillProps, none, resolved), next);
    let normal = normalized(resolved, next);
    lemma_walked_doc_wf(LogicStep::ResolveSpan, none, normal);
    lemma_walked_doc_wf(LogicStep::ClearProps, none, prepared(d, vars, next));
    lemma_assembled_doc_wf(pruned_doc(prepared(d, vars, next)));
}

} // verus!
