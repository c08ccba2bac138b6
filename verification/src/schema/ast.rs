//! The theme document as its author wrote it.

use crate::schema::value::{
    members_wf, members_view, names_distinct, value_wf, Value, ValueView,
};
use vstd::prelude::*;

verus! {

/// A theme document: what it is, and what it lays out.
#[derive(Debug, PartialEq, Eq)]
pub struct AstThemeConfig {
    pub config: AstMetaConfig,
    pub layout: AstLayout,
}

/// What a theme document says of itself: the revision of the format, the
/// theme's name, and the variables that its nodes may refer to.
#[derive(Debug, PartialEq, Eq)]
pub struct AstMetaConfig {
    pub version: String,
    pub theme_name: String,
    pub variables: Option<Vec<(String, String)>>,
}

/// The trees of a theme: one shared by every page, and one for each page,
/// under the page's key.
#[derive(Debug, PartialEq, Eq)]
pub struct AstLayout {
    pub global: Option<AstGlobalLayout>,
    pub pages: Vec<(String, AstPageConfig)>,
}

/// The tree shared by every page.
#[derive(Debug, PartialEq, Eq)]
pub struct AstGlobalLayout {
    pub widget: Option<AstNode>,
}

/// One page: its title and its content.
#[derive(Debug, PartialEq, Eq)]
pub struct AstPageConfig {
    pub name: String,
    pub content: AstContent,
}

/// The content of a page: one node or a sequence of nodes.
#[derive(Debug, PartialEq, Eq)]
pub enum AstContent {
    One(AstNode),
    Many(Vec<AstNode>),
}

/// The kind of a node. A `Row` lays its children out on columns, a `Col` on
/// rows.
#[derive(Debug, Clone, Copy, PartialEq, Eq, Structural)]
pub enum NodeType {
    Node,
    Row,
    Col,
    Component,
}

/// A node of the document tree.
#[derive(Debug, PartialEq, Eq)]
pub struct AstNode {
    /// The node's identity; filled in where the author left it out.
    pub id: Option<u32>,
    /// The node's kind.
    pub nt: Option<NodeType>,
    /// Presentation tokens.
    pub class_list: Option<Vec<String>>,
    /// Style declarations.
    pub inline_style: Option<Vec<(String, Value)>>,
    /// Free-form parameters; the layout fields `start`, `span`, `cols` and
    /// `rows` live here while the document is compiled.
    pub props: Option<Vec<(String, Value)>>,
    /// The nodes below this one.
    pub children: Option<Vec<AstNode>>,
    /// Names of the data that the node consumes.
    pub consume: Option<Vec<String>>,
    /// What the node can trigger, by name.
    pub actions: Option<Vec<(String, Action)>>,
    /// Names of the data-injection tasks of the node.
    pub hooks: Option<Vec<String>>,
}

/// A command that a node can trigger, with its parameters.
#[derive(Debug, PartialEq, Eq)]
pub struct Action {
    pub command: String,
    pub params: Option<Value>,
}

/// What an [`Action`] stands for.
pub struct ActionView {
    pub command: Seq<char>,
    pub params: Option<ValueView>,
}

/// What an [`AstNode`] stands for.
pub struct NodeView {
    pub id: Option<u32>,
    pub nt: Option<NodeType>,
    pub class_list: Option<Seq<Seq<char>>>,
    pub inline_style: Option<Seq<(Seq<char>, ValueView)>>,
    pub props: Option<Seq<(Seq<char>, ValueView)>>,
    pub children: Option<Seq<NodeView>>,
    pub consume: Option<Seq<Seq<char>>>,
    pub actions: Option<Seq<(Seq<char>, ActionView)>>,
    pub hooks: Option<Seq<Seq<char>>>,
}

/// What an [`AstContent`] stands for.
pub enum ContentView {
    One(NodeView),
    Many(Seq<NodeView>),
}

/// What an [`AstPageConfig`] stands for.
pub struct PageView {
    pub name: Seq<char>,
    pub content: ContentView,
}

/// What an [`AstLayout`] stands for. `global` holds the shared tree where
/// the document has one.
pub struct LayoutView {
    pub global: Option<Option<NodeView>>,
    pub pages: Seq<(Seq<char>, PageView)>,
}

/// What an [`AstMetaConfig`] stands for.
pub struct MetaView {
    pub version: Seq<char>,
    pub theme_name: Seq<char>,
    pub variables: Option<Seq<(Seq<char>, Seq<char>)>>,
}

/// What an [`AstThemeConfig`] stands for.
pub struct DocumentView {
    pub config: MetaView,
    pub layout: LayoutView,
}

/// The texts that a list of strings stands for.
pub open spec fn strings_view(strings: Seq<String>) -> Seq<Seq<char>> {
    Seq::new(strings.len(), |i: int| strings[i]@)
}

/// The texts that an optional list of strings stands for.
pub open spec fn opt_strings_view(strings: Option<Vec<String>>) -> Option<Seq<Seq<char>>> {
    match strings {
        Some(list) => Some(strings_view(list@)),
        None => None,
    }
}

/// The members that an optional list of named values stands for.
pub open spec fn opt_members_view(members: Option<Vec<(String, Value)>>) -> Option<
    Seq<(Seq<char>, ValueView)>,
> {
    match members {
        Some(list) => Some(members_view(list@)),
        None => None,
    }
}

impl View for Action {
    type V = ActionView;

    open spec fn view(&self) -> ActionView {
        ActionView {
            command: self.command@,
            params: match self.params {
                Some(v) => Some(v@),
                None => None,
            },
        }
    }
}

/// The actions that a list of named actions stands for.
pub open spec fn actions_view(actions: Seq<(String, Action)>) -> Seq<(Seq<char>, ActionView)> {
    Seq::new(actions.len(), |i: int| (actions[i].0@, actions[i].1@))
}

/// The actions that an optional list of named actions stands for.
pub open spec fn opt_actions_view(actions: Option<Vec<(String, Action)>>) -> Option<
    Seq<(Seq<char>, ActionView)>,
> {
    match actions {
        Some(list) => Some(actions_view(list@)),
        None => None,
    }
}

/// The node that `n` stands for.
pub open spec fn node_view(n: AstNode) -> NodeView
    decreases n,
{
    NodeView {
        id: n.id,
        nt: n.nt,
        class_list: opt_strings_view(n.class_list),
        inline_style: opt_members_view(n.inline_style),
        props: opt_members_view(n.props),
        children: match n.children {
            Some(kids) => Some(
                Seq::new(
                    kids@.len(),
                    |i: int|
                        if 0 <= i < kids@.len() {
                            node_view(kids@[i])
                        } else {
                            arbitrary()
                        },
                ),
            ),
            None => None,
        },
        consume: opt_strings_view(n.consume),
        actions: opt_actions_view(n.actions),
        hooks: opt_strings_view(n.hooks),
    }
}

impl View for AstNode {
    type V = NodeView;

    open spec fn view(&self) -> NodeView {
        node_view(*self)
    }
}

/// The nodes that a list of nodes stands for.
pub open spec fn nodes_view(nodes: Seq<AstNode>) -> Seq<NodeView> {
    Seq::new(nodes.len(), |i: int| nodes[i]@)
}

/// Unfolds the view of a node's children.
pub proof fn lemma_children_view(n: AstNode)
    ensures
        n@.children == match n.children {
            Some(kids) => Some(nodes_view(kids@)),
            None => None,
        },
{
    match n.children {
        Some(kids) => {
            assert(n@.children->0 =~= nodes_view(kids@));
        },
        None => {},
    }
}

impl View for AstContent {
    type V = ContentView;

    open spec fn view(&self) -> ContentView {
        match self {
            AstContent::One(node) => ContentView::One(node@),
            AstContent::Many(nodes) => ContentView::Many(nodes_view(nodes@)),
        }
    }
}

impl View for AstPageConfig {
    type V = PageView;

    open spec fn view(&self) -> PageView {
        PageView { name: self.name@, content: self.content@ }
    }
}

/// The pages that a list of keyed pages stands for.
pub open spec fn pages_view(pages: Seq<(String, AstPageConfig)>) -> Seq<(Seq<char>, PageView)> {
    Seq::new(pages.len(), |i: int| (pages[i].0@, pages[i].1@))
}

impl View for AstLayout {
    type V = LayoutView;

    open spec fn view(&self) -> LayoutView {
        LayoutView {
            global: match self.global {
                Some(shared) => Some(
                    match shared.widget {
                        Some(node) => Some(node@),
                        None => None,
                    },
                ),
                None => None,
            },
            pages: pages_view(self.pages@),
        }
    }
}

/// The variables that a list of named texts stands for.
pub open spec fn variables_view(variables: Seq<(String, String)>) -> Seq<(Seq<char>, Seq<char>)> {
    Seq::new(variables.len(), |i: int| (variables[i].0@, variables[i].1@))
}

impl View for AstMetaConfig {
    type V = MetaView;

    open spec fn view(&self) -> MetaView {
        MetaView {
            version: self.version@,
            theme_name: self.theme_name@,
            variables: match self.variables {
                Some(list) => Some(variables_view(list@)),
                None => None,
            },
        }
    }
}

impl View for AstThemeConfig {
    type V = DocumentView;

    open spec fn view(&self) -> DocumentView {
        DocumentView { config: self.config@, layout: self.layout@ }
    }
}

/// The content with `f` applied to each of its nodes.
pub open spec fn map_content(c: ContentView, f: spec_fn(NodeView) -> NodeView) -> ContentView {
    match c {
        ContentView::One(node) => ContentView::One(f(node)),
        ContentView::Many(nodes) => ContentView::Many(Seq::new(nodes.len(), |i: int| f(nodes[i]))),
    }
}

/// The pages with `f` applied to each node of their contents.
pub open spec fn map_pages(pages: Seq<(Seq<char>, PageView)>, f: spec_fn(NodeView) -> NodeView) -> Seq<
    (Seq<char>, PageView),
> {
    Seq::new(
        pages.len(),
        |i: int|
            (pages[i].0, PageView { name: pages[i].1.name, content: map_content(pages[i].1.content, f) }),
    )
}

/// The document with `f` applied to each of its trees: the shared one and
/// those of the pages.
pub open spec fn map_roots(d: DocumentView, f: spec_fn(NodeView) -> NodeView) -> DocumentView {
    DocumentView {
        layout: LayoutView {
            global: match d.layout.global {
                Some(Some(node)) => Some(Some(f(node))),
                other => other,
            },
            pages: map_pages(d.layout.pages, f),
        },
        ..d
    }
}

/// Whether `ok` holds of each node of the content.
pub open spec fn content_all(c: ContentView, ok: spec_fn(NodeView) -> bool) -> bool {
    match c {
        ContentView::One(node) => ok(node),
        ContentView::Many(nodes) => forall|i: int| 0 <= i < nodes.len() ==> ok(#[trigger] nodes[i]),
    }
}

/// Whether `ok` holds of each tree of the document.
pub open spec fn roots_all(d: DocumentView, ok: spec_fn(NodeView) -> bool) -> bool {
    &&& match d.layout.global {
        Some(Some(node)) => ok(node),
        _ => true,
    }
    &&& forall|i: int|
        0 <= i < d.layout.pages.len() ==> content_all((#[trigger] d.layout.pages[i]).1.content, ok)
}

/// What holds of every node holds of each tree of a document.
pub proof fn lemma_roots_any(d: DocumentView, ok: spec_fn(NodeView) -> bool)
    requires
        forall|n: NodeView| #[trigger] ok(n),
    ensures
        roots_all(d, ok),
{
    assert forall|i: int| 0 <= i < d.layout.pages.len() implies content_all(
        (#[trigger] d.layout.pages[i]).1.content,
        ok,
    ) by {}
}

/// Where `f` takes every node of which `pre` holds to one of which `post`
/// holds, it takes a document of whose trees `pre` holds to one of whose
/// trees `post` holds.
pub proof fn lemma_roots_map(
    d: DocumentView,
    f: spec_fn(NodeView) -> NodeView,
    pre: spec_fn(NodeView) -> bool,
    post: spec_fn(NodeView) -> bool,
)
    requires
        roots_all(d, pre),
        forall|n: NodeView| #[trigger] pre(n) ==> post(f(n)),
    ensures
        roots_all(map_roots(d, f), post),
{
    let out = map_roots(d, f);
    assert forall|i: int| 0 <= i < out.layout.pages.len() implies content_all(
        (#[trigger] out.layout.pages[i]).1.content,
        post,
    ) by {
        assert(content_all(d.layout.pages[i].1.content, pre));
        match d.layout.pages[i].1.content {
            ContentView::One(node) => {},
            ContentView::Many(nodes) => {
                let mapped = out.layout.pages[i].1.content->Many_0;
                assert forall|j: int| 0 <= j < mapped.len() implies post(#[trigger] mapped[j]) by {
                    assert(pre(nodes[j]));
                }
            },
        }
    }
}

/// What follows, for every node, from what holds of each tree of a
/// document holds of each tree too.
pub proof fn lemma_roots_implies(
    d: DocumentView,
    pre: spec_fn(NodeView) -> bool,
    post: spec_fn(NodeView) -> bool,
)
    requires
        roots_all(d, pre),
        forall|n: NodeView| #[trigger] pre(n) ==> post(n),
    ensures
        roots_all(d, post),
{
    assert forall|i: int| 0 <= i < d.layout.pages.len() implies content_all(
        (#[trigger] d.layout.pages[i]).1.content,
        post,
    ) by {
        assert(content_all(d.layout.pages[i].1.content, pre));
        match d.layout.pages[i].1.content {
            ContentView::One(node) => {},
            ContentView::Many(nodes) => {
                assert forall|j: int| 0 <= j < nodes.len() implies post(#[trigger] nodes[j]) by {
                    assert(pre(nodes[j]));
                }
            },
        }
    }
}

/// Two things that each hold of each tree of a document hold together of
/// each tree.
pub proof fn lemma_roots_both(
    d: DocumentView,
    first: spec_fn(NodeView) -> bool,
    second: spec_fn(NodeView) -> bool,
    both: spec_fn(NodeView) -> bool,
)
    requires
        roots_all(d, first),
        roots_all(d, second),
        forall|n: NodeView| first(n) && second(n) ==> #[trigger] both(n),
    ensures
        roots_all(d, both),
{
    assert forall|i: int| 0 <= i < d.layout.pages.len() implies content_all(
        (#[trigger] d.layout.pages[i]).1.content,
        both,
    ) by {
        assert(content_all(d.layout.pages[i].1.content, first));
        assert(content_all(d.layout.pages[i].1.content, second));
        match d.layout.pages[i].1.content {
            ContentView::One(node) => {},
            ContentView::Many(nodes) => {
                assert forall|j: int| 0 <= j < nodes.len() implies both(#[trigger] nodes[j]) by {
                    assert(first(nodes[j]));
                    assert(second(nodes[j]));
                }
            },
        }
    }
}

/// Whether the actions are a mapping, and their parameters are well
/// formed.
pub open spec fn actions_wf(actions: Seq<(Seq<char>, ActionView)>) -> bool {
    names_distinct(actions) && forall|i: int|
        0 <= i < actions.len() ==> match (#[trigger] actions[i]).1.params {
            Some(v) => value_wf(v),
            None => true,
        }
}

/// Whether the style, the `props` and the actions of a node are mappings
/// with well-formed values.
pub open spec fn own_wf(n: NodeView) -> bool {
    &&& match n.inline_style {
        Some(members) => members_wf(members),
        None => true,
    }
    &&& match n.props {
        Some(members) => members_wf(members),
        None => true,
    }
    &&& match n.actions {
        Some(actions) => actions_wf(actions),
        None => true,
    }
}

/// Whether the tree below `n` is well formed: what every node holds by
/// name is a mapping, no name occurs twice, and the values are well formed.
pub open spec fn node_wf(n: NodeView) -> bool
    decreases n,
{
    &&& own_wf(n)
    &&& match n.children {
        Some(kids) => forall|i: int| 0 <= i < kids.len() ==> node_wf(#[trigger] kids[i]),
        None => true,
    }
}

/// Whether a document is well formed: its variables and its pages are
/// mappings, and every tree is well formed. A document read from a file is.
pub open spec fn document_wf(d: DocumentView) -> bool {
    &&& match d.config.variables {
        Some(variables) => names_distinct(variables),
        None => true,
    }
    &&& names_distinct(d.layout.pages)
    &&& roots_all(d, |n: NodeView| node_wf(n))
}

impl AstThemeConfig {
    /// Whether the document is well formed: see `document_wf`.
    pub open spec fn wf(&self) -> bool {
        document_wf(self@)
    }
}

/// Applying a function to the trees of a document leaves its pages a
/// mapping.
pub proof fn lemma_map_roots_pages(d: DocumentView, f: spec_fn(NodeView) -> NodeView)
    requires
        names_distinct(d.layout.pages),
    ensures
        names_distinct(map_roots(d, f).layout.pages),
        map_roots(d, f).config == d.config,
{
    let out = map_roots(d, f).layout.pages;
    assert forall|i: int, j: int| 0 <= i < j < out.len() implies (#[trigger] out[i]).0 != (
    #[trigger] out[j]).0 by {
        assert(d.layout.pages[i].0 != d.layout.pages[j].0);
    }
}

} // verus!
