//! The compiled theme: the tree that a renderer consumes.

use crate::schema::ast;
use crate::schema::ast::{
    actions_wf, actions_view, content_all, document_wf, node_wf, own_wf, lemma_children_view, nodes_view, pages_view, roots_all, strings_view, ActionView,
    AstContent, AstNode, AstPageConfig, AstThemeConfig, ContentView, DocumentView, NodeType,
    NodeView, PageView,
};
use crate::schema::value::{members_wf, members_view, names_distinct, Value, ValueView};
use crate::text::{push_str, string_of};
use vstd::prelude::*;

verus! {

/// A compiled theme.
#[derive(Debug, PartialEq, Eq)]
pub struct ThemeIr {
    pub config: MetaConfig,
    pub layout: Layout,
}

/// What a compiled theme says of itself.
#[derive(Debug, PartialEq, Eq)]
pub struct MetaConfig {
    pub version: String,
    pub theme_name: String,
}

/// The trees of a compiled theme. The shared tree is always there: an empty
/// node where the document has none.
#[derive(Debug, PartialEq, Eq)]
pub struct Layout {
    pub global: Node,
    pub pages: Vec<(String, PageConfig)>,
}

/// One compiled page.
#[derive(Debug, PartialEq, Eq)]
pub struct PageConfig {
    pub name: String,
    pub content: Content,
}

/// The content of a compiled page: one node or a sequence of nodes, as the
/// document had it.
#[derive(Debug, PartialEq, Eq)]
pub enum Content {
    One(Node),
    Many(Vec<Node>),
}

/// A command that a node can trigger, with its parameters.
#[derive(Debug, PartialEq, Eq)]
pub struct Action {
    pub command: String,
    pub params: Option<Value>,
}

/// A node of the compiled tree.
#[derive(Debug, PartialEq, Eq)]
pub struct Node {
    pub id: u32,
    pub node_type: String,
    pub class_name: String,
    pub style: Vec<(String, Value)>,
    pub children: Option<Vec<Node>>,
    pub actions: Option<Vec<(String, Action)>>,
    pub hooks: Option<Vec<String>>,
}

/// What a [`Node`] stands for.
pub struct IrNodeView {
    pub id: u32,
    pub node_type: Seq<char>,
    pub class_name: Seq<char>,
    pub style: Seq<(Seq<char>, ValueView)>,
    pub children: Option<Seq<IrNodeView>>,
    pub actions: Option<Seq<(Seq<char>, ActionView)>>,
    pub hooks: Option<Seq<Seq<char>>>,
}

/// What a [`Content`] stands for.
pub enum IrContentView {
    One(IrNodeView),
    Many(Seq<IrNodeView>),
}

/// What a [`PageConfig`] stands for.
pub struct IrPageView {
    pub name: Seq<char>,
    pub content: IrContentView,
}

/// What a [`ThemeIr`] stands for.
pub struct IrView {
    pub version: Seq<char>,
    pub theme_name: Seq<char>,
    pub global: IrNodeView,
    pub pages: Seq<(Seq<char>, IrPageView)>,
}

impl View for Action {
    type V = ActionView;

    open spec fn view(&self) -> ActionView {
        ActionView {
            command: self.command@,
            params: match self.params {
                Some(v) => Some(v@),
                None => None,
            },
        }
    }
}

/// The actions that a list of named actions stands for.
pub open spec fn ir_actions_view(actions: Seq<(String, Action)>) -> Seq<(Seq<char>, ActionView)> {
    Seq::new(actions.len(), |i: int| (actions[i].0@, actions[i].1@))
}

/// The node that `n` stands for.
pub open spec fn ir_node_view(n: Node) -> IrNodeView
    decreases n,
{
    IrNodeView {
        id: n.id,
        node_type: n.node_type@,
        class_name: n.class_name@,
        style: members_view(n.style@),
        children: match n.children {
            Some(kids) => Some(
                Seq::new(
                    kids@.len(),
                    |i: int|
                        if 0 <= i < kids@.len() {
                            ir_node_view(kids@[i])
                        } else {
                            arbitrary()
                        },
                ),
            ),
            None => None,
        },
        actions: match n.actions {
            Some(list) => Some(ir_actions_view(list@)),
            None => None,
        },
        hooks: match n.hooks {
            Some(list) => Some(strings_view(list@)),
            None => None,
        },
    }
}

impl View for Node {
    type V = IrNodeView;

    open spec fn view(&self) -> IrNodeView {
        ir_node_view(*self)
    }
}

/// The nodes that a list of nodes stands for.
pub open spec fn ir_nodes_view(nodes: Seq<Node>) -> Seq<IrNodeView> {
    Seq::new(nodes.len(), |i: int| nodes[i]@)
}

/// Unfolds the view of a node's children.
pub proof fn lemma_ir_children_view(n: Node)
    ensures
        n@.children == match n.children {
            Some(kids) => Some(ir_nodes_view(kids@)),
            None => None,
        },
{
    match n.children {
        Some(kids) => {
            assert(n@.children->0 =~= ir_nodes_view(kids@));
        },
        None => {},
    }
}

impl View for Content {
    type V = IrContentView;

    open spec fn view(&self) -> IrContentView {
        match self {
            Content::One(node) => IrContentView::One(node@),
            Content::Many(nodes) => IrContentView::Many(ir_nodes_view(nodes@)),
        }
    }
}

impl View for PageConfig {
    type V = IrPageView;

    open spec fn view(&self) -> IrPageView {
        IrPageView { name: self.name@, content: self.content@ }
    }
}

/// The pages that a list of keyed pages stands for.
pub open spec fn ir_pages_view(pages: Seq<(String, PageConfig)>) -> Seq<(Seq<char>, IrPageView)> {
    Seq::new(pages.len(), |i: int| (pages[i].0@, pages[i].1@))
}

impl View for ThemeIr {
    type V = IrView;

    open spec fn view(&self) -> IrView {
        IrView {
            version: self.config.version@,
            theme_name: self.config.theme_name@,
            global: self.layout.global@,
            pages: ir_pages_view(self.layout.pages@),
        }
    }
}

/// The empty node: identity 0, no kind, no class, no style, nothing below.
pub open spec fn empty_node() -> IrNodeView {
    IrNodeView {
        id: 0,
        node_type: Seq::empty(),
        class_name: Seq::empty(),
        style: Seq::empty(),
        children: None,
        actions: None,
        hooks: None,
    }
}

/// The name of a kind in the compiled tree; `node` for a node without kind.
pub open spec fn kind_text(nt: Option<NodeType>) -> Seq<char> {
    match nt {
        Some(NodeType::Row) => "row"@,
        Some(NodeType::Col) => "col"@,
        Some(NodeType::Component) => "component"@,
        _ => "node"@,
    }
}

/// The first `k` texts, with `sep` between each two.
pub open spec fn joined(parts: Seq<Seq<char>>, k: int, sep: Seq<char>) -> Seq<char>
    decreases k,
{
    if k <= 0 || k > parts.len() {
        Seq::empty()
    } else if k == 1 {
        parts[0]
    } else {
        joined(parts, k - 1, sep) + sep + parts[k - 1]
    }
}

/// The compiled node of a document node: its identity, the name of its
/// kind, its presentation tokens joined by single blanks, its style, and
/// below it the compiled nodes of the nodes below; actions and hooks as
/// they are. The `props` are left behind.
pub open spec fn assembled(n: NodeView) -> IrNodeView
    decreases n, 1nat,
{
    IrNodeView {
        id: match n.id {
            Some(id) => id,
            None => 0,
        },
        node_type: kind_text(n.nt),
        class_name: match n.class_list {
            Some(tokens) => joined(tokens, tokens.len() as int, " "@),
            None => Seq::empty(),
        },
        style: match n.inline_style {
            Some(members) => members,
            None => Seq::empty(),
        },
        children: match n.children {
            Some(kids) => Some(assembled_all(kids)),
            None => None,
        },
        actions: n.actions,
        hooks: n.hooks,
    }
}

/// The compiled nodes of the document nodes.
pub open spec fn assembled_all(nodes: Seq<NodeView>) -> Seq<IrNodeView>
    decreases nodes, 0nat,
{
    Seq::new(
        nodes.len(),
        |i: int|
            if 0 <= i < nodes.len() {
                assembled(nodes[i])
            } else {
                arbitrary()
            },
    )
}

/// Whether every node of the tree below `n` has an identity.
pub open spec fn all_identified(n: NodeView) -> bool
    decreases n,
{
    &&& n.id is Some
    &&& match n.children {
        Some(kids) => forall|i: int| 0 <= i < kids.len() ==> all_identified(#[trigger] kids[i]),
        None => true,
    }
}

/// Whether every node of each tree has an identity.
pub open spec fn forest_identified(nodes: Seq<NodeView>) -> bool {
    forall|i: int| 0 <= i < nodes.len() ==> all_identified(#[trigger] nodes[i])
}

/// Whether every node of the document has an identity.
pub open spec fn document_identified(d: DocumentView) -> bool {
    roots_all(d, |n: NodeView| all_identified(n))
}

/// The compiled content of a page.
pub open spec fn assembled_content(c: ContentView) -> IrContentView {
    match c {
        ContentView::One(node) => IrContentView::One(assembled(node)),
        ContentView::Many(nodes) => IrContentView::Many(assembled_all(nodes)),
    }
}

/// The compiled pages.
pub open spec fn assembled_pages(pages: Seq<(Seq<char>, PageView)>) -> Seq<(Seq<char>, IrPageView)> {
    Seq::new(
        pages.len(),
        |i: int|
            (
                pages[i].0,
                IrPageView {
                    name: pages[i].1.name,
                    content: assembled_content(pages[i].1.content),
                },
            ),
    )
}

/// The compiled theme of a document: version and name as they are, the
/// compiled shared tree, or the empty node where the document has none, and
/// the compiled pages. The variables are left behind.
pub open spec fn assembled_doc(d: DocumentView) -> IrView {
    IrView {
        version: d.config.version,
        theme_name: d.config.theme_name,
        global: match d.layout.global {
            Some(Some(node)) => assembled(node),
            _ => empty_node(),
        },
        pages: assembled_pages(d.layout.pages),
    }
}

impl NodeType {
    /// The kind that a name stands for: `row`, `col` and `component` for
    /// themselves, any other name for a plain node.
    pub fn from(s: &str) -> (nt: NodeType)
        ensures
            nt == if s@ == "row"@ {
                NodeType::Row
            } else if s@ == "col"@ {
                NodeType::Col
            } else if s@ == "component"@ {
                NodeType::Component
            } else {
                NodeType::Node
            },
    {
        let name: String = s.to_owned();
        if name == "row".to_owned() {
            NodeType::Row
        } else if name == "col".to_owned() {
            NodeType::Col
        } else if name == "component".to_owned() {
            NodeType::Component
        } else {
            NodeType::Node
        }
    }
}

fn kind_text_of(nt: Option<NodeType>) -> (name: String)
    ensures
        name@ == kind_text(nt),
{
    match nt {
        Some(NodeType::Row) => "row".to_owned(),
        Some(NodeType::Col) => "col".to_owned(),
        Some(NodeType::Component) => "component".to_owned(),
        _ => "node".to_owned(),
    }
}

fn join(parts: &Vec<String>) -> (out: String)
    ensures
        out@ == joined(strings_view(parts@), parts.len() as int, " "@),
{
    let ghost texts = strings_view(parts@);
    let mut out: Vec<char> = Vec::new();
    let mut i: usize = 0;
    while i < parts.len()
        invariant
            i <= parts.len(),
            texts == strings_view(parts@),
            out@ == joined(texts, i as int, " "@),
        decreases parts.len() - i,
    {
        if i > 0 {
            push_str(&mut out, " ");
        }
        push_str(&mut out, parts[i].as_str());
        assert(Seq::<char>::empty() + texts[0] =~= texts[0]);
        i = i + 1;
    }
    string_of(&out)
}

impl Default for Node {
    /// The empty node.
    fn default() -> (node: Node)
        ensures
            node@ == empty_node(),
    {
        let style: Vec<(String, Value)> = Vec::new();
        assert(members_view(style@) =~= Seq::empty());
        Node {
            id: 0,
            node_type: String::new(),
            class_name: String::new(),
            style,
            children: None,
            actions: None,
            hooks: None,
        }
    }
}

fn actions_from(actions: Vec<(String, ast::Action)>) -> (out: Vec<(String, Action)>)
    ensures
        ir_actions_view(out@) == actions_view(actions@),
{
    let ghost wanted = actions_view(actions@);
    let mut out: Vec<(String, Action)> = Vec::new();
    for entry in iter: actions
        invariant
            iter.seq() == actions@,
            out@.len() == iter.index(),
            forall|j: int|
                0 <= j < iter.index() ==> (#[trigger] out@[j]).0@ == actions@[j].0@ && out@[j].1@
                    == actions@[j].1@,
    {
        let (name, action) = entry;
        out.push((name, Action { command: action.command, params: action.params }));
    }
    assert(ir_actions_view(out@) =~= wanted);
    out
}

impl Node {
    /// Compiles a document node, with the tree below it: see `assembled`.
    pub fn from(ast: AstNode) -> (node: Node)
        requires
            all_identified(ast@),
        ensures
            node@ == assembled(ast@),
        decreases ast,
    {
        proof {
            lemma_children_view(ast);
        }
        let ghost source = ast@;
        let id = ast.id.unwrap();
        let node_type = kind_text_of(ast.nt);
        let class_name = match &ast.class_list {
            Some(tokens) => join(tokens),
            None => String::new(),
        };
        let style = match ast.inline_style {
            Some(members) => members,
            None => {
                let fresh: Vec<(String, Value)> = Vec::new();
                assert(members_view(fresh@) =~= Seq::empty());
                fresh
            },
        };
        let children = match ast.children {
            Some(kids) => {
                let ghost views = nodes_view(kids@);
                let mut out: Vec<Node> = Vec::new();
                for kid in iter: kids
                    invariant
                        iter.seq() == kids@,
                        views == nodes_view(kids@),
                        forest_identified(views),
                        out@.len() == iter.index(),
                        forall|j: int| 0 <= j < kids@.len() ==> decreases_to!(ast => #[trigger] kids@[j]),
                        forall|j: int|
                            0 <= j < iter.index() ==> (#[trigger] out@[j])@ == assembled(views[j]),
                {
                    assert(views[iter.index()] == kid@);
                    out.push(Node::from(kid));
                }
                assert(ir_nodes_view(out@) =~= assembled_all(views));
                Some(out)
            },
            None => None,
        };
        let actions = match ast.actions {
            Some(list) => Some(actions_from(list)),
            None => None,
        };
        let node = Node { id, node_type, class_name, style, children, actions, hooks: ast.hooks };
        proof {
            lemma_ir_children_view(node);
        }
        node
    }
}

fn nodes_from(nodes: Vec<AstNode>) -> (out: Vec<Node>)
    requires
        forest_identified(nodes_view(nodes@)),
    ensures
        ir_nodes_view(out@) == assembled_all(nodes_view(nodes@)),
{
    let ghost views = nodes_view(nodes@);
    let mut out: Vec<Node> = Vec::new();
    for node in iter: nodes
        invariant
            iter.seq() == nodes@,
            views == nodes_view(nodes@),
            forest_identified(views),
            out@.len() == iter.index(),
            forall|j: int| 0 <= j < iter.index() ==> (#[trigger] out@[j])@ == assembled(views[j]),
    {
        assert(views[iter.index()] == node@);
        out.push(Node::from(node));
    }
    assert(ir_nodes_view(out@) =~= assembled_all(views));
    out
}

impl PageConfig {
    /// Compiles a page: its title as it is, and its content compiled.
    pub fn from(ast: AstPageConfig) -> (page: PageConfig)
        requires
            content_all(ast@.content, |n: NodeView| all_identified(n)),
        ensures
            page@ == (IrPageView { name: ast@.name, content: assembled_content(ast@.content) }),
    {
        let content = match ast.content {
            AstContent::One(node) => Content::One(Node::from(node)),
            AstContent::Many(nodes) => Content::Many(nodes_from(nodes)),
        };
        PageConfig { name: ast.name, content }
    }
}

impl ThemeIr {
    /// Compiles a document: see `assembled_doc`.
    pub fn from(ast: AstThemeConfig) -> (ir: ThemeIr)
        requires
            document_identified(ast@),
        ensures
            ir@ == assembled_doc(ast@),
            ast.wf() ==> ir.wf(),
    {
        proof {
            if ast.wf() {
                lemma_assembled_doc_wf(ast@);
            }
        }
        let ghost source = ast@;
        let global = match ast.layout.global {
            Some(shared) => match shared.widget {
                Some(node) => Node::from(node),
                None => Node::default(),
            },
            None => Node::default(),
        };
        let mut pages: Vec<(String, PageConfig)> = Vec::new();
        let ghost entries = ast.layout.pages@;
        for entry in iter: ast.layout.pages
            invariant
                iter.seq() == entries,
                source.layout.pages == pages_view(entries),
                document_identified(source),
                pages@.len() == iter.index(),
                forall|j: int|
                    0 <= j < iter.index() ==> (#[trigger] pages@[j]).0@ == entries[j].0@
                        && pages@[j].1@ == (IrPageView {
                        name: entries[j].1@.name,
                        content: assembled_content(entries[j].1@.content),
                    }),
        {
            let (key, page) = entry;
            assert(source.layout.pages[iter.index()].1 == page@);
            pages.push((key, PageConfig::from(page)));
        }
        assert(ir_pages_view(pages@) =~= assembled_pages(source.layout.pages));
        ThemeIr {
            config: MetaConfig { version: ast.config.version, theme_name: ast.config.theme_name },
            layout: Layout { global, pages },
        }
    }
}

/// Whether the compiled tree below `n` is well formed: the style and the
/// actions of every node are mappings, no name occurs twice, and the values
/// are well formed.
pub open spec fn ir_node_wf(n: IrNodeView) -> bool
    decreases n,
{
    &&& members_wf(n.style)
    &&& match n.actions {
        Some(actions) => actions_wf(actions),
        None => true,
    }
    &&& match n.children {
        Some(kids) => forall|i: int| 0 <= i < kids.len() ==> ir_node_wf(#[trigger] kids[i]),
        None => true,
    }
}

/// Whether the trees of a compiled content are well formed.
pub open spec fn ir_content_wf(c: IrContentView) -> bool {
    match c {
        IrContentView::One(node) => ir_node_wf(node),
        IrContentView::Many(nodes) => forall|i: int|
            0 <= i < nodes.len() ==> ir_node_wf(#[trigger] nodes[i]),
    }
}

/// Whether a compiled theme is well formed: its pages are a mapping, and
/// every tree is well formed.
pub open spec fn ir_wf(t: IrView) -> bool {
    &&& names_distinct(t.pages)
    &&& ir_node_wf(t.global)
    &&& forall|i: int| 0 <= i < t.pages.len() ==> ir_content_wf((#[trigger] t.pages[i]).1.content)
}

impl ThemeIr {
    /// Whether the compiled theme is well formed: see `ir_wf`.
    pub open spec fn wf(&self) -> bool {
        ir_wf(self@)
    }
}

/// The compiled node of a well-formed tree is well formed.
pub proof fn lemma_assembled_wf(n: NodeView)
    requires
        node_wf(n),
    ensures
        ir_node_wf(assembled(n)),
    decreases n,
{
    let out = assembled(n);
    assert(own_wf(n));
    assert(members_wf(out.style));
    match n.children {
        Some(kids) => {
            assert(out.children == Some(assembled_all(kids)));
            assert forall|i: int| 0 <= i < kids.len() implies ir_node_wf(
                #[trigger] assembled_all(kids)[i],
            ) by {
                lemma_assembled_wf(kids[i]);
            }
        },
        None => {},
    }
}

/// The compiled theme of a well-formed document is well formed.
pub proof fn lemma_assembled_doc_wf(d: DocumentView)
    requires
        document_wf(d),
    ensures
        ir_wf(assembled_doc(d)),
{
    let out = assembled_doc(d);
    match d.layout.global {
        Some(Some(node)) => {
            lemma_assembled_wf(node);
        },
        _ => {},
    }
    assert forall|i: int, j: int| 0 <= i < j < out.pages.len() implies (#[trigger] out.pages[i]).0
        != (#[trigger] out.pages[j]).0 by {
        assert(d.layout.pages[i].0 != d.layout.pages[j].0);
    }
    assert forall|i: int| 0 <= i < out.pages.len() implies ir_content_wf(
        (#[trigger] out.pages[i]).1.content,
    ) by {
        assert(content_all(d.layout.pages[i].1.content, |n: NodeView| node_wf(n)));
        match d.layout.pages[i].1.content {
            ContentView::One(node) => {
                lemma_assembled_wf(node);
            },
            ContentView::Many(nodes) => {
                assert forall|j: int| 0 <= j < nodes.len() implies ir_node_wf(
                    #[trigger] assembled_all(nodes)[j],
                ) by {
                    lemma_assembled_wf(nodes[j]);
                }
            },
        }
    }
}

/// The compiled theme of a document without a shared tree has the empty
/// node in its place, and the version and the name of the document.
pub proof fn lemma_default_global(d: DocumentView)
    requires
        d.layout.global is None || d.layout.global == Some(None::<NodeView>),
    ensures
        assembled_doc(d).global == empty_node(),
        assembled_doc(d).version == d.config.version,
        assembled_doc(d).theme_name == d.config.theme_name,
{
}

} // verus!
