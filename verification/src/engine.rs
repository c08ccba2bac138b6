//! The engine that takes a list of steps over a compiled theme.

use crate::processor::Processor;
use crate::schema::ir::{ir_nodes_view, lemma_ir_children_view, Content, Node, ThemeIr};
use vstd::prelude::*;

verus! {

/// An engine: the steps that it takes, in their order.
pub struct ThemeEngine {
    processors: Vec<Processor>,
}

impl ThemeEngine {
    /// The steps of the engine, in their order.
    pub closed spec fn steps(&self) -> Seq<Processor> {
        self.processors@
    }

    /// An engine without steps.
    pub fn new() -> (engine: ThemeEngine)
        ensures
            engine.steps() == Seq::<Processor>::empty(),
    {
        ThemeEngine { processors: Vec::new() }
    }

    /// An engine with the given steps.
    pub fn with_processors(processors: Vec<Processor>) -> (engine: ThemeEngine)
        ensures
            engine.steps() == processors@,
    {
        ThemeEngine { processors }
    }

    /// Adds a step behind the steps that the engine has.
    pub fn add_processor(&mut self, processor: Processor)
        ensures
            final(self).steps() == old(self).steps().push(processor),
    {
        self.processors.push(processor);
    }

    /// Takes every step at every node of the theme: in the shared tree,
    /// then in the pages in their order; at a node before the nodes below
    /// it. As every step leaves a node as it is, so does the engine.
    pub fn process(&self, config: &mut ThemeIr)
        ensures
            final(config)@ == old(config)@,
    {
        self.traverse(&mut config.layout.global, None);
        let ghost before = config.layout.pages@;
        let mut i: usize = 0;
        while i < config.layout.pages.len()
            invariant
                i <= config.layout.pages.len(),
                config.layout.pages@.len() == before.len(),
                before == old(config).layout.pages@,
                config.config == old(config).config,
                config.layout.global@ == old(config).layout.global@,
                forall|j: int|
                    0 <= j < before.len() ==> (#[trigger] config.layout.pages@[j]).0 == before[j].0
                        && config.layout.pages@[j].1@ == before[j].1@,
            decreases config.layout.pages.len() - i,
        {
            match &mut config.layout.pages[i].1.content {
                Content::One(node) => {
                    self.traverse(node, None);
                },
                Content::Many(nodes) => {
                    self.traverse_all(nodes, None);
                },
            }
            i = i + 1;
        }
        assert(config@.pages =~= old(config)@.pages);
    }

    /// Takes every step at the node, then at the nodes below it.
    fn traverse(&self, node: &mut Node, parent_type: Option<&str>)
        ensures
            final(node)@ == old(node)@,
        decreases *old(node),
    {
        let mut k: usize = 0;
        while k < self.processors.len()
            invariant
                k <= self.processors.len(),
                *node == *old(node),
            decreases self.processors.len() - k,
        {
            self.processors[k].process(node, parent_type);
            k = k + 1;
        }
        proof {
            lemma_ir_children_view(*node);
            lemma_ir_children_view(*old(node));
        }
        let ghost kept = node@;
        match &mut node.children {
            Some(children) => {
                let current_type = Some(node.node_type.as_str());
                let ghost before = children@;
                let mut i: usize = 0;
                while i < children.len()
                    invariant
                        i <= children.len(),
                        children@.len() == before.len(),
                        forall|j: int| 0 <= j < before.len() ==> (#[trigger] children@[j])@ == before[j]@,
                        forall|j: int| i <= j < before.len() ==> children@[j] == before[j],
                        forall|j: int|
                            0 <= j < before.len() ==> decreases_to!(*old(node) => #[trigger] before[j]),
                    decreases children.len() - i,
                {
                    self.traverse(&mut children[i], current_type);
                    i = i + 1;
                }
                assert(ir_nodes_view(children@) =~= ir_nodes_view(before));
            },
            None => {},
        }
        proof {
            lemma_ir_children_view(*node);
        }
    }

    /// Takes every step at every node of each tree.
    fn traverse_all(&self, nodes: &mut Vec<Node>, parent_type: Option<&str>)
        ensures
            ir_nodes_view(final(nodes)@) == ir_nodes_view(old(nodes)@),
    {
        let ghost before = nodes@;
        let mut i: usize = 0;
        while i < nodes.len()
            invariant
                i <= nodes.len(),
                nodes@.len() == before.len(),
                forall|j: int| 0 <= j < before.len() ==> (#[trigger] nodes@[j])@ == before[j]@,
            decreases nodes.len() - i,
        {
            self.traverse(&mut nodes[i], parent_type);
            i = i + 1;
        }
        assert(ir_nodes_view(nodes@) =~= ir_nodes_view(before));
    }
}

} // verus!
