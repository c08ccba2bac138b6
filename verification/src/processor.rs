//! Steps that work on a compiled theme, node by node.

use crate::schema::ast::variables_view;
use crate::schema::ir::{IrNodeView, Node};
use crate::schema::value::names_distinct;
use vstd::prelude::*;

verus! {

/// Resolves the data that nodes consume, by a table from the names that
/// documents use to the names that the application knows.
#[derive(Debug, PartialEq, Eq)]
pub struct ConsumeProcessor {
    pub mapping: Vec<(String, String)>,
}

impl ConsumeProcessor {
    /// Whether the table is a mapping: no name occurs twice.
    pub open spec fn wf(&self) -> bool {
        names_distinct(variables_view(self.mapping@))
    }

    /// A processor with the given table.
    pub fn new(mapping: Vec<(String, String)>) -> (processor: ConsumeProcessor)
        ensures
            processor.mapping == mapping,
    {
        ConsumeProcessor { mapping }
    }
}

/// Works on the spans of nodes.
#[derive(Debug, PartialEq, Eq)]
pub struct SpanProcessor {}

impl SpanProcessor {
    /// A processor.
    pub fn new() -> (processor: SpanProcessor) {
        SpanProcessor {  }
    }
}

/// A step on compiled nodes. The steps that an engine takes are an ordered
/// list of these.
#[derive(Debug, PartialEq, Eq)]
pub enum Processor {
    Consume(ConsumeProcessor),
    Span(SpanProcessor),
}

/// What a step makes of a node below a parent of the given kind. Both
/// steps leave the compiled node as it is.
pub open spec fn processed(step: Processor, node: IrNodeView, parent_type: Option<Seq<char>>) -> IrNodeView {
    node
}

impl Processor {
    /// Takes the step on one node; `parent_type` is the kind of the node
    /// above it, if there is one.
    pub fn process(&self, node: &mut Node, parent_type: Option<&str>)
        ensures
            *final(node) == *old(node),
            final(node)@ == processed(
                *self,
                old(node)@,
                match parent_type {
                    Some(kind) => Some(kind@),
                    None => None,
                },
            ),
    {
    }
}

} // verus!
