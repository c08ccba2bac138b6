//! Reading the layout fields that a node carries in its `props`.

use crate::schema::ast::{AstNode, NodeView};
use crate::schema::value::{get, lookup, value_int, ValueView};
use vstd::prelude::*;

verus! {

/// The integer bound to `key` in `props`, if there is one.
pub open spec fn int_prop(props: Option<Seq<(Seq<char>, ValueView)>>, key: Seq<char>) -> Option<
    i64,
> {
    match props {
        Some(members) => match lookup(members, key) {
            Some(v) => value_int(v),
            None => None,
        },
        None => None,
    }
}

/// The start that a node declares: the first grid unit that it occupies in
/// its container, where its `props` bind `start` to an integer. A `start`
/// that is bound to anything else is not declared.
pub open spec fn start_of(n: NodeView) -> Option<i64> {
    int_prop(n.props, "start"@)
}

/// The span that a node declares: the number of grid units that it spans
/// in its container, where its `props` bind `span` to an integer. A `span`
/// that is bound to anything else is not declared.
pub open spec fn span_of(n: NodeView) -> Option<i64> {
    int_prop(n.props, "span"@)
}

/// Whether a node has both its start and its span.
pub open spec fn is_placed(n: NodeView) -> bool {
    start_of(n) is Some && span_of(n) is Some
}

/// The start and the span of a node that has both.
pub fn extract_grid_props(node: &AstNode) -> (r: (i64, i64))
    requires
        is_placed(node@),
    ensures
        Some(r.0) == start_of(node@),
        Some(r.1) == span_of(node@),
{
    let start = get_prop_as_i64(node, "start").unwrap();
    let span = get_prop_as_i64(node, "span").unwrap();
    (start, span)
}

/// The integer bound to `key` in the node's `props`, if there is one.
pub fn get_prop_as_i64(node: &AstNode, key: &str) -> (r: Option<i64>)
    ensures
        r == int_prop(node@.props, key@),
{
    match &node.props {
        Some(members) => match get(members, key) {
            Some(v) => v.as_i64(),
            None => None,
        },
        None => None,
    }
}

} // verus!
