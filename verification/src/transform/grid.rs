//! Placement on a grid: the children of a row or a column get their start
//! and their span, and are put in the order of their starts.

use crate::schema::ast::{lemma_children_view, nodes_view, AstNode, NodeView};
use crate::schema::value::{insert, int_value, lemma_put_lookup, members_view, put, Value};
use crate::transform::util::{get_prop_as_i64, is_placed, span_of, start_of};
use vstd::prelude::*;

verus! {

/// `n` with the integer `v` bound to `key` in its `props`.
pub open spec fn with_prop(n: NodeView, key: Seq<char>, v: int) -> NodeView {
    NodeView {
        props: Some(
            put(
                match n.props {
                    Some(members) => members,
                    None => Seq::empty(),
                },
                key,
                int_value(v),
            ),
        ),
        ..n
    }
}

/// By how much a child moves the waterline: by its declared span, or by one
/// unit where it declares none.
pub open spec fn advance(n: NodeView) -> int {
    match span_of(n) {
        Some(span) => span as int,
        None => 1,
    }
}

/// The waterline before child `k`: the next free grid unit, as the children
/// before it leave it. It starts at 1; a child that declares its start
/// resets it to that start; every child then moves it by `advance`.
pub open spec fn waterline(kids: Seq<NodeView>, k: int) -> int
    decreases k,
{
    if k <= 0 || k > kids.len() {
        1
    } else {
        (match start_of(kids[k - 1]) {
            Some(start) => start as int,
            None => waterline(kids, k - 1),
        }) + advance(kids[k - 1])
    }
}

/// The children, each with its start: the declared one, or the waterline
/// before it. Only an integer counts as declared: a `start` that is bound
/// to anything else is replaced by the waterline.
pub open spec fn starts_filled(kids: Seq<NodeView>) -> Seq<NodeView> {
    Seq::new(
        kids.len(),
        |k: int|
            if start_of(kids[k]) is Some {
                kids[k]
            } else {
                with_prop(kids[k], "start"@, waterline(kids, k))
            },
    )
}

/// The key by which children are ordered: the start, or 0 for a child
/// without one.
pub open spec fn sort_key(n: NodeView) -> int {
    match start_of(n) {
        Some(start) => start as int,
        None => 0,
    }
}

/// `sorted` with `x` put behind the last node whose key is not above the
/// key of `x`.
pub open spec fn inserted(sorted: Seq<NodeView>, x: NodeView) -> Seq<NodeView>
    decreases sorted.len(),
{
    if sorted.len() == 0 {
        seq![x]
    } else if sort_key(sorted.last()) <= sort_key(x) {
        sorted.push(x)
    } else {
        inserted(sorted.drop_last(), x).push(sorted.last())
    }
}

/// The nodes in ascending order of their keys; nodes with equal keys keep
/// the order in which they came.
pub open spec fn sorted_by_start(nodes: Seq<NodeView>) -> Seq<NodeView>
    decreases nodes.len(),
{
    if nodes.len() == 0 {
        nodes
    } else {
        inserted(sorted_by_start(nodes.drop_last()), nodes.last())
    }
}

/// The span of child `i` where it declares none: what lies between its
/// start and the start of the next child, or the unit behind the last one of
/// the container for the last child; one unit at least.
pub open spec fn auto_span(sorted: Seq<NodeView>, i: int, limit: int) -> int {
    let end = if i + 1 < sorted.len() {
        sort_key(sorted[i + 1])
    } else {
        limit + 1
    };
    if end - sort_key(sorted[i]) < 1 {
        1
    } else {
        end - sort_key(sorted[i])
    }
}

/// The children, each with its span: the declared one, which is never
/// overwritten, or `auto_span`. Only an integer counts as declared: a `span`
/// that is bound to a text or to another value that is no integer is
/// replaced by `auto_span`, so that every child has an integer span.
pub open spec fn spans_filled(sorted: Seq<NodeView>, limit: int) -> Seq<NodeView> {
    Seq::new(
        sorted.len(),
        |i: int|
            if span_of(sorted[i]) is Some {
                sorted[i]
            } else {
                with_prop(sorted[i], "span"@, auto_span(sorted, i, limit))
            },
    )
}

/// The children with their starts filled in along the waterline, in the
/// order of their starts.
pub open spec fn ordered(kids: Seq<NodeView>) -> Seq<NodeView> {
    sorted_by_start(starts_filled(kids))
}

/// The children of a container of `limit` units, placed: starts filled in
/// along the waterline, the children ordered by start, spans filled in from
/// each child's start to the next.
pub open spec fn placed(kids: Seq<NodeView>, limit: int) -> Seq<NodeView> {
    spans_filled(ordered(kids), limit)
}

/// Whether every waterline of `kids` is a 64-bit integer.
pub open spec fn starts_fit(kids: Seq<NodeView>) -> bool {
    forall|k: int| 0 < k <= kids.len() ==> i64::MIN <= #[trigger] waterline(kids, k) <= i64::MAX
}

/// Whether every span that `spans_filled` fills in is a 64-bit integer.
pub open spec fn spans_fit(sorted: Seq<NodeView>, limit: int) -> bool {
    forall|i: int|
        0 <= i < sorted.len() && span_of(sorted[i]) is None ==> #[trigger] auto_span(
            sorted,
            i,
            limit,
        ) <= i64::MAX
}

/// Whether placing `kids` in a container of `limit` units stays within
/// 64-bit integers.
pub open spec fn placement_fits(kids: Seq<NodeView>, limit: int) -> bool {
    starts_fit(kids) && spans_fit(ordered(kids), limit)
}

/// Binds the integer `v` to `key` in the node's `props`.
pub fn set_prop(node: &mut AstNode, key: &str, v: i64)
    ensures
        final(node)@ == with_prop(old(node)@, key@, v as int),
{
    if node.props.is_none() {
        let fresh: Vec<(String, Value)> = Vec::new();
        assert(members_view(fresh@) =~= Seq::empty());
        node.props = Some(fresh);
    }
    match &mut node.props {
        Some(members) => {
            insert(members, key, Value::from_i64(v));
        },
        None => {},
    }
    proof {
        lemma_children_view(*node);
        lemma_children_view(*old(node));
    }
}

/// The key by which `node` is ordered among its siblings.
fn key_of(node: &AstNode) -> (key: i64)
    ensures
        key == sort_key(node@),
{
    match get_prop_as_i64(node, "start") {
        Some(start) => start,
        None => 0,
    }
}

/// Binding the start leaves the span as it was, and binding the span leaves
/// the start.
pub proof fn lemma_with_prop_keeps(n: NodeView, v: int)
    ensures
        span_of(with_prop(n, "start"@, v)) == span_of(n),
        start_of(with_prop(n, "span"@, v)) == start_of(n),
{
    reveal_strlit("start");
    reveal_strlit("span");
    assert("start"@ != "span"@) by {
        assert("start"@.len() == 5);
        assert("span"@.len() == 4);
    }
    let members = match n.props {
        Some(members) => members,
        None => Seq::empty(),
    };
    lemma_put_lookup(members, "start"@, int_value(v), "span"@);
    lemma_put_lookup(members, "span"@, int_value(v), "start"@);
}

/// Gives every child its start: the declared one, or the waterline before
/// it. Only an integer counts as declared: a `start` that is no integer is
/// replaced like a missing one. Returns whether every waterline is a 64-bit
/// integer; where one is not, the children are left partly processed.
pub fn fill_starts(children: &mut Vec<AstNode>) -> (ok: bool)
    ensures
        ok == starts_fit(nodes_view(old(children)@)),
        ok ==> nodes_view(final(children)@) == starts_filled(nodes_view(old(children)@)),
        final(children)@.len() == old(children)@.len(),
{
    let ghost orig = nodes_view(children@);
    let mut w: i64 = 1;
    let mut k: usize = 0;
    while k < children.len()
        invariant
            k <= children.len(),
            children.len() == orig.len(),
            orig == nodes_view(old(children)@),
            w == waterline(orig, k as int),
            forall|j: int| 0 < j <= k ==> i64::MIN <= #[trigger] waterline(orig, j) <= i64::MAX,
            forall|j: int| 0 <= j < k ==> (#[trigger] children@[j])@ == starts_filled(orig)[j],
            forall|j: int| k <= j < orig.len() ==> (#[trigger] children@[j])@ == orig[j],
        decreases children.len() - k,
    {
        let declared = get_prop_as_i64(&children[k], "start");
        let span = get_prop_as_i64(&children[k], "span");
        let start = match declared {
            Some(start) => start,
            None => {
                set_prop(&mut children[k], "start", w);
                w
            },
        };
        let step: i64 = match span {
            Some(span) => span,
            None => 1,
        };
        let next: i128 = start as i128 + step as i128;
        assert(waterline(orig, k + 1) == next);
        if next < i64::MIN as i128 || next > i64::MAX as i128 {
            assert(!(i64::MIN <= waterline(orig, k + 1) <= i64::MAX));
            return false;
        }
        w = next as i64;
        k = k + 1;
    }
    assert(nodes_view(children@) =~= starts_filled(orig));
    true
}

/// Where `inserted` puts `x`: behind the last node whose key is not above
/// the key of `x`.
proof fn lemma_inserted_at(sorted: Seq<NodeView>, x: NodeView, p: int)
    requires
        0 <= p <= sorted.len(),
        forall|j: int| p <= j < sorted.len() ==> sort_key(#[trigger] sorted[j]) > sort_key(x),
        p == 0 || sort_key(sorted[p - 1]) <= sort_key(x),
    ensures
        inserted(sorted, x) == sorted.insert(p, x),
    decreases sorted.len(),
{
    if sorted.len() == 0 {
        assert(seq![x] =~= sorted.insert(p, x));
    } else if sort_key(sorted.last()) <= sort_key(x) {
        if p < sorted.len() {
            assert(sort_key(sorted[sorted.len() - 1]) > sort_key(x));
        }
        assert(sorted.push(x) =~= sorted.insert(p, x));
    } else {
        lemma_inserted_at(sorted.drop_last(), x, p);
        assert(sorted.drop_last().insert(p, x).push(sorted.last()) =~= sorted.insert(p, x));
    }
}

/// Orders the children by their start, ascending; children with equal
/// starts keep the order in which they came.
pub fn sort_children(children: &mut Vec<AstNode>)
    ensures
        nodes_view(final(children)@) == sorted_by_start(nodes_view(old(children)@)),
{
    let ghost orig = nodes_view(children@);
    let mut k: usize = 0;
    assert(nodes_view(children@) =~= sorted_by_start(orig.take(0)) + orig.skip(0));
    while k < children.len()
        invariant
            k <= children.len(),
            children.len() == orig.len(),
            nodes_view(children@) == sorted_by_start(orig.take(k as int)) + orig.skip(k as int),
            sorted_by_start(orig.take(k as int)).len() == k,
        decreases children.len() - k,
    {
        let ghost prefix = sorted_by_start(orig.take(k as int));
        let ghost before = children@;
        let x = children.remove(k);
        assert(x@ == orig[k as int]) by {
            assert(nodes_view(before)[k as int] == before[k as int]@);
        }
        let key = key_of(&x);
        let mut p: usize = k;
        while p > 0 && key_of(&children[p - 1]) > key
            invariant
                p <= k,
                k < orig.len(),
                children@ == before.remove(k as int),
                before.len() == orig.len(),
                nodes_view(before) == prefix + orig.skip(k as int),
                prefix.len() == k,
                key == sort_key(x@),
                forall|j: int| p <= j < k ==> sort_key(#[trigger] prefix[j]) > key,
            decreases p,
        {
            assert(children@[p - 1]@ == prefix[p - 1]) by {
                assert(nodes_view(before)[p - 1] == before[p - 1]@);
            }
            p = p - 1;
        }
        assert(p == 0 || sort_key(prefix[p - 1]) <= key) by {
            if p > 0 {
                assert(nodes_view(before)[p - 1] == before[p - 1]@);
            }
        }
        children.insert(p, x);
        proof {
            lemma_inserted_at(prefix, x@, p as int);
            assert(orig.take(k + 1).drop_last() =~= orig.take(k as int));
            assert(orig.take(k + 1).last() == orig[k as int]);
            assert(sorted_by_start(orig.take(k + 1)) == inserted(prefix, orig[k as int]));
            assert(nodes_view(children@) =~= prefix.insert(p as int, x@) + orig.skip(k + 1)) by {
                assert forall|j: int| 0 <= j < children@.len() implies nodes_view(children@)[j] == (
                prefix.insert(p as int, x@) + orig.skip(k + 1))[j] by {
                    if j < p {
                        assert(nodes_view(before)[j] == before[j]@);
                    } else if j == p {
                    } else if j <= k {
                        assert(nodes_view(before)[j - 1] == before[j - 1]@);
                    } else {
                        assert(nodes_view(before)[j] == before[j]@);
                    }
                }
            }
        }
        k = k + 1;
    }
    assert(orig.take(k as int) =~= orig);
    assert(nodes_view(children@) =~= sorted_by_start(orig));
}

/// Gives every child its span: the declared one, or what lies between its
/// start and the next child's, one unit at least. Only an integer counts as
/// declared: a `span` that is no integer is replaced like a missing one.
/// Returns whether every span filled in is a 64-bit integer; where one is
/// not, the children are left partly processed.
pub fn fill_spans(children: &mut Vec<AstNode>, limit: i64) -> (ok: bool)
    ensures
        ok == spans_fit(nodes_view(old(children)@), limit as int),
        ok ==> nodes_view(final(children)@) == spans_filled(
            nodes_view(old(children)@),
            limit as int,
        ),
        final(children)@.len() == old(children)@.len(),
{
    let ghost sorted = nodes_view(children@);
    let count = children.len();
    let mut i: usize = 0;
    while i < count
        invariant
            i <= count,
            count == children.len(),
            children.len() == sorted.len(),
            sorted == nodes_view(old(children)@),
            forall|j: int|
                0 <= j < i && span_of(sorted[j]) is None ==> #[trigger] auto_span(
                    sorted,
                    j,
                    limit as int,
                ) <= i64::MAX,
            forall|j: int|
                0 <= j < i ==> (#[trigger] children@[j])@ == spans_filled(sorted, limit as int)[j],
            forall|j: int| i <= j < sorted.len() ==> (#[trigger] children@[j])@ == sorted[j],
        decreases count - i,
    {
        if get_prop_as_i64(&children[i], "span").is_none() {
            let start = key_of(&children[i]);
            let end: i128 = if i + 1 < count {
                key_of(&children[i + 1]) as i128
            } else {
                limit as i128 + 1
            };
            let gap: i128 = end - start as i128;
            let span: i128 = if gap < 1 {
                1
            } else {
                gap
            };
            assert(span == auto_span(sorted, i as int, limit as int));
            if span > i64::MAX as i128 {
                assert(!(auto_span(sorted, i as int, limit as int) <= i64::MAX));
                return false;
            }
            set_prop(&mut children[i], "span", span as i64);
        }
        i = i + 1;
    }
    assert(nodes_view(children@) =~= spans_filled(sorted, limit as int));
    true
}

/// Places the children of a container of `limit` units: see `placed`.
/// Returns whether placing stays within 64-bit integers; where it does not,
/// the children are left partly processed.
pub fn place_children(children: &mut Vec<AstNode>, limit: i64) -> (ok: bool)
    ensures
        ok == placement_fits(nodes_view(old(children)@), limit as int),
        ok ==> nodes_view(final(children)@) == placed(nodes_view(old(children)@), limit as int),
        ok ==> covered(nodes_view(old(children)@), limit as int),
        final(children)@.len() == old(children)@.len(),
{
    proof {
        if placement_fits(nodes_view(children@), limit as int) {
            lemma_covered(nodes_view(children@), limit as int);
        }
    }
    if !fill_starts(children) {
        return false;
    }
    sort_children(children);
    proof {
        lemma_sorted_members(starts_filled(nodes_view(old(children)@)));
    }
    fill_spans(children, limit)
}

/// Whether the placed children of a container of `limit` units cover its
/// grid as placing means them to: each has its start and its span; they
/// stand in ascending order of their starts; a child whose span was filled
/// in spans what lies between its start and the start of the next child,
/// the last child what lies between its start and the unit behind the last
/// one of the container, one unit at least.
pub open spec fn covered(kids: Seq<NodeView>, limit: int) -> bool {
    let out = placed(kids, limit);
    &&& out.len() == kids.len()
    &&& forall|i: int| 0 <= i < out.len() ==> is_placed(#[trigger] out[i])
    &&& forall|i: int, j: int|
        0 <= i <= j < out.len() ==> start_of(#[trigger] out[i])->0 <= start_of(
            #[trigger] out[j],
        )->0
    &&& forall|i: int|
        0 <= i < out.len() && span_of(#[trigger] ordered(kids)[i]) is None ==> span_of(out[i])->0
            == at_least_one(
            (if i + 1 < out.len() {
                start_of(out[i + 1])->0 as int
            } else {
                limit + 1
            }) - start_of(out[i])->0,
        )
}

/// `gap`, or 1 where `gap` is less.
pub open spec fn at_least_one(gap: int) -> int {
    if gap < 1 {
        1
    } else {
        gap
    }
}

/// Children that can be placed within 64-bit integers cover the grid of
/// their container: see `covered`.
pub proof fn lemma_covered(kids: Seq<NodeView>, limit: int)
    requires
        placement_fits(kids, limit),
    ensures
        covered(kids, limit),
{
    lemma_placed(kids, limit);
    lemma_sorted_ascends(starts_filled(kids));
    let b = ordered(kids);
    let out = placed(kids, limit);
    assert forall|i: int, j: int| 0 <= i <= j < out.len() implies start_of(#[trigger] out[i])->0
        <= start_of(#[trigger] out[j])->0 by {
        assert(sort_key(b[i]) <= sort_key(b[j]));
    }
    assert forall|i: int| 0 <= i < out.len() && span_of(#[trigger] b[i]) is None implies span_of(
        out[i],
    )->0 == at_least_one(
        (if i + 1 < out.len() {
            start_of(out[i + 1])->0 as int
        } else {
            limit + 1
        }) - start_of(out[i])->0,
    ) by {
        assert(span_of(out[i])->0 == auto_span(b, i, limit));
        if i + 1 < out.len() {
            assert(start_of(out[i + 1]) == start_of(b[i + 1]));
        }
    }
}

/// Whether `a` is `b` but for its `props`.
pub open spec fn same_but_props(a: NodeView, b: NodeView) -> bool {
    a == (NodeView { props: a.props, ..b })
}

/// A 64-bit integer bound to the start, or to the span, is what the node
/// then has as its start, or as its span.
pub proof fn lemma_with_prop_sets(n: NodeView, v: int)
    requires
        i64::MIN <= v <= i64::MAX,
    ensures
        start_of(with_prop(n, "start"@, v)) == Some(v as i64),
        span_of(with_prop(n, "span"@, v)) == Some(v as i64),
{
    let members = match n.props {
        Some(members) => members,
        None => Seq::empty(),
    };
    lemma_put_lookup(members, "start"@, int_value(v), "start"@);
    lemma_put_lookup(members, "span"@, int_value(v), "span"@);
}

/// Every node of `inserted(sorted, x)` is `x` or a node of `sorted`, and
/// there is one node more.
pub proof fn lemma_inserted_members(sorted: Seq<NodeView>, x: NodeView)
    ensures
        inserted(sorted, x).len() == sorted.len() + 1,
        forall|i: int|
            0 <= i < sorted.len() + 1 ==> (#[trigger] inserted(sorted, x)[i]) == x || exists|j: int|
                0 <= j < sorted.len() && inserted(sorted, x)[i] == sorted[j],
    decreases sorted.len(),
{
    if sorted.len() == 0 {
    } else if sort_key(sorted.last()) <= sort_key(x) {
        assert forall|i: int| 0 <= i < sorted.len() + 1 implies (#[trigger] inserted(sorted, x)[i])
            == x || exists|j: int|
            0 <= j < sorted.len() && inserted(sorted, x)[i] == sorted[j] by {
            if i < sorted.len() {
                assert(inserted(sorted, x)[i] == sorted[i]);
            }
        }
    } else {
        lemma_inserted_members(sorted.drop_last(), x);
        let shorter = inserted(sorted.drop_last(), x);
        assert forall|i: int| 0 <= i < sorted.len() + 1 implies (#[trigger] inserted(sorted, x)[i])
            == x || exists|j: int|
            0 <= j < sorted.len() && inserted(sorted, x)[i] == sorted[j] by {
            if i < sorted.len() {
                assert(inserted(sorted, x)[i] == shorter[i]);
                if shorter[i] != x {
                    let j = choose|j: int|
                        0 <= j < sorted.drop_last().len() && shorter[i] == sorted.drop_last()[j];
                    assert(inserted(sorted, x)[i] == sorted[j]);
                }
            } else {
                assert(inserted(sorted, x)[i] == sorted[sorted.len() - 1]);
            }
        }
    }
}

/// Ordering the nodes keeps each of them: every node of the result is one
/// of those that came, and there are as many.
pub proof fn lemma_sorted_members(nodes: Seq<NodeView>)
    ensures
        sorted_by_start(nodes).len() == nodes.len(),
        forall|i: int|
            0 <= i < nodes.len() ==> exists|j: int|
                0 <= j < nodes.len() && (#[trigger] sorted_by_start(nodes)[i]) == nodes[j],
    decreases nodes.len(),
{
    if nodes.len() > 0 {
        let shorter = sorted_by_start(nodes.drop_last());
        lemma_sorted_members(nodes.drop_last());
        lemma_inserted_members(shorter, nodes.last());
        assert forall|i: int| 0 <= i < nodes.len() implies exists|j: int|
            0 <= j < nodes.len() && (#[trigger] sorted_by_start(nodes)[i]) == nodes[j] by {
            let y = sorted_by_start(nodes)[i];
            if y == nodes.last() {
                assert(y == nodes[nodes.len() - 1]);
            } else {
                let k = choose|k: int| 0 <= k < shorter.len() && y == shorter[k];
                let j = choose|j: int|
                    0 <= j < nodes.drop_last().len() && shorter[k] == nodes.drop_last()[j];
                assert(y == nodes[j]);
            }
        }
    }
}

/// Placing keeps the children but for their `props` and their order.
pub proof fn lemma_placed_members(kids: Seq<NodeView>, limit: int)
    ensures
        placed(kids, limit).len() == kids.len(),
        forall|i: int|
            0 <= i < kids.len() ==> exists|j: int|
                0 <= j < kids.len() && same_but_props(#[trigger] placed(kids, limit)[i], kids[j]),
{
    let a = starts_filled(kids);
    let b = ordered(kids);
    lemma_sorted_members(a);
    assert forall|i: int| 0 <= i < kids.len() implies exists|j: int|
        0 <= j < kids.len() && same_but_props(#[trigger] placed(kids, limit)[i], kids[j]) by {
        let j = choose|j: int| 0 <= j < a.len() && b[i] == a[j];
        assert(same_but_props(a[j], kids[j]));
        assert(same_but_props(placed(kids, limit)[i], kids[j]));
    }
}

/// Placing leaves each child with its start and its span: the start that
/// it has in `ordered`, and the span that it has there or, where it has
/// none there, `auto_span`.
pub proof fn lemma_placed(kids: Seq<NodeView>, limit: int)
    requires
        placement_fits(kids, limit),
    ensures
        placed(kids, limit).len() == kids.len(),
        ordered(kids).len() == kids.len(),
        forall|i: int| 0 <= i < kids.len() ==> is_placed(#[trigger] placed(kids, limit)[i]),
        forall|i: int|
            0 <= i < kids.len() ==> start_of(#[trigger] placed(kids, limit)[i]) == start_of(
                ordered(kids)[i],
            ) && sort_key(ordered(kids)[i]) == start_of(ordered(kids)[i])->0,
        forall|i: int|
            0 <= i < kids.len() ==> span_of(#[trigger] placed(kids, limit)[i])->0 == (match span_of(
                ordered(kids)[i],
            ) {
                Some(span) => span as int,
                None => auto_span(ordered(kids), i, limit),
            }),
{
    let a = starts_filled(kids);
    let b = ordered(kids);
    lemma_sorted_members(a);
    assert forall|i: int| 0 <= i < kids.len() implies is_placed(#[trigger] placed(kids, limit)[i])
        && start_of(placed(kids, limit)[i]) == start_of(b[i]) && sort_key(b[i]) == start_of(
        b[i],
    )->0 && span_of(placed(kids, limit)[i])->0 == (match span_of(b[i]) {
        Some(span) => span as int,
        None => auto_span(b, i, limit),
    }) by {
        let j = choose|j: int| 0 <= j < a.len() && b[i] == a[j];
        assert(start_of(a[j]) is Some) by {
            if start_of(kids[j]) is None {
                if j > 0 {
                    assert(i64::MIN <= waterline(kids, j) <= i64::MAX);
                }
                lemma_with_prop_sets(kids[j], waterline(kids, j));
            }
        }
        if span_of(b[i]) is None {
            assert(auto_span(b, i, limit) <= i64::MAX);
            lemma_with_prop_sets(b[i], auto_span(b, i, limit));
            lemma_with_prop_keeps(b[i], auto_span(b, i, limit));
        }
    }
}

/// After `inserted`, the nodes are in ascending order of their keys if they
/// were before.
pub proof fn lemma_inserted_ascends(sorted: Seq<NodeView>, x: NodeView)
    requires
        ascends(sorted),
    ensures
        ascends(inserted(sorted, x)),
    decreases sorted.len(),
{
    lemma_inserted_members(sorted, x);
    if sorted.len() == 0 {
    } else if sort_key(sorted.last()) <= sort_key(x) {
    } else {
        let shorter = sorted.drop_last();
        assert(ascends(shorter));
        lemma_inserted_ascends(shorter, x);
        lemma_inserted_members(shorter, x);
        let head = inserted(shorter, x);
        let out = inserted(sorted, x);
        assert forall|i: int, j: int| 0 <= i <= j < out.len() implies sort_key(out[i]) <= sort_key(
            out[j],
        ) by {
            if j < head.len() {
                assert(out[i] == head[i] && out[j] == head[j]);
            } else {
                assert(out[j] == sorted.last());
                if i < head.len() {
                    assert(out[i] == head[i]);
                    if head[i] != x {
                        let k = choose|k: int| 0 <= k < shorter.len() && head[i] == shorter[k];
                        assert(sort_key(sorted[k]) <= sort_key(sorted[sorted.len() - 1]));
                    }
                }
            }
        }
    }
}

/// Whether the nodes are in ascending order of their keys.
pub open spec fn ascends(nodes: Seq<NodeView>) -> bool {
    forall|i: int, j: int| 0 <= i <= j < nodes.len() ==> sort_key(nodes[i]) <= sort_key(nodes[j])
}

/// `sorted_by_start` puts the nodes in ascending order of their keys.
pub proof fn lemma_sorted_ascends(nodes: Seq<NodeView>)
    ensures
        ascends(sorted_by_start(nodes)),
    decreases nodes.len(),
{
    if nodes.len() > 0 {
        lemma_sorted_ascends(nodes.drop_last());
        lemma_inserted_ascends(sorted_by_start(nodes.drop_last()), nodes.last());
    }
}

/// Nodes that come in ascending order of their keys stay in their order.
pub proof fn lemma_sorted_stays(nodes: Seq<NodeView>)
    requires
        ascends(nodes),
    ensures
        sorted_by_start(nodes) == nodes,
    decreases nodes.len(),
{
    if nodes.len() > 0 {
        let shorter = nodes.drop_last();
        assert(ascends(shorter));
        lemma_sorted_stays(shorter);
        if shorter.len() > 0 {
            assert(sort_key(nodes[nodes.len() - 2]) <= sort_key(nodes[nodes.len() - 1]));
            assert(shorter.last() == nodes[nodes.len() - 2]);
        }
        assert(inserted(shorter, nodes.last()) =~= nodes);
    }
}

/// The placed children of a container are in ascending order of their
/// starts. A child whose span was filled in, and that starts before the
/// next child, ends where the next child starts; the last child, where its
/// span was filled in and it starts within the container, ends on the last
/// unit of the container.
pub proof fn lemma_span_coverage(kids: Seq<NodeView>, limit: int)
    requires
        placement_fits(kids, limit),
    ensures
        forall|i: int|
            0 <= i < kids.len() ==> is_placed(#[trigger] placed(kids, limit)[i]),
        forall|i: int, j: int|
            0 <= i <= j < kids.len() ==> start_of(placed(kids, limit)[i])->0 <= start_of(
                placed(kids, limit)[j],
            )->0,
        forall|i: int|
            0 <= i < kids.len() - 1 && span_of(#[trigger] ordered(kids)[i]) is None && start_of(
                placed(kids, limit)[i],
            )->0 < start_of(placed(kids, limit)[i + 1])->0 ==> start_of(placed(kids, limit)[i])->0
                + span_of(placed(kids, limit)[i])->0 == start_of(placed(kids, limit)[i + 1])->0,
        kids.len() > 0 && span_of(ordered(kids)[kids.len() - 1]) is None && start_of(
            placed(kids, limit)[kids.len() - 1],
        )->0 <= limit ==> start_of(placed(kids, limit)[kids.len() - 1])->0 + span_of(
            placed(kids, limit)[kids.len() - 1],
        )->0 == limit + 1,
{
    lemma_placed(kids, limit);
    lemma_sorted_ascends(starts_filled(kids));
    let b = ordered(kids);
    let out = placed(kids, limit);
    assert forall|i: int, j: int| 0 <= i <= j < kids.len() implies start_of(out[i])->0 <= start_of(
        out[j],
    )->0 by {
        assert(sort_key(b[i]) <= sort_key(b[j]));
    }
}

/// Whether the author kept to the waterline: no child declares a start
/// before the waterline that the children before it leave, and no child
/// moves the waterline back.
pub open spec fn keeps_waterline(kids: Seq<NodeView>) -> bool {
    forall|k: int|
        0 <= k < kids.len() ==> advance(#[trigger] kids[k]) >= 0 && match start_of(kids[k]) {
            Some(start) => start >= waterline(kids, k),
            None => true,
        }
}

/// Where the author kept to the waterline, the placed children are in the
/// order in which they came, and none reaches into the next: each ends
/// where the next one starts or before, and exactly there where its span
/// was filled in.
pub proof fn lemma_no_overlap(kids: Seq<NodeView>, limit: int)
    requires
        placement_fits(kids, limit),
        keeps_waterline(kids),
    ensures
        ordered(kids) == starts_filled(kids),
        forall|i: int|
            0 <= i < kids.len() - 1 ==> start_of(#[trigger] placed(kids, limit)[i])->0 + span_of(
                placed(kids, limit)[i],
            )->0 <= start_of(placed(kids, limit)[i + 1])->0,
        forall|i: int|
            0 <= i < kids.len() - 1 && span_of(#[trigger] kids[i]) is None ==> start_of(
                placed(kids, limit)[i],
            )->0 + span_of(placed(kids, limit)[i])->0 == start_of(placed(kids, limit)[i + 1])->0,
{
    let a = starts_filled(kids);
    assert forall|k: int| 0 <= k < kids.len() implies sort_key(#[trigger] a[k]) == (match start_of(
        kids[k],
    ) {
        Some(start) => start as int,
        None => waterline(kids, k),
    }) && span_of(a[k]) == span_of(kids[k]) by {
        if start_of(kids[k]) is None {
            if k > 0 {
                assert(i64::MIN <= waterline(kids, k) <= i64::MAX);
            }
            lemma_with_prop_sets(kids[k], waterline(kids, k));
            lemma_with_prop_keeps(kids[k], waterline(kids, k));
        }
    }
    assert forall|k: int| 0 <= k < kids.len() - 1 implies sort_key(#[trigger] a[k]) + advance(
        kids[k],
    ) <= sort_key(a[k + 1]) by {
        assert(waterline(kids, k + 1) == sort_key(a[k]) + advance(kids[k]));
        assert(advance(kids[k + 1]) >= 0);
    }
    lemma_ascends_by_steps(a, a.len() as int);
    lemma_sorted_stays(a);
    lemma_placed(kids, limit);
    let out = placed(kids, limit);
    assert forall|i: int| 0 <= i < kids.len() - 1 implies start_of(#[trigger] out[i])->0 + span_of(
        out[i],
    )->0 <= start_of(out[i + 1])->0 && (span_of(kids[i]) is None ==> start_of(out[i])->0
        + span_of(out[i])->0 == start_of(out[i + 1])->0) by {
        assert(sort_key(a[i]) + advance(kids[i]) <= sort_key(a[i + 1]));
        assert(advance(kids[i]) >= 0);
    }
}

/// Nodes each of which has a key not above the key of the next are in
/// ascending order of their keys.
pub proof fn lemma_ascends_by_steps(nodes: Seq<NodeView>, upto: int)
    requires
        0 <= upto <= nodes.len(),
        forall|k: int| 0 <= k < nodes.len() - 1 ==> sort_key(#[trigger] nodes[k]) <= sort_key(nodes[k + 1]),
    ensures
        forall|i: int, j: int| 0 <= i <= j < upto ==> sort_key(nodes[i]) <= sort_key(nodes[j]),
    decreases upto,
{
    if upto > 1 {
        lemma_ascends_by_steps(nodes, upto - 1);
        assert forall|i: int, j: int| 0 <= i <= j < upto implies sort_key(nodes[i]) <= sort_key(
            nodes[j],
        ) by {
            if j == upto - 1 && i < j {
                assert(sort_key(nodes[i]) <= sort_key(nodes[j - 1]));
                assert(sort_key(nodes[j - 1]) <= sort_key(nodes[j]));
            }
        }
    }
}

/// Whether `q` holds of a node with an integer bound in its `props`
/// wherever it holds of the node.
pub open spec fn kept_by_props(q: spec_fn(NodeView) -> bool) -> bool {
    forall|b: NodeView, key: Seq<char>, v: int| q(b) ==> #[trigger] q(with_prop(b, key, v))
}

/// What holds of every child, and still holds of a child when an integer
/// is bound in its `props`, holds of every placed child.
pub proof fn lemma_placed_keeps(kids: Seq<NodeView>, limit: int, q: spec_fn(NodeView) -> bool)
    requires
        kept_by_props(q),
        forall|i: int| 0 <= i < kids.len() ==> q(#[trigger] kids[i]),
    ensures
        placed(kids, limit).len() == kids.len(),
        forall|i: int| 0 <= i < kids.len() ==> q(#[trigger] placed(kids, limit)[i]),
{
    let a = starts_filled(kids);
    let b = ordered(kids);
    lemma_sorted_members(a);
    assert forall|i: int| 0 <= i < kids.len() implies q(#[trigger] a[i]) by {
        assert(q(kids[i]));
        if start_of(kids[i]) is None {
            assert(q(with_prop(kids[i], "start"@, waterline(kids, i))));
        }
    }
    assert forall|i: int| 0 <= i < kids.len() implies q(#[trigger] placed(kids, limit)[i]) by {
        let j = choose|j: int| 0 <= j < a.len() && b[i] == a[j];
        assert(q(a[j]));
        if span_of(b[i]) is None {
            assert(q(with_prop(b[i], "span"@, auto_span(b, i, limit))));
        }
    }
}

/// Putting a node among others adds it to them, once: none is dropped and
/// none is doubled.
pub proof fn lemma_inserted_permutes(sorted: Seq<NodeView>, x: NodeView)
    ensures
        inserted(sorted, x).to_multiset() == sorted.to_multiset().insert(x),
    decreases sorted.len(),
{
    if sorted.len() == 0 {
        assert(inserted(sorted, x) =~= sorted.push(x));
        vstd::seq_lib::to_multiset_build(sorted, x);
    } else if sort_key(sorted.last()) <= sort_key(x) {
        vstd::seq_lib::to_multiset_build(sorted, x);
    } else {
        let shorter = sorted.drop_last();
        lemma_inserted_permutes(shorter, x);
        vstd::seq_lib::to_multiset_build(inserted(shorter, x), sorted.last());
        assert(shorter.push(sorted.last()) =~= sorted);
        vstd::seq_lib::to_multiset_build(shorter, sorted.last());
        assert(shorter.to_multiset().insert(x).insert(sorted.last()) =~= shorter.to_multiset().insert(
            sorted.last(),
        ).insert(x));
    }
}

/// Ordering nodes keeps each of them, as often as it came: the result is
/// the nodes that came, in another order.
pub proof fn lemma_sorted_permutes(nodes: Seq<NodeView>)
    ensures
        sorted_by_start(nodes).to_multiset() == nodes.to_multiset(),
    decreases nodes.len(),
{
    if nodes.len() > 0 {
        let shorter = nodes.drop_last();
        lemma_sorted_permutes(shorter);
        lemma_inserted_permutes(sorted_by_start(shorter), nodes.last());
        assert(shorter.push(nodes.last()) =~= nodes);
        vstd::seq_lib::to_multiset_build(shorter, nodes.last());
    }
}

/// Those of the nodes whose key is `key`, in their order.
pub open spec fn with_key(nodes: Seq<NodeView>, key: int) -> Seq<NodeView>
    decreases nodes.len(),
{
    if nodes.len() == 0 {
        nodes
    } else if sort_key(nodes.last()) == key {
        with_key(nodes.drop_last(), key).push(nodes.last())
    } else {
        with_key(nodes.drop_last(), key)
    }
}

/// A node that is put among others comes behind all of them that have its
/// key, and the others keep their order.
pub proof fn lemma_inserted_stable(sorted: Seq<NodeView>, x: NodeView, key: int)
    ensures
        with_key(inserted(sorted, x), key) == if sort_key(x) == key {
            with_key(sorted, key).push(x)
        } else {
            with_key(sorted, key)
        },
    decreases sorted.len(),
{
    if sorted.len() == 0 {
        assert(inserted(sorted, x).drop_last() =~= sorted);
    } else if sort_key(sorted.last()) <= sort_key(x) {
        assert(sorted.push(x).drop_last() =~= sorted);
    } else {
        let shorter = sorted.drop_last();
        lemma_inserted_stable(shorter, x, key);
        let out = inserted(sorted, x);
        assert(out.drop_last() =~= inserted(shorter, x));
        assert(out.last() == sorted.last());
    }
}

/// Ordering is stable: nodes of one key stand in the result in the order
/// in which they came.
pub proof fn lemma_sorted_stable(nodes: Seq<NodeView>, key: int)
    ensures
        with_key(sorted_by_start(nodes), key) == with_key(nodes, key),
    decreases nodes.len(),
{
    if nodes.len() > 0 {
        lemma_sorted_stable(nodes.drop_last(), key);
        lemma_inserted_stable(sorted_by_start(nodes.drop_last()), nodes.last(), key);
    }
}

/// Children that all declare their start and a span that is not negative,
/// each starting where the one before it ends or behind, stay as they are
/// when they are placed: in their order, with their starts and spans.
pub proof fn lemma_declared_stay(kids: Seq<NodeView>, limit: int)
    requires
        forall|i: int| 0 <= i < kids.len() ==> is_placed(#[trigger] kids[i]),
        forall|i: int| 0 <= i < kids.len() ==> span_of(#[trigger] kids[i])->0 >= 0,
        forall|i: int|
            0 <= i < kids.len() - 1 ==> start_of(#[trigger] kids[i])->0 + span_of(kids[i])->0
                <= start_of(kids[i + 1])->0,
    ensures
        placed(kids, limit) == kids,
{
    assert(starts_filled(kids) =~= kids);
    assert forall|k: int| 0 <= k < kids.len() - 1 implies sort_key(#[trigger] kids[k]) <= sort_key(
        kids[k + 1],
    ) by {
        assert(start_of(kids[k])->0 + span_of(kids[k])->0 <= start_of(kids[k + 1])->0);
    }
    lemma_ascends_by_steps(kids, kids.len() as int);
    lemma_sorted_stays(kids);
    assert(spans_filled(kids, limit) =~= kids);
}

} // verus!
