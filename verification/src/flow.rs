//! Flows on a directed graph with capacities, as mathematics.
//!
//! A graph is a sequence of edges `(from, to, capacity)` over nodes numbered
//! from zero; a flow gives each edge a number.

use vstd::prelude::*;

verus! {

/// The sum of `flows[i]` over the positions `i` before `k` at which `ends[i]` is `node`.
pub open spec fn sum_at(ends: Seq<usize>, flows: Seq<usize>, node: int, k: int) -> int
    decreases k,
{
    if k <= 0 {
        0
    } else {
        sum_at(ends, flows, node, k - 1) + if ends[k - 1] == node {
            flows[k - 1] as int
        } else {
            0
        }
    }
}

/// The number of positions `i` before `k` at which `ends[i]` is `node`.
pub open spec fn count_at(ends: Seq<usize>, node: int, k: int) -> int
    decreases k,
{
    if k <= 0 {
        0
    } else {
        count_at(ends, node, k - 1) + if ends[k - 1] == node {
            1int
        } else {
            0
        }
    }
}

/// Where each edge leaves.
pub open spec fn tails(edges: Seq<(usize, usize, usize)>) -> Seq<usize> {
    Seq::new(edges.len(), |i: int| edges[i].0)
}

/// Where each edge enters.
pub open spec fn heads(edges: Seq<(usize, usize, usize)>) -> Seq<usize> {
    Seq::new(edges.len(), |i: int| edges[i].1)
}

/// What `flows` carries out of `node`.
pub open spec fn outflow(edges: Seq<(usize, usize, usize)>, flows: Seq<usize>, node: int) -> int {
    sum_at(tails(edges), flows, node, edges.len() as int)
}

/// What `flows` carries into `node`.
pub open spec fn inflow(edges: Seq<(usize, usize, usize)>, flows: Seq<usize>, node: int) -> int {
    sum_at(heads(edges), flows, node, edges.len() as int)
}

/// `flows` respects every capacity and, at every node but the two terminals,
/// carries in as much as it carries out.
pub open spec fn is_flow(
    edges: Seq<(usize, usize, usize)>,
    node_count: nat,
    source: int,
    sink: int,
    flows: Seq<usize>,
) -> bool {
    &&& flows.len() == edges.len()
    &&& forall|i: int| 0 <= i < edges.len() ==> #[trigger] flows[i] <= edges[i].2
    &&& forall|v: int|
        0 <= v < node_count && v != source && v != sink ==> #[trigger] inflow(edges, flows, v)
            == outflow(edges, flows, v)
}

/// What `flows` moves from the source to the sink: the net amount leaving the source.
pub open spec fn flow_value(edges: Seq<(usize, usize, usize)>, flows: Seq<usize>, source: int) -> int {
    outflow(edges, flows, source) - inflow(edges, flows, source)
}

/// `flows` is a flow of value `value`, and no flow on the same graph has a larger value.
pub open spec fn is_maximum_flow(
    edges: Seq<(usize, usize, usize)>,
    node_count: nat,
    source: int,
    sink: int,
    value: int,
    flows: Seq<usize>,
) -> bool {
    &&& is_flow(edges, node_count, source, sink, flows)
    &&& value == flow_value(edges, flows, source)
    &&& forall|other: Seq<usize>| #[trigger]
        is_flow(edges, node_count, source, sink, other) ==> flow_value(edges, other, source)
            <= value
}

/// A sum of flows is not negative and does not shrink as more positions are taken in.
pub proof fn lemma_sum_at_grows(ends: Seq<usize>, flows: Seq<usize>, node: int, j: int, k: int)
    requires
        j <= k,
    ensures
        0 <= sum_at(ends, flows, node, j) <= sum_at(ends, flows, node, k),
    decreases k,
{
    if k > 0 {
        if j < k {
            lemma_sum_at_grows(ends, flows, node, j, k - 1);
        } else {
            lemma_sum_at_grows(ends, flows, node, j - 1, k - 1);
        }
    }
}

/// The sum at a node is at least what any one position at that node carries.
pub proof fn lemma_sum_at_includes(ends: Seq<usize>, flows: Seq<usize>, node: int, k: int, i: int)
    requires
        0 <= i < k,
        ends[i] == node,
    ensures
        sum_at(ends, flows, node, k) >= flows[i],
{
    lemma_sum_at_grows(ends, flows, node, i, i);
    lemma_sum_at_grows(ends, flows, node, i + 1, k);
}

/// The sum at a node is at least what any two positions at that node carry together.
pub proof fn lemma_sum_at_includes_two(
    ends: Seq<usize>,
    flows: Seq<usize>,
    node: int,
    k: int,
    i: int,
    j: int,
)
    requires
        0 <= i < j < k,
        ends[i] == node,
        ends[j] == node,
    ensures
        sum_at(ends, flows, node, k) >= flows[i] + flows[j],
{
    lemma_sum_at_includes(ends, flows, node, j, i);
    lemma_sum_at_grows(ends, flows, node, j + 1, k);
}

/// The sum at a node is zero when no position at that node carries anything.
pub proof fn lemma_sum_at_nothing(ends: Seq<usize>, flows: Seq<usize>, node: int, k: int)
    requires
        forall|i: int| 0 <= i < k && #[trigger] ends[i] == node ==> flows[i] == 0,
    ensures
        sum_at(ends, flows, node, k) == 0,
    decreases k,
{
    if k > 0 {
        lemma_sum_at_nothing(ends, flows, node, k - 1);
    }
}

/// The sum at a node is what position `i` carries when no other position at
/// that node carries anything.
pub proof fn lemma_sum_at_single(ends: Seq<usize>, flows: Seq<usize>, node: int, k: int, i: int)
    requires
        0 <= i < k,
        ends[i] == node,
        forall|j: int| 0 <= j < k && j != i && #[trigger] ends[j] == node ==> flows[j] == 0,
    ensures
        sum_at(ends, flows, node, k) == flows[i],
    decreases k,
{
    if i == k - 1 {
        lemma_sum_at_nothing(ends, flows, node, k - 1);
    } else {
        lemma_sum_at_single(ends, flows, node, k - 1, i);
    }
}

/// Where no position at a node carries more than one, the sum is at most the
/// number of positions at that node.
pub proof fn lemma_sum_at_capped(ends: Seq<usize>, flows: Seq<usize>, node: int, k: int)
    requires
        forall|i: int| 0 <= i < k && #[trigger] ends[i] == node ==> flows[i] <= 1,
    ensures
        sum_at(ends, flows, node, k) <= count_at(ends, node, k),
    decreases k,
{
    if k > 0 {
        lemma_sum_at_capped(ends, flows, node, k - 1);
    }
}

/// Where no position at a node carries more than one and position `i`
/// carries nothing, the sum stays below the number of positions at that node.
pub proof fn lemma_sum_at_short(ends: Seq<usize>, flows: Seq<usize>, node: int, k: int, i: int)
    requires
        forall|j: int| 0 <= j < k && #[trigger] ends[j] == node ==> flows[j] <= 1,
        0 <= i < k,
        ends[i] == node,
        flows[i] == 0,
    ensures
        sum_at(ends, flows, node, k) < count_at(ends, node, k),
    decreases k,
{
    if i == k - 1 {
        lemma_sum_at_capped(ends, flows, node, k - 1);
    } else {
        lemma_sum_at_short(ends, flows, node, k - 1, i);
    }
}

/// Where every position at a node carries exactly one, the sum is the number
/// of positions at that node.
pub proof fn lemma_sum_at_full(ends: Seq<usize>, flows: Seq<usize>, node: int, k: int)
    requires
        forall|i: int| 0 <= i < k && #[trigger] ends[i] == node ==> flows[i] == 1,
    ensures
        sum_at(ends, flows, node, k) == count_at(ends, node, k),
    decreases k,
{
    if k > 0 {
        lemma_sum_at_full(ends, flows, node, k - 1);
    }
}

} // verus!
