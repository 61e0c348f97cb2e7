//! What is read off a flow, said by membership: which assignments and which
//! blocked nodes come out, whatever the order of the edges.

use crate::flow_network::{blocked, carried, edge_assignment, put, unfed, NodeLabel};
use crate::permutation::Assignment;
use vstd::prelude::*;

verus! {

/// Some edge before `k` with flow on it stands for the assignment `a`.
pub open spec fn carries(
    nodes: Seq<NodeLabel>,
    edges: Seq<(usize, usize, usize)>,
    flows: Seq<usize>,
    k: int,
    a: Assignment,
) -> bool {
    exists|i: int|
        0 <= i < k && flows[i] != 0 && #[trigger] edge_assignment(nodes, edges[i]) == Some(a)
}

/// What is read off a flow holds no assignment twice, and holds exactly the
/// assignments that some edge with flow on it stands for.
pub proof fn lemma_carried(
    nodes: Seq<NodeLabel>,
    edges: Seq<(usize, usize, usize)>,
    flows: Seq<usize>,
    k: int,
)
    ensures
        carried(nodes, edges, flows, k).no_duplicates(),
        forall|a: Assignment| #[trigger]
            carried(nodes, edges, flows, k).contains(a) <==> carries(nodes, edges, flows, k, a),
    decreases k,
{
    if k > 0 {
        lemma_carried(nodes, edges, flows, k - 1);
        let before = carried(nodes, edges, flows, k - 1);
        let now = carried(nodes, edges, flows, k);
        let last = edge_assignment(nodes, edges[k - 1]);
        let added = last is Some && flows[k - 1] != 0;
        assert(now == if added {
            put(before, last->0)
        } else {
            before
        });
        assert forall|a: Assignment| now.contains(a) implies carries(
            nodes,
            edges,
            flows,
            k,
            a,
        ) by {
            if before.contains(a) {
                assert(carries(nodes, edges, flows, k - 1, a));
                let i = choose|i: int|
                    0 <= i < k - 1 && flows[i] != 0 && #[trigger] edge_assignment(nodes, edges[i])
                        == Some(a);
                assert(0 <= i < k && flows[i] != 0 && edge_assignment(nodes, edges[i]) == Some(a));
            } else {
                let x = choose|x: int| 0 <= x < now.len() && now[x] == a;
                assert(added);
                assert(now == before.push(last->0));
                if x < before.len() {
                    assert(before[x] == a);
                }
                assert(a == last->0);
                assert(edge_assignment(nodes, edges[k - 1]) == Some(a));
            }
        }
        assert forall|a: Assignment| carries(nodes, edges, flows, k, a) implies now.contains(
            a,
        ) by {
            let i = choose|i: int|
                0 <= i < k && flows[i] != 0 && #[trigger] edge_assignment(nodes, edges[i]) == Some(
                    a,
                );
            if i < k - 1 {
                assert(carries(nodes, edges, flows, k - 1, a));
                assert(before.contains(a));
                let x = choose|x: int| 0 <= x < before.len() && before[x] == a;
                if now != before {
                    assert(now == before.push(last->0));
                    assert(now[x] == a);
                }
            } else {
                assert(added && last->0 == a);
                if !before.contains(a) {
                    assert(now == before.push(a));
                    assert(now[before.len() as int] == a);
                }
            }
        }
    } else {
        assert forall|a: Assignment| carries(nodes, edges, flows, k, a) implies carried(
            nodes,
            edges,
            flows,
            k,
        ).contains(a) by {}
    }
}

/// Some edge before `k` leaves `source` for the node labelled `label` and carries nothing.
pub open spec fn starves(
    nodes: Seq<NodeLabel>,
    edges: Seq<(usize, usize, usize)>,
    flows: Seq<usize>,
    source: int,
    k: int,
    label: NodeLabel,
) -> bool {
    exists|i: int|
        0 <= i < k && (#[trigger] edges[i]).0 == source && flows[i] == 0 && nodes[edges[i].1 as int]
            == label
}

/// Some edge before `k` leaves the node labelled `label` for `sink` and carries nothing.
pub open spec fn stalls(
    nodes: Seq<NodeLabel>,
    edges: Seq<(usize, usize, usize)>,
    flows: Seq<usize>,
    sink: int,
    k: int,
    label: NodeLabel,
) -> bool {
    exists|i: int|
        0 <= i < k && (#[trigger] edges[i]).1 == sink && flows[i] == 0 && nodes[edges[i].0 as int]
            == label
}

/// The list of nodes that the source does not feed holds no label twice, and
/// holds exactly the labels of the nodes at the end of an idle edge from the source.
pub proof fn lemma_unfed(
    nodes: Seq<NodeLabel>,
    edges: Seq<(usize, usize, usize)>,
    flows: Seq<usize>,
    source: int,
    k: int,
)
    ensures
        unfed(nodes, edges, flows, source, k).no_duplicates(),
        forall|label: NodeLabel| #[trigger]
            unfed(nodes, edges, flows, source, k).contains(label) <==> starves(
                nodes,
                edges,
                flows,
                source,
                k,
                label,
            ),
    decreases k,
{
    if k > 0 {
        lemma_unfed(nodes, edges, flows, source, k - 1);
        let before = unfed(nodes, edges, flows, source, k - 1);
        let now = unfed(nodes, edges, flows, source, k);
        let added = edges[k - 1].0 == source && flows[k - 1] == 0;
        let last = nodes[edges[k - 1].1 as int];
        assert forall|label: NodeLabel| now.contains(label) implies starves(
            nodes,
            edges,
            flows,
            source,
            k,
            label,
        ) by {
            if before.contains(label) {
                assert(starves(nodes, edges, flows, source, k - 1, label));
                let i = choose|i: int|
                    0 <= i < k - 1 && (#[trigger] edges[i]).0 == source && flows[i] == 0
                        && nodes[edges[i].1 as int] == label;
                assert(0 <= i < k && edges[i].0 == source);
            } else {
                let x = choose|x: int| 0 <= x < now.len() && now[x] == label;
                assert(now == before.push(last));
                if x < before.len() {
                    assert(before[x] == label);
                }
                assert(edges[k - 1].0 == source && label == last);
            }
        }
        assert forall|label: NodeLabel|
            starves(nodes, edges, flows, source, k, label) implies now.contains(label) by {
            let i = choose|i: int|
                0 <= i < k && (#[trigger] edges[i]).0 == source && flows[i] == 0
                    && nodes[edges[i].1 as int] == label;
            if i < k - 1 {
                assert(starves(nodes, edges, flows, source, k - 1, label));
                assert(before.contains(label));
                let x = choose|x: int| 0 <= x < before.len() && before[x] == label;
                if now != before {
                    assert(now == before.push(last));
                    assert(now[x] == label);
                }
            } else {
                assert(added && last == label);
                if !before.contains(label) {
                    assert(now == before.push(label));
                    assert(now[before.len() as int] == label);
                }
            }
        }
    } else {
        assert forall|label: NodeLabel|
            starves(nodes, edges, flows, source, k, label) implies unfed(
            nodes,
            edges,
            flows,
            source,
            k,
        ).contains(label) by {}
    }
}

/// The list of blocked nodes holds no label twice, and holds exactly the
/// labels of the nodes at the end of an idle edge from the source and of the
/// nodes at the start of an idle edge to the sink.
pub proof fn lemma_blocked(
    nodes: Seq<NodeLabel>,
    edges: Seq<(usize, usize, usize)>,
    flows: Seq<usize>,
    source: int,
    sink: int,
    k: int,
)
    ensures
        blocked(nodes, edges, flows, source, sink, k).no_duplicates(),
        forall|label: NodeLabel| #[trigger]
            blocked(nodes, edges, flows, source, sink, k).contains(label) <==> (starves(
                nodes,
                edges,
                flows,
                source,
                edges.len() as int,
                label,
            ) || stalls(nodes, edges, flows, sink, k, label)),
    decreases k,
{
    let all = edges.len() as int;
    if k > 0 {
        lemma_blocked(nodes, edges, flows, source, sink, k - 1);
        let before = blocked(nodes, edges, flows, source, sink, k - 1);
        let now = blocked(nodes, edges, flows, source, sink, k);
        let added = edges[k - 1].1 == sink && flows[k - 1] == 0;
        let last = nodes[edges[k - 1].0 as int];
        assert forall|label: NodeLabel| now.contains(label) implies (starves(
            nodes,
            edges,
            flows,
            source,
            all,
            label,
        ) || stalls(nodes, edges, flows, sink, k, label)) by {
            if before.contains(label) {
                if !starves(nodes, edges, flows, source, all, label) {
                    assert(stalls(nodes, edges, flows, sink, k - 1, label));
                    let i = choose|i: int|
                        0 <= i < k - 1 && (#[trigger] edges[i]).1 == sink && flows[i] == 0
                            && nodes[edges[i].0 as int] == label;
                    assert(0 <= i < k && edges[i].1 == sink);
                }
            } else {
                let x = choose|x: int| 0 <= x < now.len() && now[x] == label;
                assert(now == before.push(last));
                if x < before.len() {
                    assert(before[x] == label);
                }
                assert(edges[k - 1].1 == sink && label == last);
            }
        }
        assert forall|label: NodeLabel|
            (starves(nodes, edges, flows, source, all, label) || stalls(
                nodes,
                edges,
                flows,
                sink,
                k,
                label,
            )) implies now.contains(label) by {
            if starves(nodes, edges, flows, source, all, label) || stalls(
                nodes,
                edges,
                flows,
                sink,
                k - 1,
                label,
            ) {
                assert(before.contains(label));
                let x = choose|x: int| 0 <= x < before.len() && before[x] == label;
                if now != before {
                    assert(now == before.push(last));
                    assert(now[x] == label);
                }
            } else {
                let i = choose|i: int|
                    0 <= i < k && (#[trigger] edges[i]).1 == sink && flows[i] == 0
                        && nodes[edges[i].0 as int] == label;
                if i < k - 1 {
                    assert(stalls(nodes, edges, flows, sink, k - 1, label));
                }
                assert(added && last == label);
                if !before.contains(label) {
                    assert(now == before.push(label));
                    assert(now[before.len() as int] == label);
                }
            }
        }
    } else {
        lemma_unfed(nodes, edges, flows, source, all);
        assert forall|label: NodeLabel| !stalls(nodes, edges, flows, sink, k, label) by {}
    }
}

} // verus!
