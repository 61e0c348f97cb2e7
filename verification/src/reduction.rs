//! Why the network answers the question: a flow that moves one unit per
//! participant is a full legal assignment, and every full legal assignment is
//! such a flow.

use crate::configuration::ExclusionModel;
use crate::decoding::{carries, lemma_blocked, lemma_carried, stalls, starves};
use crate::flow::{
    count_at, flow_value, heads, inflow, is_flow, lemma_sum_at_capped, lemma_sum_at_full,
    lemma_sum_at_includes_two, lemma_sum_at_nothing, lemma_sum_at_short, lemma_sum_at_single,
    outflow, tails,
};
use crate::flow_network::{
    blocked, carried, edge_assignment, network_edges, network_nodes, receiver_node, sender_node,
    terminal_edges, NodeLabel, MAX_PARTICIPANTS,
};
use crate::id_set::{lemma_cover_len, members};
use crate::network_shape::{
    edge_recipient, edge_sender, joins_permitted_pair, lemma_network_has_pair,
    lemma_network_pairs_differ, lemma_network_shape, lemma_pair_edge_ends,
};
use crate::permutation::{
    has_recipient, has_sender, lemma_distinct_is_permutation, lemma_permutation_is_bijection,
    senders, Assignment,
};
use vstd::prelude::*;

verus! {

/// Where the edges of the network leave and enter: the edges at the
/// terminals alternate between one out of the source and one into the sink,
/// and every other edge leaves a sending node and enters a receiving node.
pub proof fn lemma_network_ends(model: ExclusionModel)
    requires
        model.count <= MAX_PARTICIPANTS,
    ensures
        network_edges(model).len() >= 2 * model.count,
        forall|i: int|
            0 <= i < network_edges(model).len() ==> (#[trigger] network_edges(model)[i]).2 == 1,
        forall|i: int|
            0 <= i < 2 * model.count && i % 2 == 0 ==> (#[trigger] network_edges(model)[i]).0 == 0
                && network_edges(model)[i].1 == 2 + i,
        forall|i: int|
            0 <= i < 2 * model.count && i % 2 == 1 ==> (#[trigger] network_edges(model)[i]).0 == 2
                + i && network_edges(model)[i].1 == 1,
        forall|i: int|
            2 * model.count <= i < network_edges(model).len() ==> {
                &&& joins_permitted_pair(model, #[trigger] network_edges(model)[i])
                &&& network_edges(model)[i].0 == sender_node(edge_sender(network_edges(model)[i]))
                &&& network_edges(model)[i].1 == receiver_node(
                    edge_recipient(network_edges(model)[i]),
                )
            },
{
    lemma_network_shape(model);
    assert forall|i: int| 2 * model.count <= i < network_edges(model).len() implies {
        &&& joins_permitted_pair(model, #[trigger] network_edges(model)[i])
        &&& network_edges(model)[i].0 == sender_node(edge_sender(network_edges(model)[i]))
        &&& network_edges(model)[i].1 == receiver_node(edge_recipient(network_edges(model)[i]))
    } by {
        let e = network_edges(model)[i];
        lemma_pair_edge_ends(edge_sender(e), edge_recipient(e));
    }
    assert forall|i: int| 0 <= i < network_edges(model).len() implies (#[trigger] network_edges(
        model,
    )[i]).2 == 1 by {
        if i < 2 * model.count {
            assert(network_edges(model)[i] == terminal_edges(model.count)[i]);
        }
    }
}

/// Among the first `k` edges at the terminals, every other one leaves the source.
proof fn lemma_source_edges_among_terminals(model: ExclusionModel, k: int)
    requires
        model.count <= MAX_PARTICIPANTS,
        0 <= k <= 2 * model.count,
    ensures
        count_at(tails(network_edges(model)), 0, k) == (k + 1) / 2,
    decreases k,
{
    if k > 0 {
        lemma_network_ends(model);
        lemma_source_edges_among_terminals(model, k - 1);
        let e = network_edges(model)[k - 1];
        assert(tails(network_edges(model))[k - 1] == e.0);
    }
}

/// As many edges leave the source as there are participants.
pub proof fn lemma_source_edges(model: ExclusionModel, k: int)
    requires
        model.count <= MAX_PARTICIPANTS,
        2 * model.count <= k <= network_edges(model).len(),
    ensures
        count_at(tails(network_edges(model)), 0, k) == model.count,
    decreases k,
{
    if k == 2 * model.count {
        lemma_source_edges_among_terminals(model, k);
    } else {
        lemma_network_ends(model);
        lemma_source_edges(model, k - 1);
        let e = network_edges(model)[k - 1];
        assert(tails(network_edges(model))[k - 1] == e.0);
    }
}

/// Nothing flows into the source, and what flows out of it is at most one
/// unit per participant.
pub proof fn lemma_value_bound(model: ExclusionModel, flows: Seq<usize>)
    requires
        model.count <= MAX_PARTICIPANTS,
        flows.len() == network_edges(model).len(),
        forall|i: int|
            0 <= i < flows.len() ==> #[trigger] flows[i] <= network_edges(model)[i].2,
    ensures
        inflow(network_edges(model), flows, 0) == 0,
        flow_value(network_edges(model), flows, 0) <= model.count,
        flow_value(network_edges(model), flows, 0) == model.count ==> forall|p: int|
            0 <= p < model.count ==> #[trigger] flows[2 * p] == 1,
{
    let edges = network_edges(model);
    let m = edges.len() as int;
    lemma_network_ends(model);
    assert forall|i: int| 0 <= i < m && #[trigger] heads(edges)[i] == 0 implies flows[i] == 0 by {
        let e = edges[i];
        assert(heads(edges)[i] == e.1);
    }
    lemma_sum_at_nothing(heads(edges), flows, 0, m);
    assert forall|i: int| 0 <= i < m && #[trigger] tails(edges)[i] == 0 implies flows[i] <= 1 by {
        assert(flows[i] <= edges[i].2);
    }
    lemma_sum_at_capped(tails(edges), flows, 0, m);
    lemma_source_edges(model, m);
    if flow_value(edges, flows, 0) == model.count {
        assert forall|p: int| 0 <= p < model.count implies #[trigger] flows[2 * p] == 1 by {
            let i = 2 * p;
            assert(edges[i].0 == 0);
            assert(tails(edges)[i] == 0);
            assert(flows[i] <= edges[i].2);
            if flows[i] == 0 {
                lemma_sum_at_short(tails(edges), flows, 0, m, i);
            }
        }
    }
}

/// What flows into the sending node of `p` is what the edge from the source carries.
pub proof fn lemma_sender_inflow(model: ExclusionModel, flows: Seq<usize>, p: int)
    requires
        model.count <= MAX_PARTICIPANTS,
        0 <= p < model.count,
    ensures
        inflow(network_edges(model), flows, sender_node(p)) == flows[2 * p],
{
    let edges = network_edges(model);
    let m = edges.len() as int;
    lemma_network_ends(model);
    assert(edges[2 * p].1 == 2 + 2 * p);
    assert(heads(edges)[2 * p] == sender_node(p));
    assert forall|j: int|
        0 <= j < m && j != 2 * p && #[trigger] heads(edges)[j] == sender_node(
            p,
        ) implies flows[j] == 0 by {
        let e = edges[j];
        assert(heads(edges)[j] == e.1);
    }
    lemma_sum_at_single(heads(edges), flows, sender_node(p), m, 2 * p);
}

/// What flows out of the receiving node of `q` is what the edge to the sink carries.
pub proof fn lemma_receiver_outflow(model: ExclusionModel, flows: Seq<usize>, q: int)
    requires
        model.count <= MAX_PARTICIPANTS,
        0 <= q < model.count,
    ensures
        outflow(network_edges(model), flows, receiver_node(q)) == flows[2 * q + 1],
{
    let edges = network_edges(model);
    let m = edges.len() as int;
    lemma_network_ends(model);
    assert(edges[2 * q + 1].0 == 2 + (2 * q + 1));
    assert(tails(edges)[2 * q + 1] == receiver_node(q));
    assert forall|j: int|
        0 <= j < m && j != 2 * q + 1 && #[trigger] tails(edges)[j] == receiver_node(
            q,
        ) implies flows[j] == 0 by {
        let e = edges[j];
        assert(tails(edges)[j] == e.0);
    }
    lemma_sum_at_single(tails(edges), flows, receiver_node(q), m, 2 * q + 1);
}

/// The assignment that an edge between participants stands for.
pub open spec fn edge_pair(edge: (usize, usize, usize)) -> Assignment {
    Assignment { sender: edge_sender(edge) as usize, recipient: edge_recipient(edge) as usize }
}

/// In the network the edges at the terminals stand for no assignment, and
/// every other edge stands for the pair that it joins.
pub proof fn lemma_network_edge_assignment(model: ExclusionModel, i: int)
    requires
        model.count <= MAX_PARTICIPANTS,
        0 <= i < network_edges(model).len(),
    ensures
        i < 2 * model.count ==> edge_assignment(
            network_nodes(model.count),
            network_edges(model)[i],
        ) is None,
        i >= 2 * model.count ==> edge_assignment(
            network_nodes(model.count),
            network_edges(model)[i],
        ) == Some(edge_pair(network_edges(model)[i])),
{
    lemma_network_ends(model);
    let e = network_edges(model)[i];
    let nodes = network_nodes(model.count);
    if i < 2 * model.count {
        if i % 2 == 0 {
            assert(nodes[e.0 as int] == NodeLabel::Source);
        } else {
            assert(e.1 == 1);
            assert(nodes[e.1 as int] == NodeLabel::Sink);
        }
    } else {
        assert(joins_permitted_pair(model, e));
        assert(nodes[e.0 as int] == NodeLabel::Sender(edge_sender(e) as usize));
        assert(nodes[e.1 as int] == NodeLabel::Receiver(edge_recipient(e) as usize));
    }
}

/// Every assignment read off a flow on the network comes from an edge
/// between participants that carries flow and joins a permitted pair.
pub proof fn lemma_carried_witness(model: ExclusionModel, flows: Seq<usize>, a: Assignment) -> (i:
    int)
    requires
        model.count <= MAX_PARTICIPANTS,
        carried(
            network_nodes(model.count),
            network_edges(model),
            flows,
            network_edges(model).len() as int,
        ).contains(a),
    ensures
        2 * model.count <= i < network_edges(model).len(),
        flows[i] != 0,
        joins_permitted_pair(model, network_edges(model)[i]),
        a == edge_pair(network_edges(model)[i]),
{
    let nodes = network_nodes(model.count);
    let edges = network_edges(model);
    lemma_carried(nodes, edges, flows, edges.len() as int);
    assert(carries(nodes, edges, flows, edges.len() as int, a));
    let i = choose|i: int|
        0 <= i < edges.len() && flows[i] != 0 && #[trigger] edge_assignment(nodes, edges[i])
            == Some(a);
    lemma_network_edge_assignment(model, i);
    lemma_network_ends(model);
    i
}

/// A flow on the network that moves one unit per participant reads as a
/// full legal assignment.
pub proof fn lemma_full_flow_is_assignment(model: ExclusionModel, flows: Seq<usize>)
    requires
        model.count <= MAX_PARTICIPANTS,
        is_flow(network_edges(model), 2 + 2 * model.count, 0, 1, flows),
        flow_value(network_edges(model), flows, 0) == model.count,
    ensures
        model.accepts(
            carried(
                network_nodes(model.count),
                network_edges(model),
                flows,
                network_edges(model).len() as int,
            ),
        ),
{
    let nodes = network_nodes(model.count);
    let edges = network_edges(model);
    let m = edges.len() as int;
    let found = carried(nodes, edges, flows, m);
    lemma_carried(nodes, edges, flows, m);
    lemma_network_ends(model);
    lemma_value_bound(model, flows);

    // every assignment is between two participants, of whom the first may give to the second
    assert forall|x: int| 0 <= x < found.len() implies {
        &&& (#[trigger] found[x]).sender < model.count
        &&& found[x].recipient < model.count
        &&& model.permits(found[x].sender as int, found[x].recipient as int)
    } by {
        assert(found.contains(found[x]));
        let i = lemma_carried_witness(model, flows, found[x]);
    }

    // no sender twice: the sending node takes in one unit at most
    assert forall|x: int, y: int| 0 <= x < y < found.len() implies (#[trigger] found[x]).sender != (
    #[trigger] found[y]).sender by {
        if found[x].sender == found[y].sender {
            let p = found[x].sender as int;
            assert(found.contains(found[x]));
            assert(found.contains(found[y]));
            let i = lemma_carried_witness(model, flows, found[x]);
            let j = lemma_carried_witness(model, flows, found[y]);
            assert(found[x] != found[y]);
            assert(i != j);
            assert(tails(edges)[i] == sender_node(p));
            assert(tails(edges)[j] == sender_node(p));
            if i < j {
                lemma_sum_at_includes_two(tails(edges), flows, sender_node(p), m, i, j);
            } else {
                lemma_sum_at_includes_two(tails(edges), flows, sender_node(p), m, j, i);
            }
            lemma_sender_inflow(model, flows, p);
            assert(flows[2 * p] <= edges[2 * p].2);
            assert(inflow(edges, flows, sender_node(p)) == outflow(edges, flows, sender_node(p)));
        }
    }

    // no recipient twice: the receiving node lets out one unit at most
    assert forall|x: int, y: int| 0 <= x < y < found.len() implies (
    #[trigger] found[x]).recipient != (#[trigger] found[y]).recipient by {
        if found[x].recipient == found[y].recipient {
            let q = found[x].recipient as int;
            assert(found.contains(found[x]));
            assert(found.contains(found[y]));
            let i = lemma_carried_witness(model, flows, found[x]);
            let j = lemma_carried_witness(model, flows, found[y]);
            assert(found[x] != found[y]);
            assert(i != j);
            assert(heads(edges)[i] == receiver_node(q));
            assert(heads(edges)[j] == receiver_node(q));
            if i < j {
                lemma_sum_at_includes_two(heads(edges), flows, receiver_node(q), m, i, j);
            } else {
                lemma_sum_at_includes_two(heads(edges), flows, receiver_node(q), m, j, i);
            }
            lemma_receiver_outflow(model, flows, q);
            assert(flows[2 * q + 1] <= edges[2 * q + 1].2);
            assert(inflow(edges, flows, receiver_node(q)) == outflow(
                edges,
                flows,
                receiver_node(q),
            ));
        }
    }

    // every participant gives: the unit that enters a sending node leaves it
    assert forall|p: int| 0 <= p < model.count implies members(senders(found)).contains(p) by {
        lemma_sender_inflow(model, flows, p);
        assert(flows[2 * p] == 1);
        assert(inflow(edges, flows, sender_node(p)) == outflow(edges, flows, sender_node(p)));
        if forall|i: int| 0 <= i < m && #[trigger] tails(edges)[i] == sender_node(p) ==> flows[i]
            == 0 {
            lemma_sum_at_nothing(tails(edges), flows, sender_node(p), m);
        }
        let i = choose|i: int|
            0 <= i < m && #[trigger] tails(edges)[i] == sender_node(p) && flows[i] != 0;
        assert(tails(edges)[i] == edges[i].0);
        lemma_network_edge_assignment(model, i);
        assert(i >= 2 * model.count);
        assert(edge_sender(edges[i]) == p);
        assert(carries(nodes, edges, flows, m, edge_pair(edges[i])));
        assert(found.contains(edge_pair(edges[i])));
        let x = choose|x: int| 0 <= x < found.len() && found[x] == edge_pair(edges[i]);
        assert(senders(found)[x] == p);
    }
    assert forall|i: int, j: int|
        0 <= i < senders(found).len() && 0 <= j < senders(found).len() && i != j implies senders(
        found,
    )[i] != senders(found)[j] by {
        if i < j {
            assert(found[i].sender != found[j].sender);
        } else {
            assert(found[j].sender != found[i].sender);
        }
    }
    assert forall|k: int| 0 <= k < senders(found).len() implies #[trigger] senders(found)[k]
        < model.count by {
        assert(found[k].sender < model.count);
    }
    lemma_cover_len(senders(found), model.count);
    lemma_distinct_is_permutation(found, model.count);
}

/// The flow that an assignment set stands for: one unit on every edge at a
/// terminal and on the edge of every pair that is assigned.
pub open spec fn flow_of(model: ExclusionModel, s: Seq<Assignment>) -> Seq<usize> {
    Seq::new(
        network_edges(model).len(),
        |i: int|
            if i < 2 * model.count || s.contains(edge_pair(network_edges(model)[i])) {
                1usize
            } else {
                0usize
            },
    )
}

/// In the flow of a full legal assignment, what leaves the sending node of
/// `p` is the one unit on the edge to the recipient of `p`.
proof fn lemma_flow_of_sender_outflow(model: ExclusionModel, s: Seq<Assignment>, p: int)
    requires
        model.count <= MAX_PARTICIPANTS,
        model.accepts(s),
        0 <= p < model.count,
    ensures
        outflow(network_edges(model), flow_of(model, s), sender_node(p)) == 1,
{
    let edges = network_edges(model);
    let m = edges.len() as int;
    let g = flow_of(model, s);
    lemma_network_ends(model);
    lemma_network_pairs_differ(model);
    lemma_permutation_is_bijection(s, model.count);
    assert(has_sender(s, p));
    let k = choose|k: int| 0 <= k < s.len() && (#[trigger] s[k]).sender == p;
    let r = s[k].recipient as int;
    assert(crate::configuration::violation(model, s[k]) is None);
    assert(model.permits(p, r));
    let i = lemma_network_has_pair(model, p, r);
    lemma_pair_edge_ends(p, r);
    assert(edge_pair(edges[i]) == s[k]);
    assert(s.contains(edge_pair(edges[i])));
    assert(g[i] == 1);
    assert(tails(edges)[i] == sender_node(p));
    assert forall|j: int|
        0 <= j < m && j != i && #[trigger] tails(edges)[j] == sender_node(p) implies g[j]
        == 0 by {
        let e = edges[j];
        assert(tails(edges)[j] == e.0);
        assert(j >= 2 * model.count);
        assert(joins_permitted_pair(model, e));
        assert(edge_sender(e) == p);
        if s.contains(edge_pair(e)) {
            let k2 = choose|k2: int| 0 <= k2 < s.len() && s[k2] == edge_pair(e);
            assert(s[k2].sender == s[k].sender);
            if k2 < k {
                assert(s[k2].sender != s[k].sender);
            }
            if k < k2 {
                assert(s[k].sender != s[k2].sender);
            }
            assert(e == edges[i]);
            if i < j {
                assert(edges[i] != edges[j]);
            } else {
                assert(edges[j] != edges[i]);
            }
        }
    }
    lemma_sum_at_single(tails(edges), g, sender_node(p), m, i);
}

/// In the flow of a full legal assignment, what enters the receiving node of
/// `q` is the one unit on the edge from the sender of `q`.
proof fn lemma_flow_of_receiver_inflow(model: ExclusionModel, s: Seq<Assignment>, q: int)
    requires
        model.count <= MAX_PARTICIPANTS,
        model.accepts(s),
        0 <= q < model.count,
    ensures
        inflow(network_edges(model), flow_of(model, s), receiver_node(q)) == 1,
{
    let edges = network_edges(model);
    let m = edges.len() as int;
    let g = flow_of(model, s);
    lemma_network_ends(model);
    lemma_network_pairs_differ(model);
    lemma_permutation_is_bijection(s, model.count);
    assert(has_recipient(s, q));
    let k = choose|k: int| 0 <= k < s.len() && (#[trigger] s[k]).recipient == q;
    let p = s[k].sender as int;
    assert(crate::configuration::violation(model, s[k]) is None);
    assert(model.permits(p, q));
    let i = lemma_network_has_pair(model, p, q);
    lemma_pair_edge_ends(p, q);
    assert(edge_pair(edges[i]) == s[k]);
    assert(s.contains(edge_pair(edges[i])));
    assert(g[i] == 1);
    assert(heads(edges)[i] == receiver_node(q));
    assert forall|j: int|
        0 <= j < m && j != i && #[trigger] heads(edges)[j] == receiver_node(q) implies g[j]
        == 0 by {
        let e = edges[j];
        assert(heads(edges)[j] == e.1);
        assert(j >= 2 * model.count);
        assert(joins_permitted_pair(model, e));
        assert(edge_recipient(e) == q);
        if s.contains(edge_pair(e)) {
            let k2 = choose|k2: int| 0 <= k2 < s.len() && s[k2] == edge_pair(e);
            assert(s[k2].recipient == s[k].recipient);
            if k2 < k {
                assert(s[k2].recipient != s[k].recipient);
            }
            if k < k2 {
                assert(s[k].recipient != s[k2].recipient);
            }
            assert(e == edges[i]);
            if i < j {
                assert(edges[i] != edges[j]);
            } else {
                assert(edges[j] != edges[i]);
            }
        }
    }
    lemma_sum_at_single(heads(edges), g, receiver_node(q), m, i);
}

/// A full legal assignment stands for a flow on the network that moves one
/// unit per participant.
pub proof fn lemma_assignment_is_full_flow(model: ExclusionModel, s: Seq<Assignment>)
    requires
        model.count <= MAX_PARTICIPANTS,
        model.accepts(s),
    ensures
        is_flow(network_edges(model), 2 + 2 * model.count, 0, 1, flow_of(model, s)),
        flow_value(network_edges(model), flow_of(model, s), 0) == model.count,
{
    let edges = network_edges(model);
    let m = edges.len() as int;
    let g = flow_of(model, s);
    lemma_network_ends(model);
    assert forall|i: int| 0 <= i < edges.len() implies #[trigger] g[i] <= edges[i].2 by {}
    lemma_value_bound(model, g);
    assert forall|i: int| 0 <= i < m && #[trigger] tails(edges)[i] == 0 implies g[i] == 1 by {
        let e = edges[i];
        assert(tails(edges)[i] == e.0);
    }
    lemma_sum_at_full(tails(edges), g, 0, m);
    lemma_source_edges(model, m);
    assert forall|v: int| 0 <= v < 2 + 2 * model.count && v != 0 && v != 1 implies #[trigger] inflow(
        edges,
        g,
        v,
    ) == outflow(edges, g, v) by {
        if v % 2 == 0 {
            let p = (v - 2) / 2;
            assert(v == sender_node(p));
            lemma_sender_inflow(model, g, p);
            lemma_flow_of_sender_outflow(model, s, p);
        } else {
            let q = (v - 3) / 2;
            assert(v == receiver_node(q));
            lemma_receiver_outflow(model, g, q);
            lemma_flow_of_receiver_inflow(model, s, q);
        }
    }
}

/// The reduction: the largest flow on the network for `model` moves one unit
/// per participant exactly when a full legal assignment exists, and then the
/// flow reads as one.  It never moves more.
pub proof fn lemma_maximum_flow_decides(model: ExclusionModel, value: int, flows: Seq<usize>)
    requires
        model.count <= MAX_PARTICIPANTS,
        crate::flow::is_maximum_flow(
            network_edges(model),
            2 + 2 * model.count,
            0,
            1,
            value,
            flows,
        ),
    ensures
        value <= model.count,
        value == model.count <==> model.feasible(),
        value == model.count ==> model.accepts(
            carried(
                network_nodes(model.count),
                network_edges(model),
                flows,
                network_edges(model).len() as int,
            ),
        ),
{
    lemma_value_bound(model, flows);
    if value == model.count {
        lemma_full_flow_is_assignment(model, flows);
    }
    if model.feasible() {
        let s = choose|s: Seq<Assignment>| model.accepts(s);
        lemma_assignment_is_full_flow(model, s);
        assert(is_flow(network_edges(model), 2 + 2 * model.count, 0, 1, flow_of(model, s)));
    }
}

/// The blocked nodes of the network for `model` under `flows`.
pub open spec fn network_blocked(model: ExclusionModel, flows: Seq<usize>) -> Seq<NodeLabel> {
    blocked(
        network_nodes(model.count),
        network_edges(model),
        flows,
        0,
        1,
        network_edges(model).len() as int,
    )
}

/// On the network, the source fails to feed exactly the sending nodes whose
/// edge from the source carries nothing.
pub proof fn lemma_network_starves(model: ExclusionModel, flows: Seq<usize>, label: NodeLabel)
    requires
        model.count <= MAX_PARTICIPANTS,
    ensures
        starves(
            network_nodes(model.count),
            network_edges(model),
            flows,
            0,
            network_edges(model).len() as int,
            label,
        ) <==> (label matches NodeLabel::Sender(p) && p < model.count && flows[2 * p] == 0),
{
    let nodes = network_nodes(model.count);
    let edges = network_edges(model);
    let m = edges.len() as int;
    lemma_network_ends(model);
    if starves(nodes, edges, flows, 0, m, label) {
        let i = choose|i: int|
            0 <= i < m && (#[trigger] edges[i]).0 == 0 && flows[i] == 0 && nodes[edges[i].1 as int]
                == label;
        assert(i < 2 * model.count && i % 2 == 0);
        assert(nodes[2 + i] == NodeLabel::Sender((i / 2) as usize));
    }
    if label matches NodeLabel::Sender(p) && p < model.count && flows[2 * p] == 0 {
        let p = label->Sender_0 as int;
        assert(edges[2 * p].0 == 0);
        assert(nodes[2 + 2 * p] == label);
    }
}

/// On the network, the sink goes without exactly the receiving nodes whose
/// edge to the sink carries nothing.
pub proof fn lemma_network_stalls(model: ExclusionModel, flows: Seq<usize>, label: NodeLabel)
    requires
        model.count <= MAX_PARTICIPANTS,
    ensures
        stalls(
            network_nodes(model.count),
            network_edges(model),
            flows,
            1,
            network_edges(model).len() as int,
            label,
        ) <==> (label matches NodeLabel::Receiver(q) && q < model.count && flows[2 * q + 1] == 0),
{
    let nodes = network_nodes(model.count);
    let edges = network_edges(model);
    let m = edges.len() as int;
    lemma_network_ends(model);
    if stalls(nodes, edges, flows, 1, m, label) {
        let i = choose|i: int|
            0 <= i < m && (#[trigger] edges[i]).1 == 1 && flows[i] == 0 && nodes[edges[i].0 as int]
                == label;
        assert(i < 2 * model.count && i % 2 == 1);
        assert(nodes[2 + i] == NodeLabel::Receiver(((i - 1) / 2) as usize));
    }
    if label matches NodeLabel::Receiver(q) && q < model.count && flows[2 * q + 1] == 0 {
        let q = label->Receiver_0 as int;
        assert(edges[2 * q + 1].1 == 1);
        assert(nodes[2 + (2 * q + 1)] == label);
    }
}

/// On the network, a sending node is blocked exactly when its edge from the
/// source carries nothing, a receiving node exactly when its edge to the sink
/// carries nothing, and nothing else ever is.
pub proof fn lemma_network_blocked(model: ExclusionModel, flows: Seq<usize>)
    requires
        model.count <= MAX_PARTICIPANTS,
    ensures
        network_blocked(model, flows).no_duplicates(),
        forall|label: NodeLabel| #[trigger]
            network_blocked(model, flows).contains(label) <==> match label {
                NodeLabel::Sender(p) => p < model.count && flows[2 * p] == 0,
                NodeLabel::Receiver(q) => q < model.count && flows[2 * q + 1] == 0,
                _ => false,
            },
{
    let nodes = network_nodes(model.count);
    let edges = network_edges(model);
    let m = edges.len() as int;
    lemma_blocked(nodes, edges, flows, 0, 1, m);
    assert forall|label: NodeLabel| #[trigger]
        network_blocked(model, flows).contains(label) <==> match label {
            NodeLabel::Sender(p) => p < model.count && flows[2 * p] == 0,
            NodeLabel::Receiver(q) => q < model.count && flows[2 * q + 1] == 0,
            _ => false,
        } by {
        lemma_network_starves(model, flows, label);
        lemma_network_stalls(model, flows, label);
    }
}

/// No flow on the network gives anything to a sending node whose participant
/// may give to nobody, nor takes anything from a receiving node whose
/// participant may receive from nobody.
pub proof fn lemma_isolated_carry_nothing(model: ExclusionModel, flows: Seq<usize>, p: int)
    requires
        model.count <= MAX_PARTICIPANTS,
        is_flow(network_edges(model), 2 + 2 * model.count, 0, 1, flows),
        0 <= p < model.count,
    ensures
        (forall|r: int| 0 <= r < model.count ==> !#[trigger] model.permits(p, r)) ==> flows[2 * p]
            == 0,
        (forall|s: int| 0 <= s < model.count ==> !#[trigger] model.permits(s, p)) ==> flows[2 * p
            + 1] == 0,
{
    let edges = network_edges(model);
    let m = edges.len() as int;
    lemma_network_ends(model);
    if forall|r: int| 0 <= r < model.count ==> !#[trigger] model.permits(p, r) {
        assert forall|i: int|
            0 <= i < m && #[trigger] tails(edges)[i] == sender_node(p) implies flows[i] == 0 by {
            let e = edges[i];
            assert(tails(edges)[i] == e.0);
            if i >= 2 * model.count {
                assert(joins_permitted_pair(model, e));
                assert(model.permits(p, edge_recipient(e)));
            }
        }
        lemma_sum_at_nothing(tails(edges), flows, sender_node(p), m);
        lemma_sender_inflow(model, flows, p);
        assert(inflow(edges, flows, sender_node(p)) == outflow(edges, flows, sender_node(p)));
    }
    if forall|s: int| 0 <= s < model.count ==> !#[trigger] model.permits(s, p) {
        assert forall|i: int|
            0 <= i < m && #[trigger] heads(edges)[i] == receiver_node(p) implies flows[i] == 0 by {
            let e = edges[i];
            assert(heads(edges)[i] == e.1);
            if i >= 2 * model.count {
                assert(joins_permitted_pair(model, e));
                assert(model.permits(edge_sender(e), p));
            }
        }
        lemma_sum_at_nothing(heads(edges), flows, receiver_node(p), m);
        lemma_receiver_outflow(model, flows, p);
        assert(inflow(edges, flows, receiver_node(p)) == outflow(edges, flows, receiver_node(p)));
    }
}

} // verus!
