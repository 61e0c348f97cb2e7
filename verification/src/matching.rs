//! The flow-network strategy: build the network for a configuration, solve
//! it, and read the answer.

use crate::configuration::{Configuration, ExclusionModel};
use crate::flow::{is_maximum_flow, lemma_sum_at_full, tails};
pub use crate::flow_network::{construct_flow_network, get_matchings, FlowNetwork, NodeLabel};
use crate::flow_network::{carried, network_edges, network_nodes, MAX_PARTICIPANTS};
use crate::participant::Participant;
use crate::permutation::Assignment;
use crate::reduction::{
    lemma_isolated_carry_nothing, lemma_maximum_flow_decides, lemma_network_blocked,
    lemma_network_ends, lemma_source_edges, lemma_value_bound, network_blocked,
};
use crate::text::{join, joined, texts};
use vstd::prelude::*;
use vstd::string::StringExecFns;

verus! {

/// `value` and `flows` are a largest flow on the network for `model`, from
/// its source to its sink.
pub open spec fn solves(model: ExclusionModel, value: int, flows: Seq<usize>) -> bool {
    is_maximum_flow(network_edges(model), 2 + 2 * model.count, 0, 1, value, flows)
}

/// `assignments` is what a largest flow on the network for `model` reads as,
/// and that flow moves one unit per participant.
pub open spec fn is_matching(model: ExclusionModel, assignments: Seq<Assignment>) -> bool {
    exists|value: int, flows: Seq<usize>|
        {
            &&& #[trigger] solves(model, value, flows)
            &&& value == model.count
            &&& assignments == carried(
                network_nodes(model.count),
                network_edges(model),
                flows,
                network_edges(model).len() as int,
            )
        }
}

/// `problematic` is what a largest flow on the network for `model` leaves out
/// at the terminals, and that flow moves less than one unit per participant.
pub open spec fn is_diagnosis(model: ExclusionModel, problematic: Seq<NodeLabel>) -> bool {
    exists|value: int, flows: Seq<usize>|
        {
            &&& #[trigger] solves(model, value, flows)
            &&& value != model.count
            &&& problematic == network_blocked(model, flows)
        }
}

/// Finds a full legal assignment for the configuration, or says who stands
/// in the way.
///
/// The answer is definite: an assignment comes back exactly when one exists.
/// Otherwise the sending nodes that the largest flow cannot feed and the
/// receiving nodes that it cannot drain come back, each tagged with its side.
pub fn try_generate_assignments_via_flow_network(configuration: &Configuration) -> (result: Result<
    Vec<Assignment>,
    Vec<NodeLabel>,
>)
    requires
        configuration.wf(),
        configuration.participants@.len() <= MAX_PARTICIPANTS,
    ensures
        result is Ok <==> configuration@.feasible(),
        match result {
            Ok(assignments) => {
                &&& is_matching(configuration@, assignments@)
                &&& configuration@.accepts(assignments@)
            },
            Err(problematic) => is_diagnosis(configuration@, problematic@),
        },
{
    let flow_network = construct_flow_network(
        &configuration.participants,
        &configuration.cannot_send_to,
        &configuration.cannot_receive_from,
    );
    let ghost network = flow_network;
    let result = get_matchings(&configuration.participants, flow_network);
    proof {
        let model = configuration@;
        let (value, flows) = choose|value: int, flows: Seq<usize>|
            {
                &&& is_maximum_flow(
                    network.edges(),
                    network.nodes().len(),
                    network.source_index(),
                    network.sink_index(),
                    value,
                    flows,
                )
                &&& #[trigger] network.decodes_to(model.count, value, flows, result)
            };
        assert(solves(model, value, flows));
        lemma_maximum_flow_decides(model, value, flows);
    }
    result
}

/// Soundness of what is returned: every assignment set that the strategy
/// hands out is a permutation of the participants, gives nobody to
/// themself, and crosses no exclusion.
pub proof fn lemma_matching_is_valid(model: ExclusionModel, assignments: Seq<Assignment>)
    requires
        model.count <= MAX_PARTICIPANTS,
        is_matching(model, assignments),
    ensures
        model.accepts(assignments),
{
    let (value, flows) = choose|value: int, flows: Seq<usize>|
        {
            &&& #[trigger] solves(model, value, flows)
            &&& value == model.count
            &&& assignments == carried(
                network_nodes(model.count),
                network_edges(model),
                flows,
                network_edges(model).len() as int,
            )
        };
    lemma_maximum_flow_decides(model, value, flows);
}

/// Soundness of giving up: when the strategy reports blocked nodes, no full
/// legal assignment exists.
pub proof fn lemma_diagnosis_means_infeasible(model: ExclusionModel, problematic: Seq<NodeLabel>)
    requires
        model.count <= MAX_PARTICIPANTS,
        is_diagnosis(model, problematic),
    ensures
        !model.feasible(),
{
    let (value, flows) = choose|value: int, flows: Seq<usize>|
        {
            &&& #[trigger] solves(model, value, flows)
            &&& value != model.count
            &&& problematic == network_blocked(model, flows)
        };
    lemma_maximum_flow_decides(model, value, flows);
}

/// What a report of blocked nodes holds: no node twice and never a terminal;
/// at least one sending node; the sending node of every participant who may
/// give to nobody, and the receiving node of every participant who may
/// receive from nobody.
pub proof fn lemma_diagnosis_names_the_isolated(
    model: ExclusionModel,
    problematic: Seq<NodeLabel>,
)
    requires
        model.count <= MAX_PARTICIPANTS,
        is_diagnosis(model, problematic),
    ensures
        problematic.no_duplicates(),
        !problematic.contains(NodeLabel::Source),
        !problematic.contains(NodeLabel::Sink),
        forall|i: int|
            0 <= i < problematic.len() ==> (#[trigger] problematic[i]).names_participant(
                model.count,
            ),
        exists|p: usize| p < model.count && #[trigger] problematic.contains(NodeLabel::Sender(p)),
        forall|p: usize|
            p < model.count && (forall|r: int|
                0 <= r < model.count ==> !#[trigger] model.permits(p as int, r))
                ==> #[trigger] problematic.contains(NodeLabel::Sender(p)),
        forall|q: usize|
            q < model.count && (forall|s: int|
                0 <= s < model.count ==> !#[trigger] model.permits(s, q as int))
                ==> #[trigger] problematic.contains(NodeLabel::Receiver(q)),
{
    let (value, flows) = choose|value: int, flows: Seq<usize>|
        {
            &&& #[trigger] solves(model, value, flows)
            &&& value != model.count
            &&& problematic == network_blocked(model, flows)
        };
    let edges = network_edges(model);
    let m = edges.len() as int;
    lemma_network_blocked(model, flows);
    lemma_network_ends(model);
    lemma_value_bound(model, flows);
    assert forall|i: int| 0 <= i < problematic.len() implies (
    #[trigger] problematic[i]).names_participant(model.count) by {
        assert(problematic.contains(problematic[i]));
    }
    assert forall|p: usize|
        p < model.count && (forall|r: int|
            0 <= r < model.count ==> !#[trigger] model.permits(p as int, r))
            implies #[trigger] problematic.contains(NodeLabel::Sender(p)) by {
        lemma_isolated_carry_nothing(model, flows, p as int);
    }
    assert forall|q: usize|
        q < model.count && (forall|s: int|
            0 <= s < model.count ==> !#[trigger] model.permits(s, q as int))
            implies #[trigger] problematic.contains(NodeLabel::Receiver(q)) by {
        lemma_isolated_carry_nothing(model, flows, q as int);
    }
    if forall|p: int| 0 <= p < model.count ==> #[trigger] flows[2 * p] != 0 {
        assert forall|i: int| 0 <= i < m && #[trigger] tails(edges)[i] == 0 implies flows[i]
            == 1 by {
            let e = edges[i];
            assert(tails(edges)[i] == e.0);
            assert(i < 2 * model.count && i % 2 == 0);
            assert(flows[2 * (i / 2)] != 0);
            assert(flows[i] <= edges[i].2);
        }
        lemma_sum_at_full(tails(edges), flows, 0, m);
        lemma_source_edges(model, m);
        assert(false);
    }
    let p = choose|p: int| 0 <= p < model.count && #[trigger] flows[2 * p] == 0;
    assert(problematic.contains(NodeLabel::Sender(p as usize)));
}

/// Building the network is deterministic: two networks for the same model
/// have the same nodes, the same edges and the same terminals.
pub proof fn lemma_construction_is_deterministic(
    model: ExclusionModel,
    first: FlowNetwork,
    second: FlowNetwork,
)
    requires
        first.encodes(model),
        second.encodes(model),
    ensures
        first.nodes() == second.nodes(),
        first.edges() == second.edges(),
        first.source_index() == second.source_index(),
        first.sink_index() == second.sink_index(),
{
}

/// What is said of a blocked node: who it is and which side fails.  The
/// terminals are passed over.
pub open spec fn complaint(participants: Seq<Participant>, node: NodeLabel) -> Option<Seq<char>> {
    match node {
        NodeLabel::Sender(p) => Some(
            participants[p as int].name@ + " is unable to send to anyone"@,
        ),
        NodeLabel::Receiver(p) => Some(
            participants[p as int].name@ + " is unable to receive from anyone"@,
        ),
        _ => None,
    }
}

/// What is said of each of `nodes`, in order.
pub open spec fn complaints(participants: Seq<Participant>, nodes: Seq<NodeLabel>) -> Seq<
    Seq<char>,
>
    decreases nodes.len(),
{
    if nodes.len() == 0 {
        Seq::empty()
    } else {
        match complaint(participants, nodes.last()) {
            Some(line) => complaints(participants, nodes.drop_last()).push(line),
            None => complaints(participants, nodes.drop_last()),
        }
    }
}

/// The message for a report of blocked nodes.
pub open spec fn infeasibility_message(participants: Seq<Participant>, nodes: Seq<NodeLabel>) -> Seq<
    char,
> {
    "Failed to find a valid assignment: "@ + joined(complaints(participants, nodes), ", "@)
}

/// Puts a report of blocked nodes into words: for each node, who is unable
/// to send or to receive.
pub fn describe_infeasibility(participants: &Vec<Participant>, problematic: &Vec<NodeLabel>) -> (message:
    String)
    requires
        forall|i: int|
            0 <= i < problematic@.len() ==> (#[trigger] problematic@[i]).names_participant(
                participants@.len(),
            ),
    ensures
        message@ == infeasibility_message(participants@, problematic@),
{
    let mut lines: Vec<String> = Vec::new();
    let mut i: usize = 0;
    while i < problematic.len()
        invariant
            i <= problematic@.len(),
            forall|k: int|
                0 <= k < problematic@.len() ==> (#[trigger] problematic@[k]).names_participant(
                    participants@.len(),
                ),
            texts(lines@) == complaints(participants@, problematic@.take(i as int)),
        decreases problematic@.len() - i,
    {
        let ghost before = problematic@.take(i as int);
        let ghost now = problematic@.take(i + 1);
        assert(now.drop_last() =~= before);
        assert(now.last() == problematic@[i as int]);
        assert(problematic@[i as int].names_participant(participants@.len()));
        match problematic[i] {
            NodeLabel::Sender(p) => {
                let mut line = participants[p].name.clone();
                line.append(" is unable to send to anyone");
                lines.push(line);
                assert(texts(lines@) =~= complaints(participants@, now));
            },
            NodeLabel::Receiver(p) => {
                let mut line = participants[p].name.clone();
                line.append(" is unable to receive from anyone");
                lines.push(line);
                assert(texts(lines@) =~= complaints(participants@, now));
            },
            _ => {},
        }
        i += 1;
    }
    assert(problematic@.take(i as int) =~= problematic@);
    let mut message = String::from_str("Failed to find a valid assignment: ");
    message.append(join(&lines, ", ").as_str());
    message
}

} // verus!
