//! The flow network that encodes who may give to whom.
//!
//! The network has a source, a sink and, for every participant, a node that
//! sends and a node that receives.  The source feeds every sending node, every
//! receiving node feeds the sink, and a sending node feeds the receiving node
//! of every participant that its own participant may give to.  All capacities
//! are one, so a flow of as many units as there are participants picks one
//! recipient for every sender and one sender for every recipient.

use crate::configuration::{model_of, ExclusionModel, Participant};
use crate::flow::is_maximum_flow;
use crate::graph::{
    add_edge, add_node, edge_at, edge_count, empty_graph, graph_edges, graph_nodes, maximum_flow,
    node_count, node_label,
};
use crate::id_set::contains;
use crate::network_shape::lemma_network_shape;
use crate::permutation::Assignment;
use petgraph::graph::DiGraph;
use vstd::prelude::*;
use vstd::string::StringExecFns;

verus! {

/// What a node of the flow network stands for.
#[derive(Clone, Copy, Debug, PartialEq, Eq, Hash, Structural)]
pub enum NodeLabel {
    Source,
    Sink,
    Sender(usize),
    Receiver(usize),
}

impl NodeLabel {
    /// The participant that this node stands for, if it stands for one, is
    /// one of the first `count`.
    pub open spec fn names_participant(self, count: nat) -> bool {
        match self {
            NodeLabel::Sender(p) => p < count,
            NodeLabel::Receiver(p) => p < count,
            _ => true,
        }
    }

    /// How the node is shown: a terminal by its role, any other node by the
    /// name of its participant.
    pub open spec fn shown(self, participants: Seq<Participant>) -> Seq<char> {
        match self {
            NodeLabel::Source => "Source"@,
            NodeLabel::Sink => "Sink"@,
            NodeLabel::Sender(p) => participants[p as int].name@,
            NodeLabel::Receiver(p) => participants[p as int].name@,
        }
    }

    /// Renders the node: `Source`, `Sink`, or the name of its participant.
    pub fn to_string(&self, participants: &Vec<Participant>) -> (text: String)
        requires
            self.names_participant(participants@.len()),
        ensures
            text@ == self.shown(participants@),
    {
        match self {
            NodeLabel::Source => String::from_str("Source"),
            NodeLabel::Sink => String::from_str("Sink"),
            NodeLabel::Sender(p) => participants[*p].name.clone(),
            NodeLabel::Receiver(p) => participants[*p].name.clone(),
        }
    }
}

/// The largest number of participants a network is built for.  With more,
/// the edges between all pairs could outgrow the 32-bit edge indices of the graph.
pub const MAX_PARTICIPANTS: usize = 65535;

/// The index of the node that sends for participant `p`.
pub open spec fn sender_node(p: int) -> int {
    2 + 2 * p
}

/// The index of the node that receives for participant `p`.
pub open spec fn receiver_node(p: int) -> int {
    3 + 2 * p
}

/// The nodes of the network for `count` participants: the source, the sink,
/// then a sending and a receiving node for each participant in turn.
pub open spec fn network_nodes(count: nat) -> Seq<NodeLabel> {
    Seq::new(
        2 + 2 * count,
        |i: int|
            if i == 0 {
                NodeLabel::Source
            } else if i == 1 {
                NodeLabel::Sink
            } else if i % 2 == 0 {
                NodeLabel::Sender(((i - 2) / 2) as usize)
            } else {
                NodeLabel::Receiver(((i - 3) / 2) as usize)
            },
    )
}

/// The edges at the two terminals for `count` participants: for each
/// participant in turn, one from the source to the sending node and one from
/// the receiving node to the sink.
pub open spec fn terminal_edges(count: nat) -> Seq<(usize, usize, usize)> {
    Seq::new(
        2 * count,
        |i: int|
            if i % 2 == 0 {
                (0usize, (2 + i) as usize, 1usize)
            } else {
                ((2 + i) as usize, 1usize, 1usize)
            },
    )
}

/// The edge from the sending node of `sender` to the receiving node of `recipient`.
pub open spec fn pair_edge(sender: int, recipient: int) -> (usize, usize, usize) {
    (sender_node(sender) as usize, receiver_node(recipient) as usize, 1usize)
}

/// The edges out of the sending node of `sender` to the receiving nodes of
/// the participants before `upto` that `sender` may give to, in order.
pub open spec fn row_edges(model: ExclusionModel, sender: int, upto: int) -> Seq<
    (usize, usize, usize),
>
    decreases upto,
{
    if upto <= 0 {
        Seq::empty()
    } else if model.permits(sender, upto - 1) {
        row_edges(model, sender, upto - 1).push(pair_edge(sender, upto - 1))
    } else {
        row_edges(model, sender, upto - 1)
    }
}

/// The edges between participants for the senders before `rows`, sender by sender.
pub open spec fn pair_edges(model: ExclusionModel, rows: int) -> Seq<(usize, usize, usize)>
    decreases rows,
{
    if rows <= 0 {
        Seq::empty()
    } else {
        pair_edges(model, rows - 1) + row_edges(model, rows - 1, model.count as int)
    }
}

/// All edges of the network for `model`: those at the terminals, then those
/// between participants.
pub open spec fn network_edges(model: ExclusionModel) -> Seq<(usize, usize, usize)> {
    terminal_edges(model.count) + pair_edges(model, model.count as int)
}

/// A directed graph with unit capacities and two distinguished nodes.
pub struct FlowNetwork {
    graph: DiGraph<NodeLabel, usize>,
    source: usize,
    sink: usize,
}

impl FlowNetwork {
    /// The labels of the nodes, by node index.
    pub closed spec fn nodes(&self) -> Seq<NodeLabel> {
        graph_nodes(self.graph)
    }

    /// The edges, by edge index: where each leaves, where it enters, its capacity.
    pub closed spec fn edges(&self) -> Seq<(usize, usize, usize)> {
        graph_edges(self.graph)
    }

    /// The index of the source.
    pub closed spec fn source_index(&self) -> int {
        self.source as int
    }

    /// The index of the sink.
    pub closed spec fn sink_index(&self) -> int {
        self.sink as int
    }

    /// The terminals are two different nodes, every edge joins two nodes, and
    /// no capacity is above one.
    pub open spec fn wf(&self) -> bool {
        &&& self.nodes().len() <= u32::MAX
        &&& 0 <= self.source_index() < self.nodes().len()
        &&& 0 <= self.sink_index() < self.nodes().len()
        &&& self.source_index() != self.sink_index()
        &&& forall|i: int|
            0 <= i < self.edges().len() ==> {
                &&& (#[trigger] self.edges()[i]).0 < self.nodes().len()
                &&& self.edges()[i].1 < self.nodes().len()
                &&& self.edges()[i].2 <= 1
            }
    }

    /// This is the network for `model`, node by node and edge by edge.
    pub open spec fn encodes(&self, model: ExclusionModel) -> bool {
        &&& self.nodes() == network_nodes(model.count)
        &&& self.edges() == network_edges(model)
        &&& self.source_index() == 0
        &&& self.sink_index() == 1
    }
}

/// Builds the flow network for the given participants and exclusions.
///
/// A participant never gets an edge to their own receiving node, and a pair
/// that either side has ruled out gets none either, so no flow can ever use one.
pub fn construct_flow_network(
    participants: &Vec<Participant>,
    cannot_send_to: &Vec<Vec<usize>>,
    cannot_receive_from: &Vec<Vec<usize>>,
) -> (network: FlowNetwork)
    requires
        participants@.len() <= MAX_PARTICIPANTS,
        cannot_send_to@.len() == participants@.len(),
        cannot_receive_from@.len() == participants@.len(),
    ensures
        network.encodes(model_of(participants@.len(), cannot_send_to@, cannot_receive_from@)),
        network.wf(),
{
    let n = participants.len();
    let ghost model = model_of(n as nat, cannot_send_to@, cannot_receive_from@);
    // the sending and the receiving node of each participant
    let mut node_owners: Vec<(usize, usize)> = Vec::new();
    let mut flow_graph = empty_graph();

    let source = add_node(&mut flow_graph, NodeLabel::Source);
    let sink = add_node(&mut flow_graph, NodeLabel::Sink);
    assert(graph_nodes(flow_graph) =~= network_nodes(0));
    assert(graph_edges(flow_graph) =~= terminal_edges(0));

    let mut p: usize = 0;
    while p < n
        invariant
            p <= n <= MAX_PARTICIPANTS,
            source == 0,
            sink == 1,
            graph_nodes(flow_graph) == network_nodes(p as nat),
            graph_edges(flow_graph) == terminal_edges(p as nat),
            node_owners@.len() == p,
            forall|q: int|
                0 <= q < p ==> #[trigger] node_owners@[q] == (
                    sender_node(q) as usize,
                    receiver_node(q) as usize,
                ),
        decreases n - p,
    {
        let p_s = add_node(&mut flow_graph, NodeLabel::Sender(p));
        let p_r = add_node(&mut flow_graph, NodeLabel::Receiver(p));
        add_edge(&mut flow_graph, source, p_s, 1);
        add_edge(&mut flow_graph, p_r, sink, 1);
        node_owners.push((p_s, p_r));
        assert(graph_nodes(flow_graph) =~= network_nodes((p + 1) as nat));
        assert(graph_edges(flow_graph) =~= terminal_edges((p + 1) as nat));
        p += 1;
    }

    let mut sender: usize = 0;
    while sender < n
        invariant
            sender <= n <= MAX_PARTICIPANTS,
            model == model_of(n as nat, cannot_send_to@, cannot_receive_from@),
            cannot_send_to@.len() == n,
            cannot_receive_from@.len() == n,
            graph_nodes(flow_graph) == network_nodes(n as nat),
            graph_edges(flow_graph) == terminal_edges(n as nat) + pair_edges(model, sender as int),
            pair_edges(model, sender as int).len() <= sender * n,
            node_owners@.len() == n,
            forall|q: int|
                0 <= q < n ==> #[trigger] node_owners@[q] == (
                    sender_node(q) as usize,
                    receiver_node(q) as usize,
                ),
        decreases n - sender,
    {
        let mut receiver: usize = 0;
        while receiver < n
            invariant
                sender < n <= MAX_PARTICIPANTS,
                receiver <= n,
                model == model_of(n as nat, cannot_send_to@, cannot_receive_from@),
                cannot_send_to@.len() == n,
                cannot_receive_from@.len() == n,
                graph_nodes(flow_graph) == network_nodes(n as nat),
                graph_edges(flow_graph) == terminal_edges(n as nat) + pair_edges(
                    model,
                    sender as int,
                ) + row_edges(model, sender as int, receiver as int),
                pair_edges(model, sender as int).len() <= sender * n,
                row_edges(model, sender as int, receiver as int).len() <= receiver,
                node_owners@.len() == n,
                forall|q: int|
                    0 <= q < n ==> #[trigger] node_owners@[q] == (
                        sender_node(q) as usize,
                        receiver_node(q) as usize,
                    ),
            decreases n - receiver,
        {
            let excluded = sender == receiver || contains(&cannot_send_to[sender], receiver)
                || contains(&cannot_receive_from[receiver], sender);
            assert(excluded == !model.permits(sender as int, receiver as int));
            if !excluded {
                assert(sender * n + receiver < u32::MAX - 2 * MAX_PARTICIPANTS) by (nonlinear_arith)
                    requires
                        sender < n,
                        receiver < n,
                        n <= 65535,
                ;
                add_edge(&mut flow_graph, node_owners[sender].0, node_owners[receiver].1, 1);
            }
            assert(graph_edges(flow_graph) =~= terminal_edges(n as nat) + pair_edges(
                model,
                sender as int,
            ) + row_edges(model, sender as int, receiver + 1));
            receiver += 1;
        }
        assert(graph_edges(flow_graph) =~= terminal_edges(n as nat) + pair_edges(
            model,
            sender + 1,
        ));
        assert(pair_edges(model, sender + 1).len() <= (sender + 1) * n) by (nonlinear_arith)
            requires
                pair_edges(model, sender + 1).len() <= sender * n + n,
        ;
        sender += 1;
    }

    let network = FlowNetwork { graph: flow_graph, source, sink };
    proof {
        assert(pair_edges(model, n as int).len() <= 65535 * 65535) by (nonlinear_arith)
            requires
                pair_edges(model, n as int).len() <= n * n,
                n <= 65535,
        ;
        lemma_network_shape(model);
    }
    network
}

/// `s` with `x` at its end, unless `s` holds `x` already.
pub open spec fn put<T>(s: Seq<T>, x: T) -> Seq<T> {
    if s.contains(x) {
        s
    } else {
        s.push(x)
    }
}

/// The assignment that `edge` stands for, if it runs from a sending node to
/// a receiving node.
pub open spec fn edge_assignment(nodes: Seq<NodeLabel>, edge: (usize, usize, usize)) -> Option<
    Assignment,
> {
    match (nodes[edge.0 as int], nodes[edge.1 as int]) {
        (NodeLabel::Sender(sender), NodeLabel::Receiver(recipient)) => Some(
            Assignment { sender, recipient },
        ),
        _ => None,
    }
}

/// The assignments that the first `k` edges carry: one for every edge from a
/// sending node to a receiving node with flow on it, each once, in edge order.
pub open spec fn carried(
    nodes: Seq<NodeLabel>,
    edges: Seq<(usize, usize, usize)>,
    flows: Seq<usize>,
    k: int,
) -> Seq<Assignment>
    decreases k,
{
    if k <= 0 {
        Seq::empty()
    } else {
        let before = carried(nodes, edges, flows, k - 1);
        match edge_assignment(nodes, edges[k - 1]) {
            Some(a) => if flows[k - 1] != 0 {
                put(before, a)
            } else {
                before
            },
            None => before,
        }
    }
}

/// The nodes that the source does not feed: the labels of the nodes that an
/// edge without flow, among the first `k`, enters from the source, each once,
/// in edge order.
pub open spec fn unfed(
    nodes: Seq<NodeLabel>,
    edges: Seq<(usize, usize, usize)>,
    flows: Seq<usize>,
    source: int,
    k: int,
) -> Seq<NodeLabel>
    decreases k,
{
    if k <= 0 {
        Seq::empty()
    } else {
        let before = unfed(nodes, edges, flows, source, k - 1);
        if edges[k - 1].0 == source && flows[k - 1] == 0 {
            put(before, nodes[edges[k - 1].1 as int])
        } else {
            before
        }
    }
}

/// The nodes that the source does not feed, followed by the nodes that do not
/// feed the sink: the labels of the nodes that an edge without flow, among the
/// first `k`, leaves for the sink, each once, in edge order.
pub open spec fn blocked(
    nodes: Seq<NodeLabel>,
    edges: Seq<(usize, usize, usize)>,
    flows: Seq<usize>,
    source: int,
    sink: int,
    k: int,
) -> Seq<NodeLabel>
    decreases k,
{
    if k <= 0 {
        unfed(nodes, edges, flows, source, edges.len() as int)
    } else {
        let before = blocked(nodes, edges, flows, source, sink, k - 1);
        if edges[k - 1].1 == sink && flows[k - 1] == 0 {
            put(before, nodes[edges[k - 1].0 as int])
        } else {
            before
        }
    }
}

/// Adds `a` to `list` unless it is there already.
fn put_assignment(list: &mut Vec<Assignment>, a: Assignment)
    ensures
        final(list)@ == put(old(list)@, a),
{
    let mut i: usize = 0;
    while i < list.len()
        invariant
            i <= list@.len(),
            *list == *old(list),
            forall|j: int| 0 <= j < i ==> list@[j] != a,
        decreases list@.len() - i,
    {
        if list[i] == a {
            assert(list@.contains(a));
            return ;
        }
        i += 1;
    }
    list.push(a);
}

/// Adds `label` to `list` unless it is there already.
fn put_label(list: &mut Vec<NodeLabel>, label: NodeLabel)
    ensures
        final(list)@ == put(old(list)@, label),
{
    let mut i: usize = 0;
    while i < list.len()
        invariant
            i <= list@.len(),
            *list == *old(list),
            forall|j: int| 0 <= j < i ==> list@[j] != label,
        decreases list@.len() - i,
    {
        if list[i] == label {
            assert(list@.contains(label));
            return ;
        }
        i += 1;
    }
    list.push(label);
}

impl FlowNetwork {
    /// The assignments that `flows` makes: see [`carried`].
    pub open spec fn assignments_carried(&self, flows: Seq<usize>) -> Seq<Assignment> {
        carried(self.nodes(), self.edges(), flows, self.edges().len() as int)
    }

    /// The nodes that `flows` leaves out at either terminal: see [`blocked`].
    pub open spec fn blocked_nodes(&self, flows: Seq<usize>) -> Seq<NodeLabel> {
        blocked(
            self.nodes(),
            self.edges(),
            flows,
            self.source_index(),
            self.sink_index(),
            self.edges().len() as int,
        )
    }

    /// `outcome` is what a flow of value `value` with `flows` on the edges
    /// means for `count` participants: the assignments that it makes when it
    /// moves one unit per participant, and else the nodes that it leaves out.
    pub open spec fn decodes_to(
        &self,
        count: nat,
        value: int,
        flows: Seq<usize>,
        outcome: Result<Vec<Assignment>, Vec<NodeLabel>>,
    ) -> bool {
        match outcome {
            Ok(assignments) => value == count && assignments@ == self.assignments_carried(flows),
            Err(problematic) => value != count && problematic@ == self.blocked_nodes(flows),
        }
    }

    /// The number of nodes.
    pub fn node_count(&self) -> (count: usize)
        ensures
            count == self.nodes().len(),
    {
        node_count(&self.graph)
    }

    /// The number of edges.
    pub fn edge_count(&self) -> (count: usize)
        ensures
            count == self.edges().len(),
    {
        edge_count(&self.graph)
    }

    /// The index of the source.
    pub fn source(&self) -> (index: usize)
        ensures
            index == self.source_index(),
    {
        self.source
    }

    /// The index of the sink.
    pub fn sink(&self) -> (index: usize)
        ensures
            index == self.sink_index(),
    {
        self.sink
    }

    /// The label of the node at `index`.
    pub fn node(&self, index: usize) -> (label: NodeLabel)
        requires
            self.wf(),
            index < self.nodes().len(),
        ensures
            label == self.nodes()[index as int],
    {
        node_label(&self.graph, index)
    }

    /// The edge at `index`: where it leaves, where it enters, its capacity.
    pub fn edge(&self, index: usize) -> (edge: (usize, usize, usize))
        requires
            index < self.edges().len(),
        ensures
            edge == self.edges()[index as int],
    {
        edge_at(&self.graph, index)
    }

    /// Computes a maximum flow from the source to the sink: its value and
    /// the flow on every edge.  Which maximum flow it is is left open.
    pub fn maximum_flow(&self) -> (result: (usize, Vec<usize>))
        requires
            self.wf(),
        ensures
            is_maximum_flow(
                self.edges(),
                self.nodes().len(),
                self.source_index(),
                self.sink_index(),
                result.0 as int,
                result.1@,
            ),
    {
        assert forall|i: int| 0 <= i < graph_edges(self.graph).len() implies (
        #[trigger] graph_edges(self.graph)[i]).2 <= 1 by {
            assert(self.edges()[i].2 <= 1);
        }
        maximum_flow(&self.graph, self.source, self.sink)
    }

    /// Reads a flow of value `value` with `flows` on the edges.
    ///
    /// A flow that moves one unit per participant is a full assignment: every
    /// edge with flow on it between a sending and a receiving node becomes an
    /// assignment.  A smaller flow means that there is none, and the nodes
    /// whose edge at the source or at the sink carries nothing are handed back.
    pub fn decode_flow(&self, participant_count: usize, value: usize, flows: &Vec<usize>) -> (outcome:
        Result<Vec<Assignment>, Vec<NodeLabel>>)
        requires
            self.wf(),
            flows@.len() == self.edges().len(),
        ensures
            self.decodes_to(participant_count as nat, value as int, flows@, outcome),
    {
        let edges = self.edge_count();
        if value != participant_count {
            let mut problematic_nodes: Vec<NodeLabel> = Vec::new();
            let mut i: usize = 0;
            while i < edges
                invariant
                    self.wf(),
                    i <= edges == self.edges().len() == flows@.len(),
                    problematic_nodes@ == unfed(
                        self.nodes(),
                        self.edges(),
                        flows@,
                        self.source_index(),
                        i as int,
                    ),
                decreases edges - i,
            {
                let edge = self.edge(i);
                if edge.0 == self.source && flows[i] == 0 {
                    put_label(&mut problematic_nodes, self.node(edge.1));
                }
                i += 1;
            }
            let mut i: usize = 0;
            while i < edges
                invariant
                    self.wf(),
                    i <= edges == self.edges().len() == flows@.len(),
                    problematic_nodes@ == blocked(
                        self.nodes(),
                        self.edges(),
                        flows@,
                        self.source_index(),
                        self.sink_index(),
                        i as int,
                    ),
                decreases edges - i,
            {
                let edge = self.edge(i);
                if edge.1 == self.sink && flows[i] == 0 {
                    put_label(&mut problematic_nodes, self.node(edge.0));
                }
                i += 1;
            }
            return Err(problematic_nodes);
        }
        let mut assignments: Vec<Assignment> = Vec::new();
        let mut i: usize = 0;
        while i < edges
            invariant
                self.wf(),
                i <= edges == self.edges().len() == flows@.len(),
                assignments@ == carried(self.nodes(), self.edges(), flows@, i as int),
            decreases edges - i,
        {
            if flows[i] != 0 {
                let edge = self.edge(i);
                let from = self.node(edge.0);
                let to = self.node(edge.1);
                match (from, to) {
                    (NodeLabel::Sender(sender), NodeLabel::Receiver(recipient)) => {
                        put_assignment(&mut assignments, Assignment { sender, recipient });
                    },
                    _ => {},
                }
            }
            i += 1;
        }
        Ok(assignments)
    }
}

/// Solves the network and reads the result: the assignments of a flow that
/// moves one unit per participant, or, when the largest flow is smaller, the
/// nodes that it leaves out at the terminals.
pub fn get_matchings(participants: &Vec<Participant>, flow_network: FlowNetwork) -> (outcome:
    Result<Vec<Assignment>, Vec<NodeLabel>>)
    requires
        flow_network.wf(),
    ensures
        exists|value: int, flows: Seq<usize>|
            {
                &&& is_maximum_flow(
                    flow_network.edges(),
                    flow_network.nodes().len(),
                    flow_network.source_index(),
                    flow_network.sink_index(),
                    value,
                    flows,
                )
                &&& #[trigger] flow_network.decodes_to(participants@.len(), value, flows, outcome)
            },
{
    let (flow, edge_flows) = flow_network.maximum_flow();
    let outcome = flow_network.decode_flow(participants.len(), flow, &edge_flows);
    assert(flow_network.decodes_to(participants@.len(), flow as int, edge_flows@, outcome));
    outcome
}

} // verus!
