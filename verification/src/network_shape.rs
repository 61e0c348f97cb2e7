//! The shape of the network for a model: which edge stands where, that no
//! edge between participants occurs twice, and that none is missing.

use crate::configuration::ExclusionModel;
use crate::flow_network::{
    network_edges, pair_edge, pair_edges, receiver_node, row_edges, sender_node, terminal_edges,
    MAX_PARTICIPANTS,
};
use vstd::prelude::*;

verus! {

/// The participant whose sending node `edge` leaves, if it leaves one.
pub open spec fn edge_sender(edge: (usize, usize, usize)) -> int {
    (edge.0 - 2) / 2
}

/// The participant whose receiving node `edge` enters, if it enters one.
pub open spec fn edge_recipient(edge: (usize, usize, usize)) -> int {
    (edge.1 - 3) / 2
}

/// `edge` runs from the sending node of a participant to the receiving node
/// of a participant they may give to.
pub open spec fn joins_permitted_pair(model: ExclusionModel, edge: (usize, usize, usize)) -> bool {
    &&& 0 <= edge_sender(edge) < model.count
    &&& 0 <= edge_recipient(edge) < model.count
    &&& model.permits(edge_sender(edge), edge_recipient(edge))
    &&& edge == pair_edge(edge_sender(edge), edge_recipient(edge))
}

/// The two participants can be read back from the edge that joins them.
pub proof fn lemma_pair_edge_ends(sender: int, recipient: int)
    requires
        0 <= sender <= MAX_PARTICIPANTS,
        0 <= recipient <= MAX_PARTICIPANTS,
    ensures
        edge_sender(pair_edge(sender, recipient)) == sender,
        edge_recipient(pair_edge(sender, recipient)) == recipient,
        pair_edge(sender, recipient).0 == sender_node(sender),
        pair_edge(sender, recipient).1 == receiver_node(recipient),
{
}

/// Every edge of a row joins the sender of the row to a participant before
/// `upto` that the sender may give to.
pub proof fn lemma_row_edges_shape(model: ExclusionModel, sender: int, upto: int)
    requires
        model.count <= MAX_PARTICIPANTS,
        0 <= sender < model.count,
        0 <= upto <= model.count,
    ensures
        forall|k: int|
            0 <= k < row_edges(model, sender, upto).len() ==> {
                &&& joins_permitted_pair(model, #[trigger] row_edges(model, sender, upto)[k])
                &&& edge_sender(row_edges(model, sender, upto)[k]) == sender
                &&& edge_recipient(row_edges(model, sender, upto)[k]) < upto
            },
    decreases upto,
{
    if upto > 0 {
        lemma_row_edges_shape(model, sender, upto - 1);
        lemma_pair_edge_ends(sender, upto - 1);
        let before = row_edges(model, sender, upto - 1);
        let row = row_edges(model, sender, upto);
        assert forall|k: int| 0 <= k < row.len() implies {
            &&& joins_permitted_pair(model, #[trigger] row[k])
            &&& edge_sender(row[k]) == sender
            &&& edge_recipient(row[k]) < upto
        } by {
            if k < before.len() {
                assert(row[k] == before[k]);
            } else {
                assert(row[k] == pair_edge(sender, upto - 1));
            }
        }
    }
}

/// Every edge between participants joins a sender before `rows` to a
/// participant they may give to.
pub proof fn lemma_pair_edges_shape(model: ExclusionModel, rows: int)
    requires
        model.count <= MAX_PARTICIPANTS,
        0 <= rows <= model.count,
    ensures
        forall|j: int|
            0 <= j < pair_edges(model, rows).len() ==> {
                &&& joins_permitted_pair(model, #[trigger] pair_edges(model, rows)[j])
                &&& edge_sender(pair_edges(model, rows)[j]) < rows
            },
    decreases rows,
{
    if rows > 0 {
        lemma_pair_edges_shape(model, rows - 1);
        lemma_row_edges_shape(model, rows - 1, model.count as int);
        let before = pair_edges(model, rows - 1);
        let row = row_edges(model, rows - 1, model.count as int);
        let all = pair_edges(model, rows);
        assert forall|j: int| 0 <= j < all.len() implies {
            &&& joins_permitted_pair(model, #[trigger] all[j])
            &&& edge_sender(all[j]) < rows
        } by {
            if j < before.len() {
                assert(all[j] == before[j]);
            } else {
                assert(all[j] == row[j - before.len()]);
            }
        }
    }
}

/// The first edges of the network are those at the terminals, and every
/// other edge joins a participant to one they may give to.
pub proof fn lemma_network_shape(model: ExclusionModel)
    requires
        model.count <= MAX_PARTICIPANTS,
    ensures
        network_edges(model).len() >= 2 * model.count,
        forall|i: int|
            0 <= i < 2 * model.count ==> #[trigger] network_edges(model)[i] == terminal_edges(
                model.count,
            )[i],
        forall|i: int|
            2 * model.count <= i < network_edges(model).len() ==> joins_permitted_pair(
                model,
                #[trigger] network_edges(model)[i],
            ),
{
    lemma_pair_edges_shape(model, model.count as int);
    assert forall|i: int| 2 * model.count <= i < network_edges(model).len() implies joins_permitted_pair(
        model,
        #[trigger] network_edges(model)[i],
    ) by {
        assert(network_edges(model)[i] == pair_edges(model, model.count as int)[i - 2
            * model.count]);
    }
}


/// The edges of a row come in the order of their recipients.
pub proof fn lemma_row_edges_sorted(model: ExclusionModel, sender: int, upto: int)
    requires
        model.count <= MAX_PARTICIPANTS,
        0 <= sender < model.count,
        0 <= upto <= model.count,
    ensures
        forall|k1: int, k2: int|
            0 <= k1 < k2 < row_edges(model, sender, upto).len() ==> edge_recipient(
                #[trigger] row_edges(model, sender, upto)[k1],
            ) < edge_recipient(#[trigger] row_edges(model, sender, upto)[k2]),
    decreases upto,
{
    if upto > 0 {
        lemma_row_edges_sorted(model, sender, upto - 1);
        lemma_row_edges_shape(model, sender, upto - 1);
        lemma_pair_edge_ends(sender, upto - 1);
        let before = row_edges(model, sender, upto - 1);
        let row = row_edges(model, sender, upto);
        assert forall|k1: int, k2: int| 0 <= k1 < k2 < row.len() implies edge_recipient(
            #[trigger] row[k1],
        ) < edge_recipient(#[trigger] row[k2]) by {
            assert(row[k1] == before[k1]);
            if k2 < before.len() {
                assert(row[k2] == before[k2]);
            }
        }
    }
}

/// `first` comes before `second` in the order of the edges between
/// participants: by sender, and by recipient where the sender is the same.
pub open spec fn edge_precedes(first: (usize, usize, usize), second: (usize, usize, usize)) -> bool {
    edge_sender(first) < edge_sender(second) || (edge_sender(first) == edge_sender(second)
        && edge_recipient(first) < edge_recipient(second))
}

/// The edges between participants come in order, so none occurs twice.
pub proof fn lemma_pair_edges_sorted(model: ExclusionModel, rows: int)
    requires
        model.count <= MAX_PARTICIPANTS,
        0 <= rows <= model.count,
    ensures
        forall|j1: int, j2: int|
            0 <= j1 < j2 < pair_edges(model, rows).len() ==> edge_precedes(
                #[trigger] pair_edges(model, rows)[j1],
                #[trigger] pair_edges(model, rows)[j2],
            ),
    decreases rows,
{
    if rows > 0 {
        lemma_pair_edges_sorted(model, rows - 1);
        lemma_pair_edges_shape(model, rows - 1);
        lemma_row_edges_shape(model, rows - 1, model.count as int);
        lemma_row_edges_sorted(model, rows - 1, model.count as int);
        let before = pair_edges(model, rows - 1);
        let row = row_edges(model, rows - 1, model.count as int);
        let all = pair_edges(model, rows);
        assert forall|j1: int, j2: int| 0 <= j1 < j2 < all.len() implies edge_precedes(
            #[trigger] all[j1],
            #[trigger] all[j2],
        ) by {
            if j2 < before.len() {
                assert(all[j1] == before[j1]);
                assert(all[j2] == before[j2]);
            } else if j1 < before.len() {
                assert(all[j1] == before[j1]);
                assert(all[j2] == row[j2 - before.len()]);
            } else {
                assert(all[j1] == row[j1 - before.len()]);
                assert(all[j2] == row[j2 - before.len()]);
            }
        }
    }
}

/// A row holds the edge to every recipient before `upto` that the sender may give to.
pub proof fn lemma_row_edges_complete(
    model: ExclusionModel,
    sender: int,
    upto: int,
    recipient: int,
) -> (k: int)
    requires
        0 <= recipient < upto,
        model.permits(sender, recipient),
    ensures
        0 <= k < row_edges(model, sender, upto).len(),
        row_edges(model, sender, upto)[k] == pair_edge(sender, recipient),
    decreases upto,
{
    if recipient == upto - 1 {
        row_edges(model, sender, upto - 1).len() as int
    } else {
        lemma_row_edges_complete(model, sender, upto - 1, recipient)
    }
}

/// The edges between participants hold the edge for every sender before
/// `rows` and every recipient that the sender may give to.
pub proof fn lemma_pair_edges_complete(
    model: ExclusionModel,
    rows: int,
    sender: int,
    recipient: int,
) -> (j: int)
    requires
        0 <= sender < rows,
        0 <= recipient < model.count,
        model.permits(sender, recipient),
    ensures
        0 <= j < pair_edges(model, rows).len(),
        pair_edges(model, rows)[j] == pair_edge(sender, recipient),
    decreases rows,
{
    if sender == rows - 1 {
        let k = lemma_row_edges_complete(model, sender, model.count as int, recipient);
        pair_edges(model, rows - 1).len() + k
    } else {
        lemma_pair_edges_complete(model, rows - 1, sender, recipient)
    }
}

/// No two edges between participants join the same pair.
pub proof fn lemma_network_pairs_differ(model: ExclusionModel)
    requires
        model.count <= MAX_PARTICIPANTS,
    ensures
        forall|i: int, j: int|
            2 * model.count <= i < j < network_edges(model).len() ==> #[trigger] network_edges(
                model,
            )[i] != #[trigger] network_edges(model)[j],
{
    lemma_pair_edges_sorted(model, model.count as int);
    let pairs = pair_edges(model, model.count as int);
    assert forall|i: int, j: int|
        2 * model.count <= i < j < network_edges(model).len() implies #[trigger] network_edges(
        model,
    )[i] != #[trigger] network_edges(model)[j] by {
        assert(network_edges(model)[i] == pairs[i - 2 * model.count]);
        assert(network_edges(model)[j] == pairs[j - 2 * model.count]);
        assert(edge_precedes(pairs[i - 2 * model.count], pairs[j - 2 * model.count]));
    }
}

/// The network holds the edge for every pair of which the first may give to
/// the second.
pub proof fn lemma_network_has_pair(model: ExclusionModel, sender: int, recipient: int) -> (i: int)
    requires
        0 <= sender < model.count,
        0 <= recipient < model.count,
        model.permits(sender, recipient),
    ensures
        2 * model.count <= i < network_edges(model).len(),
        network_edges(model)[i] == pair_edge(sender, recipient),
{
    let j = lemma_pair_edges_complete(model, model.count as int, sender, recipient);
    2 * model.count + j
}

} // verus!
