use std::collections::HashSet;

use secret_santa::configuration::Participant;
use secret_santa::matching::{construct_flow_network, get_matchings, FlowNetwork, NodeLabel};

fn get_test_participants() -> (Participant, Participant, Participant) {
    let alice = Participant {
        name: "Alice".to_string(),
        discord_handle: "alice#1234".to_string(),
        mailing_info: "1234 Alice Lane".to_string(),
        interests: "Programming, cats".to_string(),
    };
    let bob = Participant {
        name: "Bob".to_string(),
        discord_handle: "bob#5678".to_string(),
        mailing_info: "5678 Bob Lane".to_string(),
        interests: "Programming, dogs".to_string(),
    };
    let charlie = Participant {
        name: "Charlie".to_string(),
        discord_handle: "charlie#9101".to_string(),
        mailing_info: "9101 Charlie Lane".to_string(),
        interests: "Programming, birds".to_string(),
    };

    (alice, bob, charlie)
}

/// The name of a node: the terminals by their role in the flow, the other
/// nodes by their participant and their side.
fn node_name(participants: &[Participant], label: NodeLabel) -> String {
    match label {
        NodeLabel::Source => "flow_source".to_string(),
        NodeLabel::Sink => "flow_sink".to_string(),
        NodeLabel::Sender(p) => format!("{}_send", participants[p].name),
        NodeLabel::Receiver(p) => format!("{}_receive", participants[p].name),
    }
}

fn find_named(network: &FlowNetwork, participants: &[Participant], name: &str) -> usize {
    (0..network.node_count())
        .find(|&index| node_name(participants, network.node(index)) == name)
        .unwrap()
}

#[test]
fn matching_test_construct_flow_network() {
    let (alice, bob, charlie) = get_test_participants();
    let second = 1;

    let participants = vec![alice, bob, charlie];

    // Alice refuses to give to Bob
    let cannot_send_to: Vec<Vec<usize>> = vec![vec![second], vec![], vec![]];
    // Charlie refuses to receive from Bob
    let cannot_receive_from: Vec<Vec<usize>> = vec![vec![], vec![], vec![second]];

    let flow_network = construct_flow_network(&participants, &cannot_send_to, &cannot_receive_from);

    // Each participant gets 1 sender node and 1 receiver node
    // +1 source node and +1 sink node makes 3*2 + 2 = 8 nodes
    assert_eq!(flow_network.node_count(), 8);

    let edges = HashSet::<(usize, usize, u8)>::from_iter((0..flow_network.edge_count()).map(
        |index| {
            let (source, target, _) = flow_network.edge(index);
            (source, target, 1)
        },
    ));

    let source_node_index = find_named(&flow_network, &participants, "flow_source");
    let sink_node_index = find_named(&flow_network, &participants, "flow_sink");
    let alice_send_index = find_named(&flow_network, &participants, "Alice_send");
    let alice_receive_index = find_named(&flow_network, &participants, "Alice_receive");
    let bob_send_index = find_named(&flow_network, &participants, "Bob_send");
    let bob_receive_index = find_named(&flow_network, &participants, "Bob_receive");
    let charlie_send_index = find_named(&flow_network, &participants, "Charlie_send");
    let charlie_receive_index = find_named(&flow_network, &participants, "Charlie_receive");
    assert_eq!(
        edges,
        HashSet::from_iter(vec![
            (source_node_index, alice_send_index, 1),
            (source_node_index, bob_send_index, 1),
            (source_node_index, charlie_send_index, 1),
            (alice_receive_index, sink_node_index, 1),
            (bob_receive_index, sink_node_index, 1),
            (charlie_receive_index, sink_node_index, 1),
            (alice_send_index, charlie_receive_index, 1),
            (bob_send_index, alice_receive_index, 1),
            (charlie_send_index, alice_receive_index, 1),
            (charlie_send_index, bob_receive_index, 1),
        ])
    );
}

#[test]
fn matching_test_get_matchings() {
    let (alice, bob, charlie) = get_test_participants();
    let second = 1;

    let mut participants = vec![alice, bob, charlie];
    let david = Participant {
        name: "David".to_string(),
        discord_handle: "david#1213".to_string(),
        mailing_info: "1213 David Lane".to_string(),
        interests: "Programming, fish".to_string(),
    };
    participants.push(david);

    let cannot_send_to: Vec<Vec<usize>> = vec![vec![second], vec![], vec![], vec![]];
    let cannot_receive_from: Vec<Vec<usize>> = vec![vec![], vec![], vec![second], vec![]];

    let flow_network = construct_flow_network(&participants, &cannot_send_to, &cannot_receive_from);
    let assignments = get_matchings(&participants, flow_network).unwrap();

    assert_eq!(assignments.len(), participants.len());

    for assignment in &assignments {
        assert_ne!(assignment.sender, assignment.recipient);
        assert!(!cannot_send_to[assignment.sender].contains(&assignment.recipient));
        assert!(!cannot_receive_from[assignment.recipient].contains(&assignment.sender));
    }
}

#[test]
fn matching_test_get_matchings_when_impossible() {
    let (alice, bob, charlie) = get_test_participants();
    let (second, third) = (1, 2);

    let participants = vec![alice, bob, charlie];

    let cannot_send_to: Vec<Vec<usize>> = vec![vec![second, third], vec![], vec![]];
    let cannot_receive_from: Vec<Vec<usize>> = vec![vec![], vec![], vec![]];

    let flow_network = construct_flow_network(&participants, &cannot_send_to, &cannot_receive_from);
    let assignments = get_matchings(&participants, flow_network);

    assert!(assignments.is_err());
}
