use secret_santa::configuration::{Configuration, Participant};
use secret_santa::flow_network::{construct_flow_network, NodeLabel};
use secret_santa::matching::{describe_infeasibility, try_generate_assignments_via_flow_network};
use secret_santa::permutation::{Assignment, Permutation};

fn person(name: &str) -> Participant {
    Participant {
        name: name.to_string(),
        discord_handle: format!("{}#0001", name.to_lowercase()),
        mailing_info: format!("1 {} Lane", name),
        interests: "Programming".to_string(),
    }
}

fn group(count: usize) -> Vec<Participant> {
    ["Alice", "Bob", "Charlie", "David", "Erin", "Frank"][..count]
        .iter()
        .map(|name| person(name))
        .collect()
}

fn free_group(count: usize) -> Configuration {
    Configuration {
        participants: group(count),
        cannot_send_to: vec![vec![]; count],
        cannot_receive_from: vec![vec![]; count],
    }
}

fn permitted(configuration: &Configuration, sender: usize, recipient: usize) -> bool {
    sender != recipient
        && !configuration.cannot_send_to[sender].contains(&recipient)
        && !configuration.cannot_receive_from[recipient].contains(&sender)
}

/// Whether some rearrangement of the participants is a legal assignment, by
/// trying them all.
fn some_legal_assignment_exists(configuration: &Configuration) -> bool {
    fn extend(configuration: &Configuration, taken: &mut Vec<bool>, sender: usize) -> bool {
        let count = configuration.participants.len();
        if sender == count {
            return true;
        }
        for recipient in 0..count {
            if !taken[recipient] && permitted(configuration, sender, recipient) {
                taken[recipient] = true;
                let found = extend(configuration, taken, sender + 1);
                taken[recipient] = false;
                if found {
                    return true;
                }
            }
        }
        false
    }
    let mut taken = vec![false; configuration.participants.len()];
    extend(configuration, &mut taken, 0)
}

fn assert_full_legal_assignment(configuration: &Configuration, assignments: &[Assignment]) {
    let count = configuration.participants.len();
    assert_eq!(assignments.len(), count);
    for participant in 0..count {
        assert_eq!(assignments.iter().filter(|a| a.sender == participant).count(), 1);
        assert_eq!(assignments.iter().filter(|a| a.recipient == participant).count(), 1);
    }
    for assignment in assignments {
        assert!(permitted(configuration, assignment.sender, assignment.recipient));
    }
    let permutation =
        Permutation::try_new(assignments.to_vec(), &configuration.participants).unwrap();
    assert_eq!(configuration.ensure_valid_permutation(&permutation), Ok(()));
}

#[test]
fn scenario_with_one_legal_cycle() {
    // Alice cannot send to Bob; Charlie cannot receive from Bob
    let configuration = Configuration {
        participants: group(3),
        cannot_send_to: vec![vec![1], vec![], vec![]],
        cannot_receive_from: vec![vec![], vec![], vec![1]],
    };
    let assignments = try_generate_assignments_via_flow_network(&configuration).unwrap();
    assert_eq!(assignments.len(), 3);
    assert!(!assignments.contains(&Assignment { sender: 0, recipient: 1 }));
    assert!(!assignments.contains(&Assignment { sender: 1, recipient: 2 }));
    assert!(assignments.iter().all(|a| a.sender != a.recipient));
    // only Alice -> Charlie -> Bob -> Alice is left
    assert!(assignments.contains(&Assignment { sender: 0, recipient: 2 }));
    assert!(assignments.contains(&Assignment { sender: 2, recipient: 1 }));
    assert!(assignments.contains(&Assignment { sender: 1, recipient: 0 }));
    assert_full_legal_assignment(&configuration, &assignments);
}

#[test]
fn scenario_with_a_sender_who_refuses_everybody() {
    // Alice cannot send to either Bob or Charlie
    let configuration = Configuration {
        participants: group(3),
        cannot_send_to: vec![vec![1, 2], vec![], vec![]],
        cannot_receive_from: vec![vec![], vec![], vec![]],
    };
    let network = construct_flow_network(
        &configuration.participants,
        &configuration.cannot_send_to,
        &configuration.cannot_receive_from,
    );
    let (value, flows) = network.maximum_flow();
    assert_eq!(value, 2);
    assert_eq!(flows.len(), network.edge_count());

    let problematic = try_generate_assignments_via_flow_network(&configuration).unwrap_err();
    assert!(problematic.contains(&NodeLabel::Sender(0)));
    assert!(!problematic.contains(&NodeLabel::Sender(1)));
    assert!(!problematic.contains(&NodeLabel::Sender(2)));
    assert!(!problematic.contains(&NodeLabel::Source));
    assert!(!problematic.contains(&NodeLabel::Sink));
}

#[test]
fn scenario_without_exclusions() {
    let configuration = free_group(4);
    let assignments = try_generate_assignments_via_flow_network(&configuration).unwrap();
    assert_eq!(assignments.len(), 4);
    assert!(assignments.iter().all(|a| a.sender != a.recipient));
    assert_full_legal_assignment(&configuration, &assignments);
}

#[test]
fn scenario_with_both_sides_blocked() {
    // Alice refuses to give to anybody, and nobody may give to David: Bob and
    // Charlie refuse to, Alice is refused by David
    let configuration = Configuration {
        participants: group(4),
        cannot_send_to: vec![vec![1, 2, 3], vec![3], vec![3], vec![]],
        cannot_receive_from: vec![vec![], vec![], vec![], vec![0]],
    };
    let problematic = try_generate_assignments_via_flow_network(&configuration).unwrap_err();
    assert!(problematic.contains(&NodeLabel::Sender(0)));
    assert!(problematic.contains(&NodeLabel::Receiver(3)));
    assert!(!problematic.contains(&NodeLabel::Receiver(0)));
    assert!(!problematic.contains(&NodeLabel::Sender(3)));
    // the other three can give among themselves and to Alice: three units flow,
    // and one node stays idle on either side
    let senders = problematic.iter().filter(|node| matches!(node, NodeLabel::Sender(_))).count();
    let receivers =
        problematic.iter().filter(|node| matches!(node, NodeLabel::Receiver(_))).count();
    assert_eq!(senders, 1);
    assert_eq!(receivers, 1);
    assert_eq!(problematic, vec![NodeLabel::Sender(0), NodeLabel::Receiver(3)]);

    let message = describe_infeasibility(&configuration.participants, &problematic);
    assert!(message.starts_with("Failed to find a valid assignment: "));
    assert!(message.contains("Alice is unable to send to anyone"));
    assert!(message.contains("David is unable to receive from anyone"));
    assert!(!message.contains("Alice is unable to receive from anyone"));
    assert!(!message.contains("David is unable to send to anyone"));
}

#[test]
fn one_refusal_each_way_blocks_only_who_it_isolates() {
    // every participant but the last refuses one other; a legal assignment is left
    let configuration = Configuration {
        participants: group(4),
        cannot_send_to: vec![vec![1], vec![2], vec![3], vec![]],
        cannot_receive_from: vec![vec![], vec![], vec![], vec![]],
    };
    let assignments = try_generate_assignments_via_flow_network(&configuration).unwrap();
    assert_full_legal_assignment(&configuration, &assignments);
}

#[test]
fn blocked_nodes_are_put_into_words_in_order() {
    let participants = group(3);
    let problematic = vec![
        NodeLabel::Sender(0),
        NodeLabel::Source,
        NodeLabel::Receiver(2),
        NodeLabel::Sink,
        NodeLabel::Sender(1),
    ];
    assert_eq!(
        describe_infeasibility(&participants, &problematic),
        "Failed to find a valid assignment: Alice is unable to send to anyone, \
         Charlie is unable to receive from anyone, Bob is unable to send to anyone"
    );
    assert_eq!(
        describe_infeasibility(&participants, &[NodeLabel::Receiver(1)].to_vec()),
        "Failed to find a valid assignment: Bob is unable to receive from anyone"
    );
    assert_eq!(
        describe_infeasibility(&participants, &Vec::new()),
        "Failed to find a valid assignment: "
    );
}

#[test]
fn node_labels_show_the_role_or_the_name() {
    let participants = group(2);
    assert_eq!(NodeLabel::Source.to_string(&participants), "Source");
    assert_eq!(NodeLabel::Sink.to_string(&participants), "Sink");
    assert_eq!(NodeLabel::Sender(1).to_string(&participants), "Bob");
    assert_eq!(NodeLabel::Receiver(0).to_string(&participants), "Alice");
}

#[test]
fn small_groups() {
    // nobody to assign: the empty assignment is full and legal
    let nobody = free_group(0);
    assert_eq!(try_generate_assignments_via_flow_network(&nobody), Ok(vec![]));
    // one participant can only give to themself
    let alone = free_group(1);
    let problematic = try_generate_assignments_via_flow_network(&alone).unwrap_err();
    assert!(problematic.contains(&NodeLabel::Sender(0)));
    assert!(problematic.contains(&NodeLabel::Receiver(0)));
    assert_eq!(problematic.len(), 2);
    // two participants swap
    let pair = free_group(2);
    let assignments = try_generate_assignments_via_flow_network(&pair).unwrap();
    assert!(assignments.contains(&Assignment { sender: 0, recipient: 1 }));
    assert!(assignments.contains(&Assignment { sender: 1, recipient: 0 }));
    assert_eq!(assignments.len(), 2);
}

/// Every way of ruling pairs out among `count` participants: each ordered
/// pair is left alone, ruled out by the sender, or ruled out by the recipient.
fn every_configuration(count: usize) -> Vec<Configuration> {
    let pairs: Vec<(usize, usize)> = (0..count)
        .flat_map(|s| (0..count).filter(move |&r| r != s).map(move |r| (s, r)))
        .collect();
    let mut all = Vec::new();
    let mut code = vec![0u8; pairs.len()];
    loop {
        let mut configuration = free_group(count);
        for (&(sender, recipient), &how) in pairs.iter().zip(code.iter()) {
            match how {
                1 => configuration.cannot_send_to[sender].push(recipient),
                2 => configuration.cannot_receive_from[recipient].push(sender),
                _ => {}
            }
        }
        all.push(configuration);
        let mut place = 0;
        while place < code.len() && code[place] == 2 {
            code[place] = 0;
            place += 1;
        }
        if place == code.len() {
            return all;
        }
        code[place] += 1;
    }
}

#[test]
fn the_answer_agrees_with_exhaustive_search_for_three() {
    let all = every_configuration(3);
    assert_eq!(all.len(), 729);
    for configuration in all {
        assert!(configuration.is_well_formed());
        match try_generate_assignments_via_flow_network(&configuration) {
            Ok(assignments) => assert_full_legal_assignment(&configuration, &assignments),
            Err(problematic) => {
                assert!(!some_legal_assignment_exists(&configuration));
                assert!(!problematic.is_empty());
            }
        }
    }
}

#[test]
fn the_answer_agrees_with_exhaustive_search_for_four() {
    // every choice of pairs ruled out by the sender, among four participants
    let pairs: Vec<(usize, usize)> =
        (0..4).flat_map(|s| (0..4).filter(move |&r| r != s).map(move |r| (s, r))).collect();
    let mut feasible = 0;
    for code in 0u32..(1 << pairs.len()) {
        let mut configuration = free_group(4);
        for (bit, &(sender, recipient)) in pairs.iter().enumerate() {
            if code & (1 << bit) != 0 {
                configuration.cannot_send_to[sender].push(recipient);
            }
        }
        let expected = some_legal_assignment_exists(&configuration);
        match try_generate_assignments_via_flow_network(&configuration) {
            Ok(assignments) => {
                assert!(expected);
                assert_full_legal_assignment(&configuration, &assignments);
                feasible += 1;
            }
            Err(problematic) => {
                assert!(!expected);
                // whoever may give to nobody is named as a sender, whoever may
                // receive from nobody as a receiver
                for p in 0..4 {
                    if (0..4).all(|r| !permitted(&configuration, p, r)) {
                        assert!(problematic.contains(&NodeLabel::Sender(p)));
                    }
                    if (0..4).all(|s| !permitted(&configuration, s, p)) {
                        assert!(problematic.contains(&NodeLabel::Receiver(p)));
                    }
                }
            }
        }
    }
    assert!(feasible > 0);
    assert!(feasible < 1 << pairs.len());
}

#[test]
fn the_network_is_the_same_every_time() {
    let configuration = Configuration {
        participants: group(5),
        cannot_send_to: vec![vec![1, 4], vec![], vec![0], vec![2, 1], vec![]],
        cannot_receive_from: vec![vec![3], vec![], vec![4], vec![], vec![0, 1]],
    };
    let build = || {
        construct_flow_network(
            &configuration.participants,
            &configuration.cannot_send_to,
            &configuration.cannot_receive_from,
        )
    };
    let first = build();
    let second = build();
    assert_eq!(first.node_count(), second.node_count());
    assert_eq!(first.edge_count(), second.edge_count());
    assert_eq!(first.source(), second.source());
    assert_eq!(first.sink(), second.sink());
    for index in 0..first.node_count() {
        assert_eq!(first.node(index), second.node(index));
    }
    for index in 0..first.edge_count() {
        assert_eq!(first.edge(index), second.edge(index));
    }
}

#[test]
fn the_network_has_its_nodes_and_edges_in_a_fixed_order() {
    let configuration = Configuration {
        participants: group(2),
        cannot_send_to: vec![vec![], vec![]],
        cannot_receive_from: vec![vec![], vec![]],
    };
    let network = construct_flow_network(
        &configuration.participants,
        &configuration.cannot_send_to,
        &configuration.cannot_receive_from,
    );
    let nodes: Vec<NodeLabel> = (0..network.node_count()).map(|i| network.node(i)).collect();
    assert_eq!(
        nodes,
        vec![
            NodeLabel::Source,
            NodeLabel::Sink,
            NodeLabel::Sender(0),
            NodeLabel::Receiver(0),
            NodeLabel::Sender(1),
            NodeLabel::Receiver(1),
        ]
    );
    let edges: Vec<(usize, usize, usize)> =
        (0..network.edge_count()).map(|i| network.edge(i)).collect();
    assert_eq!(edges, vec![(0, 2, 1), (3, 1, 1), (0, 4, 1), (5, 1, 1), (2, 5, 1), (4, 3, 1)]);
    assert_eq!((network.source(), network.sink()), (0, 1));
}

#[test]
fn a_flow_is_read_edge_by_edge() {
    let configuration = free_group(2);
    let network = construct_flow_network(
        &configuration.participants,
        &configuration.cannot_send_to,
        &configuration.cannot_receive_from,
    );
    // edges: source->s0, r0->sink, source->s1, r1->sink, s0->r1, s1->r0
    assert_eq!(
        network.decode_flow(2, 2, &vec![1, 1, 1, 1, 1, 1]),
        Ok(vec![Assignment { sender: 0, recipient: 1 }, Assignment { sender: 1, recipient: 0 }])
    );
    assert_eq!(
        network.decode_flow(2, 1, &vec![1, 0, 0, 1, 1, 0]),
        Err(vec![NodeLabel::Sender(1), NodeLabel::Receiver(0)])
    );
    assert_eq!(
        network.decode_flow(2, 0, &vec![0, 0, 0, 0, 0, 0]),
        Err(vec![
            NodeLabel::Sender(0),
            NodeLabel::Sender(1),
            NodeLabel::Receiver(0),
            NodeLabel::Receiver(1),
        ])
    );
}
