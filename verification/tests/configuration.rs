use secret_santa::configuration::{Configuration, Participant, Violation};
use secret_santa::permutation::{Assignment, Permutation};

fn person(name: &str) -> Participant {
    Participant {
        name: name.to_string(),
        discord_handle: format!("{}#0001", name.to_lowercase()),
        mailing_info: format!("1 {} Lane", name),
        interests: "Programming".to_string(),
    }
}

fn give(sender: usize, recipient: usize) -> Assignment {
    Assignment { sender, recipient }
}

/// Alice refuses to give to Bob; Charlie refuses to receive from Bob.
fn scenario() -> Configuration {
    Configuration {
        participants: vec![person("Alice"), person("Bob"), person("Charlie")],
        cannot_send_to: vec![vec![1], vec![], vec![]],
        cannot_receive_from: vec![vec![], vec![], vec![1]],
    }
}

#[test]
fn participants_are_the_same_by_name() {
    let mut other = person("Alice");
    other.discord_handle = "someone_else".to_string();
    other.interests = "Gardening".to_string();
    assert!(person("Alice") == other);
    assert!(person("Alice") != person("Bob"));
}

#[test]
fn participants_hash_by_name() {
    let mut other = person("Alice");
    other.mailing_info = "elsewhere".to_string();
    let mut set = std::collections::HashSet::new();
    assert!(set.insert(person("Alice")));
    assert!(!set.insert(other));
    assert!(set.insert(person("Bob")));
    assert_eq!(set.len(), 2);
}

#[test]
fn participants_show_name_and_handle() {
    assert_eq!(person("Alice").to_string(), "Alice (alice#0001)");
}

#[test]
fn well_formed_configurations_are_recognised() {
    assert!(scenario().is_well_formed());
    let empty = Configuration {
        participants: vec![],
        cannot_send_to: vec![],
        cannot_receive_from: vec![],
    };
    assert!(empty.is_well_formed());
}

#[test]
fn ill_formed_configurations_are_recognised() {
    let mut missing_entry = scenario();
    missing_entry.cannot_send_to.pop();
    assert!(!missing_entry.is_well_formed());

    let mut missing_entry = scenario();
    missing_entry.cannot_receive_from.push(vec![]);
    assert!(!missing_entry.is_well_formed());

    let mut stranger = scenario();
    stranger.cannot_send_to[2].push(3);
    assert!(!stranger.is_well_formed());

    let mut stranger = scenario();
    stranger.cannot_receive_from[0].push(17);
    assert!(!stranger.is_well_formed());

    let mut namesake = scenario();
    namesake.participants[2].name = "Alice".to_string();
    assert!(!namesake.is_well_formed());
}

#[test]
fn exclusions_are_satisfied_by_the_one_legal_cycle() {
    let configuration = scenario();
    // Alice -> Charlie -> Bob -> Alice
    let legal = Permutation { assignments: vec![give(0, 2), give(2, 1), give(1, 0)] };
    assert_eq!(configuration.ensure_exclusions_satisfied(&legal), Ok(()));
    assert_eq!(configuration.ensure_valid_permutation(&legal), Ok(()));
}

#[test]
fn a_refusal_to_send_is_reported() {
    let configuration = scenario();
    // Alice -> Bob is ruled out by Alice
    let other_cycle = Permutation { assignments: vec![give(2, 0), give(0, 1), give(1, 2)] };
    assert_eq!(
        configuration.ensure_exclusions_satisfied(&other_cycle),
        Err(Violation::CannotSendTo { sender: 0, recipient: 1 })
    );
}

#[test]
fn a_refusal_to_receive_is_reported() {
    let configuration = scenario();
    // Bob -> Charlie is ruled out by Charlie, and comes first here
    let other_cycle = Permutation { assignments: vec![give(1, 2), give(0, 1), give(2, 0)] };
    assert_eq!(
        configuration.ensure_exclusions_satisfied(&other_cycle),
        Err(Violation::CannotReceiveFrom { sender: 1, recipient: 2 })
    );
}

#[test]
fn the_refusal_to_send_is_looked_at_first() {
    // both sides rule the same gift out
    let configuration = Configuration {
        participants: vec![person("Alice"), person("Bob")],
        cannot_send_to: vec![vec![1], vec![]],
        cannot_receive_from: vec![vec![], vec![0]],
    };
    let swap = Permutation { assignments: vec![give(0, 1), give(1, 0)] };
    assert_eq!(
        configuration.ensure_exclusions_satisfied(&swap),
        Err(Violation::CannotSendTo { sender: 0, recipient: 1 })
    );
}

#[test]
fn exclusions_are_directed() {
    // Alice refuses to give to Bob; Bob may still give to Alice
    let configuration = Configuration {
        participants: vec![person("Alice"), person("Bob"), person("Charlie")],
        cannot_send_to: vec![vec![1], vec![], vec![]],
        cannot_receive_from: vec![vec![], vec![], vec![]],
    };
    let through_bob = Permutation { assignments: vec![give(1, 0), give(0, 2), give(2, 1)] };
    assert_eq!(configuration.ensure_valid_permutation(&through_bob), Ok(()));
}

#[test]
fn a_self_assignment_is_reported_before_any_exclusion() {
    let configuration = scenario();
    // Alice -> Bob is excluded and comes first, but Charlie -> Charlie is what is reported
    let candidate = Permutation { assignments: vec![give(0, 1), give(1, 0), give(2, 2)] };
    assert_eq!(
        configuration.ensure_valid_permutation(&candidate),
        Err(Violation::SelfAssignment { participant: 2 })
    );
    assert_eq!(
        configuration.ensure_exclusions_satisfied(&candidate),
        Err(Violation::CannotSendTo { sender: 0, recipient: 1 })
    );
}

#[test]
fn violations_read_as_messages() {
    let configuration = scenario();
    let people = &configuration.participants;
    assert_eq!(
        Violation::SelfAssignment { participant: 2 }.to_string(people),
        "Participant Charlie (charlie#0001) maps to themselves"
    );
    assert_eq!(
        Violation::CannotSendTo { sender: 0, recipient: 1 }.to_string(people),
        "Invalid permutation: Alice cannot send to Bob"
    );
    assert_eq!(
        Violation::CannotReceiveFrom { sender: 1, recipient: 2 }.to_string(people),
        "Invalid permutation: Charlie cannot receive from Bob"
    );
}
