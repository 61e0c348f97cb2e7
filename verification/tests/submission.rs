use secret_santa::configuration::Participant;
use secret_santa::submission::{
    configuration_from_submissions, find_participant, last_submissions,
    participant_from_submission, resolve_names, FormSubmission,
};
use secret_santa::text::{join, split_names};

fn form(name: &str, cannot_send_to_me: &[&str], cannot_receive_from_me: &[&str]) -> FormSubmission {
    FormSubmission {
        name: name.to_string(),
        discord_handle: format!("{}#0001", name.to_lowercase()),
        cannot_send_to_submitter: cannot_send_to_me.iter().map(|s| s.to_string()).collect(),
        cannot_receive_from_submitter: cannot_receive_from_me
            .iter()
            .map(|s| s.to_string())
            .collect(),
        mailing_info: format!("1 {} Lane", name),
        interests: "Programming".to_string(),
    }
}

fn names(participants: &[Participant]) -> Vec<&str> {
    participants.iter().map(|p| p.name.as_str()).collect()
}

#[test]
fn a_submission_becomes_a_participant() {
    let submission = FormSubmission {
        name: "Alice".to_string(),
        discord_handle: "alice#1234".to_string(),
        cannot_send_to_submitter: vec!["Bob".to_string()],
        cannot_receive_from_submitter: vec![],
        mailing_info: "1234 Alice Lane".to_string(),
        interests: "Programming, cats".to_string(),
    };
    let participant = participant_from_submission(&submission);
    assert_eq!(participant.name, "Alice");
    assert_eq!(participant.discord_handle, "alice#1234");
    assert_eq!(participant.mailing_info, "1234 Alice Lane");
    assert_eq!(participant.interests, "Programming, cats");
}

#[test]
fn submissions_become_a_configuration() {
    let submissions = vec![
        // Bob must not give to Alice
        form("Alice", &["Bob"], &[]),
        form("Bob", &[], &[]),
        // Charlie must not give to Alice or Bob
        form("Charlie", &[], &["Alice", "Bob"]),
    ];
    let configuration = configuration_from_submissions(&submissions);
    assert!(configuration.is_well_formed());
    assert_eq!(names(&configuration.participants), vec!["Alice", "Bob", "Charlie"]);
    assert_eq!(configuration.cannot_receive_from, vec![vec![1], vec![], vec![]]);
    assert_eq!(configuration.cannot_send_to, vec![vec![], vec![], vec![0, 1]]);
}

#[test]
fn unknown_names_are_dropped() {
    let submissions = vec![
        form("Alice", &["Zed", "Bob", "", "bob"], &["Nobody"]),
        form("Bob", &["Alice "], &["Alice", "Yves"]),
    ];
    let configuration = configuration_from_submissions(&submissions);
    assert!(configuration.is_well_formed());
    assert_eq!(configuration.cannot_receive_from, vec![vec![1], vec![]]);
    assert_eq!(configuration.cannot_send_to, vec![vec![], vec![0]]);
}

#[test]
fn repeated_names_on_a_list_count_once() {
    let submissions = vec![form("Alice", &["Bob", "Bob", "Alice", "Bob"], &[]), form("Bob", &[], &[])];
    let configuration = configuration_from_submissions(&submissions);
    assert_eq!(configuration.cannot_receive_from, vec![vec![1, 0], vec![]]);
}

#[test]
fn the_last_form_under_a_name_counts() {
    let mut second = form("Alice", &[], &["Bob"]);
    second.interests = "Gardening".to_string();
    let submissions = vec![form("Alice", &["Bob"], &[]), form("Bob", &[], &[]), second];
    assert_eq!(last_submissions(&submissions), vec![2, 1]);
    let configuration = configuration_from_submissions(&submissions);
    assert!(configuration.is_well_formed());
    assert_eq!(names(&configuration.participants), vec!["Alice", "Bob"]);
    assert_eq!(configuration.participants[0].interests, "Gardening");
    assert_eq!(configuration.cannot_receive_from, vec![vec![], vec![]]);
    assert_eq!(configuration.cannot_send_to, vec![vec![1], vec![]]);
}

#[test]
fn no_submissions_give_an_empty_configuration() {
    let configuration = configuration_from_submissions(&Vec::new());
    assert!(configuration.is_well_formed());
    assert!(configuration.participants.is_empty());
    assert!(configuration.cannot_send_to.is_empty());
    assert!(configuration.cannot_receive_from.is_empty());
}

#[test]
fn participants_are_found_by_name() {
    let participants: Vec<Participant> = ["Alice", "Bob", "Charlie"]
        .iter()
        .map(|name| participant_from_submission(&form(name, &[], &[])))
        .collect();
    assert_eq!(find_participant(&participants, &"Charlie".to_string()), Some(2));
    assert_eq!(find_participant(&participants, &"Alice".to_string()), Some(0));
    assert_eq!(find_participant(&participants, &"alice".to_string()), None);
    assert_eq!(find_participant(&Vec::new(), &"Alice".to_string()), None);
    let listed: Vec<String> =
        ["Charlie", "Zed", "Alice", "Charlie"].iter().map(|s| s.to_string()).collect();
    assert_eq!(resolve_names(&participants, &listed), vec![2, 0]);
}

#[test]
fn a_list_of_names_is_split_at_comma_and_space() {
    assert_eq!(split_names("Alice, Bob, Charlie"), vec!["Alice", "Bob", "Charlie"]);
    assert_eq!(split_names("Alice"), vec!["Alice"]);
    assert_eq!(split_names(""), vec![""]);
    assert_eq!(split_names(", "), vec!["", ""]);
    assert_eq!(split_names("Alice,Bob"), vec!["Alice,Bob"]);
    assert_eq!(split_names("Alice , Bob"), vec!["Alice ", "Bob"]);
    assert_eq!(split_names("a,, b"), vec!["a,", "b"]);
    assert_eq!(split_names("a, , b, "), vec!["a", "", "b", ""]);
    assert_eq!(split_names("a,  b"), vec!["a", " b"]);
    assert_eq!(split_names("Zoë, José,"), vec!["Zoë", "José,"]);
}

#[test]
fn splitting_and_joining_undo_each_other() {
    for text in ["", "Alice", "Alice, Bob", ", , ", "a,, b, c ,d,", "多, 字, 节"] {
        let parts = split_names(text);
        assert!(parts.iter().all(|part| !part.contains(", ")));
        assert_eq!(join(&parts, ", "), text);
    }
    let parts: Vec<String> = Vec::new();
    assert_eq!(join(&parts, ", "), "");
    assert_eq!(join(&vec!["a".to_string(), "b".to_string(), "c".to_string()], "--"), "a--b--c");
}
