use secret_santa::permutation::{Assignment, Permutation, PermutationError};

fn give(sender: usize, recipient: usize) -> Assignment {
    Assignment { sender, recipient }
}

fn people(count: usize) -> Vec<&'static str> {
    vec!["Alice", "Bob", "Charlie", "David", "Erin"][..count].to_vec()
}

#[test]
fn try_new_accepts_a_cycle() {
    let assignments = vec![give(0, 1), give(1, 2), give(2, 0)];
    let permutation = Permutation::try_new(assignments.clone(), &people(3)).unwrap();
    assert_eq!(permutation.assignments, assignments);
}

#[test]
fn try_new_accepts_the_identity() {
    // a permutation need not be a derangement
    let assignments = vec![give(0, 0), give(1, 1)];
    let permutation = Permutation::try_new(assignments, &people(2)).unwrap();
    assert_eq!(permutation.ensure_is_derangement(), Err(0));
}

#[test]
fn try_new_accepts_nothing_for_nobody() {
    let nobody: Vec<&str> = Vec::new();
    let permutation = Permutation::try_new(Vec::new(), &nobody).unwrap();
    assert!(permutation.assignments.is_empty());
    assert_eq!(permutation.ensure_is_derangement(), Ok(()));
}

#[test]
fn try_new_counts_the_assignments_first() {
    // too few, and a repeated sender as well: the number of assignments is reported
    let result = Permutation::try_new(vec![give(0, 1), give(0, 2)], &people(3));
    assert_eq!(
        result.unwrap_err(),
        PermutationError::AssignmentCount { assignments: 2, participants: 3 }
    );
    let result = Permutation::try_new(vec![give(0, 1), give(1, 0), give(1, 0)], &people(2));
    assert_eq!(
        result.unwrap_err(),
        PermutationError::AssignmentCount { assignments: 3, participants: 2 }
    );
}

#[test]
fn try_new_counts_the_senders_second() {
    // sender 0 twice, recipient 2 twice: the senders are reported
    let result = Permutation::try_new(vec![give(0, 1), give(0, 2), give(1, 2)], &people(3));
    assert_eq!(
        result.unwrap_err(),
        PermutationError::SenderCount { senders: 2, participants: 3 }
    );
}

#[test]
fn try_new_counts_the_recipients_last() {
    let result = Permutation::try_new(vec![give(0, 1), give(1, 1), give(2, 1)], &people(3));
    assert_eq!(
        result.unwrap_err(),
        PermutationError::RecipientCount { recipients: 1, participants: 3 }
    );
}

#[test]
fn try_new_does_not_merge_repeated_assignments() {
    // the same assignment three times is three assignments with one sender
    let result = Permutation::try_new(vec![give(0, 1), give(0, 1), give(0, 1)], &people(3));
    assert_eq!(
        result.unwrap_err(),
        PermutationError::SenderCount { senders: 1, participants: 3 }
    );
}

#[test]
fn a_permutation_gives_and_receives_once_each() {
    // every arrangement of three recipients over the senders 0, 1, 2
    let orders = [[0, 1, 2], [0, 2, 1], [1, 0, 2], [1, 2, 0], [2, 0, 1], [2, 1, 0]];
    for order in orders {
        let assignments: Vec<Assignment> =
            order.iter().enumerate().map(|(sender, &recipient)| give(sender, recipient)).collect();
        let permutation = Permutation::try_new(assignments, &people(3)).unwrap();
        for participant in 0..3 {
            let as_sender =
                permutation.assignments.iter().filter(|a| a.sender == participant).count();
            let as_recipient =
                permutation.assignments.iter().filter(|a| a.recipient == participant).count();
            assert_eq!(as_sender, 1);
            assert_eq!(as_recipient, 1);
        }
    }
}

#[test]
fn counts_alone_do_not_tie_assignments_to_participants() {
    // three assignments among strangers pass the three counts
    let strangers = vec![give(7, 8), give(8, 9), give(9, 7)];
    assert!(Permutation::try_new(strangers, &people(3)).is_ok());
}

#[test]
fn ensure_is_derangement_names_the_first_self_assignment() {
    let permutation =
        Permutation { assignments: vec![give(0, 1), give(2, 2), give(1, 0), give(3, 3)] };
    assert_eq!(permutation.ensure_is_derangement(), Err(2));
    let permutation = Permutation { assignments: vec![give(0, 1), give(1, 2), give(2, 0)] };
    assert_eq!(permutation.ensure_is_derangement(), Ok(()));
}

#[test]
fn permutation_errors_read_as_messages() {
    assert_eq!(
        PermutationError::AssignmentCount { assignments: 2, participants: 3 }.to_string(),
        "Invalid permutation: number of assignments (2) does not match number of participants (3)"
    );
    assert_eq!(
        PermutationError::SenderCount { senders: 10, participants: 12 }.to_string(),
        "Invalid permutation: number of unique sender IDs (10) does not match number of participants (12)"
    );
    assert_eq!(
        PermutationError::RecipientCount { recipients: 0, participants: 407 }.to_string(),
        "Invalid permutation: number of unique recipient IDs (0) does not match number of participants (407)"
    );
}
