use secret_santa::configuration::{Configuration, Participant, Violation};
use secret_santa::permutation::PermutationError;
use secret_santa::search::{
    candidate, generate_valid_permutation, try_random_permutation, Rejection,
};

fn person(name: &str) -> Participant {
    Participant {
        name: name.to_string(),
        discord_handle: format!("{}#0001", name.to_lowercase()),
        mailing_info: format!("1 {} Lane", name),
        interests: "Programming".to_string(),
    }
}

fn group(count: usize) -> Vec<Participant> {
    ["Alice", "Bob", "Charlie", "David"][..count].iter().map(|name| person(name)).collect()
}

fn free_group(count: usize) -> Configuration {
    Configuration {
        participants: group(count),
        cannot_send_to: vec![vec![]; count],
        cannot_receive_from: vec![vec![]; count],
    }
}

#[test]
fn a_rearrangement_without_fixed_points_is_kept() {
    let configuration = free_group(4);
    let permutation = candidate(&configuration, &vec![1, 2, 3, 0]).unwrap();
    let pairs: Vec<(usize, usize)> =
        permutation.assignments.iter().map(|a| (a.sender, a.recipient)).collect();
    assert_eq!(pairs, vec![(0, 1), (1, 2), (2, 3), (3, 0)]);
}

#[test]
fn a_rearrangement_with_a_fixed_point_is_discarded() {
    let configuration = free_group(4);
    assert_eq!(
        candidate(&configuration, &vec![1, 0, 2, 3]).unwrap_err(),
        Rejection::Invalid(Violation::SelfAssignment { participant: 2 })
    );
}

#[test]
fn a_rearrangement_across_an_exclusion_is_discarded() {
    let mut configuration = free_group(3);
    configuration.cannot_receive_from[0].push(2);
    assert_eq!(
        candidate(&configuration, &vec![1, 2, 0]).unwrap_err(),
        Rejection::Invalid(Violation::CannotReceiveFrom { sender: 2, recipient: 0 })
    );
    assert!(candidate(&configuration, &vec![2, 0, 1]).is_ok());
}

#[test]
fn an_order_that_is_no_rearrangement_is_discarded() {
    let configuration = free_group(3);
    assert_eq!(
        candidate(&configuration, &vec![1, 2]).unwrap_err(),
        Rejection::NotPermutation(PermutationError::AssignmentCount {
            assignments: 2,
            participants: 3
        })
    );
    assert_eq!(
        candidate(&configuration, &vec![1, 1, 0]).unwrap_err(),
        Rejection::NotPermutation(PermutationError::RecipientCount {
            recipients: 2,
            participants: 3
        })
    );
    // entries beyond the participants are left unread
    assert!(candidate(&configuration, &vec![1, 2, 0, 0, 0]).is_ok());
}

#[test]
fn random_search_succeeds_for_four_without_exclusions() {
    let configuration = free_group(4);
    // nine of the twenty-four rearrangements are legal
    let permutation = generate_valid_permutation(&configuration, 10_000).unwrap();
    assert_eq!(permutation.assignments.len(), 4);
    assert!(permutation.assignments.iter().all(|a| a.sender != a.recipient));
    assert_eq!(configuration.ensure_valid_permutation(&permutation), Ok(()));
}

#[test]
fn random_search_gives_up_after_its_attempts() {
    // one participant can only draw themself
    let alone = free_group(1);
    assert!(generate_valid_permutation(&alone, 50).is_none());
    assert!(generate_valid_permutation(&free_group(4), 0).is_none());
}

#[test]
fn random_search_needs_one_draw_where_every_rearrangement_is_legal() {
    // nobody takes part: the one rearrangement is empty, and legal
    let nobody = free_group(0);
    let permutation = generate_valid_permutation(&nobody, 1).unwrap();
    assert!(permutation.assignments.is_empty());
    // two participants can only swap or stay: a kept draw is the swap
    let pair = free_group(2);
    let permutation = generate_valid_permutation(&pair, 10_000).unwrap();
    let pairs: Vec<(usize, usize)> =
        permutation.assignments.iter().map(|a| (a.sender, a.recipient)).collect();
    assert_eq!(pairs, vec![(0, 1), (1, 0)]);
}

#[test]
fn every_draw_is_a_rearrangement() {
    let mut configuration = free_group(4);
    configuration.cannot_send_to[0] = vec![1, 2];
    let mut rng = rand::thread_rng();
    let mut kept = 0;
    let mut discarded = 0;
    for _ in 0..500 {
        match try_random_permutation(&configuration, &mut rng) {
            Ok(permutation) => {
                kept += 1;
                for participant in 0..4 {
                    let gives =
                        permutation.assignments.iter().filter(|a| a.sender == participant).count();
                    let receives = permutation
                        .assignments
                        .iter()
                        .filter(|a| a.recipient == participant)
                        .count();
                    assert_eq!((gives, receives), (1, 1));
                }
                assert!(permutation.assignments.contains(
                    &secret_santa::permutation::Assignment { sender: 0, recipient: 3 }
                ));
            }
            Err(found) => {
                discarded += 1;
                assert!(!matches!(found, Violation::CannotReceiveFrom { .. }));
            }
        }
    }
    assert_eq!(kept + discarded, 500);
    assert!(discarded > 0);
}

#[test]
fn draws_differ() {
    // with eight participants, two hundred draws that all agree would mean no shuffling
    let configuration = Configuration {
        participants: (0..8).map(|i| person(&format!("P{}", i))).collect(),
        cannot_send_to: vec![vec![]; 8],
        cannot_receive_from: vec![vec![]; 8],
    };
    let mut rng = rand::thread_rng();
    let mut seen = std::collections::HashSet::new();
    for _ in 0..200 {
        let outcome = match try_random_permutation(&configuration, &mut rng) {
            Ok(permutation) => format!("{:?}", permutation.assignments),
            Err(found) => format!("{:?}", found),
        };
        seen.insert(outcome);
    }
    assert!(seen.len() > 1);
}
