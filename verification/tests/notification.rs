use secret_santa::configuration::Participant;
use secret_santa::notification::{notification_file_name, notification_text, notifications};
use secret_santa::permutation::Assignment;

fn alice() -> Participant {
    Participant {
        name: "Alice".to_string(),
        discord_handle: "alice#1234".to_string(),
        mailing_info: "1234 Alice Lane".to_string(),
        interests: "Programming, cats".to_string(),
    }
}

fn bob() -> Participant {
    Participant {
        name: "Bob".to_string(),
        discord_handle: "bob#5678".to_string(),
        mailing_info: "5678 Bob Lane".to_string(),
        interests: "Programming, dogs".to_string(),
    }
}

#[test]
fn the_note_tells_who_was_drawn() {
    let expected = "SCROLL DOWN TO SEE WHO YOU GOT\n\
                    THIS IS TO HIDE IT FROM THE DISCORD EMBED\n\
                    |\n|\n|\n|\n|\n|\n|\n|\n|\n|\n|\n|\n|\n|\n|\n|\n|\n|\n|\n|\n|\n|\n|\n|\n|\n\
                    You are the Secret Santa for Alice! (alice#1234)\n\n\
                    Address:\n1234 Alice Lane\n\n\
                    Their interests are:\nProgramming, cats\
                    \n\n\n\nRemember to check the Google Form for information about suggested \
                    price range and gift 'due date'! Happy gifting!";
    assert_eq!(notification_text(&alice()), expected);
}

#[test]
fn the_note_pads_with_twenty_five_lines() {
    let text = notification_text(&bob());
    assert_eq!(text.lines().filter(|line| *line == "|").count(), 25);
    assert_eq!(text.lines().nth(27).unwrap(), "You are the Secret Santa for Bob! (bob#5678)");
}

#[test]
fn the_note_goes_to_a_file_named_after_the_sender() {
    assert_eq!(notification_file_name(&alice()), "Alice.txt");
}

#[test]
fn there_is_one_note_per_assignment() {
    let participants = vec![alice(), bob()];
    let assignments =
        vec![Assignment { sender: 1, recipient: 0 }, Assignment { sender: 0, recipient: 1 }];
    let notes = notifications(&participants, &assignments);
    assert_eq!(notes.len(), 2);
    assert_eq!(notes[0].0, "Bob.txt");
    assert_eq!(notes[0].1, notification_text(&alice()));
    assert_eq!(notes[1].0, "Alice.txt");
    assert_eq!(notes[1].1, notification_text(&bob()));
    assert!(notifications(&participants, &Vec::new()).is_empty());
}
