//! The note that tells a participant who they give to.

use crate::participant::Participant;
use crate::permutation::{within, Assignment};
use vstd::prelude::*;
use vstd::string::StringExecFns;

verus! {

/// How many lines of padding stand between the warning and the name.
pub const PADDING_LINES: usize = 25;

/// `piece`, `times` times in a row.
pub open spec fn repeated(piece: Seq<char>, times: nat) -> Seq<char>
    decreases times,
{
    if times == 0 {
        Seq::empty()
    } else {
        repeated(piece, (times - 1) as nat) + piece
    }
}

/// The note for whoever gives to `recipient`: a warning, padding that keeps
/// the name out of sight at first glance, then the recipient's name, handle, address and
/// interests, and a closing reminder.
pub open spec fn note_for(recipient: Participant) -> Seq<char> {
    "SCROLL DOWN TO SEE WHO YOU GOT\nTHIS IS TO HIDE IT FROM THE DISCORD EMBED\n"@ + repeated(
        "|\n"@,
        PADDING_LINES as nat,
    ) + "You are the Secret Santa for "@ + recipient.name@ + "! ("@ + recipient.discord_handle@
        + ")\n\nAddress:\n"@ + recipient.mailing_info@ + "\n\nTheir interests are:\n"@
        + recipient.interests@
        + "\n\n\n\nRemember to check the Google Form for information about suggested price range and gift 'due date'! Happy gifting!"@
}

/// The name of the file that holds the note of `sender`.
pub open spec fn file_name_of(sender: Participant) -> Seq<char> {
    sender.name@ + ".txt"@
}

/// Writes the note for whoever gives to `recipient`.
pub fn notification_text(recipient: &Participant) -> (text: String)
    ensures
        text@ == note_for(*recipient),
{
    let mut text = String::from_str(
        "SCROLL DOWN TO SEE WHO YOU GOT\nTHIS IS TO HIDE IT FROM THE DISCORD EMBED\n",
    );
    let ghost start = text@;
    let mut line: usize = 0;
    while line < PADDING_LINES
        invariant
            line <= PADDING_LINES,
            text@ == start + repeated("|\n"@, line as nat),
        decreases PADDING_LINES - line,
    {
        text.append("|\n");
        line += 1;
        assert(text@ =~= start + repeated("|\n"@, line as nat));
    }
    text.append("You are the Secret Santa for ");
    text.append(recipient.name.as_str());
    text.append("! (");
    text.append(recipient.discord_handle.as_str());
    text.append(")\n\nAddress:\n");
    text.append(recipient.mailing_info.as_str());
    text.append("\n\nTheir interests are:\n");
    text.append(recipient.interests.as_str());
    text.append(
        "\n\n\n\nRemember to check the Google Form for information about suggested price range and gift 'due date'! Happy gifting!",
    );
    text
}

/// The name of the file that the note of `sender` goes to.
pub fn notification_file_name(sender: &Participant) -> (name: String)
    ensures
        name@ == file_name_of(*sender),
{
    let mut name = sender.name.clone();
    name.append(".txt");
    name
}

/// One note per assignment, in order: the name of the sender's file and the
/// text about the recipient.
pub fn notifications(participants: &Vec<Participant>, assignments: &Vec<Assignment>) -> (notes:
    Vec<(String, String)>)
    requires
        within(assignments@, participants@.len()),
    ensures
        notes@.len() == assignments@.len(),
        forall|i: int|
            0 <= i < notes@.len() ==> {
                &&& (#[trigger] notes@[i]).0@ == file_name_of(
                    participants@[assignments@[i].sender as int],
                )
                &&& notes@[i].1@ == note_for(participants@[assignments@[i].recipient as int])
            },
{
    let mut notes: Vec<(String, String)> = Vec::new();
    let mut i: usize = 0;
    while i < assignments.len()
        invariant
            i <= assignments@.len(),
            within(assignments@, participants@.len()),
            notes@.len() == i,
            forall|k: int|
                0 <= k < i ==> {
                    &&& (#[trigger] notes@[k]).0@ == file_name_of(
                        participants@[assignments@[k].sender as int],
                    )
                    &&& notes@[k].1@ == note_for(participants@[assignments@[k].recipient as int])
                },
        decreases assignments@.len() - i,
    {
        let assignment = assignments[i];
        assert(assignments@[i as int] == assignment);
        let sender = &participants[assignment.sender];
        let recipient = &participants[assignment.recipient];
        notes.push((notification_file_name(sender), notification_text(recipient)));
        i += 1;
    }
    notes
}

} // verus!
