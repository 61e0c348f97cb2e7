//! Candidate assignment sets and the conditions under which one is a
//! permutation of the participants.

use crate::id_set::{
    distinct_count, lemma_distinct_of_members, lemma_members_cover, lemma_members_finite,
    lemma_members_of_distinct, members,
};
use crate::text::{append_decimal, decimal};
use vstd::prelude::*;
use vstd::string::StringExecFns;

verus! {

/// One gift: `sender` gives to `recipient`.  Both are registry positions.
#[derive(Clone, Copy, Debug, PartialEq, Eq, Hash, Structural)]
pub struct Assignment {
    pub sender: usize,
    pub recipient: usize,
}

/// A set of assignments, kept in a fixed order.
#[derive(Clone, Debug)]
pub struct Permutation {
    pub assignments: Vec<Assignment>,
}

/// Why a set of assignments is not a permutation of the participants: the
/// count that does not match, and the number of participants it was held against.
#[derive(Clone, Copy, Debug, PartialEq, Eq, Structural)]
pub enum PermutationError {
    AssignmentCount { assignments: usize, participants: usize },
    SenderCount { senders: usize, participants: usize },
    RecipientCount { recipients: usize, participants: usize },
}

impl PermutationError {
    /// The message for this error: which count it is, what was counted, and
    /// how many participants there are.
    pub open spec fn shown(self) -> Seq<char> {
        match self {
            PermutationError::AssignmentCount { assignments, participants } => {
                "Invalid permutation: number of assignments ("@ + decimal(assignments as nat)
                    + ") does not match number of participants ("@ + decimal(participants as nat)
                    + ")"@
            },
            PermutationError::SenderCount { senders, participants } => {
                "Invalid permutation: number of unique sender IDs ("@ + decimal(senders as nat)
                    + ") does not match number of participants ("@ + decimal(participants as nat)
                    + ")"@
            },
            PermutationError::RecipientCount { recipients, participants } => {
                "Invalid permutation: number of unique recipient IDs ("@ + decimal(
                    recipients as nat,
                ) + ") does not match number of participants ("@ + decimal(participants as nat)
                    + ")"@
            },
        }
    }

    /// Renders the error as a message.
    pub fn to_string(&self) -> (text: String)
        ensures
            text@ == self.shown(),
    {
        let (mut text, found, wanted) = match self {
            PermutationError::AssignmentCount { assignments, participants } => (
                String::from_str("Invalid permutation: number of assignments ("),
                *assignments,
                *participants,
            ),
            PermutationError::SenderCount { senders, participants } => (
                String::from_str("Invalid permutation: number of unique sender IDs ("),
                *senders,
                *participants,
            ),
            PermutationError::RecipientCount { recipients, participants } => (
                String::from_str("Invalid permutation: number of unique recipient IDs ("),
                *recipients,
                *participants,
            ),
        };
        append_decimal(&mut text, found);
        text.append(") does not match number of participants (");
        append_decimal(&mut text, wanted);
        text.append(")");
        text
    }
}

/// The senders of `s`, in order.
pub open spec fn senders(s: Seq<Assignment>) -> Seq<usize> {
    Seq::new(s.len(), |i: int| s[i].sender)
}

/// The recipients of `s`, in order.
pub open spec fn recipients(s: Seq<Assignment>) -> Seq<usize> {
    Seq::new(s.len(), |i: int| s[i].recipient)
}

/// There is one assignment per participant, and both the senders and the
/// recipients are as many different participants as there are participants.
pub open spec fn is_permutation(s: Seq<Assignment>, count: nat) -> bool {
    &&& s.len() == count
    &&& members(senders(s)).len() == count
    &&& members(recipients(s)).len() == count
}

/// Every assignment is between two of the first `count` registry positions.
pub open spec fn within(s: Seq<Assignment>, count: nat) -> bool {
    forall|i: int| 0 <= i < s.len() ==> (#[trigger] s[i]).sender < count && s[i].recipient < count
}

/// No assignment gives to its own sender.
pub open spec fn is_derangement(s: Seq<Assignment>) -> bool {
    forall|i: int| 0 <= i < s.len() ==> (#[trigger] s[i]).sender != s[i].recipient
}

/// `who` is the sender of the earliest assignment of `s` that gives to its own sender.
pub open spec fn first_self_assignment(s: Seq<Assignment>, who: usize) -> bool {
    exists|i: int|
        {
            &&& 0 <= i < s.len()
            &&& (#[trigger] s[i]).sender == who
            &&& s[i].recipient == who
            &&& is_derangement(s.take(i))
        }
}

/// The first count of `s` that does not match the number of participants,
/// if any: the assignments, then the different senders, then the different
/// recipients.
pub open spec fn count_mismatch(s: Seq<Assignment>, count: nat) -> Option<PermutationError> {
    if s.len() != count {
        Some(
            PermutationError::AssignmentCount {
                assignments: s.len() as usize,
                participants: count as usize,
            },
        )
    } else if members(senders(s)).len() != count {
        Some(
            PermutationError::SenderCount {
                senders: members(senders(s)).len() as usize,
                participants: count as usize,
            },
        )
    } else if members(recipients(s)).len() != count {
        Some(
            PermutationError::RecipientCount {
                recipients: members(recipients(s)).len() as usize,
                participants: count as usize,
            },
        )
    } else {
        None
    }
}

/// Some assignment of `s` has participant `p` as its sender.
pub open spec fn has_sender(s: Seq<Assignment>, p: int) -> bool {
    exists|i: int| 0 <= i < s.len() && (#[trigger] s[i]).sender == p
}

/// Some assignment of `s` has participant `p` as its recipient.
pub open spec fn has_recipient(s: Seq<Assignment>, p: int) -> bool {
    exists|i: int| 0 <= i < s.len() && (#[trigger] s[i]).recipient == p
}

/// The bijection law: in a permutation of `count` participants whose
/// assignments are all between participants, every participant is the sender
/// of exactly one assignment and the recipient of exactly one.
pub proof fn lemma_permutation_is_bijection(s: Seq<Assignment>, count: nat)
    requires
        is_permutation(s, count),
        within(s, count),
    ensures
        forall|p: int| 0 <= p < count ==> #[trigger] has_sender(s, p),
        forall|i: int, j: int|
            0 <= i < j < s.len() ==> (#[trigger] s[i]).sender != (#[trigger] s[j]).sender,
        forall|p: int| 0 <= p < count ==> #[trigger] has_recipient(s, p),
        forall|i: int, j: int|
            0 <= i < j < s.len() ==> (#[trigger] s[i]).recipient != (#[trigger] s[j]).recipient,
{
    lemma_distinct_of_members(senders(s));
    lemma_distinct_of_members(recipients(s));
    lemma_members_cover(senders(s), count);
    lemma_members_cover(recipients(s), count);
    assert forall|p: int| 0 <= p < count implies #[trigger] has_sender(s, p) by {
        assert(members(senders(s)).contains(p));
        let k = choose|k: int| 0 <= k < senders(s).len() && #[trigger] senders(s)[k] == p;
        assert(s[k].sender == p);
    }
    assert forall|p: int| 0 <= p < count implies #[trigger] has_recipient(s, p) by {
        assert(members(recipients(s)).contains(p));
        let k = choose|k: int| 0 <= k < recipients(s).len() && #[trigger] recipients(s)[k] == p;
        assert(s[k].recipient == p);
    }
    assert forall|i: int, j: int| 0 <= i < j < s.len() implies (#[trigger] s[i]).sender != (
    #[trigger] s[j]).sender by {
        assert(senders(s)[i] != senders(s)[j]);
    }
    assert forall|i: int, j: int| 0 <= i < j < s.len() implies (#[trigger] s[i]).recipient != (
    #[trigger] s[j]).recipient by {
        assert(recipients(s)[i] != recipients(s)[j]);
    }
}

/// The converse of the bijection law: `count` assignments with different
/// senders and different recipients are a permutation.
pub proof fn lemma_distinct_is_permutation(s: Seq<Assignment>, count: nat)
    requires
        s.len() == count,
        forall|i: int, j: int|
            0 <= i < j < s.len() ==> (#[trigger] s[i]).sender != (#[trigger] s[j]).sender,
        forall|i: int, j: int|
            0 <= i < j < s.len() ==> (#[trigger] s[i]).recipient != (#[trigger] s[j]).recipient,
    ensures
        is_permutation(s, count),
{
    assert forall|i: int, j: int|
        0 <= i < senders(s).len() && 0 <= j < senders(s).len() && i != j implies senders(s)[i]
        != senders(s)[j] by {
        if i < j {
            assert(s[i].sender != s[j].sender);
        } else {
            assert(s[j].sender != s[i].sender);
        }
    }
    assert forall|i: int, j: int|
        0 <= i < recipients(s).len() && 0 <= j < recipients(s).len() && i != j implies recipients(
        s,
    )[i] != recipients(s)[j] by {
        if i < j {
            assert(s[i].recipient != s[j].recipient);
        } else {
            assert(s[j].recipient != s[i].recipient);
        }
    }
    lemma_members_of_distinct(senders(s));
    lemma_members_of_distinct(recipients(s));
}

fn senders_of(assignments: &Vec<Assignment>) -> (list: Vec<usize>)
    ensures
        list@ == senders(assignments@),
{
    let mut list: Vec<usize> = Vec::new();
    let mut i: usize = 0;
    while i < assignments.len()
        invariant
            i <= assignments@.len(),
            list@ == senders(assignments@.take(i as int)),
        decreases assignments@.len() - i,
    {
        list.push(assignments[i].sender);
        assert(list@ =~= senders(assignments@.take(i + 1)));
        i += 1;
    }
    assert(assignments@.take(i as int) =~= assignments@);
    list
}

fn recipients_of(assignments: &Vec<Assignment>) -> (list: Vec<usize>)
    ensures
        list@ == recipients(assignments@),
{
    let mut list: Vec<usize> = Vec::new();
    let mut i: usize = 0;
    while i < assignments.len()
        invariant
            i <= assignments@.len(),
            list@ == recipients(assignments@.take(i as int)),
        decreases assignments@.len() - i,
    {
        list.push(assignments[i].recipient);
        assert(list@ =~= recipients(assignments@.take(i + 1)));
        i += 1;
    }
    assert(assignments@.take(i as int) =~= assignments@);
    list
}

impl Permutation {
    /// Accepts `assignments` as a permutation of `participants`, or says
    /// which count does not match: first the number of assignments, then the
    /// number of different senders, then the number of different recipients.
    /// Nothing is dropped or merged on the way.
    pub fn try_new<T>(assignments: Vec<Assignment>, participants: &Vec<T>) -> (result: Result<
        Permutation,
        PermutationError,
    >)
        ensures
            match result {
                Ok(permutation) => {
                    &&& permutation.assignments@ == assignments@
                    &&& is_permutation(assignments@, participants@.len())
                },
                Err(mismatch) => count_mismatch(assignments@, participants@.len()) == Some(
                    mismatch,
                ),
            },
    {
        let wanted = participants.len();
        if assignments.len() != wanted {
            return Err(
                PermutationError::AssignmentCount {
                    assignments: assignments.len(),
                    participants: wanted,
                },
            );
        }
        let all_senders = distinct_count(&senders_of(&assignments));
        let all_recipients = distinct_count(&recipients_of(&assignments));
        proof {
            lemma_members_finite(senders(assignments@));
            lemma_members_finite(recipients(assignments@));
        }
        if all_senders != wanted {
            return Err(PermutationError::SenderCount { senders: all_senders, participants: wanted });
        }
        if all_recipients != wanted {
            return Err(
                PermutationError::RecipientCount {
                    recipients: all_recipients,
                    participants: wanted,
                },
            );
        }
        Ok(Permutation { assignments })
    }

    /// Whether every assignment is between two of the first `count` registry positions.
    pub fn is_within(&self, count: usize) -> (ok: bool)
        ensures
            ok == within(self.assignments@, count as nat),
    {
        let mut i: usize = 0;
        while i < self.assignments.len()
            invariant
                i <= self.assignments@.len(),
                forall|k: int|
                    0 <= k < i ==> (#[trigger] self.assignments@[k]).sender < count
                        && self.assignments@[k].recipient < count,
            decreases self.assignments@.len() - i,
        {
            if self.assignments[i].sender >= count || self.assignments[i].recipient >= count {
                return false;
            }
            i += 1;
        }
        true
    }

    /// Checks that nobody is assigned to themself.  Fails with the sender of
    /// the earliest self-assignment.
    pub fn ensure_is_derangement(&self) -> (result: Result<(), usize>)
        ensures
            match result {
                Ok(_) => is_derangement(self.assignments@),
                Err(who) => first_self_assignment(self.assignments@, who),
            },
    {
        let mut i: usize = 0;
        while i < self.assignments.len()
            invariant
                i <= self.assignments@.len(),
                is_derangement(self.assignments@.take(i as int)),
            decreases self.assignments@.len() - i,
        {
            let a = self.assignments[i];
            if a.sender == a.recipient {
                assert(self.assignments@[i as int] == a);
                return Err(a.sender);
            }
            assert forall|k: int| 0 <= k < i + 1 implies (#[trigger] self.assignments@.take(
                i + 1,
            )[k]).sender != self.assignments@.take(i + 1)[k].recipient by {
                if k < i {
                    assert(self.assignments@.take(i as int)[k] == self.assignments@[k]);
                }
            }
            i += 1;
        }
        assert(self.assignments@.take(i as int) =~= self.assignments@);
        Ok(())
    }
}

} // verus!
