//! The participants, what each of them rules out, and the checks that hold a
//! candidate assignment set against those rules.

use crate::id_set::{all_below, contains, members};
use crate::participant::names_differ;
pub use crate::participant::Participant;
use crate::permutation::{
    first_self_assignment, is_derangement, is_permutation, within, Assignment, Permutation,
};
use vstd::prelude::*;
use vstd::string::StringExecFns;

verus! {

/// Who rules out whom, as mathematics: the number of participants and, for
/// each of them, the set of participants they refuse to give to and the set
/// of participants they refuse to receive from.
pub struct ExclusionModel {
    pub count: nat,
    pub cannot_send_to: Seq<Set<int>>,
    pub cannot_receive_from: Seq<Set<int>>,
}

impl ExclusionModel {
    /// Every participant has an entry on both sides, and the entries name
    /// participants only.
    pub open spec fn wf(self) -> bool {
        &&& self.cannot_send_to.len() == self.count
        &&& self.cannot_receive_from.len() == self.count
        &&& forall|p: int, x: int|
            0 <= p < self.count && #[trigger] self.cannot_send_to[p].contains(x) ==> 0 <= x
                < self.count
        &&& forall|p: int, x: int|
            0 <= p < self.count && #[trigger] self.cannot_receive_from[p].contains(x) ==> 0 <= x
                < self.count
    }

    /// `sender` refuses to give to `recipient`.
    pub open spec fn send_refused(self, sender: int, recipient: int) -> bool {
        self.cannot_send_to[sender].contains(recipient)
    }

    /// `recipient` refuses to receive from `sender`.
    pub open spec fn receive_refused(self, sender: int, recipient: int) -> bool {
        self.cannot_receive_from[recipient].contains(sender)
    }

    /// `sender` may give to `recipient`: they are two different participants
    /// and neither side has ruled the gift out.
    pub open spec fn permits(self, sender: int, recipient: int) -> bool {
        &&& sender != recipient
        &&& !self.send_refused(sender, recipient)
        &&& !self.receive_refused(sender, recipient)
    }

    /// No assignment of `s` crosses an exclusion.
    pub open spec fn satisfied_by(self, s: Seq<Assignment>) -> bool {
        forall|i: int| 0 <= i < s.len() ==> violation(self, #[trigger] s[i]) is None
    }

    /// `found` is the exclusion crossed by the earliest assignment of `s` that crosses one.
    pub open spec fn first_violation(self, s: Seq<Assignment>, found: Violation) -> bool {
        exists|i: int|
            {
                &&& 0 <= i < s.len()
                &&& violation(self, #[trigger] s[i]) == Some(found)
                &&& self.satisfied_by(s.take(i))
            }
    }

    /// `found` is why `s` is turned down: its earliest self-assignment or,
    /// where it has none, the earliest exclusion that it crosses.
    pub open spec fn rejects(self, s: Seq<Assignment>, found: Violation) -> bool {
        match found {
            Violation::SelfAssignment { participant } => first_self_assignment(s, participant),
            _ => is_derangement(s) && self.first_violation(s, found),
        }
    }

    /// `s` is a full legal assignment: a permutation of the participants in
    /// which nobody gives to themself and no gift crosses an exclusion.
    pub open spec fn accepts(self, s: Seq<Assignment>) -> bool {
        &&& is_permutation(s, self.count)
        &&& within(s, self.count)
        &&& is_derangement(s)
        &&& self.satisfied_by(s)
    }

    /// There is a full legal assignment.
    pub open spec fn feasible(self) -> bool {
        exists|s: Seq<Assignment>| self.accepts(s)
    }
}

/// What is turned down is no full legal assignment.
pub proof fn lemma_rejected_is_not_accepted(
    model: ExclusionModel,
    s: Seq<Assignment>,
    found: Violation,
)
    requires
        model.rejects(s, found),
    ensures
        !model.accepts(s),
{
    match found {
        Violation::SelfAssignment { participant } => {
            let i = choose|i: int|
                {
                    &&& 0 <= i < s.len()
                    &&& (#[trigger] s[i]).sender == participant
                    &&& s[i].recipient == participant
                    &&& is_derangement(s.take(i))
                };
            assert(s[i].sender == s[i].recipient);
        },
        _ => {
            let i = choose|i: int|
                {
                    &&& 0 <= i < s.len()
                    &&& violation(model, #[trigger] s[i]) == Some(found)
                    &&& model.satisfied_by(s.take(i))
                };
            assert(violation(model, s[i]) is Some);
        },
    }
}

/// The model of `count` participants with the given exclusion lists.
pub open spec fn model_of(
    count: nat,
    cannot_send_to: Seq<Vec<usize>>,
    cannot_receive_from: Seq<Vec<usize>>,
) -> ExclusionModel {
    ExclusionModel {
        count,
        cannot_send_to: Seq::new(cannot_send_to.len(), |p: int| members(cannot_send_to[p]@)),
        cannot_receive_from: Seq::new(
            cannot_receive_from.len(),
            |p: int| members(cannot_receive_from[p]@),
        ),
    }
}

/// What is wrong with an assignment.
#[derive(Clone, Copy, Debug, PartialEq, Eq, Structural)]
pub enum Violation {
    /// The participant was assigned to themself.
    SelfAssignment { participant: usize },
    /// The sender refuses to give to the recipient.
    CannotSendTo { sender: usize, recipient: usize },
    /// The recipient refuses to receive from the sender.
    CannotReceiveFrom { sender: usize, recipient: usize },
}

impl Violation {
    /// Every participant that the violation speaks of is one of the first `count`.
    pub open spec fn names_participants(self, count: nat) -> bool {
        match self {
            Violation::SelfAssignment { participant } => participant < count,
            Violation::CannotSendTo { sender, recipient } => sender < count && recipient < count,
            Violation::CannotReceiveFrom { sender, recipient } => sender < count && recipient
                < count,
        }
    }

    /// The message for this violation, with the participants by name.
    pub open spec fn shown(self, participants: Seq<Participant>) -> Seq<char> {
        match self {
            Violation::SelfAssignment { participant } => "Participant "@
                + participants[participant as int].shown() + " maps to themselves"@,
            Violation::CannotSendTo { sender, recipient } => "Invalid permutation: "@
                + participants[sender as int].name@ + " cannot send to "@
                + participants[recipient as int].name@,
            Violation::CannotReceiveFrom { sender, recipient } => "Invalid permutation: "@
                + participants[recipient as int].name@ + " cannot receive from "@
                + participants[sender as int].name@,
        }
    }

    /// Renders the violation as a message.
    pub fn to_string(&self, participants: &Vec<Participant>) -> (text: String)
        requires
            self.names_participants(participants@.len()),
        ensures
            text@ == self.shown(participants@),
    {
        match self {
            Violation::SelfAssignment { participant } => {
                let mut text = String::from_str("Participant ");
                text.append(participants[*participant].to_string().as_str());
                text.append(" maps to themselves");
                text
            },
            Violation::CannotSendTo { sender, recipient } => {
                let mut text = String::from_str("Invalid permutation: ");
                text.append(participants[*sender].name.as_str());
                text.append(" cannot send to ");
                text.append(participants[*recipient].name.as_str());
                text
            },
            Violation::CannotReceiveFrom { sender, recipient } => {
                let mut text = String::from_str("Invalid permutation: ");
                text.append(participants[*recipient].name.as_str());
                text.append(" cannot receive from ");
                text.append(participants[*sender].name.as_str());
                text
            },
        }
    }
}

/// The exclusion that `a` crosses, the sender's refusal first, if it crosses any.
pub open spec fn violation(model: ExclusionModel, a: Assignment) -> Option<Violation> {
    if model.send_refused(a.sender as int, a.recipient as int) {
        Some(Violation::CannotSendTo { sender: a.sender, recipient: a.recipient })
    } else if model.receive_refused(a.sender as int, a.recipient as int) {
        Some(Violation::CannotReceiveFrom { sender: a.sender, recipient: a.recipient })
    } else {
        None
    }
}

/// The input of the solver: the registry of participants and, by registry
/// position, the participants each one refuses to give to and to receive from.
#[derive(Clone, Debug)]
pub struct Configuration {
    pub participants: Vec<Participant>,
    pub cannot_send_to: Vec<Vec<usize>>,
    pub cannot_receive_from: Vec<Vec<usize>>,
}

impl View for Configuration {
    type V = ExclusionModel;

    open spec fn view(&self) -> ExclusionModel {
        model_of(self.participants@.len(), self.cannot_send_to@, self.cannot_receive_from@)
    }
}

impl Configuration {
    /// The registry holds each participant once, and the exclusions are
    /// complete and name participants only.
    pub open spec fn wf(&self) -> bool {
        &&& names_differ(self.participants@)
        &&& self@.wf()
    }

    /// Whether the configuration is well formed.
    pub fn is_well_formed(&self) -> (ok: bool)
        ensures
            ok == self.wf(),
    {
        let count = self.participants.len();
        if self.cannot_send_to.len() != count || self.cannot_receive_from.len() != count {
            return false;
        }
        let mut p: usize = 0;
        while p < count
            invariant
                p <= count == self.participants@.len(),
                self.cannot_send_to@.len() == count,
                self.cannot_receive_from@.len() == count,
                forall|a: int, b: int|
                    0 <= a < b < count && a < p ==> (#[trigger] self.participants@[a]).name@ != (
                    #[trigger] self.participants@[b]).name@,
                forall|a: int, x: int|
                    0 <= a < p && #[trigger] self@.cannot_send_to[a].contains(x) ==> 0 <= x < count,
                forall|a: int, x: int|
                    0 <= a < p && #[trigger] self@.cannot_receive_from[a].contains(x) ==> 0 <= x
                        < count,
            decreases count - p,
        {
            let mut q: usize = p + 1;
            while q < count
                invariant
                    p < q <= count == self.participants@.len(),
                    forall|b: int|
                        p < b < q ==> self.participants@[p as int].name@ != (
                        #[trigger] self.participants@[b]).name@,
                decreases count - q,
            {
                if self.participants[p].name == self.participants[q].name {
                    return false;
                }
                q += 1;
            }
            if !all_below(&self.cannot_send_to[p], count) {
                let ghost x = choose|x: int|
                    members(self.cannot_send_to@[p as int]@).contains(x) && !(0 <= x < count);
                assert(self@.cannot_send_to[p as int].contains(x));
                return false;
            }
            if !all_below(&self.cannot_receive_from[p], count) {
                let ghost x = choose|x: int|
                    members(self.cannot_receive_from@[p as int]@).contains(x) && !(0 <= x < count);
                assert(self@.cannot_receive_from[p as int].contains(x));
                return false;
            }
            p += 1;
        }
        true
    }

    /// Checks every assignment against both exclusion maps, in order, and
    /// fails with the first exclusion that is crossed.
    pub fn ensure_exclusions_satisfied(&self, permutation: &Permutation) -> (result: Result<
        (),
        Violation,
    >)
        requires
            self.wf(),
            within(permutation.assignments@, self@.count),
        ensures
            match result {
                Ok(_) => self@.satisfied_by(permutation.assignments@),
                Err(found) => self@.first_violation(permutation.assignments@, found),
            },
    {
        let mut i: usize = 0;
        while i < permutation.assignments.len()
            invariant
                i <= permutation.assignments@.len(),
                self.wf(),
                within(permutation.assignments@, self@.count),
                self@.satisfied_by(permutation.assignments@.take(i as int)),
            decreases permutation.assignments@.len() - i,
        {
            let a = permutation.assignments[i];
            assert(permutation.assignments@[i as int] == a);
            if contains(&self.cannot_send_to[a.sender], a.recipient) {
                return Err(Violation::CannotSendTo { sender: a.sender, recipient: a.recipient });
            }
            if contains(&self.cannot_receive_from[a.recipient], a.sender) {
                return Err(
                    Violation::CannotReceiveFrom { sender: a.sender, recipient: a.recipient },
                );
            }
            assert forall|k: int| 0 <= k < i + 1 implies violation(
                self@,
                #[trigger] permutation.assignments@.take(i + 1)[k],
            ) is None by {
                if k < i {
                    assert(permutation.assignments@.take(i as int)[k]
                        == permutation.assignments@[k]);
                }
            }
            i += 1;
        }
        assert(permutation.assignments@.take(i as int) =~= permutation.assignments@);
        Ok(())
    }

    /// Checks that nobody is assigned to themself and then that no exclusion
    /// is crossed, and fails with what the first failing check found.
    pub fn ensure_valid_permutation(&self, permutation: &Permutation) -> (result: Result<
        (),
        Violation,
    >)
        requires
            self.wf(),
            within(permutation.assignments@, self@.count),
        ensures
            match result {
                Ok(_) => {
                    &&& is_derangement(permutation.assignments@)
                    &&& self@.satisfied_by(permutation.assignments@)
                },
                Err(found) => self@.rejects(permutation.assignments@, found),
            },
    {
        match permutation.ensure_is_derangement() {
            Err(bad_sender) => { return Err(Violation::SelfAssignment { participant: bad_sender }); },
            Ok(_) => {},
        }
        self.ensure_exclusions_satisfied(permutation)
    }
}

} // verus!
