//! From sign-up forms to a configuration: who takes part, and which names
//! on the exclusion lists are participants.
//!
//! A form lists the people who must not give to the submitter and the people
//! the submitter must not give to.  Names that belong to nobody who signed up
//! are dropped.  Where a name signed up more than once, the last form counts.

use crate::configuration::Configuration;
use crate::id_set::{contains, lemma_members_push, members};
use crate::participant::{names_differ, Participant};
use vstd::prelude::*;

verus! {

/// What one participant entered when signing up.
#[derive(Clone, Debug)]
pub struct FormSubmission {
    pub name: String,
    pub discord_handle: String,
    /// The names of those who must not give to the submitter.
    pub cannot_send_to_submitter: Vec<String>,
    /// The names of those who must not receive from the submitter.
    pub cannot_receive_from_submitter: Vec<String>,
    pub mailing_info: String,
    pub interests: String,
}

/// The record of the participant who handed in `submission`.
pub open spec fn record_of(submission: FormSubmission) -> Participant {
    Participant {
        name: submission.name,
        discord_handle: submission.discord_handle,
        mailing_info: submission.mailing_info,
        interests: submission.interests,
    }
}

/// No later submission is under the same name as submission `i`.
pub open spec fn is_latest(submissions: Seq<FormSubmission>, i: int) -> bool {
    &&& 0 <= i < submissions.len()
    &&& forall|j: int|
        i < j < submissions.len() ==> (#[trigger] submissions[j]).name@ != submissions[i].name@
}

/// `name` is one of `names`.
pub open spec fn listed(names: Seq<String>, name: Seq<char>) -> bool {
    exists|k: int| 0 <= k < names.len() && (#[trigger] names[k])@ == name
}

/// The participants whose name is one of `names`.
pub open spec fn resolved(participants: Seq<Participant>, names: Seq<String>) -> Set<int> {
    Set::new(|p: int| 0 <= p < participants.len() && listed(names, participants[p].name@))
}

/// Some participant goes by `name`.
pub open spec fn registered(participants: Seq<Participant>, name: Seq<char>) -> bool {
    exists|p: int| 0 <= p < participants.len() && (#[trigger] participants[p]).name@ == name
}

/// Some submission is under `name`.
pub open spec fn submitted(submissions: Seq<FormSubmission>, name: Seq<char>) -> bool {
    exists|i: int| 0 <= i < submissions.len() && (#[trigger] submissions[i]).name@ == name
}

/// `configuration` is what `submissions` say: the participants are the
/// people who signed up, each with the record of their last form; a
/// participant refuses to receive from the participants that the form names
/// as unable to give to them, and refuses to give to the participants that
/// the form names as unable to receive from them.
pub open spec fn reflects(configuration: Configuration, submissions: Seq<FormSubmission>) -> bool {
    let participants = configuration.participants@;
    &&& forall|i: int|
        0 <= i < submissions.len() ==> registered(participants, (#[trigger] submissions[i]).name@)
    &&& forall|p: int|
        0 <= p < participants.len() ==> submitted(submissions, (#[trigger] participants[p]).name@)
    &&& forall|p: int, i: int|
        0 <= p < participants.len() && is_latest(submissions, i) && (#[trigger] submissions[i]).name@
            == (#[trigger] participants[p]).name@ ==> {
            &&& participants[p] == record_of(submissions[i])
            &&& configuration@.cannot_receive_from[p] == resolved(
                participants,
                submissions[i].cannot_send_to_submitter@,
            )
            &&& configuration@.cannot_send_to[p] == resolved(
                participants,
                submissions[i].cannot_receive_from_submitter@,
            )
        }
}

/// The record of the participant who handed in `submission`.
pub fn participant_from_submission(submission: &FormSubmission) -> (participant: Participant)
    ensures
        participant == record_of(*submission),
{
    Participant {
        name: submission.name.clone(),
        discord_handle: submission.discord_handle.clone(),
        mailing_info: submission.mailing_info.clone(),
        interests: submission.interests.clone(),
    }
}

/// The position of the first participant who goes by `name`.
pub fn find_participant(participants: &Vec<Participant>, name: &String) -> (found: Option<usize>)
    ensures
        match found {
            Some(p) => {
                &&& p < participants@.len()
                &&& participants@[p as int].name@ == name@
                &&& forall|q: int| 0 <= q < p ==> (#[trigger] participants@[q]).name@ != name@
            },
            None => !registered(participants@, name@),
        },
{
    let mut p: usize = 0;
    while p < participants.len()
        invariant
            p <= participants@.len(),
            forall|q: int| 0 <= q < p ==> (#[trigger] participants@[q]).name@ != name@,
        decreases participants@.len() - p,
    {
        if participants[p].name == *name {
            return Some(p);
        }
        p += 1;
    }
    None
}

/// The positions of the participants whose name is one of `names`, each once.
pub fn resolve_names(participants: &Vec<Participant>, names: &Vec<String>) -> (positions: Vec<usize>)
    requires
        names_differ(participants@),
    ensures
        members(positions@) == resolved(participants@, names@),
        positions@.no_duplicates(),
{
    let mut positions: Vec<usize> = Vec::new();
    let mut k: usize = 0;
    assert(members(positions@) =~= resolved(participants@, names@.take(0)));
    while k < names.len()
        invariant
            k <= names@.len(),
            names_differ(participants@),
            members(positions@) == resolved(participants@, names@.take(k as int)),
            positions@.no_duplicates(),
        decreases names@.len() - k,
    {
        let ghost before = names@.take(k as int);
        let ghost now = names@.take(k + 1);
        let ghost old_positions = positions@;
        let found = find_participant(participants, &names[k]);
        match found {
            Some(p) => {
                if !contains(&positions, p) {
                    positions.push(p);
                    proof {
                        lemma_members_push(old_positions, p);
                        assert forall|i: int, j: int|
                            0 <= i < positions@.len() && 0 <= j < positions@.len() && i
                                != j implies positions@[i] != positions@[j] by {
                            if i < old_positions.len() && j < old_positions.len() {
                                assert(old_positions[i] != old_positions[j]);
                            } else if i < old_positions.len() {
                                assert(old_positions[i] == positions@[i]);
                            } else {
                                assert(old_positions[j] == positions@[j]);
                            }
                        }
                    }
                }
            },
            None => {},
        }
        proof {
            assert forall|q: int|
                members(positions@).contains(q) <==> resolved(participants@, now).contains(q) by {
                let here = 0 <= q < participants@.len() && participants@[q].name@
                    == names@[k as int]@;
                assert(members(positions@).contains(q) <==> (members(old_positions).contains(q) || (
                found matches Some(p) && p == q)));
                assert(here <==> (found matches Some(p) && p == q)) by {
                    if here {
                        assert(registered(participants@, names@[k as int]@));
                        let p = found->0 as int;
                        if q < p {
                            assert(participants@[q].name@ != participants@[p].name@);
                        }
                        if p < q {
                            assert(participants@[p].name@ != participants@[q].name@);
                        }
                    }
                }
                if 0 <= q < participants@.len() {
                    let name = participants@[q].name@;
                    if listed(now, name) {
                        let j = choose|j: int| 0 <= j < now.len() && (#[trigger] now[j])@ == name;
                        if j < k {
                            assert(before[j]@ == name);
                        }
                    }
                    if listed(before, name) {
                        let j = choose|j: int|
                            0 <= j < before.len() && (#[trigger] before[j])@ == name;
                        assert(now[j]@ == name);
                    }
                    if name == names@[k as int]@ {
                        assert(now[k as int]@ == name);
                    }
                    assert(listed(now, name) <==> (listed(before, name) || here));
                }
            }
            assert(members(positions@) =~= resolved(participants@, now));
        }
        k += 1;
    }
    assert(names@.take(k as int) =~= names@);
    positions
}

/// The name of the submission that `owners` holds at place `p`.
pub open spec fn owner_name(submissions: Seq<FormSubmission>, owners: Seq<usize>, p: int) -> Seq<
    char,
> {
    submissions[owners[p] as int].name@
}

/// Some place of `owners` holds a submission under `name`.
pub open spec fn owned(submissions: Seq<FormSubmission>, owners: Seq<usize>, name: Seq<char>) -> bool {
    exists|p: int| 0 <= p < owners.len() && #[trigger] owner_name(submissions, owners, p) == name
}

/// `owners` holds, for every name among the first `upto` submissions, the
/// last of them under that name, and holds no name twice.
pub open spec fn owns(submissions: Seq<FormSubmission>, owners: Seq<usize>, upto: int) -> bool {
    &&& forall|p: int| 0 <= p < owners.len() ==> #[trigger] owners[p] < upto
    &&& forall|p: int, j: int|
        0 <= p < owners.len() && owners[p] < j < upto ==> (#[trigger] submissions[j]).name@
            != #[trigger] owner_name(submissions, owners, p)
    &&& forall|p: int, q: int|
        0 <= p < q < owners.len() ==> #[trigger] owner_name(submissions, owners, p)
            != #[trigger] owner_name(submissions, owners, q)
    &&& forall|j: int|
        0 <= j < upto ==> owned(submissions, owners, (#[trigger] submissions[j]).name@)
}

/// The place of `owners` that holds a submission under `name`.
fn find_owner(submissions: &Vec<FormSubmission>, owners: &Vec<usize>, name: &String) -> (place:
    Option<usize>)
    requires
        forall|p: int| 0 <= p < owners@.len() ==> #[trigger] owners@[p] < submissions@.len(),
    ensures
        match place {
            Some(at) => at < owners@.len() && owner_name(submissions@, owners@, at as int)
                == name@,
            None => forall|q: int|
                0 <= q < owners@.len() ==> #[trigger] owner_name(submissions@, owners@, q)
                    != name@,
        },
{
    let mut p: usize = 0;
    while p < owners.len()
        invariant
            p <= owners@.len(),
            forall|q: int| 0 <= q < owners@.len() ==> #[trigger] owners@[q] < submissions@.len(),
            forall|q: int|
                0 <= q < p ==> #[trigger] owner_name(submissions@, owners@, q) != name@,
        decreases owners@.len() - p,
    {
        assert(owners@[p as int] < submissions@.len());
        if submissions[owners[p]].name == *name {
            return Some(p);
        }
        assert(owner_name(submissions@, owners@, p as int) != name@);
        p += 1;
    }
    None
}

/// For every name under which somebody signed up, in the order in which the
/// names first occur, the position of the last submission under it.
pub fn last_submissions(submissions: &Vec<FormSubmission>) -> (owners: Vec<usize>)
    ensures
        owns(submissions@, owners@, submissions@.len() as int),
{
    let mut owners: Vec<usize> = Vec::new();
    let mut i: usize = 0;
    while i < submissions.len()
        invariant
            i <= submissions@.len(),
            owns(submissions@, owners@, i as int),
        decreases submissions@.len() - i,
    {
        let ghost before = owners@;
        let place = find_owner(submissions, &owners, &submissions[i].name);
        match place {
            Some(at) => {
                owners.set(at, i);
            },
            None => {
                owners.push(i);
            },
        }
        proof {
            let now = owners@;
            let subs = submissions@;
            assert forall|q: int| 0 <= q < before.len() implies #[trigger] owner_name(subs, now, q)
                == owner_name(subs, before, q) by {}
            assert forall|q: int, j: int|
                0 <= q < now.len() && now[q] < j < i + 1 implies (#[trigger] subs[j]).name@
                != #[trigger] owner_name(subs, now, q) by {
                if q < before.len() {
                    assert(owner_name(subs, now, q) == owner_name(subs, before, q));
                    if place is Some && place->0 == q {
                    } else if j == i {
                        if place is Some {
                            let at = place->0 as int;
                            assert(owner_name(subs, before, at) == subs[i as int].name@);
                            if q < at {
                                assert(owner_name(subs, before, q) != owner_name(subs, before, at));
                            } else {
                                assert(owner_name(subs, before, at) != owner_name(subs, before, q));
                            }
                        }
                    } else {
                        assert(subs[j].name@ != owner_name(subs, before, q));
                    }
                }
            }
            assert forall|a: int, b: int| 0 <= a < b < now.len() implies #[trigger] owner_name(
                subs,
                now,
                a,
            ) != #[trigger] owner_name(subs, now, b) by {
                if b < before.len() {
                    assert(owner_name(subs, before, a) != owner_name(subs, before, b));
                } else {
                    assert(owner_name(subs, now, a) == owner_name(subs, before, a));
                }
            }
            assert forall|j: int| 0 <= j < i + 1 implies owned(
                subs,
                now,
                (#[trigger] subs[j]).name@,
            ) by {
                if j < i {
                    assert(owned(subs, before, subs[j].name@));
                    let q = choose|q: int|
                        0 <= q < before.len() && #[trigger] owner_name(subs, before, q)
                            == subs[j].name@;
                    assert(owner_name(subs, now, q) == subs[j].name@);
                } else {
                    let q = if place is Some {
                        place->0 as int
                    } else {
                        before.len() as int
                    };
                    assert(owner_name(subs, now, q) == subs[j].name@);
                }
            }
        }
        i += 1;
    }
    owners
}

/// Builds the configuration that the sign-up forms describe.
pub fn configuration_from_submissions(submissions: &Vec<FormSubmission>) -> (configuration:
    Configuration)
    ensures
        configuration.wf(),
        reflects(configuration, submissions@),
{
    let owners = last_submissions(submissions);
    let count = owners.len();
    let mut participants: Vec<Participant> = Vec::new();
    let mut p: usize = 0;
    while p < count
        invariant
            p <= count == owners@.len(),
            owns(submissions@, owners@, submissions@.len() as int),
            participants@.len() == p,
            forall|q: int|
                0 <= q < p ==> #[trigger] participants@[q] == record_of(
                    submissions@[owners@[q] as int],
                ),
        decreases count - p,
    {
        assert(owners@[p as int] < submissions@.len());
        participants.push(participant_from_submission(&submissions[owners[p]]));
        p += 1;
    }
    assert forall|a: int| 0 <= a < count implies (#[trigger] participants@[a]).name@ == owner_name(
        submissions@,
        owners@,
        a,
    ) by {}
    assert(names_differ(participants@)) by {
        assert forall|a: int, b: int| 0 <= a < b < participants@.len() implies (
        #[trigger] participants@[a]).name@ != (#[trigger] participants@[b]).name@ by {
            assert(owner_name(submissions@, owners@, a) != owner_name(submissions@, owners@, b));
        }
    }
    let mut cannot_send_to: Vec<Vec<usize>> = Vec::new();
    let mut cannot_receive_from: Vec<Vec<usize>> = Vec::new();
    let mut p: usize = 0;
    while p < count
        invariant
            p <= count == owners@.len() == participants@.len(),
            owns(submissions@, owners@, submissions@.len() as int),
            names_differ(participants@),
            cannot_send_to@.len() == p,
            cannot_receive_from@.len() == p,
            forall|q: int|
                0 <= q < p ==> members((#[trigger] cannot_send_to@[q])@) == resolved(
                    participants@,
                    submissions@[owners@[q] as int].cannot_receive_from_submitter@,
                ),
            forall|q: int|
                0 <= q < p ==> members((#[trigger] cannot_receive_from@[q])@) == resolved(
                    participants@,
                    submissions@[owners@[q] as int].cannot_send_to_submitter@,
                ),
        decreases count - p,
    {
        assert(owners@[p as int] < submissions@.len());
        let submission = &submissions[owners[p]];
        cannot_receive_from.push(resolve_names(&participants, &submission.cannot_send_to_submitter));
        cannot_send_to.push(resolve_names(&participants, &submission.cannot_receive_from_submitter));
        p += 1;
    }
    let configuration = Configuration { participants, cannot_send_to, cannot_receive_from };
    proof {
        let subs = submissions@;
        let people = configuration.participants@;
        assert forall|i: int| 0 <= i < subs.len() implies registered(
            people,
            (#[trigger] subs[i]).name@,
        ) by {
            assert(owned(subs, owners@, subs[i].name@));
            let q = choose|q: int|
                0 <= q < owners@.len() && #[trigger] owner_name(subs, owners@, q) == subs[i].name@;
            assert(people[q].name@ == subs[i].name@);
        }
        assert forall|q: int| 0 <= q < people.len() implies submitted(
            subs,
            (#[trigger] people[q]).name@,
        ) by {
            assert(owners@[q] < subs.len());
            assert(subs[owners@[q] as int].name@ == people[q].name@);
        }
        assert forall|q: int, i: int|
            0 <= q < people.len() && is_latest(subs, i) && (#[trigger] subs[i]).name@ == (
            #[trigger] people[q]).name@ implies {
            &&& people[q] == record_of(subs[i])
            &&& configuration@.cannot_receive_from[q] == resolved(
                people,
                subs[i].cannot_send_to_submitter@,
            )
            &&& configuration@.cannot_send_to[q] == resolved(
                people,
                subs[i].cannot_receive_from_submitter@,
            )
        } by {
            let mine = owners@[q] as int;
            assert(mine < subs.len());
            assert(owner_name(subs, owners@, q) == people[q].name@);
            if i < mine {
                assert(subs[mine].name@ != subs[i].name@);
            }
            if mine < i {
                assert(subs[i].name@ != owner_name(subs, owners@, q));
            }
            assert(i == mine);
            assert(configuration@.cannot_receive_from[q] == members(
                configuration.cannot_receive_from@[q]@,
            ));
            assert(configuration@.cannot_send_to[q] == members(configuration.cannot_send_to@[q]@));
        }
        assert forall|q: int, x: int|
            0 <= q < people.len() && #[trigger] configuration@.cannot_send_to[q].contains(
                x,
            ) implies 0 <= x < people.len() by {
            assert(configuration@.cannot_send_to[q] == members(configuration.cannot_send_to@[q]@));
        }
        assert forall|q: int, x: int|
            0 <= q < people.len() && #[trigger] configuration@.cannot_receive_from[q].contains(
                x,
            ) implies 0 <= x < people.len() by {
            assert(configuration@.cannot_receive_from[q] == members(
                configuration.cannot_receive_from@[q]@,
            ));
        }
    }
    configuration
}

} // verus!
