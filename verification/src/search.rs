//! The randomized strategy: draw a random rearrangement of the participants,
//! pair every participant with whoever landed on their place, and keep the
//! result only if it is a full legal assignment.
//!
//! One draw may fail, and nothing bounds the number of draws that a
//! configuration needs; where no full legal assignment exists every draw
//! fails.  The flow-network strategy always gives a definite answer.

use crate::configuration::{
    lemma_rejected_is_not_accepted, Configuration, ExclusionModel, Violation,
};
use crate::permutation::{
    count_mismatch, is_permutation, lemma_distinct_is_permutation, within, Assignment, Permutation,
    PermutationError,
};
use rand::rngs::ThreadRng;
use rand::seq::SliceRandom;
use vstd::prelude::*;

verus! {

/// `rand::rngs::ThreadRng`, the random number generator that each thread owns.
#[verifier::external_type_specification]
#[verifier::external_body]
pub struct ExThreadRng(ThreadRng);

/// `rand::thread_rng`: a handle to the generator of the calling thread.
/// Nothing is known of the numbers that it will give.
#[verifier::external_body]
fn thread_rng() -> (rng: ThreadRng) {
    rand::thread_rng()
}

/// `rand::seq::SliceRandom::shuffle`: rearranges the entries in place.  Which
/// rearrangement comes out is up to the generator; the entries are the same,
/// each as often as before.
#[verifier::external_body]
fn shuffle(list: &mut Vec<usize>, rng: &mut ThreadRng)
    ensures
        final(list)@.to_multiset() == old(list)@.to_multiset(),
{
    list.shuffle(rng)
}

/// Why a candidate was discarded.
#[derive(Clone, Copy, Debug, PartialEq, Eq, Structural)]
pub enum Rejection {
    /// It is not a permutation of the participants.
    NotPermutation(PermutationError),
    /// It is a permutation, but not a legal one.
    Invalid(Violation),
}

/// The participants in registry order.
pub open spec fn registry_order(count: nat) -> Seq<usize> {
    Seq::new(count, |i: int| i as usize)
}

/// `order` holds every participant exactly once.
pub open spec fn is_rearrangement(order: Seq<usize>, count: nat) -> bool {
    &&& order.len() == count
    &&& order.no_duplicates()
    &&& forall|i: int| 0 <= i < order.len() ==> #[trigger] order[i] < count
}

/// The assignments that give each participant, in registry order, the entry
/// of `order` at their place, as far as both reach.
pub open spec fn paired(order: Seq<usize>, count: nat) -> Seq<Assignment> {
    Seq::new(
        if order.len() < count {
            order.len()
        } else {
            count
        },
        |i: int| Assignment { sender: i as usize, recipient: order[i] },
    )
}

/// `result` is what comes of holding the rearrangement `order` against the
/// rules: the assignments that it stands for where they are a full legal
/// assignment, and else what is wrong with them.
pub open spec fn judged(
    model: ExclusionModel,
    order: Seq<usize>,
    result: Result<Permutation, Violation>,
) -> bool {
    match result {
        Ok(permutation) => {
            &&& permutation.assignments@ == paired(order, model.count)
            &&& model.accepts(permutation.assignments@)
        },
        Err(found) => model.rejects(paired(order, model.count), found),
    }
}

/// `s` is what some rearrangement of the participants stands for.
pub open spec fn is_draw(model: ExclusionModel, s: Seq<Assignment>) -> bool {
    exists|order: Seq<usize>|
        is_rearrangement(order, model.count) && s == #[trigger] paired(order, model.count)
}

/// Some rearrangement of the participants stands for assignments that are
/// no full legal assignment.
pub open spec fn some_draw_fails(model: ExclusionModel) -> bool {
    exists|order: Seq<usize>|
        is_rearrangement(order, model.count) && !model.accepts(
            #[trigger] paired(order, model.count),
        )
}

/// Pairing the participants with a rearrangement of themselves gives a permutation.
pub proof fn lemma_paired_is_permutation(order: Seq<usize>, count: nat)
    requires
        is_rearrangement(order, count),
        count <= usize::MAX,
    ensures
        is_permutation(paired(order, count), count),
        within(paired(order, count), count),
{
    lemma_distinct_is_permutation(paired(order, count), count);
}

/// Pairs every participant with the entry of `order` at their place and
/// holds the result against the rules: first that it is a permutation, then
/// that nobody gives to themself, then that no exclusion is crossed.
pub fn candidate(configuration: &Configuration, order: &Vec<usize>) -> (result: Result<
    Permutation,
    Rejection,
>)
    requires
        configuration.wf(),
        forall|i: int| 0 <= i < order@.len() ==> #[trigger] order@[i] < configuration@.count,
    ensures
        match result {
            Ok(permutation) => {
                &&& permutation.assignments@ == paired(order@, configuration@.count)
                &&& configuration@.accepts(permutation.assignments@)
            },
            Err(Rejection::NotPermutation(mismatch)) => count_mismatch(
                paired(order@, configuration@.count),
                configuration@.count,
            ) == Some(mismatch),
            Err(Rejection::Invalid(found)) => {
                &&& is_permutation(paired(order@, configuration@.count), configuration@.count)
                &&& configuration@.rejects(paired(order@, configuration@.count), found)
            },
        },
{
    let count = configuration.participants.len();
    let mut random_assignments: Vec<Assignment> = Vec::new();
    let mut i: usize = 0;
    while i < count && i < order.len()
        invariant
            i <= count == configuration@.count,
            i <= order@.len(),
            random_assignments@.len() == i,
            forall|k: int|
                0 <= k < i ==> #[trigger] random_assignments@[k] == (Assignment {
                    sender: k as usize,
                    recipient: order@[k],
                }),
        decreases count - i,
    {
        random_assignments.push(Assignment { sender: i, recipient: order[i] });
        i += 1;
    }
    assert(random_assignments@ =~= paired(order@, configuration@.count));
    let permutation = match Permutation::try_new(random_assignments, &configuration.participants) {
        Ok(permutation) => permutation,
        Err(mismatch) => { return Err(Rejection::NotPermutation(mismatch)); },
    };
    match configuration.ensure_valid_permutation(&permutation) {
        Ok(_) => Ok(permutation),
        Err(found) => Err(Rejection::Invalid(found)),
    }
}

/// Draws one rearrangement of the participants and holds the assignments
/// that it stands for against the rules.  Whatever is drawn is a
/// permutation, so a failure always names a self-assignment or a crossed
/// exclusion.
pub fn try_random_permutation(configuration: &Configuration, rng: &mut ThreadRng) -> (result:
    Result<Permutation, Violation>)
    requires
        configuration.wf(),
    ensures
        exists|order: Seq<usize>|
            is_rearrangement(order, configuration@.count) && #[trigger] judged(
                configuration@,
                order,
                result,
            ),
{
    let count = configuration.participants.len();
    let mut participants_randomized: Vec<usize> = Vec::new();
    let mut i: usize = 0;
    while i < count
        invariant
            i <= count,
            participants_randomized@ == registry_order(i as nat),
        decreases count - i,
    {
        participants_randomized.push(i);
        assert(participants_randomized@ =~= registry_order((i + 1) as nat));
        i += 1;
    }
    let ghost canonical = participants_randomized@;
    shuffle(&mut participants_randomized, rng);
    proof {
        let order = participants_randomized@;
        broadcast use vstd::seq_lib::group_to_multiset_ensures;

        canonical.lemma_multiset_has_no_duplicates();
        order.lemma_multiset_has_no_duplicates_conv();
        assert forall|k: int| 0 <= k < order.len() implies #[trigger] order[k] < count by {
            assert(order.contains(order[k]));
            assert(order.to_multiset().count(order[k]) > 0);
            assert(canonical.contains(order[k]));
        }
        assert(order.len() == order.to_multiset().len());
        assert(canonical.len() == canonical.to_multiset().len());
        lemma_paired_is_permutation(order, count as nat);
    }
    let result = match candidate(configuration, &participants_randomized) {
        Ok(permutation) => Ok(permutation),
        Err(Rejection::Invalid(found)) => Err(found),
        Err(Rejection::NotPermutation(_)) => {
            proof {
                assert(false);
            }
            vstd::pervasive::unreached()
        },
    };
    assert(judged(configuration@, participants_randomized@, result));
    result
}

/// Draws up to `attempts` rearrangements and hands out the first that is a
/// full legal assignment.
///
/// What comes back is what a rearrangement of the participants stands for,
/// and it is legal.  Nothing comes back only when no draw was allowed or a
/// draw was turned down: where every rearrangement is legal, as for an empty
/// registry, the first draw is handed out.
pub fn generate_valid_permutation(configuration: &Configuration, attempts: usize) -> (result:
    Option<Permutation>)
    requires
        configuration.wf(),
    ensures
        match result {
            Some(permutation) => {
                &&& attempts > 0
                &&& is_draw(configuration@, permutation.assignments@)
                &&& configuration@.accepts(permutation.assignments@)
            },
            None => attempts == 0 || some_draw_fails(configuration@),
        },
{
    let mut rng = thread_rng();
    let mut loop_count: usize = 0;
    while loop_count < attempts
        invariant
            configuration.wf(),
            loop_count <= attempts,
            loop_count > 0 ==> some_draw_fails(configuration@),
        decreases attempts - loop_count,
    {
        loop_count += 1;
        let drawn = try_random_permutation(configuration, &mut rng);
        let ghost order = choose|order: Seq<usize>|
            is_rearrangement(order, configuration@.count) && #[trigger] judged(
                configuration@,
                order,
                drawn,
            );
        match drawn {
            Ok(permutation) => {
                assert(permutation.assignments@ == paired(order, configuration@.count));
                return Some(permutation);
            },
            Err(found) => {
                proof {
                    lemma_rejected_is_not_accepted(
                        configuration@,
                        paired(order, configuration@.count),
                        found,
                    );
                }
            },
        }
    }
    None
}

} // verus!
