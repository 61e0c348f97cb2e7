//! Sets of participants, kept as lists of registry positions.

use vstd::prelude::*;
use vstd::set_lib::{lemma_int_range, lemma_subset_equality, set_int_range};

verus! {

/// The set of positions that occur in `list`.
pub open spec fn members(list: Seq<usize>) -> Set<int> {
    Set::new(|x: int| exists|k: int| 0 <= k < list.len() && #[trigger] list[k] == x)
}

/// Adding an element to a list adds it to the set of its members.
pub proof fn lemma_members_push(list: Seq<usize>, x: usize)
    ensures
        members(list.push(x)) == members(list).insert(x as int),
{
    let longer = list.push(x);
    assert forall|y: int| members(longer).contains(y) implies members(list).insert(
        x as int,
    ).contains(y) by {
        let k = choose|k: int| 0 <= k < longer.len() && #[trigger] longer[k] == y;
        if k < list.len() {
            assert(list[k] == y);
        }
    }
    assert forall|y: int| members(list).insert(x as int).contains(y) implies members(
        longer,
    ).contains(y) by {
        if y == x {
            assert(longer[list.len() as int] == y);
        } else {
            let k = choose|k: int| 0 <= k < list.len() && #[trigger] list[k] == y;
            assert(longer[k] == y);
        }
    }
    assert(members(longer) =~= members(list).insert(x as int));
}

/// A list has finitely many members, and no more than it has entries.
pub proof fn lemma_members_finite(list: Seq<usize>)
    ensures
        members(list).finite(),
        members(list).len() <= list.len(),
    decreases list.len(),
{
    if list.len() == 0 {
        assert(members(list) =~= Set::<int>::empty());
    } else {
        let shorter = list.drop_last();
        lemma_members_finite(shorter);
        lemma_members_push(shorter, list.last());
        assert(shorter.push(list.last()) =~= list);
    }
}

/// A list without repetitions has as many members as entries.
pub proof fn lemma_members_of_distinct(list: Seq<usize>)
    requires
        list.no_duplicates(),
    ensures
        members(list).finite(),
        members(list).len() == list.len(),
    decreases list.len(),
{
    lemma_members_finite(list);
    if list.len() > 0 {
        let shorter = list.drop_last();
        lemma_members_of_distinct(shorter);
        lemma_members_push(shorter, list.last());
        assert(shorter.push(list.last()) =~= list);
        if members(shorter).contains(list.last() as int) {
            let k = choose|k: int| 0 <= k < shorter.len() && #[trigger] shorter[k] == list.last();
            assert(list[k] == list[list.len() - 1]);
        }
    }
}

/// A list with as many members as entries has no repetitions.
pub proof fn lemma_distinct_of_members(list: Seq<usize>)
    requires
        members(list).len() == list.len(),
    ensures
        list.no_duplicates(),
    decreases list.len(),
{
    if list.len() > 0 {
        let shorter = list.drop_last();
        lemma_members_finite(shorter);
        lemma_members_push(shorter, list.last());
        assert(shorter.push(list.last()) =~= list);
        if members(shorter).contains(list.last() as int) {
            assert(members(list) =~= members(shorter));
        } else {
            lemma_distinct_of_members(shorter);
            assert forall|i: int, j: int| 0 <= i < list.len() && 0 <= j < list.len() && i
                != j implies list[i] != list[j] by {
                if i < shorter.len() && j < shorter.len() {
                    assert(shorter[i] != shorter[j]);
                } else if i < shorter.len() {
                    assert(shorter[i] == list[i]);
                } else {
                    assert(shorter[j] == list[j]);
                }
            }
        }
    }
}

/// A list of `count` different positions below `count` holds every position below `count`.
pub proof fn lemma_members_cover(list: Seq<usize>, count: nat)
    requires
        list.no_duplicates(),
        list.len() == count,
        forall|k: int| 0 <= k < list.len() ==> #[trigger] list[k] < count,
    ensures
        forall|p: int| 0 <= p < count ==> members(list).contains(p),
{
    lemma_members_of_distinct(list);
    lemma_int_range(0, count as int);
    assert(members(list).subset_of(set_int_range(0, count as int)));
    lemma_subset_equality(members(list), set_int_range(0, count as int));
    assert forall|p: int| 0 <= p < count implies members(list).contains(p) by {
        assert(set_int_range(0, count as int).contains(p));
    }
}

/// A list of different positions below `count` that holds every position
/// below `count` has `count` entries.
pub proof fn lemma_cover_len(list: Seq<usize>, count: nat)
    requires
        list.no_duplicates(),
        forall|k: int| 0 <= k < list.len() ==> #[trigger] list[k] < count,
        forall|p: int| 0 <= p < count ==> members(list).contains(p),
    ensures
        list.len() == count,
{
    lemma_members_of_distinct(list);
    lemma_int_range(0, count as int);
    assert(members(list) =~= set_int_range(0, count as int));
}

/// Whether `x` occurs among the first `end` entries of `list`.
pub fn occurs_before(list: &Vec<usize>, end: usize, x: usize) -> (found: bool)
    requires
        end <= list@.len(),
    ensures
        found == members(list@.take(end as int)).contains(x as int),
{
    let mut k: usize = 0;
    while k < end
        invariant
            k <= end <= list@.len(),
            forall|j: int| 0 <= j < k ==> list@[j] != x,
        decreases end - k,
    {
        if list[k] == x {
            assert(list@.take(end as int)[k as int] == x);
            return true;
        }
        k += 1;
    }
    assert forall|j: int| 0 <= j < end implies #[trigger] list@.take(end as int)[j] != x by {}
    false
}

/// Whether `x` occurs in `list`.
pub fn contains(list: &Vec<usize>, x: usize) -> (found: bool)
    ensures
        found == members(list@).contains(x as int),
{
    assert(list@.take(list@.len() as int) =~= list@);
    occurs_before(list, list.len(), x)
}

/// Whether every position in `list` is below `bound`.
pub fn all_below(list: &Vec<usize>, bound: usize) -> (ok: bool)
    ensures
        ok == (forall|x: int| members(list@).contains(x) ==> 0 <= x < bound),
{
    let mut k: usize = 0;
    while k < list.len()
        invariant
            k <= list@.len(),
            forall|j: int| 0 <= j < k ==> list@[j] < bound,
        decreases list@.len() - k,
    {
        if list[k] >= bound {
            assert(members(list@).contains(list@[k as int] as int));
            return false;
        }
        k += 1;
    }
    assert forall|x: int| members(list@).contains(x) implies 0 <= x < bound by {
        let j = choose|j: int| 0 <= j < list@.len() && #[trigger] list@[j] == x;
    }
    true
}

/// The number of different positions in `list`.
pub fn distinct_count(list: &Vec<usize>) -> (count: usize)
    ensures
        count == members(list@).len(),
{
    let mut count: usize = 0;
    let mut i: usize = 0;
    proof {
        lemma_members_finite(list@.take(0));
        assert(members(list@.take(0)) =~= Set::<int>::empty());
    }
    while i < list.len()
        invariant
            i <= list@.len(),
            members(list@.take(i as int)).finite(),
            count == members(list@.take(i as int)).len(),
            count <= i,
        decreases list@.len() - i,
    {
        let seen = occurs_before(list, i, list[i]);
        proof {
            lemma_members_push(list@.take(i as int), list@[i as int]);
            assert(list@.take(i as int).push(list@[i as int]) =~= list@.take(i + 1));
        }
        if !seen {
            count += 1;
        }
        i += 1;
    }
    assert(list@.take(i as int) =~= list@);
    count
}

} // verus!
