//! Exchanges of two slots of a sequence, and the random draws that choose
//! them.

use rand::Rng;
use vstd::prelude::*;

verus! {

/// `items` with the slots `i` and `j` exchanged.
pub open spec fn swapped<T>(items: Seq<T>, i: int, j: int) -> Seq<T> {
    items.update(i, items[j]).update(j, items[i])
}

/// `items` after the exchanges of `picks`, one after the other.
pub open spec fn transposed<T>(items: Seq<T>, picks: Seq<(usize, usize)>) -> Seq<T>
    decreases picks.len(),
{
    if picks.len() == 0 {
        items
    } else {
        swapped(transposed(items, picks.drop_last()), picks.last().0 as int, picks.last().1 as int)
    }
}

/// Whether every exchange of `picks` names two slots below `len`.
pub open spec fn picks_within(picks: Seq<(usize, usize)>, len: nat) -> bool {
    forall|k: int| 0 <= k < picks.len() ==> (#[trigger] picks[k]).0 < len && picks[k].1 < len
}

/// Whether `picks` are the exchanges of a shuffle of `len` slots: the
/// exchange at place `k` is of slot `k` with a slot from `k` on.
pub open spec fn picks_shuffle(picks: Seq<(usize, usize)>, len: nat) -> bool {
    &&& picks.len() + 1 == len
    &&& forall|k: int|
        0 <= k < picks.len() ==> (#[trigger] picks[k]).0 == k && k <= picks[k].1 < len
}

/// Exchanges keep the length of a sequence and the items that it holds,
/// each as often as before.
pub proof fn lemma_transposed_permutes<T>(items: Seq<T>, picks: Seq<(usize, usize)>)
    requires
        picks_within(picks, items.len()),
    ensures
        transposed(items, picks).len() == items.len(),
        transposed(items, picks).to_multiset() == items.to_multiset(),
    decreases picks.len(),
{
    if picks.len() > 0 {
        let before = picks.drop_last();
        assert forall|k: int| 0 <= k < before.len() implies (#[trigger] before[k]).0 < items.len()
            && before[k].1 < items.len() by {
            assert(before[k] == picks[k]);
        }
        lemma_transposed_permutes(items, before);
        let last = picks[picks.len() - 1];
        let middle = transposed(items, before);
        let i = last.0 as int;
        let j = last.1 as int;
        let first = middle.update(i, middle[j]);
        broadcast use vstd::multiset::group_multiset_axioms;

        middle.to_multiset_ensures();
        assert(middle.contains(middle[i]));
        assert(middle.contains(middle[j]));
        vstd::seq_lib::to_multiset_update(middle, i, middle[j]);
        vstd::seq_lib::to_multiset_update(first, j, middle[i]);
        assert(first[j] == middle[j]);
        assert(swapped(middle, i, j).to_multiset() =~= middle.to_multiset());
    }
}

/// A number from `low` up to but not including `high`, drawn by
/// `rand::thread_rng().gen_range(low..high)`.
///
/// Nothing is claimed of the draw but its range, and that is taken on trust
/// from the generator, which samples an integer range by adding to `low` an
/// offset below `high - low`. An empty range makes `gen_range` panic, so
/// `low` is below `high`.
#[verifier::external_body]
pub(crate) fn random_between(low: usize, high: usize) -> (drawn: usize)
    requires
        low < high,
    ensures
        low <= drawn < high,
{
    rand::thread_rng().gen_range(low..high)
}

/// Exchanges the slots `i` and `j` of `items`.
pub fn exchange<T: Copy>(items: &mut Vec<T>, i: usize, j: usize)
    requires
        i < old(items)@.len(),
        j < old(items)@.len(),
    ensures
        final(items)@ == swapped(old(items)@, i as int, j as int),
{
    let first = items[i];
    let second = items[j];
    items.set(i, second);
    items.set(j, first);
}

/// Puts `items` in a random order: each slot but the last, from the first
/// on, is exchanged with a slot drawn from itself and those behind it.
pub fn shuffle<T: Copy>(items: &mut Vec<T>)
    requires
        old(items)@.len() > 0,
    ensures
        final(items)@.len() == old(items)@.len(),
        final(items)@.to_multiset() == old(items)@.to_multiset(),
        exists|picks: Seq<(usize, usize)>|
            picks_shuffle(picks, old(items)@.len()) && final(items)@ == transposed(
                old(items)@,
                picks,
            ),
{
    let size = items.len();
    let ghost mut picks: Seq<(usize, usize)> = Seq::empty();
    let mut i: usize = 0;
    while i < size - 1
        invariant
            size == old(items)@.len(),
            size > 0,
            i <= size - 1,
            picks.len() == i,
            forall|k: int|
                0 <= k < picks.len() ==> (#[trigger] picks[k]).0 == k && k <= picks[k].1 < size,
            items@.len() == size,
            items@ == transposed(old(items)@, picks),
        decreases size - i,
    {
        let other = random_between(i, size);
        proof {
            let ghost grown = picks.push((i, other));
            assert(grown.drop_last() =~= picks);
            picks = grown;
        }
        exchange(items, i, other);
        i += 1;
    }
    proof {
        lemma_transposed_permutes(old(items)@, picks);
    }
}

} // verus!
