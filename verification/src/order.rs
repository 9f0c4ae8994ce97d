//! Ranking: the stable order of a list by integer keys.

use vstd::prelude::*;
use vstd::relations::{sorted_by, total_ordering};
use vstd::seq_lib::{lemma_multiset_commutative, lemma_sorted_unique};

verus! {

/// A key together with the position it stands at in the ranked list.
pub type Ranked = (i64, usize);

/// Smaller keys come first, and of equal keys the one that stands earlier.
pub open spec fn ranks_before(a: Ranked, b: Ranked) -> bool {
    a.0 < b.0 || (a.0 == b.0 && a.1 <= b.1)
}

pub open spec fn rank_order() -> spec_fn(Ranked, Ranked) -> bool {
    |a: Ranked, b: Ranked| ranks_before(a, b)
}

/// Every key with its position, in the order of the list.
pub open spec fn with_positions(keys: Seq<i64>) -> Seq<Ranked> {
    Seq::new(keys.len(), |i: int| (keys[i], i as usize))
}

/// The stable ascending order of the list: its keys with their positions, sorted.
pub open spec fn ranking(keys: Seq<i64>) -> Seq<Ranked> {
    with_positions(keys).sort_by(rank_order())
}

pub proof fn lemma_rank_order_is_total()
    ensures
        total_ordering(rank_order()),
{
}

/// A ranking lists every position once: it is as long as the list, the key at each rank is the
/// one that stands at the position named there, and no position is named twice.
pub proof fn law_ranking_is_a_permutation(keys: Seq<i64>)
    requires
        keys.len() <= usize::MAX,
    ensures
        ranking(keys).len() == keys.len(),
        forall|r: int|
            0 <= r < keys.len() ==> (#[trigger] ranking(keys)[r]).1 < keys.len()
                && ranking(keys)[r].0 == keys[ranking(keys)[r].1 as int],
        forall|r: int, s: int|
            0 <= r < s < keys.len() ==> (#[trigger] ranking(keys)[r]).1 != (#[trigger] ranking(
                keys,
            )[s]).1,
{
    broadcast use vstd::seq_lib::group_to_multiset_ensures;

    let pairs = with_positions(keys);
    lemma_rank_order_is_total();
    pairs.lemma_sort_by_ensures(rank_order());
    let sorted = ranking(keys);
    assert(sorted.len() == sorted.to_multiset().len());
    assert(pairs.len() == pairs.to_multiset().len());
    assert forall|r: int| 0 <= r < keys.len() implies (#[trigger] sorted[r]).1 < keys.len()
        && sorted[r].0 == keys[sorted[r].1 as int] by {
        assert(sorted.contains(sorted[r]));
        assert(pairs.contains(sorted[r]));
    }
    assert(pairs.no_duplicates());
    pairs.lemma_multiset_has_no_duplicates();
    sorted.lemma_multiset_has_no_duplicates_conv();
    assert forall|r: int, s: int| 0 <= r < s < keys.len() implies (#[trigger] sorted[r]).1 != (
    #[trigger] sorted[s]).1 by {
        if sorted[r].1 == sorted[s].1 {
            assert(sorted[r] == sorted[s]);
        }
    }
}

/// A ranking is ascending, and equal keys keep the order in which they stand in the list.
pub proof fn law_ranking_is_stable(keys: Seq<i64>, r: int, s: int)
    requires
        keys.len() <= usize::MAX,
        0 <= r < s < keys.len(),
    ensures
        ranking(keys)[r].0 <= ranking(keys)[s].0,
        ranking(keys)[r].0 == ranking(keys)[s].0 ==> ranking(keys)[r].1 < ranking(keys)[s].1,
{
    law_ranking_is_a_permutation(keys);
    lemma_rank_order_is_total();
    with_positions(keys).lemma_sort_by_ensures(rank_order());
    let order = rank_order();
    assert(order(ranking(keys)[r], ranking(keys)[s]));
}

fn comes_before(a: Ranked, b: Ranked) -> (r: bool)
    ensures
        r == ranks_before(a, b),
{
    a.0 < b.0 || (a.0 == b.0 && a.1 <= b.1)
}

/// Merges two sorted lists into one.
fn merge(left: &Vec<Ranked>, right: &Vec<Ranked>) -> (out: Vec<Ranked>)
    requires
        sorted_by(left@, rank_order()),
        sorted_by(right@, rank_order()),
    ensures
        sorted_by(out@, rank_order()),
        out@.to_multiset() == left@.to_multiset().add(right@.to_multiset()),
{
    broadcast use vstd::seq_lib::group_to_multiset_ensures;

    let ghost order = rank_order();
    let mut out: Vec<Ranked> = Vec::new();
    let mut i: usize = 0;
    let mut j: usize = 0;
    proof {
        assert(left@.take(0) =~= Seq::empty());
        assert(right@.take(0) =~= Seq::empty());
    }
    while i < left.len() || j < right.len()
        invariant
            0 <= i <= left.len(),
            0 <= j <= right.len(),
            order == rank_order(),
            sorted_by(left@, order),
            sorted_by(right@, order),
            sorted_by(out@, order),
            forall|a: int, b: int|
                0 <= a < out.len() && i <= b < left.len() ==> #[trigger] order(out@[a], left@[b]),
            forall|a: int, b: int|
                0 <= a < out.len() && j <= b < right.len() ==> #[trigger] order(out@[a], right@[b]),
            out@.to_multiset() =~= left@.take(i as int).to_multiset().add(
                right@.take(j as int).to_multiset(),
            ),
        decreases left.len() - i + right.len() - j,
    {
        broadcast use vstd::seq_lib::group_to_multiset_ensures;

        let ghost before = out@;
        let from_left = if i < left.len() {
            j >= right.len() || comes_before(left[i], right[j])
        } else {
            false
        };
        if from_left {
            proof {
                assert(left@.take(i + 1) =~= left@.take(i as int).push(left@[i as int]));
                assert forall|b: int| j <= b < right.len() implies #[trigger] order(
                    left@[i as int],
                    right@[b],
                ) by {
                    assert(order(left@[i as int], right@[j as int]));
                    if b > j {
                        assert(order(right@[j as int], right@[b]));
                    }
                }
                assert forall|b: int| i < b < left.len() implies #[trigger] order(
                    left@[i as int],
                    left@[b],
                ) by {}
                assert forall|a: int| 0 <= a < out.len() implies #[trigger] order(
                    out@[a],
                    left@[i as int],
                ) by {}
            }
            out.push(left[i]);
            i = i + 1;
        } else {
            proof {
                assert(right@.take(j + 1) =~= right@.take(j as int).push(right@[j as int]));
                assert forall|b: int| i <= b < left.len() implies #[trigger] order(
                    right@[j as int],
                    left@[b],
                ) by {
                    assert(order(right@[j as int], left@[i as int]));
                    if b > i {
                        assert(order(left@[i as int], left@[b]));
                    }
                }
                assert forall|a: int| 0 <= a < out.len() implies #[trigger] order(
                    out@[a],
                    right@[j as int],
                ) by {}
            }
            out.push(right[j]);
            j = j + 1;
        }
        proof {
            assert(out@ == before.push(out@.last()));
            assert forall|a: int, b: int| 0 <= a < b < out.len() implies #[trigger] order(
                out@[a],
                out@[b],
            ) by {
                if b < before.len() {
                    assert(order(before[a], before[b]));
                }
            }
        }
    }
    proof {
        assert(left@.take(left.len() as int) =~= left@);
        assert(right@.take(right.len() as int) =~= right@);
    }
    out
}

/// Sorts by merging halves.
fn merge_sort(items: Vec<Ranked>) -> (out: Vec<Ranked>)
    ensures
        sorted_by(out@, rank_order()),
        out@.to_multiset() == items@.to_multiset(),
    decreases items.len(),
{
    if items.len() <= 1 {
        return items;
    }
    let middle: usize = items.len() / 2;
    let mut left = items;
    let ghost all = left@;
    let right = left.split_off(middle);
    proof {
        assert(all =~= left@ + right@);
        lemma_multiset_commutative(left@, right@);
    }
    let left = merge_sort(left);
    let right = merge_sort(right);
    merge(&left, &right)
}

/// Ranks a list by its keys, ascending and stable.
pub fn rank(keys: &Vec<i64>) -> (out: Vec<Ranked>)
    ensures
        out@ == ranking(keys@),
{
    let mut pairs: Vec<Ranked> = Vec::new();
    let mut i: usize = 0;
    while i < keys.len()
        invariant
            0 <= i <= keys.len(),
            pairs.len() == i,
            forall|j: int| 0 <= j < i ==> #[trigger] pairs@[j] == (keys@[j], j as usize),
        decreases keys.len() - i,
    {
        pairs.push((keys[i], i));
        i = i + 1;
    }
    let ghost listed = pairs@;
    let out = merge_sort(pairs);
    proof {
        assert(listed =~= with_positions(keys@));
        lemma_rank_order_is_total();
        listed.lemma_sort_by_ensures(rank_order());
        lemma_sorted_unique(out@, ranking(keys@), rank_order());
    }
    out
}

} // verus!
