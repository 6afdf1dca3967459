//! Ordering the counted keys by their number of visits.

use crate::counter::{Pair, VisitCounter};
use vstd::prelude::*;
use vstd::set_lib::{lemma_int_range, lemma_len_subset, lemma_subset_equality, set_int_range};

verus! {

/// The counts of a run of pairs, in order.
pub open spec fn visits_of(pairs: Seq<Pair>) -> Seq<u16> {
    Seq::new(pairs.len(), |i: int| pairs[i].1)
}

/// Whether the pair at position `a` is reported before the pair at position
/// `b`: the one with fewer visits first, or with more where the order is
/// descending; of two with the same number, the one that was counted first.
pub open spec fn goes_before(counts: Seq<u16>, a: int, b: int, descending: bool) -> bool {
    ||| (if descending {
        counts[a] > counts[b]
    } else {
        counts[a] < counts[b]
    })
    ||| (counts[a] == counts[b] && a < b)
}

/// Whether `order` lists every position of `counts` once, each before all
/// those that it goes before.
pub open spec fn is_ranking(order: Seq<usize>, counts: Seq<u16>, descending: bool) -> bool {
    &&& order.len() == counts.len()
    &&& forall|i: int| 0 <= i < order.len() ==> (#[trigger] order[i]) < counts.len()
    &&& forall|i: int, j: int|
        0 <= i < j < order.len() ==> goes_before(
            counts,
            (#[trigger] order[i]) as int,
            (#[trigger] order[j]) as int,
            descending,
        )
}

/// Where position `k` is placed among the positions `placed`, which are in
/// order: after the last of them that `k` does not go before.
pub open spec fn slot(placed: Seq<usize>, counts: Seq<u16>, k: int, descending: bool) -> int
    decreases placed.len(),
{
    if placed.len() > 0 && goes_before(counts, k, placed.last() as int, descending) {
        slot(placed.drop_last(), counts, k, descending)
    } else {
        placed.len() as int
    }
}

/// The first `k` positions of `counts` in the order of their report.
pub open spec fn ranking_upto(counts: Seq<u16>, k: nat, descending: bool) -> Seq<usize>
    decreases k,
{
    if k == 0 {
        Seq::empty()
    } else {
        let placed = ranking_upto(counts, (k - 1) as nat, descending);
        placed.insert(slot(placed, counts, k - 1, descending), (k - 1) as usize)
    }
}

/// The positions of `counts` in the order of their report.
pub open spec fn ranking(counts: Seq<u16>, descending: bool) -> Seq<usize> {
    ranking_upto(counts, counts.len(), descending)
}

/// The pairs at the positions that `order` lists.
pub open spec fn arranged(pairs: Seq<Pair>, order: Seq<usize>) -> Seq<Pair> {
    Seq::new(order.len(), |i: int| pairs[order[i] as int])
}

/// The pairs in the order of their report.
pub open spec fn sorted_pairs(pairs: Seq<Pair>, descending: bool) -> Seq<Pair> {
    arranged(pairs, ranking(visits_of(pairs), descending))
}

/// The slot of `k` parts `placed`: `k` goes before all that stands at or
/// after it, and not before what stands right in front of it.
proof fn lemma_slot(placed: Seq<usize>, counts: Seq<u16>, k: int, descending: bool)
    ensures
        0 <= slot(placed, counts, k, descending) <= placed.len(),
        forall|i: int|
            slot(placed, counts, k, descending) <= i < placed.len() ==> goes_before(
                counts,
                k,
                (#[trigger] placed[i]) as int,
                descending,
            ),
        slot(placed, counts, k, descending) > 0 ==> !goes_before(
            counts,
            k,
            placed[slot(placed, counts, k, descending) - 1] as int,
            descending,
        ),
    decreases placed.len(),
{
    if placed.len() > 0 && goes_before(counts, k, placed.last() as int, descending) {
        lemma_slot(placed.drop_last(), counts, k, descending);
        let at = slot(placed, counts, k, descending);
        assert forall|i: int| at <= i < placed.len() implies goes_before(
            counts,
            k,
            (#[trigger] placed[i]) as int,
            descending,
        ) by {
            if i < placed.len() - 1 {
                assert(placed.drop_last()[i] == placed[i]);
            }
        }
    }
}

/// The slot of `k` is a place among `placed`, or right behind them.
pub proof fn lemma_slot_in_range(placed: Seq<usize>, counts: Seq<u16>, k: int, descending: bool)
    ensures
        0 <= slot(placed, counts, k, descending) <= placed.len(),
{
    lemma_slot(placed, counts, k, descending);
}

/// The first `k` positions are listed once each, in the order of their report.
pub proof fn lemma_ranking_upto(counts: Seq<u16>, k: nat, descending: bool)
    requires
        k <= counts.len() <= usize::MAX,
    ensures
        ranking_upto(counts, k, descending).len() == k,
        forall|i: int| 0 <= i < k ==> (#[trigger] ranking_upto(counts, k, descending)[i]) < k,
        forall|i: int, j: int|
            0 <= i < j < k ==> goes_before(
                counts,
                (#[trigger] ranking_upto(counts, k, descending)[i]) as int,
                (#[trigger] ranking_upto(counts, k, descending)[j]) as int,
                descending,
            ),
    decreases k,
{
    if k > 0 {
        let placed = ranking_upto(counts, (k - 1) as nat, descending);
        let at = slot(placed, counts, k - 1, descending);
        let all = ranking_upto(counts, k, descending);
        lemma_ranking_upto(counts, (k - 1) as nat, descending);
        lemma_slot(placed, counts, k - 1, descending);
        assert forall|i: int| 0 <= i < k implies (#[trigger] all[i]) < k by {}
        assert forall|i: int, j: int| 0 <= i < j < k implies goes_before(
            counts,
            (#[trigger] all[i]) as int,
            (#[trigger] all[j]) as int,
            descending,
        ) by {
            // What stands in front of the slot goes before what stands right
            // in front of it, and that goes before the new position.
            if j == at && i < at - 1 {
                assert(goes_before(counts, placed[i] as int, placed[at - 1] as int, descending));
            }
        }
    }
}

/// The ranking lists every position once, each before all those that it
/// goes before.
pub proof fn lemma_ranking_is_ranking(counts: Seq<u16>, descending: bool)
    requires
        counts.len() <= usize::MAX,
    ensures
        is_ranking(ranking(counts, descending), counts, descending),
{
    lemma_ranking_upto(counts, counts.len(), descending);
}

/// A list that is in order names no position twice, and so names them all.
proof fn lemma_ranking_names_all(order: Seq<usize>, counts: Seq<u16>, descending: bool, k: int)
    requires
        is_ranking(order, counts, descending),
        0 <= k < counts.len(),
    ensures
        exists|i: int| 0 <= i < order.len() && order[i] == k,
{
    let n = counts.len() as int;
    let named = Seq::new(order.len(), |i: int| order[i] as int);
    // Of two places one goes before the other, so they differ.
    assert(named.no_duplicates());
    named.unique_seq_to_set();
    // As many distinct positions as there are, all in range: none is left out.
    lemma_int_range(0, n);
    assert(named.to_set().subset_of(set_int_range(0, n)));
    lemma_len_subset(named.to_set(), set_int_range(0, n));
    lemma_subset_equality(named.to_set(), set_int_range(0, n));
    assert(set_int_range(0, n).contains(k));
    let i = choose|i: int| 0 <= i < named.len() && named[i] == k;
    assert(order[i] == k);
}

/// Two lists of the same positions in the same order agree up to any length.
proof fn lemma_rankings_agree(
    first: Seq<usize>,
    second: Seq<usize>,
    counts: Seq<u16>,
    descending: bool,
    upto: int,
)
    requires
        is_ranking(first, counts, descending),
        is_ranking(second, counts, descending),
        0 <= upto <= counts.len(),
    ensures
        forall|i: int| 0 <= i < upto ==> first[i] == second[i],
    decreases upto,
{
    if upto > 0 {
        lemma_rankings_agree(first, second, counts, descending, upto - 1);
        let at = upto - 1;
        if first[at] != second[at] {
            // Each list names what the other holds here, and not earlier,
            // where the two agree: so later, behind what it goes before.
            lemma_ranking_names_all(second, counts, descending, first[at] as int);
            lemma_ranking_names_all(first, counts, descending, second[at] as int);
        }
    }
}

/// The order of the report is the only one: a list of every position, each
/// before all those that it goes before, is the ranking.
pub proof fn lemma_ranking_unique(order: Seq<usize>, counts: Seq<u16>, descending: bool)
    requires
        counts.len() <= usize::MAX,
        is_ranking(order, counts, descending),
    ensures
        order == ranking(counts, descending),
{
    lemma_ranking_is_ranking(counts, descending);
    lemma_rankings_agree(order, ranking(counts, descending), counts, descending, counts.len() as int);
}

/// Whether a pair of `visits` visits at position `a` is reported before one
/// of `other` visits at position `b`.
fn reported_before(visits: u16, a: usize, other: u16, b: usize, descending: bool) -> (yes: bool)
    ensures
        yes == (if descending {
            visits > other
        } else {
            visits < other
        } || (visits == other && a < b)),
{
    if visits == other {
        a < b
    } else if descending {
        visits > other
    } else {
        visits < other
    }
}

impl VisitCounter {
    /// The positions of the counter's pairs in the order of their report by
    /// number of visits.
    pub fn ranking(&self, descending: bool) -> (order: Vec<usize>)
        ensures
            order@ == ranking(visits_of(self.pairs()), descending),
            is_ranking(order@, visits_of(self.pairs()), descending),
    {
        let n: usize = self.len();
        let ghost counts = visits_of(self.pairs());
        let mut order: Vec<usize> = Vec::new();
        let mut k: usize = 0;
        while k < n
            invariant
                n == self.pairs().len(),
                counts == visits_of(self.pairs()),
                k <= n,
                order@ == ranking_upto(counts, k as nat, descending),
            decreases n - k,
        {
            proof {
                lemma_ranking_upto(counts, k as nat, descending);
            }
            let visits: u16 = self.visits_at(k);
            let mut at: usize = order.len();
            assert(order@.take(at as int) == order@);
            while at > 0 && reported_before(
                visits,
                k,
                self.visits_at(order[at - 1]),
                order[at - 1],
                descending,
            )
                invariant
                    n == self.pairs().len(),
                    counts == visits_of(self.pairs()),
                    k < n,
                    visits == counts[k as int],
                    at <= order.len(),
                    forall|i: int| 0 <= i < order.len() ==> (#[trigger] order@[i]) < k,
                    slot(order@, counts, k as int, descending) == slot(
                        order@.take(at as int),
                        counts,
                        k as int,
                        descending,
                    ),
                decreases at,
            {
                assert(order@.take(at as int).drop_last() == order@.take(at - 1));
                at -= 1;
            }
            order.insert(at, k);
            k += 1;
        }
        proof {
            lemma_ranking_is_ranking(counts, descending);
        }
        order
    }
}

} // verus!
