//! What holds of the statistics of every log.

use crate::counter::{Pair, MAX_VISITS};
use crate::line::request_of;
use crate::order::{
    arranged, goes_before, is_ranking, lemma_ranking_is_ranking, lemma_ranking_unique,
    lemma_ranking_upto, lemma_slot_in_range, ranking, ranking_upto, slot, sorted_pairs, visits_of,
};
use crate::path::{is_front_page, is_post, path_key};
use crate::report::{report_of, sorted_report};
use crate::stats::{counted_key, first_fault, first_seen, visit_counts, visits};
use crate::status::is_success;
use vstd::prelude::*;
use vstd::seq_lib::{to_multiset_build, to_multiset_insert};

verus! {

/// A key under which no line of a log counts a visit is no key of the log's
/// statistics: it is absent, not held with a count of zero.
pub proof fn lemma_unvisited_key_is_absent(lines: Seq<Seq<char>>, key: Seq<char>)
    requires
        visits(lines, key) == 0,
    ensures
        !visit_counts(lines).contains_key(key),
        !first_seen(lines).contains(key),
{
    lemma_first_seen(lines);
}

/// In a log without a fault no key has more visits than a count can hold.
pub proof fn lemma_visits_bounded(lines: Seq<Seq<char>>, key: Seq<char>)
    requires
        first_fault(lines) is None,
    ensures
        visits(lines, key) <= MAX_VISITS,
    decreases lines.len(),
{
    if lines.len() > 0 {
        lemma_visits_bounded(lines.drop_last(), key);
    }
}

/// The statistics of a log without a fault hold, for each key with a visit,
/// the number of lines that count one under it, which is at least one.
pub proof fn lemma_counts_are_visits(lines: Seq<Seq<char>>, key: Seq<char>)
    requires
        first_fault(lines) is None,
        visit_counts(lines).contains_key(key),
    ensures
        visit_counts(lines)[key] == visits(lines, key),
        visit_counts(lines)[key] >= 1,
{
    lemma_visits_bounded(lines, key);
}

/// The keys in order of first visit are the keys with a visit, each once.
pub proof fn lemma_first_seen(lines: Seq<Seq<char>>)
    ensures
        first_seen(lines).no_duplicates(),
        forall|key: Seq<char>| #[trigger] first_seen(lines).contains(key) <==> visits(lines, key) > 0,
    decreases lines.len(),
{
    if lines.len() > 0 {
        let earlier = first_seen(lines.drop_last());
        lemma_first_seen(lines.drop_last());
        match counted_key(lines.last()) {
            Some(new) => {
                if visits(lines.drop_last(), new) == 0 {
                    assert forall|i: int, j: int|
                        0 <= i < earlier.len() + 1 && 0 <= j < earlier.len() + 1 && i
                            != j implies earlier.push(new)[i] != earlier.push(new)[j] by {
                        if i < earlier.len() {
                            assert(earlier.contains(earlier[i]));
                        }
                        if j < earlier.len() {
                            assert(earlier.contains(earlier[j]));
                        }
                    }
                    assert forall|key: Seq<char>| #[trigger]
                        first_seen(lines).contains(key) <==> visits(lines, key) > 0 by {
                        if key == new {
                            assert(earlier.push(new)[earlier.len() as int] == new);
                        } else if earlier.contains(key) {
                            let i = earlier.index_of(key);
                            assert(earlier.push(new)[i] == key);
                        }
                    }
                }
            },
            None => {},
        }
    }
}

/// A line that counts a visit under a key adds one to the visits of that
/// key and leaves those of every other key as they are.
pub proof fn lemma_visit_adds_one(lines: Seq<Seq<char>>, line: Seq<char>, key: Seq<char>)
    requires
        counted_key(line) == Some(key),
    ensures
        visits(lines.push(line), key) == visits(lines, key) + 1,
        forall|other: Seq<char>| other != key ==> visits(lines.push(line), other) == visits(lines, other),
{
    assert(lines.push(line).drop_last() == lines);
}

/// A successful request for the front page counts under `/`, whichever way
/// the front page is spelt.
pub proof fn lemma_front_page_counts_as_root(line: Seq<char>, path: Seq<char>, status: Seq<char>)
    requires
        request_of(line) == Some((path, status)),
        is_front_page(path),
        is_success(status),
    ensures
        counted_key(line) == Some("/"@),
{
}

/// One more successful request for the front page, whichever way it is
/// spelt, is one more visit under `/`.
pub proof fn lemma_front_page_adds_to_root(
    lines: Seq<Seq<char>>,
    line: Seq<char>,
    path: Seq<char>,
    status: Seq<char>,
)
    requires
        request_of(line) == Some((path, status)),
        is_front_page(path),
        is_success(status),
    ensures
        visits(lines.push(line), "/"@) == visits(lines, "/"@) + 1,
{
    assert(lines.push(line).drop_last() == lines);
}

/// The keys are `/`, `/rss.xml` and the paths of posts, and no others.
pub proof fn lemma_keys(path: Seq<char>, key: Seq<char>)
    requires
        path_key(path) == Some(key),
    ensures
        key == "/"@ || key == "/rss.xml"@ || (key == path && is_post(path)),
{
}

/// The other spelling of the front page is never a key of its own.
pub proof fn lemma_index_page_is_no_key(lines: Seq<Seq<char>>)
    ensures
        visits(lines, "/index.html"@) == 0,
        !visit_counts(lines).contains_key("/index.html"@),
    decreases lines.len(),
{
    if lines.len() > 0 {
        lemma_index_page_is_no_key(lines.drop_last());
        reveal_strlit("/index.html");
        reveal_strlit("/");
        reveal_strlit("/rss.xml");
        reveal_strlit("/posts/");
        if counted_key(lines.last()) == Some("/index.html"@) {
            let request = request_of(lines.last()).unwrap();
            lemma_keys(request.0, "/index.html"@);
            assert("/index.html"@.len() != "/"@.len());
        }
    }
}

/// A post is counted under its own path, as it is written.
pub proof fn lemma_post_is_its_own_key(path: Seq<char>)
    requires
        is_post(path),
    ensures
        path_key(path) == Some(path),
{
    reveal_strlit("/index.html");
    reveal_strlit("/");
    reveal_strlit("/rss.xml");
    reveal_strlit("/posts/");
    assert(path[1] == "/posts/"@[1]);
}

/// A path that is neither the front page, nor the feed, nor a post is not
/// counted.
pub proof fn lemma_other_paths_are_not_counted(path: Seq<char>)
    requires
        !is_front_page(path),
        path != "/rss.xml"@,
        !is_post(path),
    ensures
        path_key(path) is None,
{
}

/// A line whose status is not that of success counts no visit: with it the
/// statistics are what they are without it.
pub proof fn lemma_other_status_counts_nothing(lines: Seq<Seq<char>>, line: Seq<char>)
    requires
        match request_of(line) {
            Some(request) => !is_success(request.1),
            None => true,
        },
    ensures
        counted_key(line) is None,
        forall|key: Seq<char>| visits(lines.push(line), key) == visits(lines, key),
        visit_counts(lines.push(line)) == visit_counts(lines),
        first_seen(lines.push(line)) == first_seen(lines),
{
    assert(lines.push(line).drop_last() == lines);
}

/// Where no two keys have the same number of visits, the descending report
/// is the ascending report read backwards.
pub proof fn lemma_descending_reverses_ascending(pairs: Seq<Pair>)
    requires
        pairs.len() <= usize::MAX,
        forall|i: int, j: int| 0 <= i < j < pairs.len() ==> pairs[i].1 != pairs[j].1,
    ensures
        sorted_pairs(pairs, true) == sorted_pairs(pairs, false).reverse(),
        sorted_report(pairs, "desc"@) == sorted_report(pairs, "asc"@).reverse(),
{
    let counts = visits_of(pairs);
    let up = ranking(counts, false);
    let down = up.reverse();
    lemma_ranking_is_ranking(counts, false);
    assert(is_ranking(down, counts, true)) by {
        assert forall|i: int, j: int| 0 <= i < j < down.len() implies goes_before(
            counts,
            (#[trigger] down[i]) as int,
            (#[trigger] down[j]) as int,
            true,
        ) by {}
    }
    lemma_ranking_unique(down, counts, true);
    reveal_strlit("asc");
    reveal_strlit("desc");
    assert("asc"@.len() != "desc"@.len());
    assert(report_of(sorted_pairs(pairs, false).reverse()) =~= report_of(
        sorted_pairs(pairs, false),
    ).reverse());
}

/// The first `k` pairs in the order of their report are those pairs, each
/// as often as it stands among them.
proof fn lemma_arranged_upto(pairs: Seq<Pair>, k: nat, descending: bool)
    requires
        k <= pairs.len() <= usize::MAX,
    ensures
        arranged(pairs, ranking_upto(visits_of(pairs), k, descending)).to_multiset() == pairs.take(
            k as int,
        ).to_multiset(),
    decreases k,
{
    let counts = visits_of(pairs);
    if k == 0 {
        assert(arranged(pairs, ranking_upto(counts, k, descending)) =~= pairs.take(0));
    } else {
        let placed = ranking_upto(counts, (k - 1) as nat, descending);
        let at = slot(placed, counts, k - 1, descending);
        lemma_arranged_upto(pairs, (k - 1) as nat, descending);
        lemma_ranking_upto(counts, (k - 1) as nat, descending);
        lemma_slot_in_range(placed, counts, k - 1, descending);
        assert(arranged(pairs, placed.insert(at, (k - 1) as usize)) =~= arranged(
            pairs,
            placed,
        ).insert(at, pairs[k - 1]));
        to_multiset_insert(arranged(pairs, placed), at, pairs[k - 1]);
        to_multiset_build(pairs.take(k - 1), pairs[k - 1]);
        assert(pairs.take(k - 1).push(pairs[k - 1]) =~= pairs.take(k as int));
    }
}

/// The sorted report holds the pairs of the counter, each once, and none
/// of them stands behind one that it goes before.
pub proof fn lemma_sorted_pairs(pairs: Seq<Pair>, descending: bool)
    requires
        pairs.len() <= usize::MAX,
    ensures
        sorted_pairs(pairs, descending).len() == pairs.len(),
        sorted_pairs(pairs, descending).to_multiset() == pairs.to_multiset(),
        forall|i: int, j: int|
            0 <= i < j < pairs.len() ==> if descending {
                sorted_pairs(pairs, descending)[i].1 >= sorted_pairs(pairs, descending)[j].1
            } else {
                sorted_pairs(pairs, descending)[i].1 <= sorted_pairs(pairs, descending)[j].1
            },
{
    lemma_ranking_is_ranking(visits_of(pairs), descending);
    lemma_arranged_upto(pairs, pairs.len(), descending);
    assert(pairs.take(pairs.len() as int) =~= pairs);
}

} // verus!
