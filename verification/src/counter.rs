//! The visit counter: a finite mapping from path keys to bounded counts that
//! remembers the order in which its keys were first counted.

use vstd::prelude::*;

verus! {

/// The largest number of visits that one key can hold.
pub const MAX_VISITS: u16 = 65535;

/// A path key and the number of visits counted under it.
pub type Pair = (Seq<char>, u16);

/// The keys of a run of pairs, in order.
pub open spec fn paths_of(pairs: Seq<Pair>) -> Seq<Seq<char>> {
    Seq::new(pairs.len(), |i: int| pairs[i].0)
}

/// The mapping that a run of pairs with distinct keys writes down.
pub open spec fn counts_of(pairs: Seq<Pair>) -> Map<Seq<char>, u16> {
    Map::new(
        |path: Seq<char>| paths_of(pairs).contains(path),
        |path: Seq<char>| pairs[paths_of(pairs).index_of(path)].1,
    )
}

/// What a counter must hold of its pairs: no key twice, no count of zero.
pub open spec fn well_formed(pairs: Seq<Pair>) -> bool {
    &&& paths_of(pairs).no_duplicates()
    &&& forall|i: int| 0 <= i < pairs.len() ==> (#[trigger] pairs[i]).1 > 0
}

/// In well-formed pairs every pair is what the mapping holds for its key.
pub proof fn lemma_counts_of(pairs: Seq<Pair>)
    requires
        paths_of(pairs).no_duplicates(),
    ensures
        forall|i: int|
            0 <= i < pairs.len() ==> counts_of(pairs).contains_key((#[trigger] pairs[i]).0)
                && counts_of(pairs)[pairs[i].0] == pairs[i].1,
        forall|path: Seq<char>| #[trigger]
            counts_of(pairs).contains_key(path) <==> paths_of(pairs).contains(path),
{
    assert forall|i: int| 0 <= i < pairs.len() implies counts_of(pairs).contains_key(
        (#[trigger] pairs[i]).0,
    ) && counts_of(pairs)[pairs[i].0] == pairs[i].1 by {
        assert(paths_of(pairs)[i] == pairs[i].0);
    }
}

/// Pairs with distinct keys are their keys, each with what the mapping holds
/// for it.
pub proof fn lemma_pairs_of_counts(pairs: Seq<Pair>)
    requires
        paths_of(pairs).no_duplicates(),
    ensures
        pairs == Seq::new(
            pairs.len(),
            |i: int| (paths_of(pairs)[i], counts_of(pairs)[paths_of(pairs)[i]]),
        ),
{
    lemma_counts_of(pairs);
    assert(pairs =~= Seq::new(
        pairs.len(),
        |i: int| (paths_of(pairs)[i], counts_of(pairs)[paths_of(pairs)[i]]),
    ));
}

/// Counting a visit under a key that is already held replaces its count.
pub proof fn lemma_counts_of_update(pairs: Seq<Pair>, i: int, count: u16)
    requires
        paths_of(pairs).no_duplicates(),
        0 <= i < pairs.len(),
    ensures
        paths_of(pairs.update(i, (pairs[i].0, count))) == paths_of(pairs),
        counts_of(pairs.update(i, (pairs[i].0, count))) == counts_of(pairs).insert(
            pairs[i].0,
            count,
        ),
{
    let after = pairs.update(i, (pairs[i].0, count));
    assert(paths_of(after) =~= paths_of(pairs));
    lemma_counts_of(pairs);
    lemma_counts_of(after);
    assert forall|path: Seq<char>| #[trigger]
        counts_of(after).contains_key(path) implies counts_of(after)[path] == counts_of(
        pairs,
    ).insert(pairs[i].0, count)[path] by {
        assert(paths_of(pairs)[i] == pairs[i].0);
    }
}

/// Counting a visit under a new key adds the key with its count.
pub proof fn lemma_counts_of_push(pairs: Seq<Pair>, path: Seq<char>, count: u16)
    requires
        paths_of(pairs).no_duplicates(),
        !paths_of(pairs).contains(path),
    ensures
        paths_of(pairs.push((path, count))) == paths_of(pairs).push(path),
        paths_of(pairs.push((path, count))).no_duplicates(),
        counts_of(pairs.push((path, count))) == counts_of(pairs).insert(path, count),
{
    let after = pairs.push((path, count));
    assert(paths_of(after) =~= paths_of(pairs).push(path));
    lemma_counts_of(pairs);
    lemma_counts_of(after);
    assert forall|p: Seq<char>| #[trigger]
        counts_of(after).contains_key(p) implies counts_of(pairs).insert(path, count).contains_key(
        p,
    ) && counts_of(after)[p] == counts_of(pairs).insert(path, count)[p] by {}
    assert forall|p: Seq<char>| #[trigger]
        counts_of(pairs).insert(path, count).contains_key(p) implies counts_of(
        after,
    ).contains_key(p) by {
        if p == path {
            assert(paths_of(after)[pairs.len() as int] == path);
        } else {
            let j = paths_of(pairs).index_of(p);
            assert(paths_of(after)[j] == p);
        }
    }
}

/// Visits counted per path key.
pub struct VisitCounter {
    entries: Vec<(String, u16)>,
}

impl View for VisitCounter {
    type V = Map<Seq<char>, u16>;

    /// The mapping from each counted key to its number of visits.
    open spec fn view(&self) -> Map<Seq<char>, u16> {
        counts_of(self.pairs())
    }
}

impl VisitCounter {
    /// The keys with their counts, in the order in which the keys were first
    /// counted.
    pub closed spec fn pairs(&self) -> Seq<Pair> {
        self.entries.deep_view()
    }

    /// The keys, in the order in which they were first counted.
    pub open spec fn paths(&self) -> Seq<Seq<char>> {
        paths_of(self.pairs())
    }

    /// What every counter holds of its pairs.
    #[verifier::type_invariant]
    pub open spec fn is_well_formed(&self) -> bool {
        well_formed(self.pairs())
    }

    /// A counter that holds no key.
    pub fn new() -> (counter: VisitCounter)
        ensures
            counter.pairs() == Seq::<Pair>::empty(),
            counter@ == Map::<Seq<char>, u16>::empty(),
    {
        let counter = VisitCounter { entries: Vec::new() };
        counter
    }

    /// Number of keys held.
    pub fn len(&self) -> (n: usize)
        ensures
            n == self.pairs().len(),
    {
        self.entries.len()
    }

    /// The key at position `i`, in order of first count.
    pub fn path_at(&self, i: usize) -> (path: &String)
        requires
            i < self.pairs().len(),
        ensures
            path@ == self.pairs()[i as int].0,
    {
        &self.entries[i].0
    }

    /// The count of the key at position `i`, in order of first count.
    pub fn visits_at(&self, i: usize) -> (visits: u16)
        requires
            i < self.pairs().len(),
        ensures
            visits == self.pairs()[i as int].1,
            visits > 0,
    {
        proof {
            use_type_invariant(self);
        }
        self.entries[i].1
    }

    /// Where `path` is held, if it is.
    fn position(&self, path: &String) -> (at: Option<usize>)
        ensures
            match at {
                Some(i) => i < self.pairs().len() && self.pairs()[i as int].0 == path@,
                None => !self.paths().contains(path@),
            },
    {
        let mut i: usize = 0;
        while i < self.entries.len()
            invariant
                i <= self.entries.len(),
                self.entries.len() == self.pairs().len(),
                forall|j: int| 0 <= j < i ==> self.pairs()[j].0 != path@,
            decreases self.entries.len() - i,
        {
            if self.entries[i].0 == *path {
                return Some(i);
            }
            i += 1;
        }
        None
    }

    /// The keys with their counts, in the order in which the keys were first
    /// counted.
    pub fn to_vec(&self) -> (pairs: Vec<(String, u16)>)
        ensures
            pairs.deep_view() == self.pairs(),
    {
        let mut pairs: Vec<(String, u16)> = Vec::new();
        let mut i: usize = 0;
        while i < self.entries.len()
            invariant
                i <= self.entries.len(),
                pairs.len() == i,
                forall|j: int| 0 <= j < i ==> (#[trigger] pairs@[j]).deep_view() == self.pairs()[j],
            decreases self.entries.len() - i,
        {
            pairs.push((self.entries[i].0.clone(), self.entries[i].1));
            i += 1;
        }
        pairs
    }

    /// The number of visits counted under `path`, or `None` where none was.
    pub fn get(&self, path: &str) -> (visits: Option<u16>)
        ensures
            visits == (if self@.contains_key(path@) {
                Some(self@[path@])
            } else {
                None
            }),
            visits != Some(0u16),
    {
        proof {
            use_type_invariant(self);
            lemma_counts_of(self.pairs());
        }
        let wanted = path.to_string();
        match self.position(&wanted) {
            Some(i) => Some(self.entries[i].1),
            None => None,
        }
    }

    /// The counter after one more visit under `path`.
    pub fn with_visit(self, path: String) -> (counter: VisitCounter)
        requires
            self@.contains_key(path@) ==> self@[path@] < MAX_VISITS,
        ensures
            counter@ == self@.insert(
                path@,
                if self@.contains_key(path@) {
                    (self@[path@] + 1) as u16
                } else {
                    1u16
                },
            ),
            counter.paths() == (if self@.contains_key(path@) {
                self.paths()
            } else {
                self.paths().push(path@)
            }),
    {
        proof {
            use_type_invariant(&self);
            lemma_counts_of(self.pairs());
        }
        let ghost before = self.pairs();
        let at = self.position(&path);
        let mut entries = self.entries;
        match at {
            Some(i) => {
                let visits: u16 = entries[i].1;
                proof {
                    lemma_counts_of_update(before, i as int, (visits + 1) as u16);
                }
                entries.set(i, (path, visits + 1));
                assert(entries.deep_view() =~= before.update(
                    i as int,
                    (before[i as int].0, (visits + 1) as u16),
                ));
            },
            None => {
                proof {
                    lemma_counts_of_push(before, path@, 1u16);
                }
                entries.push((path, 1));
                assert(entries.deep_view() =~= before.push((path@, 1u16)));
            },
        }
        VisitCounter { entries }
    }
}

} // verus!
