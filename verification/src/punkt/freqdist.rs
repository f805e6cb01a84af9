//! A frequency distribution: how many times each item has been counted, and how many
//! items have been counted in all.

use std::collections::hash_map::{Iter, Keys};
use std::collections::HashMap;
use std::hash::{BuildHasher, Hash, RandomState};
use vstd::multiset::Multiset;
use vstd::prelude::*;

verus! {

broadcast use {
    vstd::multiset::group_multiset_axioms,
    vstd::std_specs::hash::group_hash_axioms,
    vstd::map::group_map_axioms,
};

/// `HashMap::with_hasher`: documented to create an empty map that uses `hash_builder`.
pub assume_specification<K, V, S>[ HashMap::<K, V, S>::with_hasher ](hash_builder: S) -> (m:
    HashMap<K, V, S>)
    ensures
        m@.dom() == Set::<K>::empty(),
;

/// `HashMap::with_capacity_and_hasher`: documented to create an empty map with room for
/// at least `capacity` entries that uses `hasher`.
pub assume_specification<K, V, S>[ HashMap::<K, V, S>::with_capacity_and_hasher ](
    capacity: usize,
    hasher: S,
) -> (m: HashMap<K, V, S>)
    ensures
        m@.dom() == Set::<K>::empty(),
;

/// `n` copies of `k`.
pub open spec fn repeat<K>(k: K, n: nat) -> Multiset<K>
    decreases n,
{
    if n == 0 {
        Multiset::empty()
    } else {
        repeat(k, (n - 1) as nat).insert(k)
    }
}

proof fn lemma_repeat<K>(k: K, n: nat)
    ensures
        repeat(k, n).len() == n,
        repeat(k, n).count(k) == n,
        forall|j: K| j != k ==> #[trigger] repeat(k, n).count(j) == 0,
    decreases n,
{
    if n > 0 {
        lemma_repeat(k, (n - 1) as nat);
    }
}

/// How often a map records `k`: its count, or 0 when absent.
pub open spec fn count_in<K>(m: Map<K, usize>, k: K) -> nat {
    if m.contains_key(k) {
        m[k] as nat
    } else {
        0
    }
}

/// The counts after adding each (key, frequency) pair in turn.
pub open spec fn counts_after<K>(m: Map<K, usize>, pairs: Seq<(K, usize)>) -> Map<K, usize>
    decreases pairs.len(),
{
    if pairs.len() == 0 {
        m
    } else {
        let prev = counts_after(m, pairs.drop_last());
        let (k, f) = pairs.last();
        prev.insert(k, (count_in(prev, k) + f) as usize)
    }
}

/// The items counted after adding each (key, frequency) pair in turn.
pub open spec fn items_after<K>(items: Multiset<K>, pairs: Seq<(K, usize)>) -> Multiset<K>
    decreases pairs.len(),
{
    if pairs.len() == 0 {
        items
    } else {
        items_after(items, pairs.drop_last()).add(repeat(pairs.last().0, pairs.last().1 as nat))
    }
}

/// The sum of the frequencies of the pairs.
pub open spec fn sum_freqs<K>(pairs: Seq<(K, usize)>) -> nat
    decreases pairs.len(),
{
    if pairs.len() == 0 {
        0
    } else {
        sum_freqs(pairs.drop_last()) + pairs.last().1 as nat
    }
}

proof fn lemma_sum_freqs_prefix<K>(pairs: Seq<(K, usize)>, i: int)
    requires
        0 <= i <= pairs.len(),
    ensures
        sum_freqs(pairs.take(i)) <= sum_freqs(pairs),
    decreases pairs.len(),
{
    if i < pairs.len() {
        lemma_sum_freqs_prefix(pairs.drop_last(), i);
        assert(pairs.drop_last().take(i) =~= pairs.take(i));
    } else {
        assert(pairs.take(i) =~= pairs);
    }
}

/// Keeps track of how many times each item appears in a larger context.
#[verifier::reject_recursive_types(K)]
#[verifier::reject_recursive_types(S)]
pub struct FrequencyDistribution<K, S = RandomState> {
    hashmap: HashMap<K, usize, S>,
    sum_counts: usize,
    counted: Ghost<Multiset<K>>,
}

impl<K: Eq + Hash, S: BuildHasher> FrequencyDistribution<K, S> {
    /// Whether keys hash and compare as their values do, so the map behaves as a map.
    pub open spec fn key_model() -> bool {
        vstd::std_specs::hash::obeys_key_model::<K>() && vstd::std_specs::hash::builds_valid_hashers::<S>()
    }

    /// The count recorded for each key.
    pub closed spec fn counts(&self) -> Map<K, usize> {
        self.hashmap@
    }

    /// The running total of counted items.
    pub closed spec fn total(&self) -> usize {
        self.sum_counts
    }

    /// The items counted and still recorded, each as often as its count.
    pub closed spec fn items(&self) -> Multiset<K> {
        self.counted@
    }

    /// The recorded counts are the multiplicities of `items`, the running total is their
    /// number, and finitely many keys are recorded.
    pub closed spec fn wf(&self) -> bool {
        &&& forall|k: K| #[trigger] self.counted@.count(k) == count_in(self.hashmap@, k)
        &&& self.counted@.len() == self.sum_counts
        &&& self.hashmap@.dom().finite()
    }

    /// A new, empty distribution using `state` for hashing, with room for `size` keys.
    pub fn with_capacity_and_hasher(size: usize, state: S) -> (d: FrequencyDistribution<K, S>)
        ensures
            d.wf(),
            d.counts() == Map::<K, usize>::empty(),
            d.total() == 0,
            d.items() == Multiset::<K>::empty(),
    {
        let hashmap = HashMap::with_capacity_and_hasher(size, state);
        assert(hashmap@ =~= Map::<K, usize>::empty());
        FrequencyDistribution { hashmap, sum_counts: 0, counted: Ghost(Multiset::empty()) }
    }

    /// A new, empty distribution using `state` for hashing.
    pub fn with_hasher(state: S) -> (d: FrequencyDistribution<K, S>)
        ensures
            d.wf(),
            d.counts() == Map::<K, usize>::empty(),
            d.total() == 0,
            d.items() == Multiset::<K>::empty(),
    {
        let hashmap = HashMap::with_hasher(state);
        assert(hashmap@ =~= Map::<K, usize>::empty());
        FrequencyDistribution { hashmap, sum_counts: 0, counted: Ghost(Multiset::empty()) }
    }

    /// The keys, each once, in the map's (unspecified) order.
    pub fn keys(&self) -> (r: Keys<'_, K, usize>)
        ensures
            Self::key_model() ==> vstd::std_specs::iter::IteratorSpec::remaining(&r).unref().to_set()
                == self.counts().dom(),
            Self::key_model() ==> vstd::std_specs::iter::IteratorSpec::remaining(
                &r,
            ).no_duplicates(),
    {
        self.hashmap.keys()
    }

    /// The (key, count) pairs, each key once, in the map's (unspecified) order.
    pub fn iter(&self) -> (r: Iter<'_, K, usize>)
        ensures
            Self::key_model() ==> vstd::std_specs::iter::IteratorSpec::remaining(&r).len()
                == self.counts().dom().len(),
            Self::key_model() ==> vstd::std_specs::iter::IteratorSpec::remaining(
                &r,
            ).no_duplicates(),
            Self::key_model() ==> forall|k: K| #[trigger]
                self.counts().contains_key(k) ==> vstd::std_specs::iter::IteratorSpec::remaining(
                    &r,
                ).contains((&k, &self.counts()[k])),
    {
        self.hashmap.iter()
    }

    /// The keys counted at least once, each once, in the map's (unspecified) order.
    pub fn iter_non_zero(&self) -> (r: Vec<&K>)
        requires
            Self::key_model(),
        ensures
            r@.no_duplicates(),
            forall|i: int|
                0 <= i < r@.len() ==> self.counts().contains_key(*#[trigger] r@[i])
                    && self.counts()[*r@[i]] > 0,
            forall|k: K|
                #[trigger] self.counts().contains_key(k) && self.counts()[k] > 0 ==> exists|i: int|
                    0 <= i < r@.len() && *r@[i] == k,
    {
        let mut out: Vec<&K> = Vec::new();
        let ghost m = self.hashmap@;
        let ghost mut idxs: Seq<int> = Seq::empty();
        for (k, c) in it: self.hashmap.iter()
            invariant
                m == self.hashmap@,
                it.seq().no_duplicates(),
                forall|j: int|
                    0 <= j < it.seq().len() ==> m.contains_key(*(#[trigger] it.seq()[j]).0) && m[*it.seq()[j].0] == *it.seq()[j].1,
                forall|k: K| #[trigger] m.contains_key(k) ==> it.seq().contains((&k, &m[k])),
                idxs.len() == out@.len(),
                forall|i: int| 0 <= i < out@.len() ==> 0 <= #[trigger] idxs[i] < it.index@ && out@[i] == it.seq()[idxs[i]].0,
                forall|i: int| 0 <= i < out@.len() ==> m.contains_key(*#[trigger] out@[i]) && m[*out@[i]] > 0,
                out@.no_duplicates(),
                forall|k: K| #[trigger] m.contains_key(k) && m[k] > 0 ==> (exists|i: int|
                    0 <= i < out@.len() && *out@[i] == k) || (exists|j: int|
                    it.index@ <= j < it.seq().len() && *(#[trigger] it.seq()[j]).0 == k),
        {
            let ghost idx = it.index@;
            let ghost old_out = out@;
            let ghost old_idxs = idxs;
            let ghost sq = it.seq();
            assert(sq[idx] == (k, c));
            if *c > 0 {
                proof {
                    assert forall|i: int| 0 <= i < old_out.len() implies old_out[i] != k by {
                        let j = old_idxs[i];
                        if old_out[i] == k {
                            assert(*sq[j].1 == m[*k]);
                            assert(*sq[idx].1 == m[*k]);
                            assert(sq[j] == sq[idx]);
                        }
                    }
                }
                out.push(k);
                proof {
                    idxs = idxs.push(idx);
                    assert(out@[old_out.len() as int] == k);
                }
            }
            proof {
                assert forall|kk: K| #[trigger] m.contains_key(kk) && m[kk] > 0 implies (exists|i: int|
                    0 <= i < out@.len() && *out@[i] == kk) || (exists|j: int|
                    idx + 1 <= j < sq.len() && *(#[trigger] sq[j]).0 == kk) by {
                    if exists|i: int| 0 <= i < old_out.len() && *old_out[i] == kk {
                        let i = choose|i: int| 0 <= i < old_out.len() && *old_out[i] == kk;
                        assert(out@[i] == old_out[i]);
                    } else {
                        let j = choose|j: int| idx <= j < sq.len() && *(#[trigger] sq[j]).0 == kk;
                        if j == idx {
                            assert(*c == m[kk]);
                            assert(out@[old_out.len() as int] == k);
                        }
                    }
                }
            }
        }
        out
    }

    /// The running total of items counted so far.
    pub fn sum_counts(&self) -> (n: usize)
        ensures
            n == self.total(),
    {
        self.sum_counts
    }

    /// The number of keys recorded.
    pub fn len(&self) -> (n: usize)
        ensures
            Self::key_model() ==> n == self.counts().len(),
    {
        self.hashmap.len()
    }

    /// How many times `k` has been counted: its count, or 0 when absent.
    pub fn get(&self, k: &K) -> (n: usize)
        ensures
            Self::key_model() ==> n == count_in(self.counts(), *k),
    {
        match self.hashmap.get(k) {
            Some(c) => *c,
            None => 0,
        }
    }

    /// Clears the counts of all keys and all keys, so that nothing is counted any more.
    pub fn clear(&mut self)
        ensures
            final(self).wf(),
            final(self).counts() == Map::<K, usize>::empty(),
            final(self).total() == 0,
            final(self).items() == Multiset::<K>::empty(),
    {
        self.hashmap.clear();
        self.sum_counts = 0;
        self.counted = Ghost(Multiset::empty());
        proof {
            assert(self.hashmap@ =~= Map::<K, usize>::empty());
        }
    }

    /// Counts `k` once more.
    pub fn insert(&mut self, k: K)
        requires
            Self::key_model(),
            old(self).wf(),
            old(self).total() < usize::MAX,
        ensures
            final(self).wf(),
            final(self).counts() == old(self).counts().insert(
                k,
                (count_in(old(self).counts(), k) + 1) as usize,
            ),
            final(self).items() == old(self).items().insert(k),
            final(self).total() == old(self).total() + 1,
            final(self).counts().len() == old(self).counts().len() + (if old(
                self,
            ).counts().contains_key(k) {
                0int
            } else {
                1int
            }),
    {
        self.insert_or_incr_by(k, 1);
        proof {
            lemma_repeat(k, 1);
            assert(self.counted@ =~= old(self).counted@.insert(k));
        }
    }

    /// Forgets `k` and its count, taking the count off the running total.
    pub fn remove(&mut self, k: &K)
        requires
            Self::key_model(),
            old(self).wf(),
        ensures
            final(self).wf(),
            final(self).counts() == old(self).counts().remove(*k),
            final(self).total() == old(self).total() - count_in(old(self).counts(), *k),
            final(self).items() == old(self).items().sub(repeat(*k, count_in(old(self).counts(), *k))),
            final(self).counts().len() == old(self).counts().len() - (if old(
                self,
            ).counts().contains_key(*k) {
                1int
            } else {
                0int
            }),
    {
        let ghost n = count_in(self.hashmap@, *k);
        proof {
            lemma_repeat(*k, n);
            assert(repeat(*k, n).subset_of(self.counted@));
            assert(self.counted@.count(*k) <= self.counted@.len());
        }
        match self.hashmap.remove(k) {
            Some(count) => {
                self.sum_counts -= count;
            },
            None => {},
        }
        self.counted = Ghost(self.counted@.sub(repeat(*k, n)));
    }

    /// Counts each key another time per its frequency, pair by pair.
    pub fn extend(&mut self, pairs: Vec<(K, usize)>)
        requires
            Self::key_model(),
            old(self).wf(),
            old(self).total() + sum_freqs(pairs@) <= usize::MAX,
        ensures
            final(self).wf(),
            final(self).counts() == counts_after(old(self).counts(), pairs@),
            final(self).items() == items_after(old(self).items(), pairs@),
            final(self).total() == old(self).total() + sum_freqs(pairs@),
    {
        let ghost all = pairs@;
        let ghost c0 = self.counts();
        let ghost i0 = self.items();
        let ghost t0 = self.total();
        for (k, f) in it: pairs.into_iter()
            invariant
                Self::key_model(),
                it.seq() == all,
                self.wf(),
                t0 + sum_freqs(all) <= usize::MAX,
                self.counts() == counts_after(c0, all.take(it.index@ as int)),
                self.items() == items_after(i0, all.take(it.index@ as int)),
                self.total() == t0 + sum_freqs(all.take(it.index@ as int)),
        {
            let ghost idx = it.index@ as int;
            proof {
                let next = all.take(idx + 1);
                assert(next.drop_last() =~= all.take(idx));
                assert(next.last() == (k, f));
                lemma_sum_freqs_prefix(all, idx + 1);
            }
            self.insert_or_incr_by(k, f);
        }
        proof {
            assert(all.take(all.len() as int) =~= all);
        }
    }

    /// Counts `k` another `incr` times.
    fn insert_or_incr_by(&mut self, k: K, incr: usize)
        requires
            Self::key_model(),
            old(self).wf(),
            old(self).total() + incr <= usize::MAX,
        ensures
            final(self).wf(),
            final(self).counts() == old(self).counts().insert(
                k,
                (count_in(old(self).counts(), k) + incr) as usize,
            ),
            final(self).items() == old(self).items().add(repeat(k, incr as nat)),
            final(self).total() == old(self).total() + incr,
            final(self).counts().len() == old(self).counts().len() + (if old(
                self,
            ).counts().contains_key(k) {
                0int
            } else {
                1int
            }),
    {
        let ghost old_count = count_in(self.hashmap@, k);
        proof {
            assert(self.counted@.count(k) <= self.counted@.len());
        }
        let c = match self.hashmap.get(&k) {
            Some(c) => *c,
            None => 0,
        };
        assert(c == old_count);
        self.hashmap.insert(k, c + incr);
        self.sum_counts += incr;
        proof {
            lemma_repeat(k, incr as nat);
        }
        self.counted = Ghost(self.counted@.add(repeat(k, incr as nat)));
    }
}

impl<K: Eq + Hash, S: BuildHasher + Default> FrequencyDistribution<K, S> {
    /// A new, empty distribution.
    pub fn new() -> (d: FrequencyDistribution<K, S>)
        ensures
            d.wf(),
            d.counts() == Map::<K, usize>::empty(),
            d.total() == 0,
            d.items() == Multiset::<K>::empty(),
    {
        FrequencyDistribution::with_hasher(Default::default())
    }

    /// A distribution counting each key as often as the frequencies paired with it.
    pub fn from_iter(pairs: Vec<(K, usize)>) -> (d: FrequencyDistribution<K, S>)
        requires
            Self::key_model(),
            sum_freqs(pairs@) <= usize::MAX,
        ensures
            d.wf(),
            d.counts() == counts_after(Map::<K, usize>::empty(), pairs@),
            d.items() == items_after(Multiset::<K>::empty(), pairs@),
            d.total() == sum_freqs(pairs@),
    {
        let mut d = FrequencyDistribution::with_capacity_and_hasher(pairs.len(), Default::default());
        d.extend(pairs);
        d
    }

    /// A new, empty distribution with room for `size` keys.
    pub fn with_capacity(size: usize) -> (d: FrequencyDistribution<K, S>)
        ensures
            d.wf(),
            d.counts() == Map::<K, usize>::empty(),
            d.total() == 0,
            d.items() == Multiset::<K>::empty(),
    {
        FrequencyDistribution::with_capacity_and_hasher(size, Default::default())
    }
}

impl<K: Eq + Hash, S: BuildHasher + Default> Default for FrequencyDistribution<K, S> {
    fn default() -> (d: FrequencyDistribution<K, S>)
        ensures
            d.wf(),
            d.counts() == Map::<K, usize>::empty(),
            d.total() == 0,
            d.items() == Multiset::<K>::empty(),
    {
        FrequencyDistribution::new()
    }
}

/// A well-formed distribution records, for each key, how many copies of it it holds,
/// and its running total is the number of items it holds.
pub proof fn law_counts_are_multiplicities<K: Eq + Hash, S: BuildHasher>(
    d: FrequencyDistribution<K, S>,
    k: K,
)
    requires
        d.wf(),
    ensures
        count_in(d.counts(), k) == d.items().count(k),
        d.items().len() == d.total(),
{
}

/// In a well-formed distribution no key is counted more often than the running total,
/// and only finitely many keys are recorded.
pub proof fn law_count_at_most_total<K: Eq + Hash, S: BuildHasher>(
    d: FrequencyDistribution<K, S>,
    k: K,
)
    requires
        d.wf(),
    ensures
        count_in(d.counts(), k) <= d.total(),
        d.counts().dom().finite(),
{
    assert(d.items().count(k) <= d.items().len());
}

} // verus!
