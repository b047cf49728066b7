//! The transposition cache: a bounded store of scores by position key, which
//! forgets the entry used least recently when it is full.

use std::collections::{BTreeMap, VecDeque};
use vstd::prelude::*;

verus! {

/// The hash key of a position.
pub type Zobrist = u64;

/// A score in centipawns.
pub type EvalScore = i32;

/// An entry of the cache: the key of a position, and the score stored for it.
pub type TranspositionEntry = (Zobrist, EvalScore);

/// The transposition cache.
pub struct TranspositonTable {
    capacity: usize,
    eviction_queue: VecDeque<Zobrist>,
    inner: BTreeMap<Zobrist, EvalScore>,
}

/// The place of `key` among the entries, if it has one.
pub open spec fn position_of(entries: Seq<TranspositionEntry>, key: Zobrist) -> Option<int> {
    if exists|i: int| 0 <= i < entries.len() && entries[i].0 == key {
        Some(choose|i: int| 0 <= i < entries.len() && entries[i].0 == key)
    } else {
        None
    }
}

/// No key has two entries.
pub open spec fn distinct_keys(entries: Seq<TranspositionEntry>) -> bool {
    forall|i: int, j: int|
        0 <= i < j < entries.len() ==> (#[trigger] entries[i]).0 != (#[trigger] entries[j]).0
}

/// The entries after `key` was stored with `score` in a cache of the given
/// capacity: an entry of that key is replaced; otherwise, if the cache is
/// full, the oldest entry leaves; the new entry is the youngest.
pub open spec fn after_insert(
    entries: Seq<TranspositionEntry>,
    capacity: int,
    key: Zobrist,
    score: EvalScore,
) -> Seq<TranspositionEntry> {
    match position_of(entries, key) {
        Some(i) => entries.remove(i).push((key, score)),
        None => if entries.len() >= capacity {
            entries.drop_first().push((key, score))
        } else {
            entries.push((key, score))
        },
    }
}

/// The entries after `key` was looked up: its entry, if there is one, becomes the youngest.
pub open spec fn after_query(entries: Seq<TranspositionEntry>, key: Zobrist) -> Seq<
    (Zobrist, EvalScore),
> {
    match position_of(entries, key) {
        Some(i) => entries.remove(i).push(entries[i]),
        None => entries,
    }
}

/// The entries after `key` was removed.
pub open spec fn after_remove(entries: Seq<TranspositionEntry>, key: Zobrist) -> Seq<
    (Zobrist, EvalScore),
> {
    match position_of(entries, key) {
        Some(i) => entries.remove(i),
        None => entries,
    }
}

/// The score stored for `key`, if there is one.
pub open spec fn score_of(entries: Seq<TranspositionEntry>, key: Zobrist) -> Option<EvalScore> {
    match position_of(entries, key) {
        Some(i) => Some(entries[i].1),
        None => None,
    }
}

impl View for TranspositonTable {
    type V = Seq<TranspositionEntry>;

    /// The entries, oldest first.
    closed spec fn view(&self) -> Seq<TranspositionEntry> {
        Seq::new(
            self.eviction_queue@.len(),
            |i: int| (self.eviction_queue@[i], self.inner@[self.eviction_queue@[i]]),
        )
    }
}

impl TranspositonTable {
    /// The most entries that the cache keeps.
    pub closed spec fn limit(&self) -> int {
        self.capacity as int
    }

    /// Queue and map hold the same keys, each key once, and no more than the capacity.
    pub closed spec fn wf(&self) -> bool {
        &&& self.capacity > 0
        &&& self.eviction_queue@.len() <= self.capacity
        &&& self.eviction_queue@.no_duplicates()
        &&& forall|k: Zobrist| self.inner@.contains_key(k) <==> self.eviction_queue@.contains(k)
    }

    /// **Bounded, one entry per key.** A well-formed cache never holds more
    /// entries than its capacity, and no key twice.
    pub proof fn lemma_bounded(&self)
        requires
            self.wf(),
        ensures
            self@.len() <= self.limit(),
            self.limit() > 0,
            distinct_keys(self@),
    {
    }

    /// An empty cache that keeps at most `capacity` entries.
    pub fn new(capacity: usize) -> (t: TranspositonTable)
        requires
            capacity > 0,
        ensures
            t.wf(),
            t.limit() == capacity,
            t@ == Seq::<TranspositionEntry>::empty(),
    {
        let t = TranspositonTable {
            capacity,
            eviction_queue: VecDeque::with_capacity(capacity),
            inner: BTreeMap::new(),
        };
        assert(t@ =~= Seq::<TranspositionEntry>::empty());
        t
    }

    /// The number of entries.
    pub fn len(&self) -> (n: usize)
        requires
            self.wf(),
        ensures
            n == self@.len(),
            n <= self.limit(),
    {
        self.eviction_queue.len()
    }

    /// Where `key` is queued, if it is.
    fn find(&self, key: Zobrist) -> (r: Option<usize>)
        requires
            self.wf(),
        ensures
            match r {
                Some(i) => i < self@.len() && self@[i as int].0 == key && position_of(self@, key)
                    == Some(i as int),
                None => position_of(self@, key) is None && !self.eviction_queue@.contains(key),
            },
    {
        let mut i: usize = 0;
        while i < self.eviction_queue.len()
            invariant
                self.wf(),
                i <= self.eviction_queue@.len(),
                forall|j: int| 0 <= j < i ==> self.eviction_queue@[j] != key,
            decreases self.eviction_queue@.len() - i,
        {
            if self.eviction_queue[i] == key {
                proof {
                    assert(self@[i as int].0 == key);
                    let c = choose|c: int| 0 <= c < self@.len() && self@[c].0 == key;
                    assert(self.eviction_queue@[c] == self.eviction_queue@[i as int]);
                }
                return Some(i);
            }
            i = i + 1;
        }
        proof {
            assert forall|j: int| 0 <= j < self@.len() implies self@[j].0 != key by {}
        }
        None
    }

    /// Stores `score` for `key` and gives the score that was stored before.
    pub fn insert(&mut self, zobrist: Zobrist, eval_score: EvalScore) -> (r: Option<EvalScore>)
        requires
            old(self).wf(),
        ensures
            final(self).wf(),
            final(self).limit() == old(self).limit(),
            final(self)@ == after_insert(old(self)@, old(self).limit(), zobrist, eval_score),
            r == score_of(old(self)@, zobrist),
    {
        broadcast use vstd::std_specs::btree::group_btree_axioms;

        proof {
            lemma_keys_ordered();
        }
        let ghost before = self@;
        let ghost queue = self.eviction_queue@;
        let ghost map = self.inner@;
        let found: Option<usize> = self.find(zobrist);
        match found {
            Some(i) => {
                let _ = self.eviction_queue.remove(i);
                proof {
                    assert(self.eviction_queue@ =~= queue.remove(i as int));
                    lemma_remove_keeps_distinct(queue, i as int);
                    assert(queue.contains(queue[i as int]));
                    assert(before[i as int].1 == map[zobrist]);
                    assert forall|k: Zobrist| k != zobrist implies (self.inner@.contains_key(k)
                        <==> self.eviction_queue@.contains(k)) by {
                        lemma_remove_contains(queue, i as int, k);
                    }
                }
            },
            None => {
                if self.eviction_queue.len() >= self.capacity {
                    let oldest: Option<Zobrist> = self.eviction_queue.pop_front();
                    match oldest {
                        Some(oldest) => {
                            let _ = self.inner.remove(&oldest);
                            proof {
                                assert(self.eviction_queue@ =~= queue.remove(0));
                                lemma_remove_keeps_distinct(queue, 0);
                                assert(queue.contains(queue[0]));
                                assert forall|k: Zobrist| k != zobrist implies (
                                self.inner@.contains_key(k) <==> self.eviction_queue@.contains(
                                    k,
                                )) by {
                                    lemma_remove_contains(queue, 0, k);
                                }
                                lemma_remove_contains(queue, 0, zobrist);
                            }
                        },
                        None => {},
                    }
                }
            },
        }
        let ghost mid_queue = self.eviction_queue@;
        let ghost mid_map = self.inner@;
        assert(!mid_queue.contains(zobrist));
        assert(mid_queue.len() < self.capacity);
        self.eviction_queue.push_back(zobrist);
        let r: Option<EvalScore> = self.inner.insert(zobrist, eval_score);
        proof {
            assert forall|j: int| 0 <= j < mid_queue.len() implies mid_queue[j] != zobrist by {
                assert(mid_queue.contains(mid_queue[j]));
            }
            assert(self.eviction_queue@.no_duplicates());
            assert forall|k: Zobrist| self.inner@.contains_key(k) <==> self.eviction_queue@.contains(
                k,
            ) by {
                if k == zobrist {
                    assert(self.eviction_queue@[mid_queue.len() as int] == k);
                } else {
                    if mid_queue.contains(k) {
                        let j = choose|j: int| 0 <= j < mid_queue.len() && mid_queue[j] == k;
                        assert(self.eviction_queue@[j] == k);
                    }
                    if self.eviction_queue@.contains(k) {
                        let j = choose|j: int|
                            0 <= j < self.eviction_queue@.len() && self.eviction_queue@[j] == k;
                        assert(mid_queue[j] == k);
                    }
                }
            }
            assert(self@ =~= after_insert(before, old(self).limit(), zobrist, eval_score));
        }
        r
    }

    /// Removes the entry of `key` and gives the score that it held.
    pub fn remove(&mut self, zobrist: Zobrist) -> (r: Option<EvalScore>)
        requires
            old(self).wf(),
        ensures
            final(self).wf(),
            final(self).limit() == old(self).limit(),
            final(self)@ == after_remove(old(self)@, zobrist),
            r == score_of(old(self)@, zobrist),
    {
        broadcast use vstd::std_specs::btree::group_btree_axioms;

        proof {
            lemma_keys_ordered();
        }
        let ghost before = self@;
        let ghost queue = self.eviction_queue@;
        let ghost map = self.inner@;
        let found: Option<usize> = self.find(zobrist);
        match found {
            Some(i) => {
                let _ = self.eviction_queue.remove(i);
                let r: Option<EvalScore> = self.inner.remove(&zobrist);
                proof {
                    assert(self.eviction_queue@ =~= queue.remove(i as int));
                    lemma_remove_keeps_distinct(queue, i as int);
                    assert(queue.contains(queue[i as int]));
                    assert(before[i as int].1 == map[zobrist]);
                    assert forall|k: Zobrist|
                        self.inner@.contains_key(k) <==> self.eviction_queue@.contains(k) by {
                        lemma_remove_contains(queue, i as int, k);
                    }
                    assert(self@ =~= after_remove(before, zobrist));
                }
                r
            },
            None => {
                proof {
                    assert(!self.inner@.contains_key(zobrist));
                }
                None
            },
        }
    }

    /// The score stored for `key`. A key that is found becomes the youngest entry.
    pub fn query(&mut self, zobrist: Zobrist) -> (r: Option<EvalScore>)
        requires
            old(self).wf(),
        ensures
            final(self).wf(),
            final(self).limit() == old(self).limit(),
            final(self)@ == after_query(old(self)@, zobrist),
            r == score_of(old(self)@, zobrist),
    {
        broadcast use vstd::std_specs::btree::group_btree_axioms;

        proof {
            lemma_keys_ordered();
        }
        let ghost before = self@;
        let ghost queue = self.eviction_queue@;
        match self.find(zobrist) {
            Some(i) => {
                let score: Option<EvalScore> = match self.inner.get(&zobrist) {
                    Some(v) => Some(*v),
                    None => None,
                };
                proof {
                    assert(queue.contains(queue[i as int]));
                }
                let _ = self.eviction_queue.remove(i);
                self.eviction_queue.push_back(zobrist);
                proof {
                    let cut = queue.remove(i as int);
                    lemma_remove_keeps_distinct(queue, i as int);
                    assert(self.eviction_queue@ =~= cut.push(zobrist));
                    assert forall|j: int| 0 <= j < cut.len() implies cut[j] != zobrist by {
                        if j < i {
                            assert(queue[j] != queue[i as int]);
                        } else {
                            assert(queue[j + 1] != queue[i as int]);
                        }
                    }
                    assert(self.eviction_queue@.no_duplicates());
                    assert forall|k: Zobrist|
                        self.inner@.contains_key(k) <==> self.eviction_queue@.contains(k) by {
                        if queue.contains(k) {
                            let j = choose|j: int| 0 <= j < queue.len() && queue[j] == k;
                            if j < i {
                                assert(self.eviction_queue@[j] == k);
                            } else if j > i {
                                assert(self.eviction_queue@[j - 1] == k);
                            } else {
                                assert(self.eviction_queue@[cut.len() as int] == k);
                            }
                        }
                        if self.eviction_queue@.contains(k) {
                            let j = choose|j: int|
                                0 <= j < self.eviction_queue@.len() && self.eviction_queue@[j] == k;
                            if j < i {
                                assert(queue[j] == k);
                            } else if j < cut.len() {
                                assert(queue[j + 1] == k);
                            } else {
                                assert(queue[i as int] == k);
                            }
                        }
                    }
                    assert(self@ =~= after_query(before, zobrist));
                }
                score
            },
            None => {
                proof {
                    assert(!self.inner@.contains_key(zobrist));
                }
                None
            },
        }
    }
}

/// The place of a key that has an entry is the place of its one entry.
pub proof fn lemma_position_of(entries: Seq<TranspositionEntry>, key: Zobrist)
    requires
        distinct_keys(entries),
    ensures
        match position_of(entries, key) {
            Some(i) => 0 <= i < entries.len() && entries[i].0 == key && forall|j: int|
                0 <= j < entries.len() && j != i ==> (#[trigger] entries[j]).0 != key,
            None => forall|j: int| 0 <= j < entries.len() ==> (#[trigger] entries[j]).0 != key,
        },
{
    match position_of(entries, key) {
        Some(i) => {
            assert forall|j: int| 0 <= j < entries.len() && j != i implies (#[trigger] entries[j]).0
                != key by {
                if j < i {
                    assert(entries[j].0 != entries[i].0);
                } else {
                    assert(entries[i].0 != entries[j].0);
                }
            }
        },
        None => {},
    }
}

/// Taking one entry out of entries with distinct keys leaves distinct keys.
pub proof fn lemma_remove_distinct(entries: Seq<TranspositionEntry>, i: int)
    requires
        distinct_keys(entries),
        0 <= i < entries.len(),
    ensures
        distinct_keys(entries.remove(i)),
        forall|j: int|
            0 <= j < entries.remove(i).len() ==> (#[trigger] entries.remove(i)[j]).0
                != entries[i].0,
{
    let cut = entries.remove(i);
    assert forall|a: int, b: int| 0 <= a < b < cut.len() implies (#[trigger] cut[a]).0 != (
    #[trigger] cut[b]).0 by {
        let a0 = if a < i {
            a
        } else {
            a + 1
        };
        let b0 = if b < i {
            b
        } else {
            b + 1
        };
        assert(cut[a] == entries[a0] && cut[b] == entries[b0]);
        assert(entries[a0].0 != entries[b0].0);
    }
    assert forall|j: int| 0 <= j < cut.len() implies (#[trigger] cut[j]).0 != entries[i].0 by {
        let j0 = if j < i {
            j
        } else {
            j + 1
        };
        assert(cut[j] == entries[j0]);
        if j0 < i {
            assert(entries[j0].0 != entries[i].0);
        } else {
            assert(entries[i].0 != entries[j0].0);
        }
    }
}

/// Adding an entry with a key of its own to entries with distinct keys leaves distinct keys.
pub proof fn lemma_push_distinct(entries: Seq<TranspositionEntry>, entry: TranspositionEntry)
    requires
        distinct_keys(entries),
        forall|j: int| 0 <= j < entries.len() ==> (#[trigger] entries[j]).0 != entry.0,
    ensures
        distinct_keys(entries.push(entry)),
{
    let all = entries.push(entry);
    assert forall|a: int, b: int| 0 <= a < b < all.len() implies (#[trigger] all[a]).0 != (
    #[trigger] all[b]).0 by {
        assert(all[a] == entries[a]);
        if b < entries.len() {
            assert(all[b] == entries[b]);
            assert(entries[a].0 != entries[b].0);
        }
    }
}

/// **Bounded in every state.** Storing, looking up and removing keep the
/// entries within the capacity and their keys distinct. What is stored or
/// looked up is the youngest entry afterwards; what leaves to make room is
/// the oldest.
pub proof fn lemma_cache_steps(
    entries: Seq<TranspositionEntry>,
    capacity: int,
    key: Zobrist,
    score: EvalScore,
)
    requires
        capacity > 0,
        entries.len() <= capacity,
        distinct_keys(entries),
    ensures
        after_insert(entries, capacity, key, score).len() <= capacity,
        distinct_keys(after_insert(entries, capacity, key, score)),
        after_insert(entries, capacity, key, score).last() == (key, score),
        score_of(entries, key) is None && entries.len() == capacity ==> after_insert(
            entries,
            capacity,
            key,
            score,
        ) == entries.drop_first().push((key, score)),
        after_query(entries, key).len() == entries.len(),
        distinct_keys(after_query(entries, key)),
        score_of(entries, key) is Some ==> after_query(entries, key).last() == (
            key,
            score_of(entries, key)->0,
        ),
        after_remove(entries, key).len() <= entries.len(),
        distinct_keys(after_remove(entries, key)),
        score_of(after_remove(entries, key), key) is None,
{
    lemma_position_of(entries, key);
    match position_of(entries, key) {
        Some(i) => {
            lemma_remove_distinct(entries, i);
            lemma_push_distinct(entries.remove(i), (key, score));
            lemma_push_distinct(entries.remove(i), entries[i]);
            let cut = entries.remove(i);
            if position_of(cut, key) is Some {
                let j = position_of(cut, key)->0;
                assert(cut[j].0 != entries[i].0);
            }
        },
        None => {
            if entries.len() >= capacity {
                lemma_remove_distinct(entries, 0);
                assert(entries.drop_first() =~= entries.remove(0));
                assert forall|j: int| 0 <= j < entries.remove(0).len() implies (
                #[trigger] entries.remove(0)[j]).0 != key by {
                    assert(entries.remove(0)[j] == entries[j + 1]);
                }
                lemma_push_distinct(entries.remove(0), (key, score));
            } else {
                lemma_push_distinct(entries, (key, score));
            }
        },
    }
}

/// What a queue without duplicates holds after one key was taken out.
pub proof fn lemma_remove_contains(queue: Seq<Zobrist>, i: int, k: Zobrist)
    requires
        queue.no_duplicates(),
        0 <= i < queue.len(),
    ensures
        queue.remove(i).contains(k) == (queue.contains(k) && k != queue[i]),
{
    let cut = queue.remove(i);
    lemma_remove_keeps_distinct(queue, i);
    if queue.contains(k) && k != queue[i] {
        let j = choose|j: int| 0 <= j < queue.len() && queue[j] == k;
        if j < i {
            assert(cut[j] == k);
        } else {
            assert(cut[j - 1] == k);
        }
    }
    if cut.contains(k) {
        let j = choose|j: int| 0 <= j < cut.len() && cut[j] == k;
        if j < i {
            assert(queue[j] == k);
        } else {
            assert(queue[j + 1] == k);
        }
    }
}

/// Position keys are ordered as numbers are, which is what the map relies on.
pub proof fn lemma_keys_ordered()
    ensures
        vstd::laws_cmp::obeys_cmp::<Zobrist>(),
{
    broadcast use vstd::laws_cmp::group_laws_cmp;

}

/// Taking one key out of a queue without duplicates leaves no duplicates.
pub proof fn lemma_remove_keeps_distinct(queue: Seq<Zobrist>, i: int)
    requires
        queue.no_duplicates(),
        0 <= i < queue.len(),
    ensures
        queue.remove(i).no_duplicates(),
        !queue.remove(i).contains(queue[i]),
{
    let cut = queue.remove(i);
    assert forall|a: int, b: int| 0 <= a < cut.len() && 0 <= b < cut.len() && a != b implies cut[a]
        != cut[b] by {
        let a0 = if a < i {
            a
        } else {
            a + 1
        };
        let b0 = if b < i {
            b
        } else {
            b + 1
        };
        assert(cut[a] == queue[a0] && cut[b] == queue[b0]);
    }
    if cut.contains(queue[i]) {
        let j = choose|j: int| 0 <= j < cut.len() && cut[j] == queue[i];
        let j0 = if j < i {
            j
        } else {
            j + 1
        };
        assert(cut[j] == queue[j0]);
    }
}

} // verus!
