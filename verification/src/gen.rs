//! Ranked queues of pending chunk generation work.
use vstd::prelude::*;
use std::collections::BTreeMap;
use std::collections::VecDeque;
use std::collections::HashSet;
use crate::coords::ChunkPos;
use vstd::std_specs::iter::IteratorSpec;
use vstd::std_specs::cmp::OrdSpec;

verus! {

broadcast use {vstd::std_specs::btree::group_btree_axioms, vstd::laws_cmp::group_laws_cmp};

/// In an increasing sequence the first element is below every later one.
proof fn lemma_increasing_first<K: Ord>(s: Seq<K>, i: int)
    requires
        vstd::laws_cmp::obeys_cmp::<K>(),
        vstd::std_specs::btree::increasing_seq(s),
        0 < i < s.len(),
    ensures
        s[0].cmp_spec(&s[i]) is Less,
{
    vstd::std_specs::btree::axiom_increasing_seq_meaning(s);
}

/// The smallest key of the map, if any.
fn min_key<E>(m: &BTreeMap<usize, VecDeque<E>>) -> (r: Option<usize>)
    ensures
        r is None ==> m@.dom().len() == 0,
        r matches Some(k) ==> m@.contains_key(k) && forall|j: usize| m@.contains_key(j) ==> k <= j,
{
    let mut first: Option<usize> = None;
    for k in iter: m.keys()
        invariant
            iter.index() == 0 ==> first is None,
            iter.index() > 0 ==> first == Some(*iter.seq()[0]),
            iter.seq() == vstd::std_specs::btree::spec_keys_iter(m).remaining(),
    {
        if first.is_none() {
            first = Some(*k);
        }
    }
    proof {
        let s = vstd::std_specs::btree::spec_keys_iter(m).remaining();
        vstd::std_specs::btree::axiom_spec_keys_iter(m);
        let u = s.unref();
        assert(u.len() == s.len());
        if let Some(k) = first {
            assert(u[0] == k);
            assert(u.to_set().contains(u[0]));
            assert forall|j: usize| m@.contains_key(j) implies k <= j by {
                assert(u.to_set().contains(j));
                let i = choose|i: int| 0 <= i < u.len() && u[i] == j;
                if i > 0 {
                    assert(vstd::laws_cmp::obeys_cmp::<usize>());
                    assert(vstd::laws_cmp::obeys_cmp::<&usize>());
                    lemma_increasing_first(s, i);
                    assert(u[0] < u[i]);
                }
            }
        }
    }
    first
}

} // verus!

verus! {

/// Queues of elements by rank: elements come out lowest rank first, and
/// first in, first out within a rank.
pub struct MultiDeque<E> {
    map: BTreeMap<usize, VecDeque<E>>,
}

/// The number of elements queued over all ranks.
pub open spec fn queued_total<E>(m: Map<usize, Seq<E>>) -> nat
    decreases m.dom().len(),
{
    if m.dom().finite() && m.dom().len() > 0 {
        let k = m.dom().choose();
        m[k].len() + queued_total(m.remove(k))
    } else {
        0
    }
}

/// The total counts the queue of any rank first.
pub proof fn lemma_total_at<E>(m: Map<usize, Seq<E>>, k: usize)
    requires
        m.dom().finite(),
        m.contains_key(k),
    ensures
        queued_total(m) == m[k].len() + queued_total(m.remove(k)),
    decreases m.dom().len(),
{
    let c = m.dom().choose();
    if c != k {
        lemma_total_at(m.remove(c), k);
        lemma_total_at(m.remove(k), c);
        assert(m.remove(c).remove(k) =~= m.remove(k).remove(c));
    }
}

/// `k` is the lowest rank of `m`.
pub open spec fn is_min_rank<E>(m: Map<usize, Seq<E>>, k: usize) -> bool {
    m.contains_key(k) && forall|j: usize| m.contains_key(j) ==> k <= j
}

impl<E> MultiDeque<E> {
    /// The queue of each rank that has elements.
    pub closed spec fn view(&self) -> Map<usize, Seq<E>> {
        self.map@.map_values(|d: VecDeque<E>| d@)
    }

    /// No rank holds an empty queue.
    #[verifier::type_invariant]
    closed spec fn no_empty_queue(&self) -> bool {
        forall|k: usize| #[trigger] self.map@.contains_key(k) ==> self.map@[k]@.len() > 0
    }

    /// The view has the map's keys and each queue's elements.
    proof fn lemma_view(&self)
        ensures
            self@.dom() == self.map@.dom(),
            forall|k: usize| #[trigger] self.map@.contains_key(k) ==> self@[k] == self.map@[k]@,
    {
        assert(self@.dom() =~= self.map@.dom());
    }

    /// An empty multi-queue.
    pub fn new() -> (r: Self)
        ensures
            r@ == Map::<usize, Seq<E>>::empty(),
    {
        let r = MultiDeque { map: BTreeMap::new() };
        assert(r@ =~= Map::<usize, Seq<E>>::empty());
        r
    }

    /// Appends `e` to the queue of rank `rank`.
    pub fn push(&mut self, rank: usize, e: E)
        ensures
            final(self)@ == old(self)@.insert(
                rank,
                if old(self)@.contains_key(rank) {
                    old(self)@[rank].push(e)
                } else {
                    seq![e]
                },
            ),
            queued_total(final(self)@) == queued_total(old(self)@) + 1,
    {
        proof {
            use_type_invariant(&*self);
        }
        let mut map = BTreeMap::new();
        std::mem::swap(&mut map, &mut self.map);
        let ghost m0 = map@;
        match map.remove(&rank) {
            Some(mut deque) => {
                deque.push_back(e);
                map.insert(rank, deque);
            },
            None => {
                let mut deque = VecDeque::new();
                deque.push_back(e);
                map.insert(rank, deque);
            },
        }
        self.map = map;
        proof {
            self.lemma_view();
            old(self).lemma_view();
            lemma_total_at(self@, rank);
            assert(self@.remove(rank) =~= old(self)@.remove(rank));
            if old(self)@.contains_key(rank) {
                lemma_total_at(old(self)@, rank);
            } else {
                assert(old(self)@.remove(rank) =~= old(self)@);
            }
            assert(self@ =~= old(self)@.insert(
                rank,
                if old(self)@.contains_key(rank) {
                    old(self)@[rank].push(e)
                } else {
                    seq![e]
                },
            ));
        }
    }

    /// The lowest rank holding elements, or 0 when there is none.
    pub fn get_rank(&self) -> (r: usize)
        ensures
            self@.dom().len() == 0 ==> r == 0,
            self@.dom().len() != 0 ==> is_min_rank(self@, r),
    {
        proof {
            self.lemma_view();
        }
        match min_key(&self.map) {
            Some(k) => k,
            None => 0,
        }
    }

    /// Takes the first element of the lowest rank; a rank whose queue
    /// empties is dropped.
    pub fn poll(&mut self) -> (r: Option<E>)
        ensures
            old(self)@.dom().len() == 0 ==> r is None && final(self)@ == old(self)@,
            old(self)@.dom().len() != 0 ==> exists|k: usize|
                {
                    &&& is_min_rank(old(self)@, k)
                    &&& old(self)@[k].len() > 0
                    &&& r == Some(old(self)@[k][0])
                    &&& final(self)@ == if old(self)@[k].len() == 1 {
                        old(self)@.remove(k)
                    } else {
                        old(self)@.insert(k, old(self)@[k].drop_first())
                    }
                },
            old(self)@.dom().len() != 0 ==> queued_total(final(self)@) + 1 == queued_total(old(self)@),
    {
        proof {
            use_type_invariant(&*self);
            self.lemma_view();
        }
        let k = match min_key(&self.map) {
            Some(k) => k,
            None => {
                return None;
            },
        };
        let mut map = BTreeMap::new();
        std::mem::swap(&mut map, &mut self.map);
        let ghost m0 = map@;
        let mut deque = map.remove(&k).unwrap();
        let res = deque.pop_front();
        if deque.len() != 0 {
            map.insert(k, deque);
        }
        self.map = map;
        proof {
            self.lemma_view();
            assert(is_min_rank(old(self)@, k));
            old(self).lemma_view();
            assert(old(self)@[k].len() > 0);
            lemma_total_at(old(self)@, k);
            if m0[k]@.len() == 1 {
                assert(self@ =~= old(self)@.remove(k));
            } else {
                assert(self@ =~= old(self)@.insert(k, old(self)@[k].drop_first()));
                lemma_total_at(self@, k);
                assert(self@.remove(k) =~= old(self)@.remove(k));
            }
        }
        res
    }

    /// Whether no element is queued.
    pub fn empty(&self) -> (r: bool)
        ensures
            r == (self@.dom().len() == 0),
    {
        proof {
            self.lemma_view();
        }
        self.map.len() == 0
    }
}

} // verus!

verus! {

/// Every queued element has a spread of at most 1.
pub open spec fn spreads_at_most_one(m: Map<usize, Seq<(ChunkPos, usize)>>) -> bool {
    forall|k: usize, i: int| m.contains_key(k) && 0 <= i < m[k].len() ==> #[trigger] m[k][i].1 <= 1
}

/// Generates chunks in rank order from queued positions, each with the
/// distance it may still spread.
pub struct ChunkGenerator {
    pub srcs: HashSet<ChunkPos>,
    pub deque: MultiDeque<(ChunkPos, usize)>,
    pub done: bool,
    pub last_rank: usize,
}

impl ChunkGenerator {
    /// The generation state of a chunk; no state is kept yet, so 0.
    fn get_state(&self, p: ChunkPos) -> (r: usize)
        ensures
            r == 0,
    {
        0
    }

    /// Records the generation state of a chunk; no state is kept yet.
    fn set_state(&self, p: ChunkPos, n: usize) {
    }

    /// Takes queued positions in rank order until `n` of them were raised
    /// to their rank or the queue ran dry (then the generator is done). A
    /// position whose state is already at its rank does not count. Spreading
    /// to neighbouring chunks is not written yet, so every queued spread
    /// must be at most 1.
    pub fn step_n(&mut self, n: usize)
        requires
            spreads_at_most_one(old(self).deque@),
        ensures
            old(self).done || n == 0 ==> *final(self) == *old(self),
            final(self).srcs == old(self).srcs,
            !old(self).done && n > 0 && old(self).deque@.dom().len() == 0 ==> final(self).done,
            queued_total(final(self).deque@) <= queued_total(old(self).deque@),
            spreads_at_most_one(final(self).deque@),
            final(self).done && !old(self).done ==> final(self).deque@.dom().len() == 0,
            !old(self).done ==> final(self).done || queued_total(old(self).deque@) - queued_total(final(self).deque@) >= n,
    {
        let mut left = n;
        while left > 0
            invariant
                spreads_at_most_one(self.deque@),
                queued_total(self.deque@) <= queued_total(old(self).deque@),
                old(self).done ==> *self == *old(self),
                !old(self).done ==> !self.done,
                left <= n,
                n == 0 ==> *self == *old(self),
                self.srcs == old(self).srcs,
                old(self).deque@.dom().len() == 0 ==> self.deque@ == old(self).deque@ && left == n,
                queued_total(old(self).deque@) - queued_total(self.deque@) >= n - left,
            decreases queued_total(self.deque@),
        {
            if self.done {
                return;
            }
            let rank = self.deque.get_rank();
            let ghost before = self.deque@;
            let p = self.deque.poll();
            if p.is_none() {
                self.done = true;
                return;
            }
            self.last_rank = rank;
            let (p, spread) = p.unwrap();
            proof {
                let k = choose|k: usize|
                    {
                        &&& is_min_rank(before, k)
                        &&& before[k].len() > 0
                        &&& Some((p, spread)) == Some(before[k][0])
                        &&& self.deque@ == if before[k].len() == 1 {
                            before.remove(k)
                        } else {
                            before.insert(k, before[k].drop_first())
                        }
                    };
                assert(before[k][0].1 <= 1);
                assert forall|j: usize, i: int|
                    self.deque@.contains_key(j) && 0 <= i < self.deque@[j].len() implies #[trigger] self.deque@[j][i].1
                    <= 1 by {
                    if j == k && before[k].len() != 1 {
                        assert(self.deque@[j][i] == before[k][i + 1]);
                    } else {
                        assert(self.deque@[j] == before[j]);
                    }
                }
            }
            let cur_state = self.get_state(p);
            let too_high = cur_state >= rank;
            if !too_high {
                self.set_state(p, rank);
            }
            if !too_high {
                left = left - 1;
            }
        }
    }
}

} // verus!
