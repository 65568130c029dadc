//! The buffer store: one sample queue per source identity.

use crate::config::MAX_QUEUE_LEN;
use crate::queue::{after_tick, appended, head_frame, is_ready, SampleQueue};
use vstd::prelude::*;

verus! {

/// One stream: its identity and the samples buffered for it.
struct Source {
    id: String,
    queue: SampleQueue,
}

/// The queues of all sources that have sent data and have not been removed.
///
/// Its view is the map from identity to queue contents. The store is walked
/// in `scan_order`, which lists every identity once.
pub struct BufferStore {
    entries: Vec<Source>,
}

impl View for BufferStore {
    type V = Map<Seq<char>, Seq<i16>>;

    closed spec fn view(&self) -> Map<Seq<char>, Seq<i16>> {
        Map::new(
            |id: Seq<char>| self.scan_order().contains(id),
            |id: Seq<char>| self.entries@[self.scan_order().index_of(id)].queue@,
        )
    }
}

/// The queue that `store` holds for `id`: empty where it holds none.
pub open spec fn queue_of(store: Map<Seq<char>, Seq<i16>>, id: Seq<char>) -> Seq<i16> {
    if store.contains_key(id) {
        store[id]
    } else {
        Seq::empty()
    }
}

impl BufferStore {
    /// The identities in the order in which the store is walked.
    pub closed spec fn scan_order(&self) -> Seq<Seq<char>> {
        Seq::new(self.entries@.len(), |i: int| self.entries@[i].id@)
    }

    /// No identity is held twice, and every queue keeps its bound.
    pub closed spec fn wf(&self) -> bool {
        &&& self.scan_order().no_duplicates()
        &&& forall|i: int| 0 <= i < self.entries@.len() ==> (#[trigger] self.entries@[i]).queue.wf()
    }

    /// What well-formedness means for the view: the walk visits exactly the
    /// identities of the map, each once, and no queue exceeds
    /// `MAX_QUEUE_LEN`.
    pub proof fn lemma_wf(&self)
        requires
            self.wf(),
        ensures
            self.scan_order().no_duplicates(),
            self.scan_order().to_set() == self@.dom(),
            self@.dom().finite(),
            self@.dom().len() == self.scan_order().len(),
            forall|id: Seq<char>| #[trigger]
                self@.contains_key(id) ==> self@[id].len() <= MAX_QUEUE_LEN,
    {
        let order = self.scan_order();
        assert(order.to_set() =~= self@.dom());
        vstd::seq_lib::seq_to_set_is_finite(order);
        order.unique_seq_to_set();
        assert forall|id: Seq<char>| #[trigger] self@.contains_key(id) implies self@[id].len()
            <= MAX_QUEUE_LEN by {
            let i = order.index_of(id);
            assert(self.entries@[i].queue.wf());
        }
    }

    /// The view at the identity that stands at place `i` of the walk is the
    /// queue that stands there.
    proof fn lemma_entry(&self, i: int)
        requires
            self.wf(),
            0 <= i < self.entries@.len(),
        ensures
            self.scan_order()[i] == self.entries@[i].id@,
            self.scan_order().index_of(self.entries@[i].id@) == i,
            self@.contains_key(self.entries@[i].id@),
            self@[self.entries@[i].id@] == self.entries@[i].queue@,
    {
        let order = self.scan_order();
        let id = self.entries@[i].id@;
        assert(order[i] == id);
        let j = order.index_of(id);
        assert(order[j] == id);
    }

    /// An empty store.
    pub fn new() -> (store: BufferStore)
        ensures
            store.wf(),
            store@ == Map::<Seq<char>, Seq<i16>>::empty(),
            store.scan_order() == Seq::<Seq<char>>::empty(),
    {
        let store = BufferStore { entries: Vec::new() };
        proof {
            assert(store.scan_order() =~= Seq::<Seq<char>>::empty());
            assert(store@ =~= Map::<Seq<char>, Seq<i16>>::empty());
        }
        store
    }

    /// The number of sources held.
    pub fn source_count(&self) -> (n: usize)
        ensures
            n == self.scan_order().len(),
            self.wf() ==> n == self@.dom().len(),
    {
        proof {
            if self.wf() {
                self.lemma_wf();
            }
        }
        self.entries.len()
    }

    /// Where in the walk `key` stands, if the store holds it.
    fn position(&self, key: &String) -> (at: Option<usize>)
        ensures
            match at {
                Some(i) => i < self.scan_order().len() && self.scan_order()[i as int] == key@,
                None => !self.scan_order().contains(key@),
            },
    {
        let n: usize = self.entries.len();
        let mut i: usize = 0;
        while i < n
            invariant
                n == self.entries@.len(),
                i <= n,
                forall|j: int| 0 <= j < i ==> self.scan_order()[j] != key@,
            decreases n - i,
        {
            if self.entries[i].id == *key {
                return Some(i);
            }
            i += 1;
        }
        None
    }

    /// Whether the store holds a queue for `id`.
    pub fn contains(&self, id: &str) -> (held: bool)
        ensures
            held == self@.contains_key(id@),
    {
        let key: String = id.to_owned();
        self.position(&key).is_some()
    }

    /// The number of samples buffered for `id`, if the store holds it.
    pub fn queue_len(&self, id: &str) -> (n: Option<usize>)
        requires
            self.wf(),
        ensures
            n.is_some() == self@.contains_key(id@),
            n.is_some() ==> n.unwrap() == self@[id@].len(),
            n.is_some() ==> n.unwrap() <= MAX_QUEUE_LEN,
    {
        let key: String = id.to_owned();
        match self.position(&key) {
            Some(i) => Some(self.entries[i].queue.len()),
            None => None,
        }
    }

    /// A copy of the samples buffered for `id`, oldest first, if the store
    /// holds it.
    pub fn queue_samples(&self, id: &str) -> (samples: Option<Vec<i16>>)
        requires
            self.wf(),
        ensures
            samples.is_some() == self@.contains_key(id@),
            samples.is_some() ==> samples.unwrap()@ == self@[id@],
    {
        let key: String = id.to_owned();
        match self.position(&key) {
            Some(i) => Some(self.entries[i].queue.to_vec()),
            None => None,
        }
    }

    /// Appends `chunk` to the queue of `id`, which is created empty if the
    /// store does not hold it yet, and trims that queue to its bound. No
    /// other queue changes.
    pub fn append(&mut self, id: &str, chunk: &[i16])
        requires
            old(self).wf(),
        ensures
            final(self).wf(),
            final(self)@ == old(self)@.insert(id@, appended(queue_of(old(self)@, id@), chunk@)),
            final(self)@[id@].len() <= MAX_QUEUE_LEN,
    {
        let key: String = id.to_owned();
        let ghost target = old(self)@.insert(id@, appended(queue_of(old(self)@, id@), chunk@));
        match self.position(&key) {
            Some(i) => {
                proof {
                    old(self).lemma_entry(i as int);
                }
                self.entries[i].queue.append(chunk);
                proof {
                    assert(self.scan_order() =~= old(self).scan_order());
                    assert forall|k: Seq<char>| self@.contains_key(k) implies #[trigger] self@[k]
                        == target[k] by {
                        let j = self.scan_order().index_of(k);
                        assert(self.scan_order()[j] == k);
                        assert(j != i ==> self.entries@[j] == old(self).entries@[j]);
                    }
                    assert(self@ =~= target);
                }
            },
            None => {
                let mut queue = SampleQueue::new();
                queue.append(chunk);
                proof {
                    assert(Seq::<i16>::empty() + chunk@ =~= chunk@);
                }
                self.entries.push(Source { id: key, queue });
                proof {
                    let n = old(self).entries@.len() as int;
                    assert(self.scan_order() =~= old(self).scan_order().push(id@));
                    assert forall|k: Seq<char>| self@.contains_key(k) implies #[trigger] self@[k]
                        == target[k] by {
                        let j = self.scan_order().index_of(k);
                        assert(self.scan_order()[j] == k);
                        if j < n {
                            assert(old(self).scan_order()[j] == k);
                            let j0 = old(self).scan_order().index_of(k);
                            assert(old(self).scan_order()[j0] == k);
                            assert(self.scan_order()[j0] == k);
                        }
                    }
                    assert forall|k: Seq<char>| target.contains_key(k) implies self@.contains_key(
                        k,
                    ) by {
                        if k == id@ {
                            assert(self.scan_order()[n] == k);
                        } else {
                            let j0 = old(self).scan_order().index_of(k);
                            assert(self.scan_order()[j0] == k);
                        }
                    }
                    assert(self@ =~= target);
                }
            },
        }
    }

    /// Removes the queue of `id` with all it holds, and says whether the
    /// store held one. No other queue changes.
    pub fn remove(&mut self, id: &str) -> (held: bool)
        requires
            old(self).wf(),
        ensures
            final(self).wf(),
            held == old(self)@.contains_key(id@),
            final(self)@ == old(self)@.remove(id@),
            !final(self)@.contains_key(id@),
    {
        let key: String = id.to_owned();
        let ghost target = old(self)@.remove(id@);
        match self.position(&key) {
            Some(i) => {
                let _ = self.entries.remove(i);
                proof {
                    let before = old(self).scan_order();
                    assert(self.scan_order() =~= before.remove(i as int));
                    assert forall|a: int, b: int|
                        0 <= a < self.scan_order().len() && 0 <= b < self.scan_order().len() && a
                            != b implies self.scan_order()[a] != self.scan_order()[b] by {
                        let a0 = if a < i { a } else { a + 1 };
                        let b0 = if b < i { b } else { b + 1 };
                        assert(self.scan_order()[a] == before[a0]);
                        assert(self.scan_order()[b] == before[b0]);
                    }
                    assert forall|j: int| 0 <= j < self.entries@.len() implies (
                    #[trigger] self.entries@[j]).queue.wf() by {
                        let j0 = if j < i { j } else { j + 1 };
                        assert(self.entries@[j] == old(self).entries@[j0]);
                    }
                    assert forall|k: Seq<char>| self@.contains_key(k) implies target.contains_key(k)
                        && #[trigger] self@[k] == target[k] by {
                        let j = self.scan_order().index_of(k);
                        assert(self.scan_order()[j] == k);
                        let j0 = if j < i { j } else { j + 1 };
                        assert(before[j0] == k);
                        old(self).lemma_entry(j0);
                    }
                    assert forall|k: Seq<char>| target.contains_key(k) implies self@.contains_key(
                        k,
                    ) by {
                        let j0 = before.index_of(k);
                        assert(before[j0] == k);
                        let j = if j0 < i { j0 } else { j0 - 1 };
                        assert(self.scan_order()[j] == k);
                    }
                    assert(self@ =~= target);
                }
                true
            },
            None => {
                proof {
                    assert(self@ =~= target);
                }
                false
            },
        }
    }

    /// Takes the head frame of the queue at place `at` of the walk, if that
    /// queue is ready. The walk keeps its order, and no other queue changes.
    pub fn take_frame_at(&mut self, at: usize) -> (frame: Option<Vec<i16>>)
        requires
            old(self).wf(),
            at < old(self).scan_order().len(),
        ensures
            final(self).wf(),
            final(self).scan_order() == old(self).scan_order(),
            frame.is_some() == is_ready(old(self)@[old(self).scan_order()[at as int]]),
            frame.is_some() ==> frame.unwrap()@ == head_frame(
                old(self)@[old(self).scan_order()[at as int]],
            ),
            final(self)@ == old(self)@.insert(
                old(self).scan_order()[at as int],
                after_tick(old(self)@[old(self).scan_order()[at as int]]),
            ),
    {
        let ghost id = old(self).scan_order()[at as int];
        let ghost target = old(self)@.insert(id, after_tick(old(self)@[id]));
        proof {
            old(self).lemma_entry(at as int);
        }
        let frame = self.entries[at].queue.take_frame();
        proof {
            assert(self.scan_order() =~= old(self).scan_order());
            assert forall|k: Seq<char>| self@.contains_key(k) implies #[trigger] self@[k]
                == target[k] by {
                let j = self.scan_order().index_of(k);
                assert(self.scan_order()[j] == k);
                assert(j != at ==> self.entries@[j] == old(self).entries@[j]);
            }
            assert(self@ =~= target);
        }
        frame
    }
}

} // verus!
