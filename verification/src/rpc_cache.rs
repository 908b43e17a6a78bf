//! Per-block result cache for read-only runtime API calls.
//!
//! Keyed by (call, SCALE-encoded parameters, block hash). Results are pure
//! functions of that key, so cached entries are never stale; they are evicted
//! in insertion order once the byte budget is exceeded.
//!
//! The cache itself does not wait and does not compute. A request takes hold of
//! the slot of its key and enters it; the cache answers with the result, with
//! the order to compute it, or with the order to wait for the request that is
//! computing it. So no lock has to be kept over a computation, and concurrent
//! requests for one key share a single execution.
use crate::cache_key::{Key, KeyModel};
use crate::cache_model::{CacheModel, Entry, Outcome, Progress, SlotModel};
use std::collections::VecDeque;
use std::sync::Arc;
use vstd::hash_map::StringHashMap;
use vstd::prelude::*;

verus! {

/// A finished computation: the encoded result, or the text of its failure.
pub type Value = Result<Arc<Vec<u8>>, String>;

/// What a cached value stands for.
pub open spec fn outcome(value: Value) -> Outcome {
    match value {
        Ok(bytes) => Ok(bytes@),
        Err(text) => Err(text@),
    }
}

/// What the reply of a computation stands for.
pub open spec fn reply(value: Result<Vec<u8>, String>) -> Outcome {
    match value {
        Ok(bytes) => Ok(bytes@),
        Err(text) => Err(text@),
    }
}

/// A second handle on the same value; the bytes are shared.
fn copy_of(value: &Value) -> (copy: Value)
    ensures
        outcome(copy) == outcome(*value),
        match (*value, copy) {
            (Ok(bytes), Ok(same)) => same@ == bytes@,
            (Err(text), Err(same)) => same@ == text@,
            _ => false,
        },
{
    match value {
        Ok(bytes) => Ok(bytes.clone()),
        Err(text) => Err(text.clone()),
    }
}

/// How far the computation behind a slot has come.
enum SlotState {
    Empty,
    Running,
    Ready(Value),
}

impl SlotState {
    spec fn progress(&self) -> Progress {
        match self {
            SlotState::Empty => Progress::Empty,
            SlotState::Running => Progress::Running,
            SlotState::Ready(value) => Progress::Ready(outcome(*value)),
        }
    }
}

/// The place where the requests for one key meet.
struct Slot {
    key: Key,
    /// The bytes charged for the entry.
    size: usize,
    state: SlotState,
    /// The requests that hold the slot.
    holders: usize,
    /// Whether the slot is the one that the cache keeps for its key.
    resident: bool,
}

impl Slot {
    spec fn model(&self) -> SlotModel {
        SlotModel {
            key: self.key@,
            progress: self.state.progress(),
            holders: self.holders as nat,
        }
    }
}

/// A request's hold on a slot. It ends when the request has entered the slot and
/// does not have to wait.
#[must_use]
pub struct Hold {
    id: usize,
}

impl Hold {
    /// The slot that is held.
    pub closed spec fn id(&self) -> int {
        self.id as int
    }
}

/// The duty to compute the result of a slot.
#[must_use]
pub struct Lead {
    id: usize,
}

impl Lead {
    /// The slot whose result is to be computed.
    pub closed spec fn id(&self) -> int {
        self.id as int
    }
}

/// What a request that enters a slot has to do.
#[must_use]
pub enum Step {
    /// Nothing: this is the result.
    Hit(Value),
    /// Wait until the running computation has ended, and enter again.
    Wait(Hold),
    /// Compute the result, and complete or abandon the slot.
    Compute(Lead),
}

/// The result cache.
pub struct ResultCache {
    cap_bytes: usize,
    slots: Vec<Option<Slot>>,
    /// Places in `slots` that can be used again.
    vacant: Vec<usize>,
    /// The slots of the entries, by the texts of their keys.
    index: StringHashMap<usize>,
    /// The slots of the entries, oldest first.
    order: VecDeque<usize>,
    bytes: usize,
    hits: u64,
    misses: u64,
}

impl View for ResultCache {
    type V = CacheModel;

    closed spec fn view(&self) -> CacheModel {
        CacheModel {
            cap: self.cap_bytes as nat,
            entries: Map::new(
                |k: KeyModel| self.index@.contains_key(k.text()),
                |k: KeyModel| self.entry(k),
            ),
            order: self.order@.map_values(|i: usize| self.slot_at(i as int).key@),
            slots: Map::new(|i: int| self.occupied(i), |i: int| self.slot_at(i).model()),
            bytes: self.bytes as nat,
            hits: self.hits,
            misses: self.misses,
        }
    }
}

impl ResultCache {
    spec fn occupied(&self, i: int) -> bool {
        0 <= i < self.slots@.len() && self.slots@[i] is Some
    }

    spec fn slot_at(&self, i: int) -> Slot {
        self.slots@[i]->0
    }

    spec fn entry(&self, k: KeyModel) -> Entry {
        let i = self.index@[k.text()] as int;
        Entry { slot: i, size: self.slot_at(i).size as nat }
    }

    /// The cache is in a state that its operations lead to.
    pub closed spec fn wf(&self) -> bool {
        &&& forall|t: Seq<char>| #[trigger]
            self.index@.contains_key(t) ==> {
                let i = self.index@[t] as int;
                self.occupied(i) && self.slot_at(i).resident && self.slot_at(i).key@.text() == t
            }
        &&& forall|i: int| #[trigger]
            self.occupied(i) && self.slot_at(i).resident ==> {
                let t = self.slot_at(i).key@.text();
                self.index@.contains_key(t) && self.index@[t] == i
            }
        &&& self.order@.no_duplicates()
        &&& forall|j: int| #![trigger self.order@[j]]
            0 <= j < self.order@.len() ==> self.occupied(self.order@[j] as int) && self.slot_at(
                self.order@[j] as int,
            ).resident
        &&& forall|i: int| #[trigger]
            self.occupied(i) && self.slot_at(i).resident ==> self.order@.contains(i as usize)
        &&& self.vacant@.no_duplicates()
        &&& forall|j: int| #![trigger self.vacant@[j]]
            0 <= j < self.vacant@.len() ==> self.vacant@[j] < self.slots@.len()
                && self.slots@[self.vacant@[j] as int] is None
        &&& forall|i: int| #[trigger]
            self.occupied(i) ==> self.slot_at(i).resident || self.slot_at(i).holders > 0
    }

    /// Every state of the cache is valid: its order lists each entry once, each
    /// entry has its slot, and no slot is kept for nobody.
    pub proof fn lemma_valid(&self)
        requires
            self.wf(),
        ensures
            self@.valid(),
    {
        let m = self@;
        let keys = m.order;
        assert forall|a: int, b: int| 0 <= a < keys.len() && 0 <= b < keys.len() && a != b implies
            keys[a] != keys[b] by {
            assert(self.order@[a] != self.order@[b]);
        }
        assert forall|k: KeyModel| m.entries.contains_key(k) <==> m.order.contains(k) by {
            if m.entries.contains_key(k) {
                let i = self.index@[k.text()];
                KeyModel::lemma_text_injective(k, self.slot_at(i as int).key@);
                assert(self.occupied(i as int));
                let j = choose|j: int| 0 <= j < self.order@.len() && self.order@[j] == i;
                assert(keys[j] == k);
            }
            if m.order.contains(k) {
                let j = choose|j: int| 0 <= j < keys.len() && keys[j] == k;
                assert(self.occupied(self.order@[j] as int));
            }
        }
        assert forall|k: KeyModel| #[trigger] m.entries.contains_key(k) implies {
            &&& m.slots.contains_key(m.entries[k].slot)
            &&& m.slots[m.entries[k].slot].key == k
        } by {
            let i = self.index@[k.text()];
            KeyModel::lemma_text_injective(k, self.slot_at(i as int).key@);
        }
        assert forall|id: int| #[trigger] m.slots.contains_key(id) implies m.slots[id].holders > 0
            || m.resident(id) by {
            assert(self.occupied(id));
        }
    }

    /// A cache with the given byte budget. A budget of 0 switches it off.
    pub fn new(cap_bytes: usize) -> (cache: ResultCache)
        ensures
            cache.wf(),
            cache@ == CacheModel::empty(cap_bytes as nat),
            cache@.cap == cap_bytes,
            cache@.hits == 0 && cache@.misses == 0,
    {
        let cache = ResultCache {
            cap_bytes,
            slots: Vec::new(),
            vacant: Vec::new(),
            index: StringHashMap::new(),
            order: VecDeque::new(),
            bytes: 0,
            hits: 0,
            misses: 0,
        };
        assert(cache@ =~= CacheModel::empty(cap_bytes as nat));
        cache
    }

    /// Whether results are cached at all.
    pub fn enabled(&self) -> (on: bool)
        ensures
            on == self@.enabled(),
            on == (self@.cap > 0),
    {
        self.cap_bytes > 0
    }

    /// A change that touches neither slots nor entries.
    proof fn lemma_same_contents(pre: &ResultCache, post: &ResultCache)
        requires
            pre.wf(),
            post.slots@ == pre.slots@,
            post.vacant@ == pre.vacant@,
            post.index@ == pre.index@,
            post.order@ == pre.order@,
        ensures
            post.wf(),
            post@.slots == pre@.slots,
            post@.order == pre@.order,
            post@.entries == pre@.entries,
    {
        assert forall|i: int| #[trigger] post.occupied(i) <==> pre.occupied(i) by {}
        assert(post@.slots =~= pre@.slots);
        assert(post@.order =~= pre@.order);
        assert(post@.entries =~= pre@.entries);
    }

    /// A change within one slot that leaves its key and its residence alone.
    proof fn lemma_updated(pre: &ResultCache, post: &ResultCache, id: int)
        requires
            pre.wf(),
            pre.occupied(id),
            post.slots@.len() == pre.slots@.len(),
            post.slots@[id] is Some,
            forall|i: int| 0 <= i < pre.slots@.len() && i != id ==> post.slots@[i] == pre.slots@[i],
            post.slot_at(id).key@ == pre.slot_at(id).key@,
            post.slot_at(id).resident == pre.slot_at(id).resident,
            post.slot_at(id).resident || post.slot_at(id).holders > 0,
            post.vacant@ == pre.vacant@,
            post.index@ == pre.index@,
            post.order@ == pre.order@,
        ensures
            post.wf(),
            post@.slots == pre@.slots.insert(id, post.slot_at(id).model()),
            post@.order == pre@.order,
            post.slot_at(id).resident ==> post@.entries == pre@.entries.insert(
                pre.slot_at(id).key@,
                Entry { slot: id, size: post.slot_at(id).size as nat },
            ),
            post.slot_at(id).size == pre.slot_at(id).size || !post.slot_at(id).resident
                ==> post@.entries == pre@.entries,
    {
        assert forall|i: int| #[trigger] post.occupied(i) implies pre.occupied(i) by {}
        assert(forall|i: int| #[trigger] pre.occupied(i) ==> post.occupied(i));
        assert(post@.slots =~= pre@.slots.insert(id, post.slot_at(id).model()));
        assert(post@.order =~= pre@.order);
        let key = pre.slot_at(id).key@;
        if post.slot_at(id).resident {
            let entries = pre@.entries.insert(
                key,
                Entry { slot: id, size: post.slot_at(id).size as nat },
            );
            assert forall|k: KeyModel| #[trigger] pre.index@.contains_key(k.text()) implies (k
                == key <==> pre.index@[k.text()] == id) by {
                if pre.index@[k.text()] == id {
                    KeyModel::lemma_text_injective(k, key);
                }
            }
            assert(post@.entries =~= entries);
            if post.slot_at(id).size == pre.slot_at(id).size {
                assert(post@.entries =~= pre@.entries);
            }
        } else {
            assert(post@.entries =~= pre@.entries);
        }
    }

    /// A new slot in a place that was free, for a key without an entry.
    proof fn lemma_inserted(pre: &ResultCache, post: &ResultCache, id: usize, key: KeyModel)
        requires
            pre.wf(),
            !pre.index@.contains_key(key.text()),
            !pre.occupied(id as int),
            post.occupied(id as int),
            pre.slots@.len() <= post.slots@.len() <= pre.slots@.len() + 1,
            post.slots@.len() > pre.slots@.len() ==> id == pre.slots@.len(),
            forall|i: int| 0 <= i < pre.slots@.len() && i != id ==> post.slots@[i] == pre.slots@[i],
            post.slot_at(id as int).key@ == key,
            post.slot_at(id as int).size == 0,
            post.slot_at(id as int).state is Empty,
            post.slot_at(id as int).holders == 1,
            post.slot_at(id as int).resident,
            forall|j: int| 0 <= j < post.vacant@.len() ==> #[trigger] post.vacant@[j] != id,
            post.vacant@.len() <= pre.vacant@.len(),
            forall|j: int| 0 <= j < post.vacant@.len() ==> post.vacant@[j] == pre.vacant@[j],
            post.index@ == pre.index@.insert(key.text(), id),
            post.order@ == pre.order@.push(id),
            post.cap_bytes == pre.cap_bytes,
            post.bytes == pre.bytes,
            post.hits == pre.hits,
            post.misses == pre.misses,
        ensures
            post.wf(),
            post@ == pre@.admitted(key, id as int),
            !pre@.entries.contains_key(key),
            !pre@.slots.contains_key(id as int),
    {
        assert forall|i: int| #[trigger] post.occupied(i) implies pre.occupied(i) || i == id by {}
        assert(forall|i: int| #[trigger] pre.occupied(i) ==> post.occupied(i) && i != id);
        assert(post.order@.last() == id);
        assert forall|i: int| #[trigger]
            post.occupied(i) && post.slot_at(i).resident implies post.order@.contains(
            i as usize,
        ) by {
            if i != id {
                assert(pre.occupied(i));
                let j = choose|j: int| 0 <= j < pre.order@.len() && pre.order@[j] == i;
                assert(post.order@[j] == i);
            } else {
                assert(post.order@[pre.order@.len() as int] == i);
            }
        }
        assert forall|i: int| #[trigger] post.occupied(i) && post.slot_at(i).resident implies {
            let t = post.slot_at(i).key@.text();
            post.index@.contains_key(t) && post.index@[t] == i
        } by {
            if i != id {
                assert(pre.occupied(i));
            }
        }
        assert(post@.order =~= pre@.order.push(key));
        assert(post@.slots =~= pre@.admitted(key, id as int).slots);
        assert forall|k: KeyModel| post.index@.contains_key(k.text()) <==> (pre.index@.contains_key(
            k.text(),
        ) || k == key) by {
            if k.text() == key.text() {
                KeyModel::lemma_text_injective(k, key);
            }
        }
        assert(post@.entries =~= pre@.admitted(key, id as int).entries);
        assert(post@ =~= pre@.admitted(key, id as int));
    }

    /// A slot that the cache does not keep is taken out.
    proof fn lemma_vacated(pre: &ResultCache, post: &ResultCache, id: usize)
        requires
            pre.wf(),
            pre.occupied(id as int),
            !pre.slot_at(id as int).resident,
            post.slots@ == pre.slots@.update(id as int, None),
            post.vacant@ == pre.vacant@.push(id),
            post.index@ == pre.index@,
            post.order@ == pre.order@,
        ensures
            post.wf(),
            post@.slots == pre@.slots.remove(id as int),
            post@.order == pre@.order,
            post@.entries == pre@.entries,
            !pre@.resident(id as int),
    {
        assert forall|i: int| #[trigger] post.occupied(i) <==> pre.occupied(i) && i != id by {}
        assert(post@.slots =~= pre@.slots.remove(id as int));
        assert(post@.order =~= pre@.order);
        assert(post@.entries =~= pre@.entries);
    }

    /// The oldest entry is taken out, and its slot too if nobody holds it.
    proof fn lemma_evicted(pre: &ResultCache, post: &ResultCache, id: usize)
        requires
            pre.wf(),
            pre.order@.len() > 0,
            id == pre.order@[0],
            post.order@ == pre.order@.drop_first(),
            post.index@ == pre.index@.remove(pre.slot_at(id as int).key@.text()),
            post.slots@.len() == pre.slots@.len(),
            forall|i: int| 0 <= i < pre.slots@.len() && i != id ==> post.slots@[i] == pre.slots@[i],
            pre.slot_at(id as int).holders > 0 ==> {
                &&& post.slots@[id as int] is Some
                &&& post.slot_at(id as int).model() == pre.slot_at(id as int).model()
                &&& !post.slot_at(id as int).resident
                &&& post.vacant@ == pre.vacant@
            },
            pre.slot_at(id as int).holders == 0 ==> {
                &&& post.slots@[id as int] is None
                &&& post.vacant@ == pre.vacant@.push(id)
            },
            post.bytes == if pre.bytes < pre.slot_at(id as int).size {
                0
            } else {
                pre.bytes - pre.slot_at(id as int).size
            },
            post.cap_bytes == pre.cap_bytes,
            post.hits == pre.hits,
            post.misses == pre.misses,
        ensures
            post.wf(),
            post@ == pre@.evicted_oldest(),
    {
        let key = pre.slot_at(id as int).key@;
        assert(pre.occupied(id as int));
        assert(pre@.order[0] == key);
        assert(pre@.entries[key].slot == id);
        assert forall|i: int| #[trigger] post.occupied(i) implies pre.occupied(i) by {}
        assert(forall|i: int| i != id ==> (#[trigger] post.occupied(i) <==> pre.occupied(i)));
        assert forall|t: Seq<char>| #[trigger] post.index@.contains_key(t) implies {
            let i = post.index@[t] as int;
            post.occupied(i) && post.slot_at(i).resident && post.slot_at(i).key@.text() == t
        } by {
            assert(pre.index@.contains_key(t));
        }
        assert forall|i: int| #[trigger] post.occupied(i) && post.slot_at(i).resident implies {
            let t = post.slot_at(i).key@.text();
            post.index@.contains_key(t) && post.index@[t] == i
        } by {
            assert(pre.occupied(i));
        }
        assert forall|j: int| #![trigger post.order@[j]] 0 <= j < post.order@.len() implies
            post.occupied(post.order@[j] as int) && post.slot_at(
            post.order@[j] as int,
        ).resident by {
            assert(post.order@[j] == pre.order@[j + 1]);
            assert(pre.occupied(pre.order@[j + 1] as int));
        }
        assert forall|i: int| #[trigger]
            post.occupied(i) && post.slot_at(i).resident implies post.order@.contains(
            i as usize,
        ) by {
            assert(pre.occupied(i));
            let j = choose|j: int| 0 <= j < pre.order@.len() && pre.order@[j] == i;
            assert(j != 0);
            assert(post.order@[j - 1] == i);
        }
        assert(post@.order =~= pre@.order.drop_first());
        assert(post@.slots =~= pre@.evicted_oldest().slots);
        assert forall|k: KeyModel| post.index@.contains_key(k.text()) <==> pre.index@.contains_key(
            k.text(),
        ) && k != key by {
            if k.text() == key.text() {
                KeyModel::lemma_text_injective(k, key);
            }
        }
        assert(post@.entries =~= pre@.evicted_oldest().entries);
        assert(post@ =~= pre@.evicted_oldest());
    }

    /// Takes hold of the slot of `key`, and says whether there was one. If there
    /// was none, the key gets an entry with an empty slot.
    pub fn slot(&mut self, key: &Key) -> (taken: (Hold, bool))
        requires
            old(self).wf(),
        ensures
            final(self).wf(),
            taken.1 == old(self)@.entries.contains_key(key@),
            taken.0.id() == old(self)@.slot_for(key@, taken.0.id()),
            !taken.1 ==> !old(self)@.slots.contains_key(taken.0.id()),
            final(self)@ == old(self)@.admitted(key@, taken.0.id()),
    {
        let text = key.text();
        let known: Option<usize> = match self.index.get(text.as_str()) {
            Some(id) => Some(*id),
            None => None,
        };
        match known {
            Some(id) => {
                match &mut self.slots[id] {
                    Some(slot) => {
                        if slot.holders < usize::MAX {
                            slot.holders = slot.holders + 1;
                        }
                    },
                    None => {},
                }
                proof {
                    KeyModel::lemma_text_injective(key@, old(self).slot_at(id as int).key@);
                    Self::lemma_updated(old(self), self, id as int);
                    assert(self@ =~= old(self)@.admitted(key@, id as int));
                }
                (Hold { id }, true)
            },
            None => {
                let slot = Slot {
                    key: key.duplicate(),
                    size: 0,
                    state: SlotState::Empty,
                    holders: 1,
                    resident: true,
                };
                let id: usize = match self.vacant.pop() {
                    Some(id) => {
                        self.slots[id] = Some(slot);
                        id
                    },
                    None => {
                        let id = self.slots.len();
                        self.slots.push(Some(slot));
                        id
                    },
                };
                self.index.insert(text, id);
                self.order.push_back(id);
                proof {
                    Self::lemma_inserted(old(self), self, id, key@);
                }
                (Hold { id }, false)
            },
        }
    }

    /// Lets go of a slot. It goes with its last holder, unless the cache keeps it.
    fn release(&mut self, id: usize)
        requires
            old(self).wf(),
            old(self)@.slots.contains_key(id as int),
        ensures
            final(self).wf(),
            final(self)@ == old(self)@.released(id as int),
    {
        assert(self.occupied(id as int));
        let unused = match &self.slots[id] {
            Some(slot) => slot.holders <= 1 && !slot.resident,
            None => false,
        };
        if unused {
            self.slots[id] = None;
            self.vacant.push(id);
            proof {
                Self::lemma_vacated(old(self), self, id);
                assert(self@ =~= old(self)@.released(id as int));
            }
        } else {
            match &mut self.slots[id] {
                Some(slot) => {
                    if slot.holders > 0 && slot.holders < usize::MAX {
                        slot.holders = slot.holders - 1;
                    }
                },
                None => {},
            }
            proof {
                Self::lemma_updated(old(self), self, id as int);
                assert(self@ =~= old(self)@.released(id as int));
            }
        }
    }

    /// Records how far the computation of a slot has come.
    fn set_state(&mut self, id: usize, state: SlotState)
        requires
            old(self).wf(),
            old(self)@.slots.contains_key(id as int),
        ensures
            final(self).wf(),
            final(self)@ == old(self)@.with_progress(id as int, state.progress()),
    {
        assert(self.occupied(id as int));
        match &mut self.slots[id] {
            Some(slot) => {
                slot.state = state;
            },
            None => {},
        }
        proof {
            Self::lemma_updated(old(self), self, id as int);
            assert(self@ =~= old(self)@.with_progress(id as int, state.progress()));
        }
    }

    /// Enters a slot that is held: the result is there, or it has to be computed,
    /// or another request is computing it.
    pub fn enter(&mut self, hold: Hold) -> (step: Step)
        requires
            old(self).wf(),
            old(self)@.slots.contains_key(hold.id()),
        ensures
            final(self).wf(),
            match old(self)@.slots[hold.id()].progress {
                Progress::Ready(result) => {
                    &&& step matches Step::Hit(value)
                    &&& outcome(value) == result
                    &&& final(self)@ == old(self)@.served(hold.id())
                },
                Progress::Running => {
                    &&& step matches Step::Wait(still)
                    &&& still.id() == hold.id()
                    &&& final(self)@ == old(self)@
                },
                Progress::Empty => {
                    &&& step matches Step::Compute(lead)
                    &&& lead.id() == hold.id()
                    &&& final(self)@ == old(self)@.started(hold.id())
                },
            },
    {
        let id = hold.id;
        assert(self.occupied(id as int));
        let mut ready: Option<Value> = None;
        let mut running = false;
        match &self.slots[id] {
            Some(slot) => match &slot.state {
                SlotState::Ready(value) => {
                    ready = Some(copy_of(value));
                },
                SlotState::Running => {
                    running = true;
                },
                SlotState::Empty => {},
            },
            None => {},
        }
        if let Some(value) = ready {
            self.hits = self.hits.wrapping_add(1);
            proof {
                Self::lemma_same_contents(old(self), self);
            }
            self.release(id);
            Step::Hit(value)
        } else if running {
            Step::Wait(hold)
        } else {
            self.misses = self.misses.wrapping_add(1);
            proof {
                Self::lemma_same_contents(old(self), self);
            }
            self.set_state(id, SlotState::Running);
            Step::Compute(Lead { id })
        }
    }

    /// Takes part in the requests for `key`: takes hold of its slot and enters it.
    /// A cache that is off is passed by: there is nothing to do but to compute.
    pub fn join(&mut self, key: &Key) -> (joined: Option<Step>)
        requires
            old(self).wf(),
        ensures
            final(self).wf(),
            if !old(self)@.enabled() {
                joined is None && final(self)@ == old(self)@
            } else {
                match old(self)@.progress_of(key@) {
                    Progress::Ready(result) => {
                        &&& joined matches Some(Step::Hit(value))
                        &&& outcome(value) == result
                        &&& final(self)@ == old(self)@.recalled(key@)
                    },
                    Progress::Running => {
                        &&& joined matches Some(Step::Wait(hold))
                        &&& hold.id() == old(self)@.entries[key@].slot
                        &&& final(self)@ == old(self)@.admitted(key@, hold.id())
                    },
                    Progress::Empty => {
                        &&& joined matches Some(Step::Compute(lead))
                        &&& lead.id() == old(self)@.slot_for(key@, lead.id())
                        &&& old(self)@.entries.contains_key(key@)
                            || !old(self)@.slots.contains_key(lead.id())
                        &&& final(self)@ == old(self)@.admitted(key@, lead.id()).started(lead.id())
                    },
                }
            },
    {
        if !self.enabled() {
            return None;
        }
        proof {
            self.lemma_valid();
        }
        let (hold, _existed) = self.slot(key);
        let step = self.enter(hold);
        assert(step is Hit ==> self@ =~= old(self)@.recalled(key@));
        Some(step)
    }

    /// Ends the computation of a slot with what it came to, charges a result
    /// against the byte budget, and hands the value back.
    pub fn complete(&mut self, lead: Lead, computed: Result<Vec<u8>, String>) -> (value: Value)
        requires
            old(self).wf(),
            old(self)@.slots.contains_key(lead.id()),
        ensures
            final(self).wf(),
            outcome(value) == reply(computed),
            final(self)@ == old(self)@.completed(lead.id(), reply(computed)),
    {
        let id = lead.id;
        assert(self.occupied(id as int));
        let mut key: Option<Key> = None;
        match &self.slots[id] {
            Some(slot) => {
                key = Some(slot.key.duplicate());
            },
            None => {},
        }
        let value: Value = match computed {
            Ok(bytes) => Ok(Arc::new(bytes)),
            Err(text) => Err(text),
        };
        self.set_state(id, SlotState::Ready(copy_of(&value)));
        self.release(id);
        if let Ok(bytes) = &value {
            if let Some(key) = &key {
                self.account(key, bytes.len());
            }
        }
        value
    }

    /// Ends the computation of a slot without a result. The next request that
    /// enters the slot computes it.
    pub fn abandon(&mut self, lead: Lead)
        requires
            old(self).wf(),
            old(self)@.slots.contains_key(lead.id()),
        ensures
            final(self).wf(),
            final(self)@ == old(self)@.abandoned(lead.id()),
    {
        self.set_state(lead.id, SlotState::Empty);
        self.release(lead.id);
    }

    /// Charges `size` bytes for the entry of `key`, if there is one, in place of
    /// what it was charged before, and evicts the oldest entries until the charges
    /// are within the byte budget.
    pub fn account(&mut self, key: &Key, size: usize)
        requires
            old(self).wf(),
        ensures
            final(self).wf(),
            final(self)@ == old(self)@.accounted(key@, size as nat),
    {
        let text = key.text();
        let known: Option<usize> = match self.index.get(text.as_str()) {
            Some(id) => Some(*id),
            None => None,
        };
        if let Some(id) = known {
            match &mut self.slots[id] {
                Some(slot) => {
                    self.bytes = self.bytes.saturating_sub(slot.size).saturating_add(size);
                    slot.size = size;
                },
                None => {},
            }
            proof {
                KeyModel::lemma_text_injective(key@, old(self).slot_at(id as int).key@);
                Self::lemma_updated(old(self), self, id as int);
                assert(self@.slots =~= old(self)@.slots);
            }
        }
        assert(self@ =~= old(self)@.charged(key@, size as nat));
        while self.bytes > self.cap_bytes && self.order.len() > 0
            invariant
                self.wf(),
                self@.trimmed() == old(self)@.accounted(key@, size as nat),
            decreases self.order@.len(),
        {
            self.evict_oldest();
        }
    }

    /// The result of `key`, for a caller that has the cache to itself. Without
    /// one, the request is a miss, and the caller computes the result and has it
    /// kept with [`ResultCache::keep`]. Until then the slot of the key is empty: if
    /// the computation unwinds, the next request for the key computes it.
    pub fn recall(&mut self, key: &Key) -> (known: Option<Value>)
        requires
            old(self).wf(),
            !(old(self)@.progress_of(key@) is Running),
        ensures
            final(self).wf(),
            match old(self)@.progress_of(key@) {
                Progress::Ready(result) => {
                    &&& known matches Some(value)
                    &&& outcome(value) == result
                    &&& final(self)@ == old(self)@.recalled(key@)
                },
                _ => {
                    &&& known is None
                    &&& final(self)@.entries.contains_key(key@)
                    &&& final(self)@.progress_of(key@) is Empty
                    &&& exists|fresh: int|
                        #![trigger old(self)@.slot_for(key@, fresh)]
                        {
                            &&& old(self)@.entries.contains_key(key@)
                                || !old(self)@.slots.contains_key(fresh)
                            &&& final(self)@ == old(self)@.attempted(key@, fresh)
                        }
                },
            },
    {
        proof {
            self.lemma_valid();
        }
        let (hold, _existed) = self.slot(key);
        let ghost fresh = hold.id();
        match self.enter(hold) {
            Step::Hit(value) => {
                assert(self@ =~= old(self)@.recalled(key@));
                Some(value)
            },
            Step::Compute(lead) => {
                self.abandon(lead);
                proof {
                    let pre = old(self)@;
                    pre.lemma_attempted_and_kept(key@, fresh, Err(Seq::empty()));
                    let slot = pre.slot_for(key@, fresh);
                    assert(self@ == pre.attempted(key@, fresh));
                }
                None
            },
            Step::Wait(_) => {
                // Nobody else is computing the result.
                assert(false);
                None
            },
        }
    }

    /// Keeps what a computation came to as the result of the entry of `key`,
    /// charges it against the byte budget, and hands the value back.
    pub fn keep(&mut self, key: &Key, computed: Result<Vec<u8>, String>) -> (value: Value)
        requires
            old(self).wf(),
            old(self)@.entries.contains_key(key@),
            !(old(self)@.progress_of(key@) is Running),
        ensures
            final(self).wf(),
            outcome(value) == reply(computed),
            final(self)@ == old(self)@.kept(key@, reply(computed)),
    {
        proof {
            self.lemma_valid();
        }
        let (hold, _existed) = self.slot(key);
        self.complete(Lead { id: hold.id }, computed)
    }

    /// Evicts the oldest entry.
    fn evict_oldest(&mut self)
        requires
            old(self).wf(),
            old(self).order@.len() > 0,
        ensures
            final(self).wf(),
            final(self).order@.len() == old(self).order@.len() - 1,
            final(self)@ == old(self)@.evicted_oldest(),
    {
        if let Some(id) = self.order.pop_front() {
            assert(id == old(self).order@[0]);
            assert(old(self).occupied(id as int));
            let mut held = false;
            match &mut self.slots[id] {
                Some(slot) => {
                    let text = slot.key.text();
                    self.index.remove(text.as_str());
                    self.bytes = self.bytes.saturating_sub(slot.size);
                    slot.resident = false;
                    held = slot.holders > 0;
                },
                None => {},
            }
            if !held {
                self.slots[id] = None;
                self.vacant.push(id);
            }
            proof {
                Self::lemma_evicted(old(self), self, id);
            }
        }
    }
}

/// The hits and the misses since the cache was made.
pub fn stats(cache: &ResultCache) -> (counts: (u64, u64))
    ensures
        counts == (cache@.hits, cache@.misses),
{
    (cache.hits, cache.misses)
}

/// Returns the cached result for this call, computing it if absent.
///
/// `at` must be a concrete block hash, never "latest": the caller resolves the
/// best hash before calling, so that the key pins a specific block.
///
/// This is the whole course of a request for a caller that has the cache to
/// itself, so nobody else may be computing the result. If `compute` unwinds, the
/// slot of the key stays empty, and the next request for it computes again.
/// Requests that share a cache go through [`ResultCache::join`] and
/// [`ResultCache::enter`].
pub fn cached<F>(
    cache: &mut ResultCache,
    call: &'static str,
    params: &[u8],
    at: Vec<u8>,
    compute: F,
) -> (result: Result<Vec<u8>, String>) where F: FnOnce() -> Result<Vec<u8>, String>
    requires
        old(cache).wf(),
        old(cache)@.enabled() ==> !(old(cache)@.progress_of(
            KeyModel { call: call@, params: params@, at: at@ },
        ) is Running),
        old(cache)@.enabled() && old(cache)@.progress_of(
            KeyModel { call: call@, params: params@, at: at@ },
        ) is Ready || call_requires(compute, ()),
    ensures
        final(cache).wf(),
        cached_result(
            old(cache)@,
            final(cache)@,
            KeyModel { call: call@, params: params@, at: at@ },
            compute,
            result,
        ),
{
    if !cache.enabled() {
        let result = compute();
        return result;
    }
    let mut copied: Vec<u8> = Vec::new();
    copied.extend_from_slice(params);
    assert(copied@ =~= params@);
    let key = Key { call, params: copied, at };
    if let Some(value) = cache.recall(&key) {
        return unshared(&value);
    }
    let ghost tried = cache@;
    let computed = compute();
    let ghost out = computed;
    let value = cache.keep(&key, computed);
    let ghost pre = old(cache)@;
    let ghost fresh = choose|fresh: int|
        #![trigger pre.slot_for(key@, fresh)]
        {
            &&& pre.entries.contains_key(key@) || !pre.slots.contains_key(fresh)
            &&& tried == pre.attempted(key@, fresh)
        };
    proof {
        old(cache).lemma_valid();
        pre.lemma_attempted_and_kept(key@, fresh, reply(out));
        assert(cache@ == pre.computed(key@, fresh, reply(out)));
    }
    let result = unshared(&value);
    assert(missed(old(cache)@, cache@, key@, compute, result, out, fresh));
    result
}

/// What a request comes to that had to compute: the result is handed out, and
/// put into the slot of the key, where `fresh` is the slot that is made if the key
/// has none.
pub open spec fn missed<F>(
    pre: CacheModel,
    post: CacheModel,
    key: KeyModel,
    compute: F,
    result: Result<Vec<u8>, String>,
    computed: Result<Vec<u8>, String>,
    fresh: int,
) -> bool where F: FnOnce() -> Result<Vec<u8>, String> {
    &&& call_ensures(compute, (), computed)
    &&& reply(result) == reply(computed)
    &&& !pre.entries.contains_key(key) ==> !pre.slots.contains_key(fresh)
    &&& post == pre.computed(key, fresh, reply(computed))
}

/// What a request by a caller that has the cache to itself comes to. A cache
/// that is off is passed by. A result that is there is handed out. Otherwise it
/// is computed.
pub open spec fn cached_result<F>(
    pre: CacheModel,
    post: CacheModel,
    key: KeyModel,
    compute: F,
    result: Result<Vec<u8>, String>,
) -> bool where F: FnOnce() -> Result<Vec<u8>, String> {
    if !pre.enabled() {
        post == pre && call_ensures(compute, (), result)
    } else {
        match pre.progress_of(key) {
            Progress::Ready(known) => reply(result) == known && post == pre.recalled(key),
            _ => exists|computed: Result<Vec<u8>, String>, fresh: int| #[trigger]
                missed(pre, post, key, compute, result, computed, fresh),
        }
    }
}

/// The value as a reply of its own.
pub fn unshared(value: &Value) -> (result: Result<Vec<u8>, String>)
    ensures
        reply(result) == outcome(*value),
        match (*value, result) {
            (Ok(bytes), Ok(same)) => same@ == bytes@,
            (Err(text), Err(same)) => same@ == text@,
            _ => false,
        },
{
    match value {
        Ok(bytes) => {
            let copy: Vec<u8> = (**bytes).clone();
            assert(copy@ =~= bytes@);
            Ok(copy)
        },
        Err(text) => Err(text.clone()),
    }
}

} // verus!
