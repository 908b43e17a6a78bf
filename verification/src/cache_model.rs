//! What the result cache is, as mathematics: its entries, its slots and the
//! steps that lead from one state to the next.
use crate::cache_key::KeyModel;
use vstd::prelude::*;

verus! {

/// What a computation came to: the encoded result, or the text of its failure.
pub type Outcome = Result<Seq<u8>, Seq<char>>;

/// How far the computation behind a slot has come.
#[verifier::ext_equal]
pub enum Progress {
    /// Nobody has computed the result, or the last attempt was abandoned.
    Empty,
    /// One request is computing the result.
    Running,
    /// The result is there.
    Ready(Outcome),
}

/// A slot: the place where the requests for one key meet.
#[verifier::ext_equal]
pub struct SlotModel {
    pub key: KeyModel,
    pub progress: Progress,
    /// The requests that hold the slot.
    pub holders: nat,
}

/// What the cache keeps for a key: the slot, and the bytes charged for it.
#[verifier::ext_equal]
pub struct Entry {
    pub slot: int,
    pub size: nat,
}

/// The state of the cache.
#[verifier::ext_equal]
pub struct CacheModel {
    /// The byte budget; 0 switches the cache off.
    pub cap: nat,
    /// The entries by key.
    pub entries: Map<KeyModel, Entry>,
    /// The keys of the entries in the order of their insertion, oldest first.
    pub order: Seq<KeyModel>,
    /// The slots that an entry or a request still refers to.
    pub slots: Map<int, SlotModel>,
    /// The bytes charged against the budget.
    pub bytes: nat,
    pub hits: u64,
    pub misses: u64,
}

/// A counter after one more event; it wraps around.
pub open spec fn counted(n: u64) -> u64 {
    if n == u64::MAX {
        0
    } else {
        (n + 1) as u64
    }
}

/// The number of holders after one more has come. A full count stays full.
pub open spec fn held(holders: nat) -> nat {
    if holders < usize::MAX {
        holders + 1
    } else {
        holders
    }
}

/// The number of holders after one has left. A full count stays full, so that
/// no slot is dropped under a holder that was not counted.
pub open spec fn let_go(holders: nat) -> nat {
    if holders == 0 || holders >= usize::MAX {
        holders
    } else {
        (holders - 1) as nat
    }
}

/// A sum that stops at `usize::MAX`.
pub open spec fn saturating_sum(a: nat, b: nat) -> nat {
    if a + b > usize::MAX {
        usize::MAX as nat
    } else {
        a + b
    }
}

/// A difference that stops at 0.
pub open spec fn saturating_difference(a: nat, b: nat) -> nat {
    if a < b {
        0
    } else {
        (a - b) as nat
    }
}

impl CacheModel {
    /// An empty cache with the given budget.
    pub open spec fn empty(cap: nat) -> Self {
        CacheModel {
            cap,
            entries: Map::empty(),
            order: Seq::empty(),
            slots: Map::empty(),
            bytes: 0,
            hits: 0,
            misses: 0,
        }
    }

    /// What holds of every state of the cache.
    pub open spec fn valid(self) -> bool {
        &&& self.order.no_duplicates()
        &&& forall|k: KeyModel|
            #![trigger self.entries.contains_key(k)]
            #![trigger self.order.contains(k)]
            self.entries.contains_key(k) <==> self.order.contains(k)
        &&& forall|k: KeyModel| #[trigger]
            self.entries.contains_key(k) ==> {
                &&& self.slots.contains_key(self.entries[k].slot)
                &&& self.slots[self.entries[k].slot].key == k
            }
        &&& forall|id: int| #[trigger]
            self.slots.contains_key(id) ==> self.slots[id].holders > 0 || self.resident(id)
    }

    pub open spec fn enabled(self) -> bool {
        self.cap > 0
    }

    /// Whether the slot is the one that the cache keeps for its key.
    pub open spec fn resident(self, id: int) -> bool {
        let key = self.slots[id].key;
        self.entries.contains_key(key) && self.entries[key].slot == id
    }

    /// How far the computation for a key has come.
    pub open spec fn progress_of(self, key: KeyModel) -> Progress {
        if self.entries.contains_key(key) {
            self.slots[self.entries[key].slot].progress
        } else {
            Progress::Empty
        }
    }

    /// The slot that a request for `key` gets, where `fresh` names the one that
    /// is made if there is no entry.
    pub open spec fn slot_for(self, key: KeyModel, fresh: int) -> int {
        if self.entries.contains_key(key) {
            self.entries[key].slot
        } else {
            fresh
        }
    }

    /// A request for `key` takes hold of the slot of that key. Without an entry
    /// there is one from now on, the youngest, with an empty slot and no charge.
    pub open spec fn admitted(self, key: KeyModel, fresh: int) -> Self {
        if self.entries.contains_key(key) {
            let id = self.entries[key].slot;
            let slot = self.slots[id];
            CacheModel {
                slots: self.slots.insert(id, SlotModel { holders: held(slot.holders), ..slot }),
                ..self
            }
        } else {
            CacheModel {
                entries: self.entries.insert(key, Entry { slot: fresh, size: 0 }),
                order: self.order.push(key),
                slots: self.slots.insert(
                    fresh,
                    SlotModel { key, progress: Progress::Empty, holders: 1 },
                ),
                ..self
            }
        }
    }

    /// A holder leaves the slot. It goes with its last holder, unless the cache
    /// keeps it.
    pub open spec fn released(self, id: int) -> Self {
        let slot = self.slots[id];
        let holders = let_go(slot.holders);
        CacheModel {
            slots: if holders == 0 && !self.resident(id) {
                self.slots.remove(id)
            } else {
                self.slots.insert(id, SlotModel { holders, ..slot })
            },
            ..self
        }
    }

    pub open spec fn with_progress(self, id: int, progress: Progress) -> Self {
        CacheModel {
            slots: self.slots.insert(id, SlotModel { progress, ..self.slots[id] }),
            ..self
        }
    }

    /// A request is served from the slot.
    pub open spec fn served(self, id: int) -> Self {
        CacheModel { hits: counted(self.hits), ..self }.released(id)
    }

    /// A request starts the computation of the slot.
    pub open spec fn started(self, id: int) -> Self {
        CacheModel { misses: counted(self.misses), ..self }.with_progress(id, Progress::Running)
    }

    /// The computation has stopped without a result.
    pub open spec fn abandoned(self, id: int) -> Self {
        self.with_progress(id, Progress::Empty).released(id)
    }

    /// The computation has come to `outcome`. Only a result is charged; a
    /// failure is kept free of charge.
    pub open spec fn completed(self, id: int, outcome: Outcome) -> Self {
        let key = self.slots[id].key;
        let filled = self.with_progress(id, Progress::Ready(outcome)).released(id);
        match outcome {
            Ok(bytes) => filled.accounted(key, bytes.len()),
            Err(_) => filled,
        }
    }

    /// The entry of `key`, if there is one, is charged `size` bytes, in place of
    /// what it was charged before.
    pub open spec fn charged(self, key: KeyModel, size: nat) -> Self {
        if self.entries.contains_key(key) {
            CacheModel {
                entries: self.entries.insert(key, Entry { size, ..self.entries[key] }),
                bytes: saturating_sum(
                    saturating_difference(self.bytes, self.entries[key].size),
                    size,
                ),
                ..self
            }
        } else {
            self
        }
    }

    /// The oldest entry goes, and its charge with it. Its slot stays as long as
    /// requests hold it.
    pub open spec fn evicted_oldest(self) -> Self {
        let key = self.order[0];
        let entry = self.entries[key];
        CacheModel {
            entries: self.entries.remove(key),
            order: self.order.drop_first(),
            slots: if self.slots[entry.slot].holders == 0 {
                self.slots.remove(entry.slot)
            } else {
                self.slots
            },
            bytes: saturating_difference(self.bytes, entry.size),
            ..self
        }
    }

    /// The oldest entries go until the charge is within the budget.
    pub open spec fn trimmed(self) -> Self
        decreases self.order.len(),
    {
        if self.bytes > self.cap && self.order.len() > 0 {
            self.evicted_oldest().trimmed()
        } else {
            self
        }
    }

    /// The entry of `key` is charged, and the budget is kept.
    pub open spec fn accounted(self, key: KeyModel, size: nat) -> Self {
        self.charged(key, size).trimmed()
    }

    /// One request for `key`, served from the cache.
    pub open spec fn recalled(self, key: KeyModel) -> Self {
        let id = self.entries[key].slot;
        self.admitted(key, id).served(id)
    }

    /// One request for `key`, whose computation came to `outcome`.
    pub open spec fn computed(self, key: KeyModel, fresh: int, outcome: Outcome) -> Self {
        let id = self.slot_for(key, fresh);
        self.admitted(key, fresh).started(id).completed(id, outcome)
    }

    /// One request for `key`, whose computation has come to nothing so far.
    pub open spec fn attempted(self, key: KeyModel, fresh: int) -> Self {
        let id = self.slot_for(key, fresh);
        self.admitted(key, fresh).started(id).abandoned(id)
    }

    /// The entry of `key` gets the outcome of its computation.
    pub open spec fn kept(self, key: KeyModel, outcome: Outcome) -> Self {
        let id = self.entries[key].slot;
        self.admitted(key, id).completed(id, outcome)
    }

    /// To attempt a computation and then to keep its outcome is to compute.
    pub proof fn lemma_attempted_and_kept(self, key: KeyModel, fresh: int, outcome: Outcome)
        requires
            self.valid(),
            self.entries.contains_key(key) || !self.slots.contains_key(fresh),
        ensures
            self.attempted(key, fresh).entries.contains_key(key),
            self.attempted(key, fresh).progress_of(key) is Empty,
            self.attempted(key, fresh).kept(key, outcome) == self.computed(key, fresh, outcome),
    {
        let id = self.slot_for(key, fresh);
        let started = self.admitted(key, fresh).started(id);
        let tried = self.attempted(key, fresh);
        let ready = Progress::Ready(outcome);
        assert(started.with_progress(id, Progress::Empty).resident(id));
        assert(tried.entries[key].slot == id);
        assert(tried.admitted(key, id).with_progress(id, ready) =~= started.with_progress(
            id,
            ready,
        ));
    }
}

} // verus!
