//! What each operation on the result cache does to each part of its state.
use crate::cache_key::KeyModel;
use crate::cache_laws;
use crate::cache_laws::Move;
use crate::cache_model::{CacheModel, Entry, Outcome, Progress, SlotModel};
use crate::rpc_cache;
use vstd::prelude::*;

verus! {

// ---- The start ----

/// A new cache has the budget that it was given, and nothing else: no entry, no
/// slot, no byte, no hit and no miss.
pub proof fn law_a_new_cache_is_empty(cap: nat)
    ensures
        CacheModel::empty(cap).cap == cap,
        forall|key: KeyModel| !#[trigger] CacheModel::empty(cap).entries.contains_key(key),
        forall|id: int| !#[trigger] CacheModel::empty(cap).slots.contains_key(id),
        CacheModel::empty(cap).order.len() == 0,
        CacheModel::empty(cap).bytes == 0,
        CacheModel::empty(cap).hits == 0,
        CacheModel::empty(cap).misses == 0,
{
}

/// Whether results are cached depends on the budget alone, in every state.
pub proof fn law_the_budget_alone_switches_the_cache_on(m: CacheModel)
    ensures
        m.enabled() <==> m.cap > 0,
{
}

/// The progress for a key is that of the slot of its entry; without an entry
/// nothing has been computed.
pub proof fn law_the_entry_tells_the_progress(m: CacheModel, key: KeyModel, fresh: int)
    ensures
        m.entries.contains_key(key) ==> {
            &&& m.progress_of(key) == m.slots[m.entries[key].slot].progress
            &&& m.slot_for(key, fresh) == m.entries[key].slot
        },
        !m.entries.contains_key(key) ==> {
            &&& m.progress_of(key) is Empty
            &&& m.slot_for(key, fresh) == fresh
        },
{
}

// ---- Taking hold, entering, giving up ----

/// To ask for a key that has an entry adds a holder to its slot, and changes
/// nothing else.
pub proof fn law_to_ask_for_a_known_key_adds_a_holder(m: CacheModel, key: KeyModel, fresh: int)
    requires
        m.valid(),
        m.entries.contains_key(key),
        m.slots[m.entries[key].slot].holders < usize::MAX,
    ensures
        ({
            let post = m.admitted(key, fresh);
            let id = m.entries[key].slot;
            &&& post.cap == m.cap && post.bytes == m.bytes
            &&& post.hits == m.hits && post.misses == m.misses
            &&& post.entries == m.entries
            &&& post.order == m.order
            &&& forall|other: int| #[trigger]
                post.slots.contains_key(other) <==> m.slots.contains_key(other)
            &&& forall|other: int| #[trigger]
                m.slots.contains_key(other) && other != id ==> post.slots[other] == m.slots[other]
            &&& post.slots[id].key == key
            &&& post.slots[id].progress == m.slots[id].progress
            &&& post.slots[id].holders == m.slots[id].holders + 1
        }),
{
}

/// To ask for a key without an entry makes one, the youngest, without a charge. Its
/// slot is new and empty and has one holder. Nothing else changes.
pub proof fn law_to_ask_for_a_new_key_makes_an_entry(m: CacheModel, key: KeyModel, fresh: int)
    requires
        m.valid(),
        !m.entries.contains_key(key),
        !m.slots.contains_key(fresh),
    ensures
        ({
            let post = m.admitted(key, fresh);
            &&& post.cap == m.cap && post.bytes == m.bytes
            &&& post.hits == m.hits && post.misses == m.misses
            &&& post.order == m.order.push(key)
            &&& forall|k: KeyModel| #[trigger]
                post.entries.contains_key(k) <==> m.entries.contains_key(k) || k == key
            &&& forall|k: KeyModel| #[trigger]
                m.entries.contains_key(k) ==> post.entries[k] == m.entries[k]
            &&& post.entries[key].slot == fresh
            &&& post.entries[key].size == 0
            &&& forall|other: int| #[trigger]
                post.slots.contains_key(other) <==> m.slots.contains_key(other) || other == fresh
            &&& forall|other: int| #[trigger]
                m.slots.contains_key(other) ==> post.slots[other] == m.slots[other]
            &&& post.slots[fresh].key == key
            &&& post.slots[fresh].progress is Empty
            &&& post.slots[fresh].holders == 1
        }),
{
}

/// The holders of a slot are counted one by one, and a count that is full stays
/// full, so that no slot is dropped under a holder that was not counted.
pub proof fn law_holders_are_counted_one_by_one(m: CacheModel, id: int)
    requires
        m.slots.contains_key(id),
    ensures
        m.slots[id].holders >= usize::MAX ==> m.released(id).slots.contains_key(id)
            && m.released(id).slots[id] == m.slots[id],
        0 < m.slots[id].holders < usize::MAX && m.released(id).slots.contains_key(id)
            ==> m.released(id).slots[id].holders == m.slots[id].holders - 1,
        m.slots[id].holders > 1 ==> m.released(id).slots.contains_key(id),
        m.entries.contains_key(m.slots[id].key) && m.entries[m.slots[id].key].slot == id
            && m.slots[id].holders >= usize::MAX ==> m.admitted(m.slots[id].key, id).slots[id]
            == m.slots[id],
{
}

/// To be served from a slot is one hit more and one holder less, and changes
/// nothing else. The slot goes with its last holder if no entry has it.
pub proof fn law_to_be_served_is_a_hit(m: CacheModel, id: int)
    requires
        m.valid(),
        m.slots.contains_key(id),
        0 < m.slots[id].holders < usize::MAX,
    ensures
        ({
            let post = m.served(id);
            let key = m.slots[id].key;
            let kept = m.entries.contains_key(key) && m.entries[key].slot == id;
            &&& post.cap == m.cap && post.bytes == m.bytes
            &&& m.hits < u64::MAX ==> post.hits == m.hits + 1
            &&& m.hits == u64::MAX ==> post.hits == 0
            &&& post.misses == m.misses
            &&& post.entries == m.entries
            &&& post.order == m.order
            &&& forall|other: int| #[trigger]
                post.slots.contains_key(other) <==> m.slots.contains_key(other) && (other != id
                    || kept || m.slots[id].holders > 1)
            &&& forall|other: int| #[trigger]
                post.slots.contains_key(other) && other != id ==> post.slots[other]
                    == m.slots[other]
            &&& post.slots.contains_key(id) ==> {
                &&& post.slots[id].key == key
                &&& post.slots[id].progress == m.slots[id].progress
                &&& post.slots[id].holders == m.slots[id].holders - 1
            }
        }),
{
}

/// To start a computation is one miss more, and the slot says that it runs. Nothing
/// else changes.
pub proof fn law_to_compute_is_a_miss(m: CacheModel, id: int)
    requires
        m.slots.contains_key(id),
    ensures
        ({
            let post = m.started(id);
            &&& post.cap == m.cap && post.bytes == m.bytes
            &&& post.hits == m.hits
            &&& m.misses < u64::MAX ==> post.misses == m.misses + 1
            &&& m.misses == u64::MAX ==> post.misses == 0
            &&& post.entries == m.entries
            &&& post.order == m.order
            &&& forall|other: int| #[trigger]
                post.slots.contains_key(other) <==> m.slots.contains_key(other)
            &&& forall|other: int| #[trigger]
                m.slots.contains_key(other) && other != id ==> post.slots[other] == m.slots[other]
            &&& post.slots[id].key == m.slots[id].key
            &&& post.slots[id].progress is Running
            &&& post.slots[id].holders == m.slots[id].holders
        }),
{
}

/// To give a computation up leaves the slot empty with one holder less, and
/// changes nothing else. The slot goes with its last holder if no entry has it.
pub proof fn law_to_give_up_leaves_the_slot_empty(m: CacheModel, id: int)
    requires
        m.valid(),
        m.slots.contains_key(id),
        0 < m.slots[id].holders < usize::MAX,
    ensures
        ({
            let post = m.abandoned(id);
            let key = m.slots[id].key;
            let kept = m.entries.contains_key(key) && m.entries[key].slot == id;
            &&& post.cap == m.cap && post.bytes == m.bytes
            &&& post.hits == m.hits && post.misses == m.misses
            &&& post.entries == m.entries
            &&& post.order == m.order
            &&& forall|other: int| #[trigger]
                post.slots.contains_key(other) <==> m.slots.contains_key(other) && (other != id
                    || kept || m.slots[id].holders > 1)
            &&& forall|other: int| #[trigger]
                post.slots.contains_key(other) && other != id ==> post.slots[other]
                    == m.slots[other]
            &&& post.slots.contains_key(id) ==> {
                &&& post.slots[id].key == key
                &&& post.slots[id].progress is Empty
                &&& post.slots[id].holders == m.slots[id].holders - 1
            }
        }),
{
}

// ---- Charging and evicting ----

/// The charges add up: those of no keys are nothing, and one key more adds its
/// charge.
pub proof fn law_the_charges_add_up(
    order: Seq<KeyModel>,
    key: KeyModel,
    entries: Map<KeyModel, Entry>,
)
    ensures
        cache_laws::total(Seq::empty(), entries) == 0,
        cache_laws::total(order.push(key), entries) == cache_laws::total(order, entries)
            + entries[key].size,
{
    cache_laws::lemma_total_push(order, key, entries);
}

/// To evict an entry takes out the one that was inserted first, and its charge.
/// The slot goes with it if nobody holds it. Nothing else changes.
pub proof fn law_to_evict_takes_the_oldest(m: CacheModel)
    requires
        m.valid(),
        m.order.len() > 0,
    ensures
        ({
            let post = m.evicted_oldest();
            let oldest = m.order[0];
            let slot = m.entries[oldest].slot;
            &&& post.cap == m.cap
            &&& post.hits == m.hits && post.misses == m.misses
            &&& post.order == m.order.skip(1)
            &&& post.bytes == (if m.bytes < m.entries[oldest].size {
                0int
            } else {
                m.bytes - m.entries[oldest].size
            })
            &&& forall|k: KeyModel| #[trigger]
                post.entries.contains_key(k) <==> m.entries.contains_key(k) && k != oldest
            &&& forall|k: KeyModel| #[trigger]
                post.entries.contains_key(k) ==> post.entries[k] == m.entries[k]
            &&& forall|id: int| #[trigger]
                post.slots.contains_key(id) <==> m.slots.contains_key(id) && (id != slot
                    || m.slots[id].holders > 0)
            &&& forall|id: int| #[trigger]
                post.slots.contains_key(id) ==> post.slots[id] == m.slots[id]
        }),
{
    assert(m.order.contains(m.order[0]));
    assert(m.order.drop_first() =~= m.order.skip(1));
}

/// Entries are evicted only while the count of bytes exceeds the budget.
pub proof fn law_nothing_is_evicted_within_the_budget(m: CacheModel)
    ensures
        m.bytes <= m.cap ==> m.trimmed() == m,
        m.order.len() == 0 ==> m.trimmed() == m,
        m.bytes > m.cap && m.order.len() > 0 ==> m.trimmed() == m.evicted_oldest().trimmed(),
{
}

/// To charge an entry puts the given charge in place of the one before, in the
/// entry and in the count of bytes, which stays between 0 and `usize::MAX`. Nothing
/// else changes.
pub proof fn law_a_charge_replaces_the_one_before(m: CacheModel, key: KeyModel, size: nat)
    requires
        m.entries.contains_key(key),
    ensures
        ({
            let post = m.charged(key, size);
            let before = m.entries[key].size;
            let rest: int = if m.bytes < before {
                0
            } else {
                m.bytes - before
            };
            &&& post.cap == m.cap && post.hits == m.hits && post.misses == m.misses
            &&& post.order == m.order && post.slots == m.slots
            &&& post.bytes == (if rest + size > usize::MAX {
                usize::MAX as int
            } else {
                rest + size
            })
            &&& forall|k: KeyModel| #[trigger]
                post.entries.contains_key(k) <==> m.entries.contains_key(k)
            &&& forall|k: KeyModel| #[trigger]
                m.entries.contains_key(k) && k != key ==> post.entries[k] == m.entries[k]
            &&& post.entries[key].slot == m.entries[key].slot
            &&& post.entries[key].size == size
            &&& m.accounted(key, size) == post.trimmed()
        }),
{
}

/// A charge for a key without an entry changes nothing where the count of bytes
/// is within the budget.
pub proof fn law_an_unknown_key_is_not_charged(m: CacheModel, key: KeyModel, size: nat)
    requires
        !m.entries.contains_key(key),
        m.bytes <= m.cap,
    ensures
        m.accounted(key, size) == m,
{
}

/// What evictions leave of a state whose count of bytes is exact.
proof fn lemma_trimmed_parts(m: CacheModel) -> (n: int)
    requires
        m.valid(),
        m.tallied(),
    ensures
        ({
            let post = m.trimmed();
            &&& post.valid()
            &&& post.cap == m.cap && post.hits == m.hits && post.misses == m.misses
            &&& 0 <= n <= m.order.len()
            &&& post.order == m.order.skip(n)
            &&& post.bytes == cache_laws::total(m.order.skip(n), m.entries)
            &&& post.bytes <= m.cap
            &&& n > 0 ==> cache_laws::total(m.order.skip(n - 1), m.entries) > m.cap
            &&& forall|k: KeyModel| #[trigger]
                post.entries.contains_key(k) <==> m.order.skip(n).contains(k)
            &&& forall|k: KeyModel| #[trigger]
                post.entries.contains_key(k) ==> post.entries[k] == m.entries[k]
            &&& forall|id: int| #[trigger]
                post.slots.contains_key(id) <==> m.slots.contains_key(id) && (m.slots[id].holders
                    > 0 || (post.entries.contains_key(m.slots[id].key)
                    && post.entries[m.slots[id].key].slot == id))
            &&& forall|id: int| #[trigger]
                post.slots.contains_key(id) ==> post.slots[id] == m.slots[id]
        }),
{
    let post = m.trimmed();
    let n = cache_laws::law_the_oldest_entries_go_first(m);
    cache_laws::lemma_trimmed_valid(m);
    cache_laws::lemma_trimmed_within_budget(m);
    cache_laws::lemma_trimmed_counts(m);
    assert forall|k: KeyModel| #[trigger]
        post.entries.contains_key(k) <==> m.order.skip(n).contains(k) by {
        assert(post.order.contains(k) <==> m.order.skip(n).contains(k));
    }
    assert forall|id: int|
        (#[trigger] post.slots.contains_key(id) <==> m.slots.contains_key(id) && (
        m.slots[id].holders > 0 || (post.entries.contains_key(m.slots[id].key)
            && post.entries[m.slots[id].key].slot == id))) && (post.slots.contains_key(id)
            ==> post.slots[id] == m.slots[id]) by {
        cache_laws::lemma_trimmed_slots(m, id);
    }
    n
}

/// To charge an entry evicts the oldest entries and no more of them than the
/// budget asks for: what stays of the order is its longest end whose charges fit,
/// where the charge of the key is the given one in place of the one before. The
/// entries that stay keep their slots and the other charges. A slot that loses its
/// entry stays as long as it is held. Nothing else changes.
pub proof fn law_a_charge_evicts_the_oldest_and_no_more(
    m: CacheModel,
    key: KeyModel,
    size: nat,
) -> (n: int)
    requires
        m.valid(),
        m.bytes == cache_laws::total(m.order, m.entries),
        m.entries.contains_key(key),
        m.bytes - m.entries[key].size + size <= usize::MAX,
    ensures
        ({
            let post = m.accounted(key, size);
            let charges = m.entries.insert(key, Entry { slot: m.entries[key].slot, size });
            &&& post.cap == m.cap && post.hits == m.hits && post.misses == m.misses
            &&& 0 <= n <= m.order.len()
            &&& post.order == m.order.skip(n)
            &&& post.bytes == cache_laws::total(m.order.skip(n), charges)
            &&& post.bytes <= m.cap
            &&& n > 0 ==> cache_laws::total(m.order.skip(n - 1), charges) > m.cap
            &&& forall|k: KeyModel| #[trigger]
                post.entries.contains_key(k) <==> m.order.skip(n).contains(k)
            &&& forall|k: KeyModel| #[trigger]
                post.entries.contains_key(k) ==> post.entries[k] == charges[k]
            &&& forall|id: int| #[trigger]
                post.slots.contains_key(id) <==> m.slots.contains_key(id) && (m.slots[id].holders
                    > 0 || (post.entries.contains_key(m.slots[id].key)
                    && post.entries[m.slots[id].key].slot == id))
            &&& forall|id: int| #[trigger]
                post.slots.contains_key(id) ==> post.slots[id] == m.slots[id]
        }),
{
    cache_laws::lemma_charged_valid(m, key, size);
    cache_laws::lemma_charged_tallied(m, key, size);
    lemma_trimmed_parts(m.charged(key, size))
}

// ---- Completing ----

/// A computation that fails is remembered in its slot, free of charge and without
/// disturbing the rest: every entry stays, with its slot and its charge, and so do
/// their order, the count of bytes and the other slots.
pub proof fn law_a_failure_disturbs_nothing(m: CacheModel, id: int, text: Seq<char>)
    requires
        m.valid(),
        m.slots.contains_key(id),
        0 < m.slots[id].holders < usize::MAX,
    ensures
        ({
            let post = m.completed(id, Err(text));
            let key = m.slots[id].key;
            let kept = m.entries.contains_key(key) && m.entries[key].slot == id;
            &&& post.cap == m.cap && post.bytes == m.bytes
            &&& post.hits == m.hits && post.misses == m.misses
            &&& post.entries == m.entries
            &&& post.order == m.order
            &&& forall|other: int| #[trigger]
                post.slots.contains_key(other) <==> m.slots.contains_key(other) && (other != id
                    || kept || m.slots[id].holders > 1)
            &&& forall|other: int| #[trigger]
                post.slots.contains_key(other) && other != id ==> post.slots[other]
                    == m.slots[other]
            &&& post.slots.contains_key(id) ==> {
                &&& post.slots[id].key == key
                &&& post.slots[id].progress == Progress::Ready(Err::<Seq<u8>, Seq<char>>(text))
                &&& post.slots[id].holders == m.slots[id].holders - 1
            }
        }),
{
}

/// A computation that comes to a result puts it into its slot, and charges its
/// bytes to the entry of the key, if there is one. The entries after it are those
/// before it, less the shortest run of oldest ones whose removal brings the charges
/// within the budget; they keep their slots and the other charges. The other slots
/// stay as they are, if they are held or have an entry.
pub proof fn law_a_result_goes_into_its_slot(m: CacheModel, id: int, bytes: Seq<u8>) -> (n: int)
    requires
        m.valid(),
        m.bytes == cache_laws::total(m.order, m.entries),
        m.slots.contains_key(id),
        0 < m.slots[id].holders < usize::MAX,
        m.entries.contains_key(m.slots[id].key) ==> m.bytes - m.entries[m.slots[id].key].size
            + bytes.len() <= usize::MAX,
        m.bytes <= m.cap,
    ensures
        ({
            let post = m.completed(id, Ok(bytes));
            let key = m.slots[id].key;
            let charges = if m.entries.contains_key(key) {
                m.entries.insert(key, Entry { slot: m.entries[key].slot, size: bytes.len() })
            } else {
                m.entries
            };
            &&& post.cap == m.cap && post.hits == m.hits && post.misses == m.misses
            &&& 0 <= n <= m.order.len()
            &&& post.order == m.order.skip(n)
            &&& post.bytes == cache_laws::total(m.order.skip(n), charges)
            &&& post.bytes <= m.cap
            &&& n > 0 ==> cache_laws::total(m.order.skip(n - 1), charges) > m.cap
            &&& forall|k: KeyModel| #[trigger]
                post.entries.contains_key(k) <==> m.order.skip(n).contains(k)
            &&& forall|k: KeyModel| #[trigger]
                post.entries.contains_key(k) ==> post.entries[k] == charges[k]
            &&& forall|other: int| #[trigger]
                post.slots.contains_key(other) <==> m.slots.contains_key(other) && (
                m.slots[other].holders > (if other == id {
                    1int
                } else {
                    0
                }) || (post.entries.contains_key(m.slots[other].key)
                    && post.entries[m.slots[other].key].slot == other))
            &&& forall|other: int| #[trigger]
                post.slots.contains_key(other) && other != id ==> post.slots[other]
                    == m.slots[other]
            &&& post.slots.contains_key(id) ==> {
                &&& post.slots[id].key == key
                &&& post.slots[id].progress == Progress::Ready(Ok::<Seq<u8>, Seq<char>>(bytes))
                &&& post.slots[id].holders == m.slots[id].holders - 1
            }
        }),
{
    let key = m.slots[id].key;
    let ready = Progress::Ready(Ok::<Seq<u8>, Seq<char>>(bytes));
    let filled = m.with_progress(id, ready).released(id);
    let charged = filled.charged(key, bytes.len());
    cache_laws::lemma_with_progress_valid(m, id, ready);
    cache_laws::lemma_released_valid(m.with_progress(id, ready), id);
    cache_laws::lemma_charged_valid(filled, key, bytes.len());
    cache_laws::lemma_charged_tallied(filled, key, bytes.len());
    let n = lemma_trimmed_parts(charged);
    let post = m.completed(id, Ok(bytes));
    assert(post == charged.trimmed());
    assert forall|other: int| #[trigger]
        post.slots.contains_key(other) <==> m.slots.contains_key(other) && (m.slots[other].holders
            > (if other == id {
            1int
        } else {
            0
        }) || (post.entries.contains_key(m.slots[other].key)
            && post.entries[m.slots[other].key].slot == other)) by {
        assert(charged.slots == filled.slots);
        if post.entries.contains_key(m.slots[other].key) && post.entries[m.slots[other].key].slot
            == other && m.slots.contains_key(other) {
            assert(m.order.skip(n).contains(m.slots[other].key));
            assert(charged.entries.contains_key(m.slots[other].key)) by {
                assert(charged.order.contains(m.slots[other].key)) by {
                    let j = choose|j: int|
                        0 <= j < m.order.skip(n).len() && m.order.skip(n)[j] == m.slots[other].key;
                    assert(m.order[n + j] == m.slots[other].key);
                }
            }
        }
    }
    n
}

// ---- Whole requests ----

/// A request that is served from the cache is one hit more, and changes nothing
/// else.
pub proof fn law_to_recall_changes_the_hits_only(m: CacheModel, key: KeyModel)
    requires
        m.valid(),
        m.entries.contains_key(key),
        m.slots[m.entries[key].slot].holders + 1 < usize::MAX,
    ensures
        ({
            let post = m.recalled(key);
            &&& m.hits < u64::MAX ==> post.hits == m.hits + 1
            &&& m.hits == u64::MAX ==> post.hits == 0
            &&& post.misses == m.misses
            &&& post.cap == m.cap && post.bytes == m.bytes
            &&& post.entries == m.entries
            &&& post.order == m.order
            &&& post.slots == m.slots
        }),
{
    let id = m.entries[key].slot;
    assert(m.slots.contains_key(id));
    assert(m.recalled(key).slots =~= m.slots);
}

/// A request that is about to compute is one miss more. If its key had no entry, it
/// has one, the youngest, without a charge. The slot of the key is empty, and as
/// many hold it as before. Nothing else changes.
pub proof fn law_to_attempt_is_a_miss(m: CacheModel, key: KeyModel, fresh: int)
    requires
        m.valid(),
        m.entries.contains_key(key) || !m.slots.contains_key(fresh),
        m.entries.contains_key(key) ==> m.slots[m.entries[key].slot].holders + 1 < usize::MAX,
    ensures
        ({
            let post = m.attempted(key, fresh);
            let known = m.entries.contains_key(key);
            let id = if known {
                m.entries[key].slot
            } else {
                fresh
            };
            &&& post.cap == m.cap && post.bytes == m.bytes
            &&& post.hits == m.hits
            &&& m.misses < u64::MAX ==> post.misses == m.misses + 1
            &&& m.misses == u64::MAX ==> post.misses == 0
            &&& known ==> post.order == m.order && post.entries == m.entries
            &&& !known ==> {
                &&& post.order == m.order.push(key)
                &&& post.entries == m.entries.insert(key, Entry { slot: fresh, size: 0 })
            }
            &&& post.slots == m.slots.insert(
                id,
                SlotModel {
                    key,
                    progress: Progress::Empty,
                    holders: if known {
                        m.slots[id].holders
                    } else {
                        0
                    },
                },
            )
        }),
{
    let id = m.slot_for(key, fresh);
    let post = m.attempted(key, fresh);
    let started = m.admitted(key, fresh).started(id);
    assert(started.with_progress(id, Progress::Empty).resident(id));
    assert(post.slots =~= m.slots.insert(
        id,
        SlotModel {
            key,
            progress: Progress::Empty,
            holders: if m.entries.contains_key(key) {
                m.slots[id].holders
            } else {
                0
            },
        },
    ));
}

/// A failure that is kept for a key goes into the slot of its entry, and changes
/// nothing else.
pub proof fn law_to_keep_a_failure_disturbs_nothing(m: CacheModel, key: KeyModel, text: Seq<char>)
    requires
        m.valid(),
        m.entries.contains_key(key),
        m.slots[m.entries[key].slot].holders + 1 < usize::MAX,
    ensures
        ({
            let post = m.kept(key, Err(text));
            let id = m.entries[key].slot;
            &&& post.cap == m.cap && post.bytes == m.bytes
            &&& post.hits == m.hits && post.misses == m.misses
            &&& post.order == m.order && post.entries == m.entries
            &&& post.slots == m.slots.insert(
                id,
                SlotModel {
                    key,
                    progress: Progress::Ready(Err::<Seq<u8>, Seq<char>>(text)),
                    holders: m.slots[id].holders,
                },
            )
        }),
{
    let id = m.entries[key].slot;
    let ready = Progress::Ready(Err::<Seq<u8>, Seq<char>>(text));
    assert(m.slots.contains_key(id));
    assert(m.admitted(key, id).with_progress(id, ready).resident(id));
    assert(m.kept(key, Err(text)).slots =~= m.slots.insert(
        id,
        SlotModel { key, progress: ready, holders: m.slots[id].holders },
    ));
}

/// A result that is kept for a key goes into the slot of its entry and is charged
/// to it. The entries after it are those before it, less the shortest run of oldest
/// ones whose removal brings the charges within the budget.
pub proof fn law_to_keep_a_result_evicts_the_oldest_and_no_more(
    m: CacheModel,
    key: KeyModel,
    bytes: Seq<u8>,
) -> (n: int)
    requires
        m.valid(),
        m.bytes == cache_laws::total(m.order, m.entries),
        m.bytes <= m.cap,
        m.entries.contains_key(key),
        m.slots[m.entries[key].slot].holders + 1 < usize::MAX,
        m.bytes - m.entries[key].size + bytes.len() <= usize::MAX,
    ensures
        ({
            let post = m.kept(key, Ok(bytes));
            let at = m.entries[key].slot;
            let charges = m.entries.insert(key, Entry { slot: at, size: bytes.len() });
            &&& post.cap == m.cap && post.hits == m.hits && post.misses == m.misses
            &&& 0 <= n <= m.order.len()
            &&& post.order == m.order.skip(n)
            &&& post.bytes == cache_laws::total(m.order.skip(n), charges)
            &&& post.bytes <= m.cap
            &&& n > 0 ==> cache_laws::total(m.order.skip(n - 1), charges) > m.cap
            &&& forall|k: KeyModel| #[trigger]
                post.entries.contains_key(k) <==> m.order.skip(n).contains(k)
            &&& forall|k: KeyModel| #[trigger]
                post.entries.contains_key(k) ==> post.entries[k] == charges[k]
            &&& forall|id: int| #[trigger]
                post.slots.contains_key(id) <==> m.slots.contains_key(id) && (m.slots[id].holders
                    > 0 || (post.entries.contains_key(m.slots[id].key)
                    && post.entries[m.slots[id].key].slot == id))
            &&& forall|id: int| #[trigger]
                post.slots.contains_key(id) && id != at ==> post.slots[id] == m.slots[id]
            &&& post.slots.contains_key(at) ==> post.slots[at] == (SlotModel {
                key,
                progress: Progress::Ready(Ok::<Seq<u8>, Seq<char>>(bytes)),
                holders: m.slots[at].holders,
            })
        }),
{
    let at = m.entries[key].slot;
    let asked = m.admitted(key, at);
    assert(m.slots.contains_key(at));
    cache_laws::lemma_admitted_valid(m, key, at);
    let n = law_a_result_goes_into_its_slot(asked, at, bytes);
    let post = m.kept(key, Ok(bytes));
    assert(post == asked.completed(at, Ok(bytes)));
    assert forall|id: int| #[trigger]
        post.slots.contains_key(id) <==> m.slots.contains_key(id) && (m.slots[id].holders > 0 || (
        post.entries.contains_key(m.slots[id].key)
            && post.entries[m.slots[id].key].slot == id)) by {
        assert(asked.slots.contains_key(id) <==> m.slots.contains_key(id));
    }
    n
}

/// A request that computes is an attempt whose outcome is then kept.
pub proof fn law_to_compute_is_to_attempt_and_to_keep(
    m: CacheModel,
    key: KeyModel,
    fresh: int,
    outcome: Outcome,
)
    requires
        m.valid(),
        m.entries.contains_key(key) || !m.slots.contains_key(fresh),
    ensures
        m.computed(key, fresh, outcome) == m.attempted(key, fresh).kept(key, outcome),
        m.attempted(key, fresh).valid(),
        m.attempted(key, fresh).entries.contains_key(key),
{
    let id = m.slot_for(key, fresh);
    let taken = m.admitted(key, fresh);
    m.lemma_attempted_and_kept(key, fresh, outcome);
    cache_laws::lemma_admitted_valid(m, key, fresh);
    let missed = CacheModel { misses: m.attempted(key, fresh).misses, ..taken };
    assert forall|other: int| #[trigger] missed.slots.contains_key(other) implies
        missed.slots[other].holders > 0 || missed.resident(other) by {
        assert(taken.slots.contains_key(other));
    }
    assert(missed.valid());
    let running = missed.with_progress(id, Progress::Running);
    cache_laws::lemma_with_progress_valid(missed, id, Progress::Running);
    cache_laws::lemma_with_progress_valid(running, id, Progress::Empty);
    cache_laws::lemma_released_valid(running.with_progress(id, Progress::Empty), id);
    assert(m.attempted(key, fresh) == running.with_progress(id, Progress::Empty).released(id));
}

/// What `cached` hands out where the cache is off: what was computed. The cache is
/// passed by.
pub proof fn law_a_cache_that_is_off_is_passed_by<F>(
    pre: CacheModel,
    post: CacheModel,
    key: KeyModel,
    compute: F,
    result: Result<Vec<u8>, String>,
) where F: FnOnce() -> Result<Vec<u8>, String>
    requires
        pre.cap == 0,
        rpc_cache::cached_result(pre, post, key, compute, result),
    ensures
        post == pre,
        call_ensures(compute, (), result),
{
}

/// What `cached` hands out where the cache is on and has the result: that result,
/// without a computation. It is one hit more, and changes nothing else.
pub proof fn law_a_result_that_is_there_is_handed_out<F>(
    pre: CacheModel,
    post: CacheModel,
    key: KeyModel,
    compute: F,
    result: Result<Vec<u8>, String>,
) where F: FnOnce() -> Result<Vec<u8>, String>
    requires
        pre.valid(),
        pre.cap > 0,
        pre.entries.contains_key(key),
        pre.slots[pre.entries[key].slot].progress is Ready,
        pre.slots[pre.entries[key].slot].holders + 1 < usize::MAX,
        rpc_cache::cached_result(pre, post, key, compute, result),
    ensures
        match (pre.slots[pre.entries[key].slot].progress->Ready_0, result) {
            (Ok(known), Ok(given)) => given@ == known,
            (Err(known), Err(given)) => given@ == known,
            _ => false,
        },
        pre.hits < u64::MAX ==> post.hits == pre.hits + 1,
        post.misses == pre.misses,
        post.cap == pre.cap && post.bytes == pre.bytes,
        post.entries == pre.entries,
        post.order == pre.order,
        post.slots == pre.slots,
{
    law_to_recall_changes_the_hits_only(pre, key);
}

/// What `cached` hands out where the cache is on and has no result: what the
/// computation gave. The request is an attempt, and its outcome is kept.
pub proof fn law_an_absent_result_is_computed<F>(
    pre: CacheModel,
    post: CacheModel,
    key: KeyModel,
    compute: F,
    result: Result<Vec<u8>, String>,
) where F: FnOnce() -> Result<Vec<u8>, String>
    requires
        pre.valid(),
        pre.cap > 0,
        pre.entries.contains_key(key) ==> !(pre.slots[pre.entries[key].slot].progress is Ready),
        rpc_cache::cached_result(pre, post, key, compute, result),
    ensures
        exists|computed: Result<Vec<u8>, String>| #[trigger]
            call_ensures(compute, (), computed) && match (computed, result) {
                (Ok(made), Ok(given)) => given@ == made@,
                (Err(made), Err(given)) => given@ == made@,
                _ => false,
            },
        exists|fresh: int|
            (pre.entries.contains_key(key) || !pre.slots.contains_key(fresh)) && post == (
            #[trigger] pre.attempted(key, fresh)).kept(
                key,
                match result {
                    Ok(bytes) => Ok(bytes@),
                    Err(text) => Err(text@),
                },
            ),
{
    let (computed, fresh) = choose|computed: Result<Vec<u8>, String>, fresh: int| #[trigger]
        rpc_cache::missed(pre, post, key, compute, result, computed, fresh);
    assert(call_ensures(compute, (), computed));
    let outcome: Outcome = match result {
        Ok(bytes) => Ok(bytes@),
        Err(text) => Err(text@),
    };
    law_to_compute_is_to_attempt_and_to_keep(pre, key, fresh, outcome);
    assert(post == pre.attempted(key, fresh).kept(key, outcome));
}

/// A finished computation stands for its bytes, or for the text of its failure;
/// and so does its reply.
pub proof fn law_an_outcome_is_what_was_computed(
    value: rpc_cache::Value,
    answer: Result<Vec<u8>, String>,
)
    ensures
        match value {
            Ok(bytes) => rpc_cache::outcome(value) == Ok::<Seq<u8>, Seq<char>>(bytes@),
            Err(text) => rpc_cache::outcome(value) == Err::<Seq<u8>, Seq<char>>(text@),
        },
        match answer {
            Ok(bytes) => rpc_cache::reply(answer) == Ok::<Seq<u8>, Seq<char>>(bytes@),
            Err(text) => rpc_cache::reply(answer) == Err::<Seq<u8>, Seq<char>>(text@),
        },
{
}

// ---- Over many steps ----

/// The budget never changes, and the cache is on if and only if it is above 0,
/// whatever was done.
pub proof fn law_the_cache_stays_on(m: CacheModel, steps: Seq<Move>, n: int)
    ensures
        m.after_all(steps, n).cap == m.cap,
        m.after_all(steps, n).enabled() <==> m.cap > 0,
    decreases n,
{
    if n > 0 {
        let before = m.after_all(steps, n - 1);
        law_the_cache_stays_on(m, steps, n - 1);
        match steps[n - 1] {
            Move::Complete { id, outcome } => {
                if let Ok(bytes) = outcome {
                    let filled = before.with_progress(id, Progress::Ready(outcome)).released(id);
                    cache_laws::lemma_trimmed_within_budget(
                        filled.charged(before.slots[id].key, bytes.len()),
                    );
                }
            },
            Move::Account { key, size } => {
                cache_laws::lemma_trimmed_within_budget(before.charged(key, size));
            },
            _ => {},
        }
    }
}

proof fn lemma_trimmed_suffix(m: CacheModel) -> (n: int)
    ensures
        0 <= n <= m.order.len(),
        m.trimmed().order == m.order.skip(n),
    decreases m.order.len(),
{
    if m.bytes > m.cap && m.order.len() > 0 {
        let next = m.evicted_oldest();
        let k = lemma_trimmed_suffix(next);
        assert(next.order.skip(k) =~= m.order.skip(k + 1)) by {
            assert(next.order == m.order.drop_first());
        }
        assert(m.trimmed() == next.trimmed());
        k + 1
    } else {
        assert(m.order.skip(0) =~= m.order);
        0
    }
}

/// The order of the entries is that of their insertion: a step takes out some of
/// the oldest, or adds one key at the end, and moves none. So of two entries the
/// older never stays where the younger goes, and never comes to stand behind it.
pub proof fn law_the_order_is_that_of_insertion(m: CacheModel, step: Move) -> (n: int)
    ensures
        0 <= n <= m.order.len(),
        m.after(step).order == m.order.skip(n) || (step matches Move::Take { key, .. } && n == 0
            && !m.entries.contains_key(key) && m.after(step).order == m.order.push(key)),
        forall|i: int|
            n <= i < m.order.len() ==> m.after(step).order[i - n] == #[trigger] m.order[i],
        m.after(step).order.len() >= m.order.len() - n,
{
    assert(m.order.skip(0) =~= m.order);
    match step {
        Move::Complete { id, outcome } => match outcome {
            Ok(bytes) => {
                let filled = m.with_progress(id, Progress::Ready(outcome)).released(id);
                lemma_trimmed_suffix(filled.charged(m.slots[id].key, bytes.len()))
            },
            Err(_) => 0,
        },
        Move::Account { key, size } => lemma_trimmed_suffix(m.charged(key, size)),
        _ => 0,
    }
}

/// First in, first out: as long as the entry of a key stays, so does every entry
/// that was inserted after it, behind it.
pub proof fn law_the_first_in_is_the_first_out(
    m: CacheModel,
    steps: Seq<Move>,
    i: int,
    j: int,
    n: int,
) -> (at: (int, int))
    requires
        m.valid(),
        m.can_all(steps),
        0 <= i < j < m.order.len(),
        0 <= n <= steps.len(),
        forall|k: int|
            0 <= k <= n ==> #[trigger] m.after_all(steps, k).entries.contains_key(m.order[i]),
    ensures
        0 <= at.0 < at.1 < m.after_all(steps, n).order.len(),
        m.after_all(steps, n).order[at.0] == m.order[i],
        m.after_all(steps, n).order[at.1] == m.order[j],
        m.after_all(steps, n).entries.contains_key(m.order[j]),
    decreases n,
{
    if n <= 0 {
        assert(m.order.contains(m.order[j]));
        (i, j)
    } else {
        let before = m.after_all(steps, n - 1);
        let step = steps[n - 1];
        let after = m.after_all(steps, n);
        let (a, b) = law_the_first_in_is_the_first_out(m, steps, i, j, n - 1);
        cache_laws::lemma_after_all_valid(m, steps, n - 1);
        cache_laws::lemma_after_all_valid(m, steps, n);
        assert(after == before.after(step));
        let gone = law_the_order_is_that_of_insertion(before, step);
        assert(after.entries.contains_key(m.order[i]));
        assert(after.order.contains(m.order[i]));
        if a < gone {
            // The key is not behind its place either: no key occurs twice.
            let c = choose|c: int| 0 <= c < after.order.len() && after.order[c] == m.order[i];
            assert(after.order == before.order.skip(gone));
            assert(before.order[gone + c] == before.order[a]);
        }
        assert(after.order[a - gone] == before.order[a]);
        assert(after.order[b - gone] == before.order[b]);
        assert(after.order.contains(m.order[j]));
        (a - gone, b - gone)
    }
}

/// An entry goes only under pressure of the budget: a step that takes one out
/// charges more than the budget has room for. The entries that stay keep their
/// slots, and but for the one that is charged, their charges.
pub proof fn law_entries_go_only_under_pressure(m: CacheModel, step: Move)
    requires
        m.valid(),
        m.can(step),
        m.bytes == cache_laws::total(m.order, m.entries),
        m.bytes <= m.cap,
        m.has_room(step),
    ensures
        forall|k: KeyModel| #[trigger]
            m.entries.contains_key(k) && !m.after(step).entries.contains_key(k) ==> match step {
                Move::Complete { id, outcome: Ok(bytes) } => {
                    &&& m.entries.contains_key(m.slots[id].key)
                    &&& m.bytes - m.entries[m.slots[id].key].size + bytes.len() > m.cap
                },
                Move::Account { key, size } => {
                    &&& m.entries.contains_key(key)
                    &&& m.bytes - m.entries[key].size + size > m.cap
                },
                _ => false,
            },
        forall|k: KeyModel| #[trigger]
            m.entries.contains_key(k) && m.after(step).entries.contains_key(k) ==> {
                &&& m.after(step).entries[k].slot == m.entries[k].slot
                &&& m.after(step).entries[k].size == m.entries[k].size || match step {
                    Move::Complete { id, outcome: Ok(bytes) } => {
                        k == m.slots[id].key && m.after(step).entries[k].size == bytes.len()
                    },
                    Move::Account { key, size } => {
                        k == key && m.after(step).entries[k].size == size
                    },
                    _ => false,
                }
            },
{
    match step {
        Move::Complete { id, outcome: Ok(bytes) } => {
            let key = m.slots[id].key;
            let ready = Progress::Ready(Ok::<Seq<u8>, Seq<char>>(bytes));
            let filled = m.with_progress(id, ready).released(id);
            cache_laws::lemma_with_progress_valid(m, id, ready);
            cache_laws::lemma_released_valid(m.with_progress(id, ready), id);
            lemma_charge_under_pressure(filled, key, bytes.len());
        },
        Move::Account { key, size } => lemma_charge_under_pressure(m, key, size),
        _ => {},
    }
}

proof fn lemma_charge_under_pressure(m: CacheModel, key: KeyModel, size: nat)
    requires
        m.valid(),
        m.tallied(),
        m.bytes <= m.cap,
        m.has_room(Move::Account { key, size }),
    ensures
        forall|k: KeyModel| #[trigger]
            m.entries.contains_key(k) && !m.accounted(key, size).entries.contains_key(k)
                ==> m.entries.contains_key(key) && m.bytes - m.entries[key].size + size > m.cap,
        forall|k: KeyModel| #[trigger]
            m.accounted(key, size).entries.contains_key(k) ==> {
                &&& m.accounted(key, size).entries[k].slot == m.entries[k].slot
                &&& m.accounted(key, size).entries[k].size == (if k == key {
                    size
                } else {
                    m.entries[k].size
                })
            },
{
    if m.entries.contains_key(key) {
        assert(m.order.contains(key));
        cache_laws::lemma_total_update(
            m.order,
            key,
            m.entries,
            Entry { size: 0, ..m.entries[key] },
        );
        law_a_charge_evicts_the_oldest_and_no_more(m, key, size);
        law_nothing_is_evicted_within_the_budget(m.charged(key, size));
    } else {
        law_an_unknown_key_is_not_charged(m, key, size);
    }
}

} // verus!
