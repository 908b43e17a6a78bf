//! What holds of the result cache over many requests.
use crate::cache_key::KeyModel;
use crate::cache_model;
use crate::cache_model::{CacheModel, Entry, Outcome, Progress};
use crate::cache_setting;
use crate::rpc_cache;
use vstd::prelude::*;

verus! {

/// One step of a request that shares the cache with others.
pub enum Move {
    /// A request takes hold of the slot of its key.
    Take { key: KeyModel, fresh: int },
    /// A holder enters its slot.
    Enter { id: int },
    /// The request that computes has come to an outcome.
    Complete { id: int, outcome: Outcome },
    /// The request that computes gives up.
    Abandon { id: int },
    /// An entry is charged.
    Account { key: KeyModel, size: nat },
}

impl CacheModel {
    /// Whether a request can take this step now.
    pub open spec fn can(self, step: Move) -> bool {
        match step {
            Move::Take { key, fresh } => self.entries.contains_key(key)
                || !self.slots.contains_key(fresh),
            Move::Enter { id } => self.slots.contains_key(id) && self.slots[id].holders > 0,
            Move::Complete { id, outcome } => self.running(id),
            Move::Abandon { id } => self.running(id),
            Move::Account { key, size } => true,
        }
    }

    /// Whether a request that holds the slot is computing its result.
    pub open spec fn running(self, id: int) -> bool {
        &&& self.slots.contains_key(id)
        &&& self.slots[id].progress is Running
        &&& self.slots[id].holders > 0
    }

    /// The state after a step.
    pub open spec fn after(self, step: Move) -> Self {
        match step {
            Move::Take { key, fresh } => self.admitted(key, fresh),
            Move::Enter { id } => match self.slots[id].progress {
                Progress::Ready(_) => self.served(id),
                Progress::Running => self,
                Progress::Empty => self.started(id),
            },
            Move::Complete { id, outcome } => self.completed(id, outcome),
            Move::Abandon { id } => self.abandoned(id),
            Move::Account { key, size } => self.accounted(key, size),
        }
    }

    /// The state after the first `n` of the given steps.
    pub open spec fn after_all(self, steps: Seq<Move>, n: int) -> Self
        decreases n,
    {
        if n <= 0 {
            self
        } else {
            self.after_all(steps, n - 1).after(steps[n - 1])
        }
    }

    /// Whether each of the steps can be taken when its turn comes.
    pub open spec fn can_all(self, steps: Seq<Move>) -> bool {
        forall|n: int| 0 <= n < steps.len() ==> #[trigger] self.after_all(steps, n).can(steps[n])
    }
}

// ---- Validity ----

pub(crate) proof fn lemma_admitted_valid(m: CacheModel, key: KeyModel, fresh: int)
    requires
        m.valid(),
        m.entries.contains_key(key) || !m.slots.contains_key(fresh),
    ensures
        m.admitted(key, fresh).valid(),
{
    let post = m.admitted(key, fresh);
    if m.entries.contains_key(key) {
        assert forall|id: int| #[trigger] post.slots.contains_key(id) implies post.slots[id].holders
            > 0 || post.resident(id) by {
            assert(m.slots.contains_key(id));
        }
    } else {
        assert(!m.order.contains(key));
        assert(post.order[m.order.len() as int] == key);
        assert forall|k: KeyModel| post.entries.contains_key(k) <==> post.order.contains(k) by {
            if m.order.contains(k) {
                let j = choose|j: int| 0 <= j < m.order.len() && m.order[j] == k;
                assert(post.order[j] == k);
            }
            if post.order.contains(k) && k != key {
                let j = choose|j: int| 0 <= j < post.order.len() && post.order[j] == k;
                assert(m.order[j] == k);
            }
        }
        assert(post.order.no_duplicates()) by {
            assert forall|a: int, b: int|
                0 <= a < post.order.len() && 0 <= b < post.order.len() && a
                    != b implies post.order[a] != post.order[b] by {
                if a == m.order.len() {
                    assert(m.order.contains(m.order[b]));
                }
                if b == m.order.len() {
                    assert(m.order.contains(m.order[a]));
                }
            }
        }
        assert forall|id: int| #[trigger] post.slots.contains_key(id) implies post.slots[id].holders
            > 0 || post.resident(id) by {
            if id != fresh {
                assert(m.slots.contains_key(id));
                if m.resident(id) {
                    assert(m.slots[id].key != key);
                }
            }
        }
        assert forall|k: KeyModel| #[trigger] post.entries.contains_key(k) implies {
            &&& post.slots.contains_key(post.entries[k].slot)
            &&& post.slots[post.entries[k].slot].key == k
        } by {
            if k != key {
                assert(m.entries.contains_key(k));
            }
        }
    }
}

pub(crate) proof fn lemma_released_valid(m: CacheModel, id: int)
    requires
        m.valid(),
        m.slots.contains_key(id),
    ensures
        m.released(id).valid(),
{
    let post = m.released(id);
    assert forall|k: KeyModel| #[trigger] post.entries.contains_key(k) implies {
        &&& post.slots.contains_key(post.entries[k].slot)
        &&& post.slots[post.entries[k].slot].key == k
    } by {
        assert(m.entries.contains_key(k));
    }
    assert forall|other: int| #[trigger] post.slots.contains_key(other) implies
        post.slots[other].holders > 0 || post.resident(other) by {
        assert(m.slots.contains_key(other));
    }
}

pub(crate) proof fn lemma_with_progress_valid(m: CacheModel, id: int, progress: Progress)
    requires
        m.valid(),
        m.slots.contains_key(id),
    ensures
        m.with_progress(id, progress).valid(),
{
    let post = m.with_progress(id, progress);
    assert forall|other: int| #[trigger] post.slots.contains_key(other) implies
        post.slots[other].holders > 0 || post.resident(other) by {
        assert(m.slots.contains_key(other));
    }
}

pub(crate) proof fn lemma_charged_valid(m: CacheModel, key: KeyModel, size: nat)
    requires
        m.valid(),
    ensures
        m.charged(key, size).valid(),
{
    let post = m.charged(key, size);
    assert forall|k: KeyModel| post.entries.contains_key(k) <==> post.order.contains(k) by {
        assert(m.entries.contains_key(k) <==> m.order.contains(k));
    }
    assert forall|k: KeyModel| #[trigger] post.entries.contains_key(k) implies {
        &&& post.slots.contains_key(post.entries[k].slot)
        &&& post.slots[post.entries[k].slot].key == k
    } by {
        assert(m.entries.contains_key(k));
    }
    assert forall|id: int| #[trigger] post.slots.contains_key(id) implies post.slots[id].holders > 0
        || post.resident(id) by {
        assert(m.slots.contains_key(id));
    }
}

proof fn lemma_evicted_valid(m: CacheModel)
    requires
        m.valid(),
        m.order.len() > 0,
    ensures
        m.evicted_oldest().valid(),
{
    let post = m.evicted_oldest();
    let key = m.order[0];
    assert(m.order.contains(key));
    assert(m.entries.contains_key(key));
    assert forall|k: KeyModel| post.entries.contains_key(k) <==> post.order.contains(k) by {
        if post.entries.contains_key(k) {
            assert(m.order.contains(k));
            let j = choose|j: int| 0 <= j < m.order.len() && m.order[j] == k;
            assert(post.order[j - 1] == k);
        }
        if post.order.contains(k) {
            let j = choose|j: int| 0 <= j < post.order.len() && post.order[j] == k;
            assert(m.order[j + 1] == k);
            assert(m.order.contains(k));
            assert(m.order[0] != m.order[j + 1]);
        }
    }
    assert(post.order.no_duplicates()) by {
        assert forall|a: int, b: int|
            0 <= a < post.order.len() && 0 <= b < post.order.len() && a != b implies post.order[a]
            != post.order[b] by {
            assert(m.order[a + 1] != m.order[b + 1]);
        }
    }
    assert forall|k: KeyModel| #[trigger] post.entries.contains_key(k) implies {
        &&& post.slots.contains_key(post.entries[k].slot)
        &&& post.slots[post.entries[k].slot].key == k
    } by {
        assert(m.entries.contains_key(k));
    }
    assert forall|id: int| #[trigger] post.slots.contains_key(id) implies post.slots[id].holders > 0
        || post.resident(id) by {
        assert(m.slots.contains_key(id));
    }
}

pub(crate) proof fn lemma_trimmed_valid(m: CacheModel)
    requires
        m.valid(),
    ensures
        m.trimmed().valid(),
    decreases m.order.len(),
{
    if m.bytes > m.cap && m.order.len() > 0 {
        lemma_evicted_valid(m);
        lemma_trimmed_valid(m.evicted_oldest());
    }
}

proof fn lemma_completed_valid(m: CacheModel, id: int, outcome: Outcome)
    requires
        m.valid(),
        m.slots.contains_key(id),
    ensures
        m.completed(id, outcome).valid(),
{
    let progress = Progress::Ready(outcome);
    lemma_with_progress_valid(m, id, progress);
    lemma_released_valid(m.with_progress(id, progress), id);
    let filled = m.with_progress(id, progress).released(id);
    if let Ok(bytes) = outcome {
        lemma_charged_valid(filled, m.slots[id].key, bytes.len());
        lemma_trimmed_valid(filled.charged(m.slots[id].key, bytes.len()));
    }
}

/// Every step leads from a valid state to a valid state.
pub proof fn law_steps_keep_the_state_valid(m: CacheModel, step: Move)
    requires
        m.valid(),
        m.can(step),
    ensures
        m.after(step).valid(),
{
    match step {
        Move::Take { key, fresh } => lemma_admitted_valid(m, key, fresh),
        Move::Enter { id } => match m.slots[id].progress {
            Progress::Ready(_) => {
                let hit = CacheModel { hits: m.after(step).hits, ..m };
                assert forall|other: int| #[trigger] hit.slots.contains_key(other) implies
                    hit.slots[other].holders > 0 || hit.resident(other) by {
                    assert(m.slots.contains_key(other));
                }
                assert(hit.valid());
                lemma_released_valid(hit, id);
            },
            Progress::Running => {},
            Progress::Empty => {
                let missed = CacheModel { misses: m.after(step).misses, ..m };
                assert forall|other: int| #[trigger] missed.slots.contains_key(other) implies
                    missed.slots[other].holders > 0 || missed.resident(other) by {
                    assert(m.slots.contains_key(other));
                }
                assert(missed.valid());
                lemma_with_progress_valid(missed, id, Progress::Running);
            },
        },
        Move::Complete { id, outcome } => lemma_completed_valid(m, id, outcome),
        Move::Abandon { id } => {
            lemma_with_progress_valid(m, id, Progress::Empty);
            lemma_released_valid(m.with_progress(id, Progress::Empty), id);
        },
        Move::Account { key, size } => {
            lemma_charged_valid(m, key, size);
            lemma_trimmed_valid(m.charged(key, size));
        },
    }
}

// ---- The byte budget ----

/// The bytes charged for the entries of the given keys.
pub open spec fn total(order: Seq<KeyModel>, entries: Map<KeyModel, Entry>) -> nat
    decreases order.len(),
{
    if order.len() == 0 {
        0
    } else {
        entries[order[0]].size + total(order.drop_first(), entries)
    }
}

impl CacheModel {
    /// The bytes charged for all entries.
    pub open spec fn total(self) -> nat {
        total(self.order, self.entries)
    }

    /// Whether the count of bytes is what the entries are charged.
    pub open spec fn tallied(self) -> bool {
        self.bytes == self.total()
    }
}

/// Only the entries of the given keys count.
proof fn lemma_total_depends(
    order: Seq<KeyModel>,
    a: Map<KeyModel, Entry>,
    b: Map<KeyModel, Entry>,
)
    requires
        forall|i: int| 0 <= i < order.len() ==> a[#[trigger] order[i]].size == b[order[i]].size,
    ensures
        total(order, a) == total(order, b),
    decreases order.len(),
{
    if order.len() > 0 {
        let rest = order.drop_first();
        assert forall|i: int| 0 <= i < rest.len() implies a[#[trigger] rest[i]].size
            == b[rest[i]].size by {
            assert(rest[i] == order[i + 1]);
        }
        lemma_total_depends(rest, a, b);
        assert(a[order[0]].size == b[order[0]].size);
    }
}

pub(crate) proof fn lemma_total_push(
    order: Seq<KeyModel>,
    key: KeyModel,
    entries: Map<KeyModel, Entry>,
)
    ensures
        total(order.push(key), entries) == total(order, entries) + entries[key].size,
    decreases order.len(),
{
    if order.len() == 0 {
        assert(order.push(key).drop_first() =~= Seq::<KeyModel>::empty());
        assert(total(Seq::<KeyModel>::empty(), entries) == 0);
    } else {
        assert(order.push(key).drop_first() =~= order.drop_first().push(key));
        lemma_total_push(order.drop_first(), key, entries);
    }
}

pub(crate) proof fn lemma_total_update(
    order: Seq<KeyModel>,
    key: KeyModel,
    entries: Map<KeyModel, Entry>,
    entry: Entry,
)
    requires
        order.no_duplicates(),
        order.contains(key),
    ensures
        total(order, entries.insert(key, entry)) + entries[key].size == total(order, entries)
            + entry.size,
    decreases order.len(),
{
    let changed = entries.insert(key, entry);
    let rest = order.drop_first();
    assert forall|i: int| 0 <= i < rest.len() implies #[trigger] rest[i] == order[i + 1] by {}
    if order[0] == key {
        assert forall|i: int| 0 <= i < rest.len() implies changed[#[trigger] rest[i]].size
            == entries[rest[i]].size by {
            assert(order[0] != order[i + 1]);
        }
        lemma_total_depends(rest, changed, entries);
    } else {
        let j = choose|j: int| 0 <= j < order.len() && order[j] == key;
        assert(rest[j - 1] == key);
        assert(rest.no_duplicates()) by {
            assert forall|a: int, b: int|
                0 <= a < rest.len() && 0 <= b < rest.len() && a != b implies rest[a] != rest[b] by {
                assert(order[a + 1] != order[b + 1]);
            }
        }
        lemma_total_update(rest, key, entries, entry);
    }
}

proof fn lemma_total_suffix(order: Seq<KeyModel>, entries: Map<KeyModel, Entry>, n: int)
    requires
        0 <= n < order.len(),
    ensures
        total(order.skip(n), entries) == entries[order[n]].size + total(order.skip(n + 1), entries),
{
    assert(order.skip(n).drop_first() =~= order.skip(n + 1));
}

/// The eviction of the oldest entry keeps the count of bytes exact.
proof fn lemma_evicted_tallied(m: CacheModel)
    requires
        m.valid(),
        m.tallied(),
        m.order.len() > 0,
    ensures
        m.evicted_oldest().tallied(),
{
    let post = m.evicted_oldest();
    assert forall|i: int| 0 <= i < post.order.len() implies
        post.entries[#[trigger] post.order[i]].size == m.entries[post.order[i]].size by {
        assert(post.order[i] == m.order[i + 1]);
        assert(m.order[0] != m.order[i + 1]);
    }
    lemma_total_depends(post.order, post.entries, m.entries);
}

/// After an entry was charged, the count of bytes is within the budget or no
/// entry is left.
pub proof fn law_the_budget_is_kept(m: CacheModel, key: KeyModel, size: nat)
    ensures
        m.accounted(key, size).cap == m.cap,
        m.accounted(key, size).bytes <= m.cap || m.accounted(key, size).order.len() == 0,
{
    lemma_trimmed_within_budget(m.charged(key, size));
}

pub(crate) proof fn lemma_trimmed_within_budget(m: CacheModel)
    ensures
        m.trimmed().cap == m.cap,
        m.trimmed().bytes <= m.cap || m.trimmed().order.len() == 0,
    decreases m.order.len(),
{
    if m.bytes > m.cap && m.order.len() > 0 {
        lemma_trimmed_within_budget(m.evicted_oldest());
    }
}

/// Entries are evicted in insertion order, and no more of them than the budget
/// asks for: what stays is the longest run of youngest entries whose charges
/// fit, each as it was. `n` is the number of evictions.
pub proof fn law_the_oldest_entries_go_first(m: CacheModel) -> (n: int)
    requires
        m.valid(),
        m.tallied(),
    ensures
        0 <= n <= m.order.len(),
        m.trimmed().order == m.order.skip(n),
        forall|k: KeyModel| #[trigger]
            m.trimmed().entries.contains_key(k) ==> m.trimmed().entries[k] == m.entries[k],
        m.trimmed().tallied(),
        m.trimmed().bytes == total(m.order.skip(n), m.entries),
        m.trimmed().bytes <= m.cap,
        n > 0 ==> total(m.order.skip(n - 1), m.entries) > m.cap,
    decreases m.order.len(),
{
    assert(m.order.skip(0) =~= m.order);
    if m.bytes > m.cap && m.order.len() > 0 {
        let next = m.evicted_oldest();
        lemma_evicted_valid(m);
        lemma_evicted_tallied(m);
        let k = law_the_oldest_entries_go_first(next);
        assert(next.order.skip(k) =~= m.order.skip(k + 1));
        lemma_trimmed_valid(next);
        assert forall|i: int| 0 <= i < next.order.len() implies
            next.entries[#[trigger] next.order[i]] == m.entries[next.order[i]] by {
            assert(next.order[i] == m.order[i + 1]);
            assert(m.order[0] != m.order[i + 1]);
        }
        assert forall|key: KeyModel| #[trigger] m.trimmed().entries.contains_key(key) implies
            m.trimmed().entries[key] == m.entries[key] by {
            assert(next.trimmed().entries.contains_key(key));
            assert(next.trimmed().order.contains(key));
            let i = choose|i: int|
                0 <= i < next.trimmed().order.len() && next.trimmed().order[i] == key;
            assert(next.order[k + i] == key);
        }
        assert forall|i: int| 0 <= i < m.order.skip(k + 1).len() implies next.entries[#[trigger]
        m.order.skip(k + 1)[i]].size == m.entries[m.order.skip(k + 1)[i]].size by {
            assert(m.order.skip(k + 1)[i] == next.order[k + i]);
        }
        lemma_total_depends(m.order.skip(k + 1), next.entries, m.entries);
        if k > 0 {
            assert(next.order.skip(k - 1) =~= m.order.skip(k));
            assert forall|i: int| 0 <= i < m.order.skip(k).len() implies next.entries[#[trigger]
            m.order.skip(k)[i]].size == m.entries[m.order.skip(k)[i]].size by {
                assert(m.order.skip(k)[i] == next.order[k - 1 + i]);
            }
            lemma_total_depends(m.order.skip(k), next.entries, m.entries);
        }
        k + 1
    } else {
        if m.order.len() == 0 {
            assert(m.total() == 0);
        }
        0
    }
}

impl CacheModel {
    /// The bytes that a step charges, and the entry that it charges, if it
    /// charges one.
    pub open spec fn charge(self, step: Move) -> Option<(KeyModel, nat)> {
        match step {
            Move::Complete { id, outcome: Ok(bytes) } => Some((self.slots[id].key, bytes.len())),
            Move::Account { key, size } => Some((key, size)),
            _ => None,
        }
    }

    /// Whether the count of bytes has room for what a step charges.
    pub open spec fn has_room(self, step: Move) -> bool {
        self.charge(step) matches Some((key, size)) ==> self.entries.contains_key(key)
            ==> self.bytes - self.entries[key].size + size <= usize::MAX
    }
}

/// A charge keeps the count of bytes exact.
pub(crate) proof fn lemma_charged_tallied(m: CacheModel, key: KeyModel, size: nat)
    requires
        m.valid(),
        m.tallied(),
        m.has_room(Move::Account { key, size }),
    ensures
        m.charged(key, size).tallied(),
{
    if m.entries.contains_key(key) {
        assert(m.order.contains(key));
        lemma_total_update(m.order, key, m.entries, Entry { size, ..m.entries[key] });
        // The entry's old charge is part of the count.
        lemma_total_update(m.order, key, m.entries, Entry { size: 0, ..m.entries[key] });
    }
}

/// The count of bytes is what the entries are charged, whatever the requests do.
pub proof fn law_the_count_is_exact(m: CacheModel, step: Move)
    requires
        m.valid(),
        m.can(step),
        m.has_room(step),
        m.tallied(),
    ensures
        m.after(step).tallied(),
{
    match step {
        Move::Take { key, fresh } => {
            if !m.entries.contains_key(key) {
                let post = m.admitted(key, fresh);
                assert(!m.order.contains(key));
                assert forall|i: int| 0 <= i < m.order.len() implies post.entries[#[trigger]
                m.order[i]].size == m.entries[m.order[i]].size by {
                    assert(m.order.contains(m.order[i]));
                }
                lemma_total_depends(m.order, post.entries, m.entries);
                lemma_total_push(m.order, key, post.entries);
            }
        },
        Move::Complete { id, outcome } => {
            let key = m.slots[id].key;
            let filled = m.with_progress(id, Progress::Ready(outcome)).released(id);
            lemma_with_progress_valid(m, id, Progress::Ready(outcome));
            lemma_released_valid(m.with_progress(id, Progress::Ready(outcome)), id);
            if let Ok(bytes) = outcome {
                lemma_charged_valid(filled, key, bytes.len());
                lemma_charged_tallied(filled, key, bytes.len());
                law_the_oldest_entries_go_first(filled.charged(key, bytes.len()));
            }
        },
        Move::Account { key, size } => {
            lemma_charged_valid(m, key, size);
            lemma_charged_tallied(m, key, size);
            law_the_oldest_entries_go_first(m.charged(key, size));
        },
        _ => {},
    }
}

/// A step keeps the count of bytes within the budget.
proof fn lemma_step_within_budget(m: CacheModel, step: Move)
    requires
        m.valid(),
        m.can(step),
        m.has_room(step),
        m.tallied(),
        m.bytes <= m.cap,
    ensures
        m.after(step).cap == m.cap,
        m.after(step).bytes <= m.cap,
{
    let post = m.after(step);
    law_the_count_is_exact(m, step);
    match step {
        Move::Complete { id, outcome } => {
            if let Ok(bytes) = outcome {
                let filled = m.with_progress(id, Progress::Ready(outcome)).released(id);
                lemma_trimmed_within_budget(filled.charged(m.slots[id].key, bytes.len()));
            }
        },
        Move::Account { key, size } => lemma_trimmed_within_budget(m.charged(key, size)),
        _ => {},
    }
    if post.order.len() == 0 {
        assert(post.total() == 0);
    }
}

/// Whatever the requests do, the count of bytes is what the entries are charged,
/// and it is within the byte budget.
pub proof fn law_the_charges_fit_the_budget(cap: nat, steps: Seq<Move>, n: int)
    requires
        CacheModel::empty(cap).can_all(steps),
        forall|k: int|
            0 <= k < steps.len() ==> #[trigger] CacheModel::empty(cap).after_all(
                steps,
                k,
            ).has_room(steps[k]),
        0 <= n <= steps.len(),
    ensures
        CacheModel::empty(cap).after_all(steps, n).valid(),
        CacheModel::empty(cap).after_all(steps, n).cap == cap,
        CacheModel::empty(cap).after_all(steps, n).tallied(),
        CacheModel::empty(cap).after_all(steps, n).bytes <= cap,
    decreases n,
{
    if n > 0 {
        let m = CacheModel::empty(cap).after_all(steps, n - 1);
        law_the_charges_fit_the_budget(cap, steps, n - 1);
        assert(m.can(steps[n - 1]));
        assert(m.has_room(steps[n - 1]));
        law_steps_keep_the_state_valid(m, steps[n - 1]);
        law_the_count_is_exact(m, steps[n - 1]);
        lemma_step_within_budget(m, steps[n - 1]);
    }
}

// ---- One execution for all requests for a key ----

/// The progress of a slot after a step.
pub open spec fn progress_after(progress: Progress, step: Move, id: int) -> Progress {
    match step {
        Move::Enter { id: i } if i == id && progress is Empty => Progress::Running,
        Move::Complete { id: i, outcome } if i == id => Progress::Ready(outcome),
        Move::Abandon { id: i } if i == id => Progress::Empty,
        _ => progress,
    }
}

/// Eviction changes no slot, and takes out none that is held.
pub(crate) proof fn lemma_trimmed_slots(m: CacheModel, id: int)
    requires
        m.valid(),
    ensures
        m.trimmed().slots.contains_key(id) ==> m.slots.contains_key(id) && m.trimmed().slots[id]
            == m.slots[id],
        m.slots.contains_key(id) && m.slots[id].holders > 0 ==> m.trimmed().slots.contains_key(id),
    decreases m.order.len(),
{
    if m.bytes > m.cap && m.order.len() > 0 {
        lemma_evicted_valid(m);
        lemma_trimmed_slots(m.evicted_oldest(), id);
    }
}

proof fn lemma_completed_slots(m: CacheModel, done: int, outcome: Outcome, id: int)
    requires
        m.valid(),
        m.slots.contains_key(done),
        m.slots.contains_key(id),
    ensures
        m.completed(done, outcome).slots.contains_key(id) ==> {
            &&& m.completed(done, outcome).slots[id].key == m.slots[id].key
            &&& m.completed(done, outcome).slots[id].progress == progress_after(
                m.slots[id].progress,
                Move::Complete { id: done, outcome },
                id,
            )
        },
        m.slots[id].holders > (if id == done {
            1int
        } else {
            0
        }) ==> m.completed(done, outcome).slots.contains_key(id)
            && m.completed(done, outcome).slots[id].holders > 0,
{
    let ready = Progress::Ready(outcome);
    let key = m.slots[done].key;
    let filled = m.with_progress(done, ready).released(done);
    lemma_with_progress_valid(m, done, ready);
    lemma_released_valid(m.with_progress(done, ready), done);
    if let Ok(bytes) = outcome {
        lemma_charged_valid(filled, key, bytes.len());
        lemma_trimmed_slots(filled.charged(key, bytes.len()), id);
    }
}

/// A slot keeps its key, and its progress changes only by the steps of the
/// requests that hold it.
pub proof fn law_a_slot_changes_by_its_own_steps_only(m: CacheModel, step: Move, id: int)
    requires
        m.valid(),
        m.can(step),
        m.slots.contains_key(id),
        m.after(step).slots.contains_key(id),
    ensures
        m.after(step).slots[id].key == m.slots[id].key,
        m.after(step).slots[id].progress == progress_after(m.slots[id].progress, step, id),
{
    match step {
        Move::Complete { id: done, outcome } => lemma_completed_slots(m, done, outcome, id),
        Move::Account { key, size } => {
            lemma_charged_valid(m, key, size);
            lemma_trimmed_slots(m.charged(key, size), id);
        },
        _ => {},
    }
}

proof fn lemma_running_stays(m: CacheModel, step: Move, id: int)
    requires
        m.valid(),
        m.can(step),
        m.running(id),
        !(step matches Move::Complete { id: i, .. } && i == id),
        !(step matches Move::Abandon { id: i } && i == id),
    ensures
        m.after(step).running(id),
{
    match step {
        Move::Complete { id: done, outcome } => lemma_completed_slots(m, done, outcome, id),
        Move::Account { key, size } => {
            lemma_charged_valid(m, key, size);
            lemma_trimmed_slots(m.charged(key, size), id);
        },
        _ => {},
    }
}

pub(crate) proof fn lemma_after_all_valid(m: CacheModel, steps: Seq<Move>, n: int)
    requires
        m.valid(),
        m.can_all(steps),
        0 <= n <= steps.len(),
    ensures
        m.after_all(steps, n).valid(),
    decreases n,
{
    if n > 0 {
        lemma_after_all_valid(m, steps, n - 1);
        assert(m.after_all(steps, n - 1).can(steps[n - 1]));
        law_steps_keep_the_state_valid(m.after_all(steps, n - 1), steps[n - 1]);
    }
}

/// While one request computes the result of a slot, whatever the other requests
/// do, every request that enters the slot is told to wait, and nothing changes
/// by it.
pub proof fn law_nobody_else_computes_meanwhile(m: CacheModel, steps: Seq<Move>, id: int, n: int)
    requires
        m.valid(),
        m.can_all(steps),
        m.running(id),
        forall|k: int|
            0 <= k < steps.len() ==> !(#[trigger] steps[k] matches Move::Complete { id: i, .. } && i
                == id),
        forall|k: int|
            0 <= k < steps.len() ==> !(#[trigger] steps[k] matches Move::Abandon { id: i } && i
                == id),
        0 <= n <= steps.len(),
    ensures
        m.after_all(steps, n).running(id),
        m.after_all(steps, n).after(Move::Enter { id }) == m.after_all(steps, n),
    decreases n,
{
    if n > 0 {
        law_nobody_else_computes_meanwhile(m, steps, id, n - 1);
        lemma_after_all_valid(m, steps, n - 1);
        assert(m.after_all(steps, n - 1).can(steps[n - 1]));
        lemma_running_stays(m.after_all(steps, n - 1), steps[n - 1], id);
    }
}

/// A request for a key whose result is being computed gets the slot where that
/// happens, so it waits for that very execution.
pub proof fn law_a_second_request_joins_the_first(m: CacheModel, key: KeyModel, fresh: int)
    requires
        m.valid(),
        m.progress_of(key) is Running,
    ensures
        m.slot_for(key, fresh) == m.entries[key].slot,
        m.admitted(key, fresh).running(m.entries[key].slot),
        m.admitted(key, fresh).after(Move::Enter { id: m.entries[key].slot }) == m.admitted(
            key,
            fresh,
        ),
{
}

/// A request that waits gets the result of the execution that it waited for,
/// even if the entry was evicted in the meantime.
pub proof fn law_who_waits_gets_the_result(m: CacheModel, id: int, outcome: Outcome)
    requires
        m.valid(),
        m.running(id),
        m.slots[id].holders > 1,
    ensures
        m.completed(id, outcome).can(Move::Enter { id }),
        m.completed(id, outcome).slots[id].progress == Progress::Ready(outcome),
{
    lemma_completed_slots(m, id, outcome, id);
}

/// The executions that the first `n` steps start for a slot.
pub open spec fn executions(m: CacheModel, steps: Seq<Move>, id: int, n: int) -> nat
    decreases n,
{
    if n <= 0 {
        0
    } else {
        executions(m, steps, id, n - 1) + if steps[n - 1] == (Move::Enter { id }) && m.after_all(
            steps,
            n - 1,
        ).slots[id].progress is Empty {
            1nat
        } else {
            0
        }
    }
}

proof fn lemma_executions(m: CacheModel, steps: Seq<Move>, id: int, n: int)
    requires
        m.valid(),
        m.can_all(steps),
        forall|k: int|
            0 <= k <= steps.len() ==> #[trigger] m.after_all(steps, k).slots.contains_key(id),
        forall|k: int|
            0 <= k < steps.len() ==> !(#[trigger] steps[k] matches Move::Abandon { id: i } && i
                == id),
        0 <= n <= steps.len(),
    ensures
        executions(m, steps, id, n) <= 1,
        m.after_all(steps, n).slots[id].progress is Empty ==> executions(m, steps, id, n) == 0,
    decreases n,
{
    if n > 0 {
        lemma_executions(m, steps, id, n - 1);
        lemma_after_all_valid(m, steps, n - 1);
        assert(m.after_all(steps, n - 1).can(steps[n - 1]));
        assert(m.after_all(steps, n - 1).slots.contains_key(id));
        assert(m.after_all(steps, n).slots.contains_key(id));
        law_a_slot_changes_by_its_own_steps_only(m.after_all(steps, n - 1), steps[n - 1], id);
    }
}

/// All requests that meet in a slot share a single execution: as long as the
/// slot is there and nobody gives up, its result is computed at most once.
pub proof fn law_a_slot_is_computed_once(m: CacheModel, steps: Seq<Move>, id: int)
    requires
        m.valid(),
        m.can_all(steps),
        forall|k: int|
            0 <= k <= steps.len() ==> #[trigger] m.after_all(steps, k).slots.contains_key(id),
        forall|k: int|
            0 <= k < steps.len() ==> !(#[trigger] steps[k] matches Move::Abandon { id: i } && i
                == id),
    ensures
        executions(m, steps, id, steps.len() as int) <= 1,
{
    lemma_executions(m, steps, id, steps.len() as int);
}

impl CacheModel {
    /// Whether a step belongs to a request for the key.
    pub open spec fn concerns(self, step: Move, key: KeyModel) -> bool {
        match step {
            Move::Take { key: taken, .. } => taken == key,
            Move::Enter { id } => self.slots[id].key == key,
            Move::Complete { id, .. } => self.slots[id].key == key,
            Move::Abandon { id } => self.slots[id].key == key,
            Move::Account { key: charged, .. } => charged == key,
        }
    }

    /// What the request that takes a step is answered by it, if it is answered: it
    /// is served from its slot, or it has computed the outcome itself.
    pub open spec fn answer(self, step: Move) -> Option<Outcome> {
        match step {
            Move::Enter { id } => match self.slots[id].progress {
                Progress::Ready(known) => Some(known),
                _ => None,
            },
            Move::Complete { outcome, .. } => Some(outcome),
            _ => None,
        }
    }

    /// Whether a step starts an execution.
    pub open spec fn executes(self, step: Move) -> bool {
        step matches Move::Enter { id } && self.slots[id].progress is Empty
    }

    /// Whether there is no answer for the key yet: nobody has asked for it, or its
    /// entry has an empty slot.
    pub open spec fn unanswered(self, key: KeyModel) -> bool {
        forall|id: int| #[trigger]
            self.slots.contains_key(id) && self.slots[id].key == key ==> self.resident(id)
                && self.slots[id].progress is Empty
    }
}

/// What some steps have come to for the requests for one key.
pub struct Ledger {
    /// What the requests were answered.
    pub answers: Seq<Outcome>,
    /// The executions that were started.
    pub executions: nat,
    /// What the requests have added to the hits of the cache.
    pub hits: nat,
    /// What the requests have added to the misses of the cache.
    pub misses: nat,
}

/// What the first `n` steps come to for the requests for a key.
pub open spec fn ledger(m: CacheModel, steps: Seq<Move>, key: KeyModel, n: int) -> Ledger
    decreases n,
{
    if n <= 0 {
        Ledger { answers: Seq::empty(), executions: 0, hits: 0, misses: 0 }
    } else {
        let so_far = ledger(m, steps, key, n - 1);
        let before = m.after_all(steps, n - 1);
        let step = steps[n - 1];
        if before.concerns(step, key) {
            let after = before.after(step);
            Ledger {
                answers: match before.answer(step) {
                    Some(outcome) => so_far.answers.push(outcome),
                    None => so_far.answers,
                },
                executions: so_far.executions + if before.executes(step) {
                    1nat
                } else {
                    0
                },
                hits: so_far.hits + if after.hits != before.hits {
                    1nat
                } else {
                    0
                },
                misses: so_far.misses + if after.misses != before.misses {
                    1nat
                } else {
                    0
                },
            }
        } else {
            so_far
        }
    }
}

/// Whether the key has had an entry by the first `n` steps.
pub open spec fn has_been_asked_for(
    m: CacheModel,
    steps: Seq<Move>,
    key: KeyModel,
    n: int,
) -> bool {
    exists|j: int| 0 <= j <= n && #[trigger] m.after_all(steps, j).entries.contains_key(key)
}

/// Whether every request for the key that comes after the first one finds the
/// entry that the first one made: it is not evicted before.
pub open spec fn stays_while_asked_for(m: CacheModel, steps: Seq<Move>, key: KeyModel) -> bool {
    forall|k: int|
        0 <= k < steps.len() && (#[trigger] steps[k] matches Move::Take { key: taken, .. } && taken
            == key) && has_been_asked_for(m, steps, key, k) ==> m.after_all(
            steps,
            k,
        ).entries.contains_key(key)
}

/// Only a request that takes hold of a slot can make one.
pub proof fn lemma_slots_are_taken(m: CacheModel, step: Move, id: int)
    requires
        m.valid(),
        m.can(step),
        m.after(step).slots.contains_key(id),
        !m.slots.contains_key(id),
    ensures
        step matches Move::Take { key, fresh } && fresh == id && !m.entries.contains_key(key),
{
    match step {
        Move::Complete { id: done, outcome } => {
            let ready = Progress::Ready(outcome);
            let filled = m.with_progress(done, ready).released(done);
            lemma_with_progress_valid(m, done, ready);
            lemma_released_valid(m.with_progress(done, ready), done);
            if let Ok(bytes) = outcome {
                lemma_charged_valid(filled, m.slots[done].key, bytes.len());
                lemma_trimmed_slots(filled.charged(m.slots[done].key, bytes.len()), id);
            }
        },
        Move::Account { key, size } => {
            lemma_charged_valid(m, key, size);
            lemma_trimmed_slots(m.charged(key, size), id);
        },
        _ => {},
    }
}

/// What a step adds to the counts.
proof fn lemma_step_counts(m: CacheModel, step: Move)
    ensures
        m.after(step).hits == (if step matches Move::Enter { id } && m.slots[id].progress is Ready {
            cache_model::counted(m.hits)
        } else {
            m.hits
        }),
        m.after(step).misses == (if m.executes(step) {
            cache_model::counted(m.misses)
        } else {
            m.misses
        }),
{
    match step {
        Move::Complete { id, outcome } => {
            if let Ok(bytes) = outcome {
                let filled = m.with_progress(id, Progress::Ready(outcome)).released(id);
                lemma_trimmed_counts(filled.charged(m.slots[id].key, bytes.len()));
            }
        },
        Move::Account { key, size } => lemma_trimmed_counts(m.charged(key, size)),
        _ => {},
    }
}

/// Whether the progress of a slot for a key agrees with what has been done for
/// the requests for that key.
spec fn agrees(progress: Progress, sum: Ledger) -> bool {
    match progress {
        Progress::Empty => sum.executions == 0 && sum.answers.len() == 0,
        Progress::Running => sum.executions == 1 && sum.answers.len() == 0,
        Progress::Ready(outcome) => {
            &&& sum.executions == 1
            &&& sum.answers.len() > 0
            &&& forall|i: int| 0 <= i < sum.answers.len() ==> #[trigger] sum.answers[i] == outcome
        },
    }
}

/// What holds in a state that some steps have led to, where `sum` is what they
/// have come to for the requests for a key, and `asked` whether there were any:
/// these requests meet in one slot, and share what is computed there.
spec fn in_flight(now: CacheModel, key: KeyModel, asked: bool, sum: Ledger) -> bool {
    &&& now.valid()
    &&& forall|a: int, b: int|
        #![trigger now.slots.contains_key(a), now.slots.contains_key(b)]
        now.slots.contains_key(a) && now.slots[a].key == key && now.slots.contains_key(b)
            && now.slots[b].key == key ==> a == b
    &&& forall|id: int| #[trigger]
        now.slots.contains_key(id) && now.slots[id].key == key ==> asked && agrees(
            now.slots[id].progress,
            sum,
        )
    &&& !asked ==> sum.executions == 0 && sum.answers.len() == 0
    &&& sum.executions <= 1
    &&& sum.misses == sum.executions
    &&& sum.hits == (if sum.answers.len() == 0 {
        0
    } else {
        sum.answers.len() - 1
    })
    &&& sum.answers.len() > 0 ==> sum.executions == 1
    &&& forall|i: int|
        0 <= i < sum.answers.len() ==> #[trigger] sum.answers[i] == sum.answers[0]
}

proof fn lemma_single_flight(m: CacheModel, steps: Seq<Move>, key: KeyModel, n: int)
    requires
        m.valid(),
        m.can_all(steps),
        m.unanswered(key),
        stays_while_asked_for(m, steps, key),
        forall|k: int|
            0 <= k < steps.len() ==> (#[trigger] steps[k] matches Move::Abandon { id }
                ==> m.after_all(steps, k).slots[id].key != key),
        0 <= n <= steps.len(),
    ensures
        in_flight(
            m.after_all(steps, n),
            key,
            has_been_asked_for(m, steps, key, n),
            ledger(m, steps, key, n),
        ),
    decreases n,
{
    if n == 0 {
        assert forall|id: int| #[trigger]
            m.slots.contains_key(id) && m.slots[id].key == key implies has_been_asked_for(
            m,
            steps,
            key,
            0,
        ) by {
            assert(m.after_all(steps, 0).entries.contains_key(key));
        }
    } else {
        let pre = m.after_all(steps, n - 1);
        let step = steps[n - 1];
        let post = pre.after(step);
        let so_far = ledger(m, steps, key, n - 1);
        let sum = ledger(m, steps, key, n);
        lemma_single_flight(m, steps, key, n - 1);
        assert(pre.can(step));
        assert(post == m.after_all(steps, n));
        law_steps_keep_the_state_valid(pre, step);
        lemma_step_counts(pre, step);
        if has_been_asked_for(m, steps, key, n - 1) {
            let j = choose|j: int|
                0 <= j <= n - 1 && #[trigger] m.after_all(steps, j).entries.contains_key(key);
            assert(m.after_all(steps, j).entries.contains_key(key));
            assert(has_been_asked_for(m, steps, key, n));
        }
        match step {
            Move::Enter { id } => {
                assert(pre.slots.contains_key(id));
            },
            Move::Complete { id, .. } => {
                assert(pre.slots.contains_key(id));
            },
            _ => {},
        }
        assert forall|id: int| #[trigger]
            post.slots.contains_key(id) && post.slots[id].key == key implies has_been_asked_for(
            m,
            steps,
            key,
            n,
        ) && agrees(post.slots[id].progress, sum) by {
            if pre.slots.contains_key(id) {
                law_a_slot_changes_by_its_own_steps_only(pre, step, id);
            } else {
                lemma_slots_are_taken(pre, step, id);
                assert(m.after_all(steps, n).entries.contains_key(key));
            }
        }
        assert forall|a: int, b: int|
            #![trigger post.slots.contains_key(a), post.slots.contains_key(b)]
            post.slots.contains_key(a) && post.slots[a].key == key && post.slots.contains_key(b)
                && post.slots[b].key == key implies a == b by {
            if pre.slots.contains_key(a) {
                law_a_slot_changes_by_its_own_steps_only(pre, step, a);
            } else {
                lemma_slots_are_taken(pre, step, a);
            }
            if pre.slots.contains_key(b) {
                law_a_slot_changes_by_its_own_steps_only(pre, step, b);
            } else {
                lemma_slots_are_taken(pre, step, b);
            }
        }
    }
}

/// Concurrent identical requests share a single execution. From any state
/// without an answer for the key, whatever the requests do: if any request for
/// the key is answered, exactly one of them computes, all of them get what that
/// execution came to, and they add one to the misses and the rest to the hits.
/// This holds as long as none of them gives up its computation, and each that
/// comes later finds the entry of the first: the entry of a key that is evicted
/// before the last request has asked for it is made and computed anew.
pub proof fn law_identical_requests_share_one_execution(
    m: CacheModel,
    steps: Seq<Move>,
    key: KeyModel,
)
    requires
        m.valid(),
        m.can_all(steps),
        m.unanswered(key),
        stays_while_asked_for(m, steps, key),
        forall|k: int|
            0 <= k < steps.len() ==> (#[trigger] steps[k] matches Move::Abandon { id }
                ==> m.after_all(steps, k).slots[id].key != key),
    ensures
        ({
            let sum = ledger(m, steps, key, steps.len() as int);
            &&& sum.executions <= 1
            &&& sum.answers.len() > 0 ==> {
                &&& sum.executions == 1
                &&& forall|i: int, j: int|
                    0 <= i < sum.answers.len() && 0 <= j < sum.answers.len()
                        ==> #[trigger] sum.answers[i] == #[trigger] sum.answers[j]
                &&& sum.hits == sum.answers.len() - 1
                &&& sum.misses == 1
            }
        }),
{
    lemma_single_flight(m, steps, key, steps.len() as int);
}

/// A result that is there stays what it is, as long as its slot is there.
pub proof fn law_a_result_does_not_change(
    m: CacheModel,
    steps: Seq<Move>,
    id: int,
    outcome: Outcome,
    n: int,
)
    requires
        m.valid(),
        m.can_all(steps),
        forall|k: int|
            0 <= k <= steps.len() ==> #[trigger] m.after_all(steps, k).slots.contains_key(id),
        m.slots[id].progress == Progress::Ready(outcome),
        0 <= n <= steps.len(),
    ensures
        m.after_all(steps, n).slots[id].progress == Progress::Ready(outcome),
    decreases n,
{
    if n > 0 {
        law_a_result_does_not_change(m, steps, id, outcome, n - 1);
        lemma_after_all_valid(m, steps, n - 1);
        assert(m.after_all(steps, n - 1).can(steps[n - 1]));
        assert(m.after_all(steps, n - 1).slots.contains_key(id));
        assert(m.after_all(steps, n).slots.contains_key(id));
        law_a_slot_changes_by_its_own_steps_only(m.after_all(steps, n - 1), steps[n - 1], id);
    }
}

// ---- Holds ----

/// The holds on a slot after the first `n` steps on a new cache: the requests
/// that have taken hold of it, less those that were served from it and those whose
/// computation has ended.
pub open spec fn holds(cap: nat, steps: Seq<Move>, id: int, n: int) -> int
    decreases n,
{
    if n <= 0 {
        0
    } else {
        let before = CacheModel::empty(cap).after_all(steps, n - 1);
        holds(cap, steps, id, n - 1) + match steps[n - 1] {
            Move::Take { key, fresh } if before.slot_for(key, fresh) == id => 1int,
            Move::Enter { id: i } if i == id && before.slots[id].progress is Ready => -1,
            Move::Complete { id: i, .. } if i == id => -1,
            Move::Abandon { id: i } if i == id => -1,
            _ => 0,
        }
    }
}

/// The requests that are computing the result of a slot after the first `n` steps
/// on a new cache: those that were told to, less those whose computation has
/// ended.
pub open spec fn leads(cap: nat, steps: Seq<Move>, id: int, n: int) -> int
    decreases n,
{
    if n <= 0 {
        0
    } else {
        let before = CacheModel::empty(cap).after_all(steps, n - 1);
        leads(cap, steps, id, n - 1) + match steps[n - 1] {
            Move::Enter { id: i } if i == id && before.slots[id].progress is Empty => 1int,
            Move::Complete { id: i, .. } if i == id => -1,
            Move::Abandon { id: i } if i == id => -1,
            _ => 0,
        }
    }
}

/// Whether the steps are those of requests that act on what they were given: a
/// slot that is made is new, who enters a slot has a hold on it, and who ends a
/// computation was told to make it. Nothing is said of the slots being there.
pub open spec fn by_their_holds(cap: nat, steps: Seq<Move>) -> bool {
    forall|k: int|
        0 <= k < steps.len() ==> match #[trigger] steps[k] {
            Move::Take { key, fresh } => CacheModel::empty(cap).after_all(
                steps,
                k,
            ).entries.contains_key(key) || !CacheModel::empty(cap).after_all(
                steps,
                k,
            ).slots.contains_key(fresh),
            Move::Enter { id } => holds(cap, steps, id, k) > 0,
            Move::Complete { id, .. } => leads(cap, steps, id, k) > 0,
            Move::Abandon { id } => leads(cap, steps, id, k) > 0,
            Move::Account { .. } => true,
        }
}

/// What a step does to the holders of a slot that is there before.
proof fn lemma_step_holders(m: CacheModel, step: Move, id: int)
    requires
        m.valid(),
        m.can(step),
        m.slots.contains_key(id),
        m.slots[id].holders < usize::MAX,
    ensures
        ({
            let left = m.slots[id].holders + match step {
                Move::Take { key, fresh } if m.slot_for(key, fresh) == id => 1int,
                Move::Enter { id: i } if i == id && m.slots[id].progress is Ready => -1,
                Move::Complete { id: i, .. } if i == id => -1,
                Move::Abandon { id: i } if i == id => -1,
                _ => 0,
            };
            &&& left >= 0
            &&& left > 0 ==> m.after(step).slots.contains_key(id)
            &&& m.after(step).slots.contains_key(id) ==> m.after(step).slots[id].holders == left
        }),
{
    match step {
        Move::Complete { id: done, outcome } => {
            let ready = Progress::Ready(outcome);
            let filled = m.with_progress(done, ready).released(done);
            lemma_with_progress_valid(m, done, ready);
            lemma_released_valid(m.with_progress(done, ready), done);
            if let Ok(bytes) = outcome {
                lemma_charged_valid(filled, m.slots[done].key, bytes.len());
                lemma_trimmed_slots(filled.charged(m.slots[done].key, bytes.len()), id);
            }
        },
        Move::Account { key, size } => {
            lemma_charged_valid(m, key, size);
            lemma_trimmed_slots(m.charged(key, size), id);
        },
        _ => {},
    }
}

/// A hold lasts until it ends: from taking hold of a slot until it is served from
/// it, or until its computation has ended, a request finds the slot there,
/// whatever the others do and whatever is evicted. The cache counts exactly the
/// holds that have not ended, and one of them computes just when the slot says so.
/// `n` is bounded because a count of holders that is full stays full.
pub proof fn law_a_hold_lasts_until_it_ends(cap: nat, steps: Seq<Move>, id: int, n: int)
    requires
        by_their_holds(cap, steps),
        0 <= n <= steps.len(),
        n < usize::MAX,
    ensures
        CacheModel::empty(cap).after_all(steps, n).valid(),
        0 <= holds(cap, steps, id, n) <= n,
        holds(cap, steps, id, n) > 0 ==> CacheModel::empty(cap).after_all(
            steps,
            n,
        ).slots.contains_key(id),
        CacheModel::empty(cap).after_all(steps, n).slots.contains_key(id) ==> CacheModel::empty(
            cap,
        ).after_all(steps, n).slots[id].holders == holds(cap, steps, id, n),
        leads(cap, steps, id, n) == (if CacheModel::empty(cap).after_all(
            steps,
            n,
        ).slots.contains_key(id) && CacheModel::empty(cap).after_all(
            steps,
            n,
        ).slots[id].progress is Running {
            1int
        } else {
            0
        }),
        leads(cap, steps, id, n) <= holds(cap, steps, id, n),
    decreases n, 0int,
{
    if n > 0 {
        let m = CacheModel::empty(cap).after_all(steps, n - 1);
        let step = steps[n - 1];
        let post = m.after(step);
        law_a_hold_lasts_until_it_ends(cap, steps, id, n - 1);
        lemma_a_step_can_be_taken(cap, steps, n - 1);
        law_steps_keep_the_state_valid(m, step);
        if m.slots.contains_key(id) {
            lemma_step_holders(m, step, id);
            if post.slots.contains_key(id) {
                law_a_slot_changes_by_its_own_steps_only(m, step, id);
            }
        } else if post.slots.contains_key(id) {
            lemma_slots_are_taken(m, step, id);
        }
    }
}

proof fn lemma_a_step_can_be_taken(cap: nat, steps: Seq<Move>, k: int)
    requires
        by_their_holds(cap, steps),
        0 <= k < steps.len(),
        k < usize::MAX,
    ensures
        CacheModel::empty(cap).after_all(steps, k).can(steps[k]),
    decreases k, 1int,
{
    match steps[k] {
        Move::Enter { id } => law_a_hold_lasts_until_it_ends(cap, steps, id, k),
        Move::Complete { id, .. } => law_a_hold_lasts_until_it_ends(cap, steps, id, k),
        Move::Abandon { id } => law_a_hold_lasts_until_it_ends(cap, steps, id, k),
        _ => {},
    }
}

/// Requests that act on what they were given can always go on: each of their
/// steps can be taken when its turn comes.
pub proof fn law_who_holds_can_go_on(cap: nat, steps: Seq<Move>)
    requires
        by_their_holds(cap, steps),
        steps.len() <= usize::MAX,
    ensures
        CacheModel::empty(cap).can_all(steps),
{
    assert forall|k: int| 0 <= k < steps.len() implies #[trigger] CacheModel::empty(cap).after_all(
        steps,
        k,
    ).can(steps[k]) by {
        lemma_a_step_can_be_taken(cap, steps, k);
    }
}

/// A request that holds a slot while its result is computed gets what that
/// computation comes to: after it, the slot is there, and the result in it is that
/// outcome.
pub proof fn law_a_hold_gets_what_is_computed(
    cap: nat,
    steps: Seq<Move>,
    id: int,
    outcome: Outcome,
    n: int,
)
    requires
        by_their_holds(cap, steps),
        0 <= n < steps.len(),
        n + 1 < usize::MAX,
        steps[n] == (Move::Complete { id, outcome }),
        holds(cap, steps, id, n) > leads(cap, steps, id, n),
    ensures
        CacheModel::empty(cap).after_all(steps, n + 1).can(Move::Enter { id }),
        CacheModel::empty(cap).after_all(steps, n + 1).slots[id].progress == Progress::Ready(
            outcome,
        ),
{
    let m = CacheModel::empty(cap).after_all(steps, n);
    law_a_hold_lasts_until_it_ends(cap, steps, id, n);
    assert(leads(cap, steps, id, n) > 0);
    law_who_waits_gets_the_result(m, id, outcome);
    assert(CacheModel::empty(cap).after_all(steps, n + 1) == m.after(steps[n]));
}

// ---- Results that are functions of their keys ----

impl CacheModel {
    /// Whether every result that is there is the one that `f` gives for its key.
    pub open spec fn faithful(self, f: spec_fn(KeyModel) -> Outcome) -> bool {
        forall|id: int| #[trigger]
            self.slots.contains_key(id) ==> (self.slots[id].progress matches Progress::Ready(known)
                ==> known == f(self.slots[id].key))
    }
}

proof fn lemma_completed_faithful(
    m: CacheModel,
    done: int,
    outcome: Outcome,
    f: spec_fn(KeyModel) -> Outcome,
)
    requires
        m.valid(),
        m.slots.contains_key(done),
        m.faithful(f),
        outcome == f(m.slots[done].key),
    ensures
        m.completed(done, outcome).faithful(f),
{
    let post = m.completed(done, outcome);
    let ready = Progress::Ready(outcome);
    let key = m.slots[done].key;
    let filled = m.with_progress(done, ready).released(done);
    lemma_with_progress_valid(m, done, ready);
    lemma_released_valid(m.with_progress(done, ready), done);
    assert forall|id: int| #[trigger] post.slots.contains_key(id) implies (
    post.slots[id].progress matches Progress::Ready(known) ==> known == f(post.slots[id].key)) by {
        if let Ok(bytes) = outcome {
            lemma_charged_valid(filled, key, bytes.len());
            lemma_trimmed_slots(filled.charged(key, bytes.len()), id);
        }
        assert(m.slots.contains_key(id));
        lemma_completed_slots(m, done, outcome, id);
    }
}

/// Where results are functions of their keys, cached results are never stale:
/// whatever the requests do, what the cache holds for a key is the result for
/// that key.
pub proof fn law_entries_are_never_stale(
    m: CacheModel,
    step: Move,
    f: spec_fn(KeyModel) -> Outcome,
)
    requires
        m.valid(),
        m.can(step),
        m.faithful(f),
        step matches Move::Complete { id, outcome } ==> outcome == f(m.slots[id].key),
    ensures
        m.after(step).faithful(f),
{
    let post = m.after(step);
    match step {
        Move::Complete { id, outcome } => lemma_completed_faithful(m, id, outcome, f),
        Move::Account { key, size } => {
            assert forall|id: int| #[trigger] post.slots.contains_key(id) implies (
            post.slots[id].progress matches Progress::Ready(known) ==> known == f(
                post.slots[id].key,
            )) by {
                lemma_charged_valid(m, key, size);
                lemma_trimmed_slots(m.charged(key, size), id);
                assert(m.slots.contains_key(id));
            }
        },
        _ => {
            assert forall|id: int| #[trigger] post.slots.contains_key(id) implies (
            post.slots[id].progress matches Progress::Ready(known) ==> known == f(
                post.slots[id].key,
            )) by {
                if m.slots.contains_key(id) {
                    law_a_slot_changes_by_its_own_steps_only(m, step, id);
                }
            }
        },
    }
}

/// Where results are functions of their keys, every request that is served from
/// the cache gets the result for its key, whatever came before.
pub proof fn law_every_hit_is_the_result_for_its_key(
    cap: nat,
    steps: Seq<Move>,
    f: spec_fn(KeyModel) -> Outcome,
    n: int,
)
    requires
        CacheModel::empty(cap).can_all(steps),
        forall|k: int|
            0 <= k < steps.len() ==> (#[trigger] steps[k] matches Move::Complete { id, outcome }
                ==> outcome == f(CacheModel::empty(cap).after_all(steps, k).slots[id].key)),
        0 <= n <= steps.len(),
    ensures
        CacheModel::empty(cap).after_all(steps, n).valid(),
        CacheModel::empty(cap).after_all(steps, n).faithful(f),
    decreases n,
{
    if n > 0 {
        let m = CacheModel::empty(cap).after_all(steps, n - 1);
        law_every_hit_is_the_result_for_its_key(cap, steps, f, n - 1);
        assert(m.can(steps[n - 1]));
        law_steps_keep_the_state_valid(m, steps[n - 1]);
        law_entries_are_never_stale(m, steps[n - 1], f);
    }
}

/// Where results are functions of their keys, the cache is invisible: a request
/// gets what the computation would give, be the cache on or off, and be the
/// result cached or not.
pub proof fn law_the_cache_is_invisible<F>(
    pre: CacheModel,
    post: CacheModel,
    key: KeyModel,
    compute: F,
    result: Result<Vec<u8>, String>,
    f: spec_fn(KeyModel) -> Outcome,
) where F: FnOnce() -> Result<Vec<u8>, String>
    requires
        pre.valid(),
        pre.faithful(f),
        forall|computed: Result<Vec<u8>, String>| #[trigger]
            call_ensures(compute, (), computed) ==> rpc_cache::reply(computed) == f(key),
        rpc_cache::cached_result(pre, post, key, compute, result),
    ensures
        rpc_cache::reply(result) == f(key),
        post.faithful(f),
{
    if pre.enabled() {
        if let Progress::Ready(known) = pre.progress_of(key) {
            let id = pre.entries[key].slot;
            let taken = Move::Take { key, fresh: id };
            law_steps_keep_the_state_valid(pre, taken);
            law_entries_are_never_stale(pre, taken, f);
            law_entries_are_never_stale(pre.after(taken), Move::Enter { id }, f);
        } else {
            let (computed, fresh) = choose|computed: Result<Vec<u8>, String>, fresh: int| #[trigger]
                rpc_cache::missed(pre, post, key, compute, result, computed, fresh);
            let id = pre.slot_for(key, fresh);
            let taken = pre.admitted(key, fresh);
            let started = taken.started(id);
            lemma_admitted_valid(pre, key, fresh);
            law_entries_are_never_stale(pre, Move::Take { key, fresh }, f);
            let missed = CacheModel { misses: started.misses, ..taken };
            assert forall|other: int| #[trigger] missed.slots.contains_key(other) implies
                missed.slots[other].holders > 0 || missed.resident(other) by {
                assert(taken.slots.contains_key(other));
            }
            assert(missed.valid());
            lemma_with_progress_valid(missed, id, Progress::Running);
            assert forall|other: int| #[trigger] started.slots.contains_key(other) implies (
            started.slots[other].progress matches Progress::Ready(known) ==> known == f(
                started.slots[other].key,
            )) by {
                assert(taken.slots.contains_key(other));
            }
            lemma_completed_faithful(started, id, rpc_cache::reply(computed), f);
        }
    }
}

// ---- The bytes that the results take ----

impl CacheModel {
    /// The bytes of the result that the entry of a key holds.
    pub open spec fn weight(self, key: KeyModel) -> nat {
        match self.progress_of(key) {
            Progress::Ready(Ok(bytes)) => bytes.len(),
            _ => 0,
        }
    }

    /// The bytes of the results that the entries of the given keys hold.
    pub open spec fn weight_of(self, keys: Seq<KeyModel>) -> nat
        decreases keys.len(),
    {
        if keys.len() == 0 {
            0
        } else {
            self.weight(keys[0]) + self.weight_of(keys.drop_first())
        }
    }

    /// Whether every entry that holds a result is charged the bytes of it.
    pub open spec fn charged_by_weight(self) -> bool {
        forall|key: KeyModel| #[trigger]
            self.entries.contains_key(key) ==> (self.progress_of(key) matches Progress::Ready(
                Ok(bytes),
            ) ==> self.entries[key].size == bytes.len())
    }
}

proof fn lemma_weight_is_charged(m: CacheModel, keys: Seq<KeyModel>)
    requires
        m.charged_by_weight(),
        forall|i: int| 0 <= i < keys.len() ==> m.entries.contains_key(#[trigger] keys[i]),
    ensures
        m.weight_of(keys) <= total(keys, m.entries),
    decreases keys.len(),
{
    if keys.len() > 0 {
        let rest = keys.drop_first();
        assert forall|i: int| 0 <= i < rest.len() implies m.entries.contains_key(
            #[trigger] rest[i],
        ) by {
            assert(rest[i] == keys[i + 1]);
        }
        lemma_weight_is_charged(m, rest);
        assert(m.entries.contains_key(keys[0]));
    }
}

/// Eviction changes no entry that stays.
proof fn lemma_trimmed_entry(m: CacheModel, key: KeyModel)
    requires
        m.trimmed().entries.contains_key(key),
    ensures
        m.entries.contains_key(key),
        m.trimmed().entries[key] == m.entries[key],
    decreases m.order.len(),
{
    if m.bytes > m.cap && m.order.len() > 0 {
        lemma_trimmed_entry(m.evicted_oldest(), key);
    }
}

proof fn lemma_step_charges_by_weight(m: CacheModel, step: Move, f: spec_fn(KeyModel) -> Outcome)
    requires
        m.valid(),
        m.can(step),
        m.faithful(f),
        m.charged_by_weight(),
        !(step is Account),
        step matches Move::Complete { id, outcome } ==> outcome == f(m.slots[id].key),
    ensures
        m.after(step).charged_by_weight(),
{
    let post = m.after(step);
    law_steps_keep_the_state_valid(m, step);
    assert forall|key: KeyModel| #[trigger] post.entries.contains_key(key) implies (
    post.progress_of(key) matches Progress::Ready(Ok(bytes)) ==> post.entries[key].size
        == bytes.len()) by {
        if let Move::Complete { id, outcome } = step {
            let ready = Progress::Ready(outcome);
            let done = m.slots[id].key;
            let filled = m.with_progress(id, ready).released(id);
            lemma_with_progress_valid(m, id, ready);
            lemma_released_valid(m.with_progress(id, ready), id);
            if let Ok(bytes) = outcome {
                let charged = filled.charged(done, bytes.len());
                lemma_charged_valid(filled, done, bytes.len());
                lemma_trimmed_entry(charged, key);
                lemma_trimmed_slots(charged, post.entries[key].slot);
            }
            assert(m.entries.contains_key(key));
            assert(m.slots.contains_key(m.entries[key].slot));
        } else if m.entries.contains_key(key) {
            assert(m.slots.contains_key(m.entries[key].slot));
            law_a_slot_changes_by_its_own_steps_only(m, step, m.entries[key].slot);
        }
    }
}

/// Where results are functions of their keys, the bytes of the results that the
/// cache holds are within its byte budget, whatever the requests do.
pub proof fn law_the_results_fit_the_budget(
    cap: nat,
    steps: Seq<Move>,
    f: spec_fn(KeyModel) -> Outcome,
    n: int,
)
    requires
        CacheModel::empty(cap).can_all(steps),
        forall|k: int|
            0 <= k < steps.len() ==> #[trigger] CacheModel::empty(cap).after_all(
                steps,
                k,
            ).has_room(steps[k]),
        forall|k: int|
            0 <= k < steps.len() ==> !(#[trigger] steps[k] is Account) && (
            steps[k] matches Move::Complete { id, outcome } ==> outcome == f(
                CacheModel::empty(cap).after_all(steps, k).slots[id].key,
            )),
        0 <= n <= steps.len(),
    ensures
        CacheModel::empty(cap).after_all(steps, n).charged_by_weight(),
        CacheModel::empty(cap).after_all(steps, n).weight_of(
            CacheModel::empty(cap).after_all(steps, n).order,
        ) <= cap,
    decreases n,
{
    let post = CacheModel::empty(cap).after_all(steps, n);
    if n > 0 {
        let m = CacheModel::empty(cap).after_all(steps, n - 1);
        law_the_results_fit_the_budget(cap, steps, f, n - 1);
        law_every_hit_is_the_result_for_its_key(cap, steps, f, n - 1);
        assert(m.can(steps[n - 1]));
        lemma_step_charges_by_weight(m, steps[n - 1], f);
    }
    law_the_charges_fit_the_budget(cap, steps, n);
    assert forall|i: int| 0 <= i < post.order.len() implies post.entries.contains_key(
        #[trigger] post.order[i],
    ) by {
        assert(post.order.contains(post.order[i]));
    }
    lemma_weight_is_charged(post, post.order);
}

// ---- A caller that has the cache to itself ----

impl CacheModel {
    /// Whether no request is under way: nobody holds a slot, and nobody computes.
    pub open spec fn quiet(self) -> bool {
        &&& self.valid()
        &&& forall|id: int| #[trigger]
            self.slots.contains_key(id) ==> self.slots[id].holders == 0 && !(
            self.slots[id].progress is Running)
    }
}

/// The cache that a caller starts with has no request under way.
pub proof fn law_a_new_cache_is_quiet(cap: nat)
    ensures
        CacheModel::empty(cap).quiet(),
        CacheModel::empty(cap).tallied(),
{
}

/// A request that is served from the cache changes nothing but the count of
/// hits.
pub proof fn law_a_hit_changes_its_count_only(m: CacheModel, key: KeyModel)
    requires
        m.quiet(),
        m.progress_of(key) is Ready,
    ensures
        m.recalled(key) == (CacheModel { hits: m.recalled(key).hits, ..m }),
{
    let id = m.entries[key].slot;
    assert(m.slots.contains_key(id));
    assert(m.resident(id));
    assert(m.recalled(key).slots =~= m.slots);
}

/// A request whose result had to be computed leaves no request under way, and
/// the count of bytes exact.
proof fn lemma_computed_quiet(m: CacheModel, key: KeyModel, fresh: int, outcome: Outcome)
    requires
        m.quiet(),
        m.tallied(),
        !(m.progress_of(key) is Ready),
        m.entries.contains_key(key) || !m.slots.contains_key(fresh),
        outcome matches Ok(bytes) ==> m.bytes + bytes.len() <= usize::MAX,
    ensures
        m.computed(key, fresh, outcome).quiet(),
        m.computed(key, fresh, outcome).tallied(),
{
    let id = m.slot_for(key, fresh);
    let take = Move::Take { key, fresh };
    let enter = Move::Enter { id };
    let finish = Move::Complete { id, outcome };
    let taken = m.after(take);
    let started = taken.after(enter);
    let post = m.computed(key, fresh, outcome);
    law_steps_keep_the_state_valid(m, take);
    law_the_count_is_exact(m, take);
    law_steps_keep_the_state_valid(taken, enter);
    law_the_count_is_exact(taken, enter);
    assert(post == started.after(finish));
    law_steps_keep_the_state_valid(started, finish);
    law_the_count_is_exact(started, finish);
    assert forall|other: int| #[trigger] post.slots.contains_key(other) implies
        post.slots[other].holders == 0 && !(post.slots[other].progress is Running) by {
        let ready = Progress::Ready(outcome);
        let filled = started.with_progress(id, ready).released(id);
        lemma_with_progress_valid(started, id, ready);
        lemma_released_valid(started.with_progress(id, ready), id);
        if let Ok(bytes) = outcome {
            lemma_charged_valid(filled, key, bytes.len());
            lemma_trimmed_slots(filled.charged(key, bytes.len()), other);
        }
        if other != id {
            assert(m.slots.contains_key(other));
        }
    }
}

/// A caller that makes its requests one by one always finds the cache with no
/// request under way and the count of bytes exact.
pub proof fn law_requests_one_by_one_leave_nothing_open<F>(
    pre: CacheModel,
    post: CacheModel,
    key: KeyModel,
    compute: F,
    result: Result<Vec<u8>, String>,
) where F: FnOnce() -> Result<Vec<u8>, String>
    requires
        pre.quiet(),
        pre.tallied(),
        rpc_cache::cached_result(pre, post, key, compute, result),
        result matches Ok(bytes) ==> pre.bytes + bytes@.len() <= usize::MAX,
    ensures
        post.quiet(),
        post.tallied(),
{
    if pre.enabled() {
        if pre.progress_of(key) is Ready {
            law_a_hit_changes_its_count_only(pre, key);
            assert forall|id: int| #[trigger] post.slots.contains_key(id) implies
                post.slots[id].holders > 0 || post.resident(id) by {
                assert(pre.slots.contains_key(id));
            }
        } else {
            let (computed, fresh) = choose|computed: Result<Vec<u8>, String>, fresh: int| #[trigger]
                rpc_cache::missed(pre, post, key, compute, result, computed, fresh);
            lemma_computed_quiet(pre, key, fresh, rpc_cache::reply(computed));
        }
    }
}

/// The result of a request whose key was absent can be read back from the cache
/// unless it alone exceeds the budget; in that case nothing stays. A failure can
/// always be read back.
pub proof fn law_what_was_computed_is_read_back(
    m: CacheModel,
    key: KeyModel,
    fresh: int,
    outcome: Outcome,
)
    requires
        m.quiet(),
        m.tallied(),
        !m.entries.contains_key(key),
        !m.slots.contains_key(fresh),
        outcome matches Ok(bytes) ==> m.bytes + bytes.len() <= usize::MAX,
    ensures
        match outcome {
            Err(_) => m.computed(key, fresh, outcome).progress_of(key) == Progress::Ready(outcome),
            Ok(bytes) => if bytes.len() <= m.cap {
                m.computed(key, fresh, outcome).progress_of(key) == Progress::Ready(outcome)
            } else {
                m.computed(key, fresh, outcome).order.len() == 0
            },
        },
{
    let take = Move::Take { key, fresh };
    let enter = Move::Enter { id: fresh };
    let taken = m.after(take);
    let started = taken.after(enter);
    let post = m.computed(key, fresh, outcome);
    lemma_computed_quiet(m, key, fresh, outcome);
    law_steps_keep_the_state_valid(m, take);
    law_the_count_is_exact(m, take);
    law_steps_keep_the_state_valid(taken, enter);
    let ready = Progress::Ready(outcome);
    let filled = started.with_progress(fresh, ready).released(fresh);
    lemma_with_progress_valid(started, fresh, ready);
    lemma_released_valid(started.with_progress(fresh, ready), fresh);
    assert(filled.entries.contains_key(key));
    assert(filled.slots[fresh].progress == ready);
    if let Ok(bytes) = outcome {
        let charged = filled.charged(key, bytes.len());
        lemma_charged_valid(filled, key, bytes.len());
        lemma_charged_tallied(filled, key, bytes.len());
        let n = law_the_oldest_entries_go_first(charged);
        let last = m.order.len() as int;
        assert(charged.order == m.order.push(key));
        assert(charged.order.skip(last + 1) =~= Seq::<KeyModel>::empty());
        lemma_total_suffix(charged.order, charged.entries, last);
        assert(total(charged.order.skip(last), charged.entries) == bytes.len());
        if n <= last {
            lemma_total_shrinks(charged.order, charged.entries, n, last);
            assert(post.order[last - n] == key);
            assert(post.order.contains(key));
            assert(post.entries.contains_key(key));
            assert(post.entries[key] == charged.entries[key]);
            lemma_trimmed_slots(charged, fresh);
        }
    }
}

/// A computation that unwinds leaves no request under way, the count of bytes
/// exact, and no result: the request was a miss, and the next one for the key
/// computes it, as if nothing had been attempted but for that miss.
pub proof fn law_what_unwound_is_computed_again(m: CacheModel, key: KeyModel, fresh: int)
    requires
        m.quiet(),
        m.tallied(),
        !(m.progress_of(key) is Ready),
        m.entries.contains_key(key) || !m.slots.contains_key(fresh),
    ensures
        m.attempted(key, fresh).quiet(),
        m.attempted(key, fresh).tallied(),
        m.attempted(key, fresh).progress_of(key) is Empty,
        m.attempted(key, fresh).hits == m.hits,
        m.attempted(key, fresh).misses == cache_model::counted(m.misses),
        forall|again: int, outcome: Outcome| #[trigger]
            m.attempted(key, fresh).computed(key, again, outcome) == (CacheModel {
                misses: cache_model::counted(m.misses),
                ..m
            }).computed(key, fresh, outcome),
{
    let id = m.slot_for(key, fresh);
    let take = Move::Take { key, fresh };
    let enter = Move::Enter { id };
    let taken = m.after(take);
    let started = taken.after(enter);
    let tried = m.attempted(key, fresh);
    law_steps_keep_the_state_valid(m, take);
    law_the_count_is_exact(m, take);
    law_steps_keep_the_state_valid(taken, enter);
    law_the_count_is_exact(taken, enter);
    assert(tried == started.after(Move::Abandon { id }));
    law_steps_keep_the_state_valid(started, Move::Abandon { id });
    law_the_count_is_exact(started, Move::Abandon { id });
    m.lemma_attempted_and_kept(key, fresh, Err(Seq::empty()));
    assert forall|other: int| #[trigger] tried.slots.contains_key(other) implies
        tried.slots[other].holders == 0 && !(tried.slots[other].progress is Running) by {
        if other != id {
            assert(m.slots.contains_key(other));
        }
    }
    let missed = CacheModel { misses: cache_model::counted(m.misses), ..m };
    assert forall|again: int, outcome: Outcome| #[trigger]
        tried.computed(key, again, outcome) == missed.computed(key, fresh, outcome) by {
        assert(tried.entries[key].slot == id);
        assert(tried.admitted(key, again).started(id) =~= missed.admitted(key, fresh).started(id));
    }
}

proof fn lemma_total_shrinks(order: Seq<KeyModel>, entries: Map<KeyModel, Entry>, a: int, b: int)
    requires
        0 <= a <= b <= order.len(),
    ensures
        total(order.skip(b), entries) <= total(order.skip(a), entries),
    decreases b - a,
{
    if a < b {
        lemma_total_suffix(order, entries, a);
        lemma_total_shrinks(order, entries, a + 1, b);
    }
}

// ---- The counts ----

/// How many of the first `n` steps are answered from the cache, and how many of
/// them start a computation.
pub open spec fn answers(m: CacheModel, steps: Seq<Move>, n: int) -> (nat, nat)
    decreases n,
{
    if n <= 0 {
        (0, 0)
    } else {
        let (hits, misses) = answers(m, steps, n - 1);
        match steps[n - 1] {
            Move::Enter { id } => match m.after_all(steps, n - 1).slots[id].progress {
                Progress::Ready(_) => (hits + 1, misses),
                Progress::Empty => (hits, misses + 1),
                Progress::Running => (hits, misses),
            },
            _ => (hits, misses),
        }
    }
}

pub(crate) proof fn lemma_trimmed_counts(m: CacheModel)
    ensures
        m.trimmed().hits == m.hits,
        m.trimmed().misses == m.misses,
    decreases m.order.len(),
{
    if m.bytes > m.cap && m.order.len() > 0 {
        lemma_trimmed_counts(m.evicted_oldest());
    }
}

/// The hits are the requests that were answered from the cache, and the misses
/// those that had to compute; a request that waits counts when its wait is over.
pub proof fn law_every_answer_is_counted(cap: nat, steps: Seq<Move>, n: int)
    requires
        0 <= n <= steps.len(),
        n <= u64::MAX,
    ensures
        CacheModel::empty(cap).after_all(steps, n).hits == answers(
            CacheModel::empty(cap),
            steps,
            n,
        ).0,
        CacheModel::empty(cap).after_all(steps, n).misses == answers(
            CacheModel::empty(cap),
            steps,
            n,
        ).1,
        answers(CacheModel::empty(cap), steps, n).0 + answers(CacheModel::empty(cap), steps, n).1
            <= n,
    decreases n,
{
    if n > 0 {
        let m = CacheModel::empty(cap).after_all(steps, n - 1);
        law_every_answer_is_counted(cap, steps, n - 1);
        lemma_step_counts(m, steps[n - 1]);
    }
}

/// The cache is off unless the setting asks for it with a number above 0.
pub proof fn law_the_cache_is_off_unless_asked_for(setting: Option<Seq<char>>)
    ensures
        CacheModel::empty(cache_setting::budget(setting) as nat).enabled() <==> (
        setting matches Some(text) && cache_setting::number(text) matches Some(bytes) && bytes > 0),
{
}

} // verus!
