//! What holds of the requests whose results are cached: of their keys and of
//! their replies.
use crate::cache_key::KeyModel;
use crate::cache_laws;
use crate::cache_laws::Move;
use crate::cache_model::{CacheModel, Outcome, Progress};
use crate::error;
use crate::operation_laws;
use crate::request;
use crate::request::{CachedRequest, DirectRequest, Failure};
use crate::rpc_cache;
use crate::runtime_call::RuntimeCall;
use crate::scale;
use jsonrpsee::types::ErrorObjectOwned;
use vstd::prelude::*;

verus! {

proof fn lemma_u16_bytes(a: u16, b: u16)
    requires
        scale::u16_bytes(a) == scale::u16_bytes(b),
    ensures
        a == b,
{
    assert(scale::u16_bytes(a)[0] == scale::u16_bytes(b)[0]);
    assert(scale::u16_bytes(a)[1] == scale::u16_bytes(b)[1]);
    assert(a % 256 == b % 256);
    assert(a / 256 == b / 256);
}

/// The low bits of the first byte of a compact length tell how many bytes there
/// are.
proof fn lemma_compact_form(n: nat)
    requires
        n <= u32::MAX,
    ensures
        scale::compact_bytes(n).len() == (if n < 64 {
            1int
        } else if n < 16384 {
            2
        } else if n < 1073741824 {
            4
        } else {
            5
        }),
        scale::compact_bytes(n)[0] % 4 == (if n < 64 {
            0int
        } else if n < 16384 {
            1
        } else if n < 1073741824 {
            2
        } else {
            3
        }),
{
    if 64 <= n < 16384 {
        assert(((4 * n + 1) as u16 % 256) as u8 % 4 == 1);
    } else if 16384 <= n < 1073741824 {
        assert((((4 * n + 2) as u32 % 65536) as u16 % 256) as u8 % 4 == 2);
    }
}

proof fn lemma_list_bytes(a: Seq<u16>, b: Seq<u16>)
    requires
        a.len() <= u32::MAX,
        b.len() <= u32::MAX,
        scale::u16_list_bytes(a) == scale::u16_list_bytes(b),
    ensures
        a == b,
{
    let (x, y) = (scale::u16_list_bytes(a), scale::u16_list_bytes(b));
    let (p, q) = (scale::compact_bytes(a.len()), scale::compact_bytes(b.len()));
    lemma_compact_form(a.len());
    lemma_compact_form(b.len());
    assert(x[0] == p[0]);
    assert(y[0] == q[0]);
    assert(p.len() == q.len());
    assert(x.len() == p.len() + 2 * a.len());
    assert(y.len() == q.len() + 2 * b.len());
    assert(a.len() == b.len());
    assert forall|i: int| 0 <= i < a.len() implies a[i] == b[i] by {
        assert(x[p.len() + 2 * i] == scale::u16_bytes(a[i])[0]);
        assert(y[p.len() + 2 * i] == scale::u16_bytes(b[i])[0]);
        assert(x[p.len() + 2 * i + 1] == scale::u16_bytes(a[i])[1]);
        assert(y[p.len() + 2 * i + 1] == scale::u16_bytes(b[i])[1]);
        assert(scale::u16_bytes(a[i]) =~= scale::u16_bytes(b[i]));
        lemma_u16_bytes(a[i], b[i]);
    }
    assert(a =~= b);
}

/// Calls that are cached under different names are told apart by the length of
/// the name and two of its characters.
proof fn lemma_names(a: RuntimeCall, b: RuntimeCall)
    requires
        a.cache_name() is Some,
        a.cache_name() == b.cache_name(),
    ensures
        a.function_index() == b.function_index(),
{
    reveal_strlit("get_delegates");
    assert("get_delegates"@.len() == 13);
    reveal_strlit("get_neurons_lite");
    assert("get_neurons_lite"@.len() == 16);
    reveal_strlit("get_neuron_lite");
    assert("get_neuron_lite"@.len() == 15);
    reveal_strlit("get_neurons");
    assert("get_neurons"@.len() == 11);
    reveal_strlit("get_neuron");
    assert("get_neuron"@.len() == 10);
    reveal_strlit("get_subnet_hyperparams");
    assert("get_subnet_hyperparams"@.len() == 22);
    reveal_strlit("get_subnet_hyperparams_v2");
    assert("get_subnet_hyperparams_v2"@.len() == 25);
    reveal_strlit("get_all_dynamic_info");
    assert("get_all_dynamic_info"@.len() == 20);
    reveal_strlit("get_all_metagraphs");
    assert("get_all_metagraphs"@.len() == 18);
    reveal_strlit("get_all_mechagraphs");
    assert("get_all_mechagraphs"@.len() == 19);
    reveal_strlit("get_dynamic_info");
    assert("get_dynamic_info"@.len() == 16);
    reveal_strlit("get_metagraph");
    assert("get_metagraph"@.len() == 13);
    reveal_strlit("get_mechagraph");
    assert("get_mechagraph"@.len() == 14);
    reveal_strlit("get_subnet_state");
    assert("get_subnet_state"@.len() == 16);
    reveal_strlit("get_subnets_info");
    assert("get_subnets_info"@.len() == 16);
    reveal_strlit("get_subnets_info_v2");
    assert("get_subnets_info_v2"@.len() == 19);
    reveal_strlit("get_selective_metagraph");
    assert("get_selective_metagraph"@.len() == 23);
    reveal_strlit("get_selective_mechagraph");
    assert("get_selective_mechagraph"@.len() == 24);
    reveal_strlit("get_validator_basket");
    assert("get_validator_basket"@.len() == 20);
    reveal_strlit("get_all_validator_baskets");
    assert("get_all_validator_baskets"@.len() == 25);
    assert("get_delegates"@[4] == 'd');
    assert("get_neurons_lite"@[4] == 'n');
    assert("get_subnet_hyperparams_v2"@[4] == 's');
    assert("get_all_dynamic_info"@[4] == 'a');
    assert("get_all_mechagraphs"@[4] == 'a');
    assert("get_dynamic_info"@[4] == 'd');
    assert("get_metagraph"@[4] == 'm');
    assert("get_subnet_state"@[4] == 's');
    assert("get_subnets_info"@[4] == 's');
    assert("get_subnets_info_v2"@[4] == 's');
    assert("get_validator_basket"@[4] == 'v');
    assert("get_all_validator_baskets"@[4] == 'a');
    assert("get_subnet_state"@[10] == '_');
    assert("get_subnets_info"@[10] == 's');
}

/// A key pins the call: requests that share a key ask for the same function with
/// the same arguments at the same block. So a result that is cached under a key
/// is the result of every request with that key.
pub proof fn law_one_key_one_call(a: CachedRequest, b: CachedRequest)
    requires
        a.coherent(),
        b.coherent(),
        a.key@ == b.key@,
    ensures
        a.call.same(b.call),
{
    lemma_names(a.call, b.call);
    let (x, y) = (a.key@.params, b.key@.params);
    match (a.call, b.call) {
        (
            RuntimeCall::GetSelectiveMetagraph { netuid: n, metagraph_index: l },
            RuntimeCall::GetSelectiveMetagraph { netuid: m, metagraph_index: k },
        ) => {
            lemma_leading_u16(n.0, scale::u16_list_bytes(l@), m.0, scale::u16_list_bytes(k@));
            lemma_list_bytes(l@, k@);
        },
        (
            RuntimeCall::GetSelectiveMechagraph { netuid: n, mecid: c, metagraph_index: l },
            RuntimeCall::GetSelectiveMechagraph { netuid: m, mecid: d, metagraph_index: k },
        ) => {
            let (p, q) = (
                seq![c.0] + scale::u16_list_bytes(l@),
                seq![d.0] + scale::u16_list_bytes(k@),
            );
            assert(x =~= scale::u16_bytes(n.0) + p);
            assert(y =~= scale::u16_bytes(m.0) + q);
            lemma_leading_u16(n.0, p, m.0, q);
            assert(p[0] == q[0]);
            assert(p.skip(1) =~= scale::u16_list_bytes(l@));
            assert(q.skip(1) =~= scale::u16_list_bytes(k@));
            lemma_list_bytes(l@, k@);
        },
        (
            RuntimeCall::GetNeuronLite { netuid: n, uid: u },
            RuntimeCall::GetNeuronLite { netuid: m, uid: v },
        ) => {
            lemma_leading_u16(n.0, scale::u16_bytes(u), m.0, scale::u16_bytes(v));
            lemma_u16_bytes(u, v);
        },
        (
            RuntimeCall::GetNeuron { netuid: n, uid: u },
            RuntimeCall::GetNeuron { netuid: m, uid: v },
        ) => {
            lemma_leading_u16(n.0, scale::u16_bytes(u), m.0, scale::u16_bytes(v));
            lemma_u16_bytes(u, v);
        },
        (
            RuntimeCall::GetMechagraph { netuid: n, mecid: c },
            RuntimeCall::GetMechagraph { netuid: m, mecid: d },
        ) => {
            lemma_leading_u16(n.0, seq![c.0], m.0, seq![d.0]);
            assert(seq![c.0][0] == seq![d.0][0]);
        },
        (RuntimeCall::GetNeuronsLite { netuid: n }, RuntimeCall::GetNeuronsLite { netuid: m }) => {
            lemma_u16_bytes(n.0, m.0);
        },
        (RuntimeCall::GetNeurons { netuid: n }, RuntimeCall::GetNeurons { netuid: m }) => {
            lemma_u16_bytes(n.0, m.0);
        },
        (
            RuntimeCall::GetSubnetHyperparams { netuid: n },
            RuntimeCall::GetSubnetHyperparams { netuid: m },
        ) => {
            lemma_u16_bytes(n.0, m.0);
        },
        (
            RuntimeCall::GetSubnetHyperparamsV2 { netuid: n },
            RuntimeCall::GetSubnetHyperparamsV2 { netuid: m },
        ) => {
            lemma_u16_bytes(n.0, m.0);
        },
        (RuntimeCall::GetDynamicInfo { netuid: n }, RuntimeCall::GetDynamicInfo { netuid: m }) => {
            lemma_u16_bytes(n.0, m.0);
        },
        (RuntimeCall::GetMetagraph { netuid: n }, RuntimeCall::GetMetagraph { netuid: m }) => {
            lemma_u16_bytes(n.0, m.0);
        },
        (RuntimeCall::GetSubnetState { netuid: n }, RuntimeCall::GetSubnetState { netuid: m }) => {
            lemma_u16_bytes(n.0, m.0);
        },
        (
            RuntimeCall::GetValidatorBasket { hotkey: n },
            RuntimeCall::GetValidatorBasket { hotkey: m },
        ) => {
            assert(n.0@ =~= m.0@);
            assert(n.0 =~= m.0);
        },
        _ => {},
    }
}

/// A leading 16-bit number and what follows it can be told apart.
proof fn lemma_leading_u16(a: u16, p: Seq<u8>, b: u16, q: Seq<u8>)
    requires
        scale::u16_bytes(a) + p == scale::u16_bytes(b) + q,
    ensures
        a == b,
        p == q,
{
    let (x, y) = (scale::u16_bytes(a) + p, scale::u16_bytes(b) + q);
    assert(x.take(2) =~= scale::u16_bytes(a));
    assert(y.take(2) =~= scale::u16_bytes(b));
    assert(x.skip(2) =~= p);
    assert(y.skip(2) =~= q);
    lemma_u16_bytes(a, b);
}

/// What a call whose results are cached is answered where the runtime says
/// `said`: the result as it is, or the report of the failure.
pub open spec fn told(call: RuntimeCall, said: Outcome) -> Outcome {
    match said {
        Ok(bytes) => Ok(bytes),
        Err(detail) => Err(call.failure_words() + detail),
    }
}

/// Whether the runtime's answers are functions of call and block, and blocks are
/// told apart by their encodings.
pub open spec fn settled<H>(
    says: spec_fn(RuntimeCall, H) -> Outcome,
    encode: spec_fn(H) -> Seq<u8>,
) -> bool {
    &&& forall|a: RuntimeCall, b: RuntimeCall, at: H|
        #![trigger says(a, at), says(b, at)]
        a.same(b) ==> says(a, at) == says(b, at)
    &&& forall|a: H, b: H| #[trigger] encode(a) == #[trigger] encode(b) ==> a == b
}

/// Whether an outcome under a key is what the runtime says of every request with
/// that key.
pub open spec fn true_of<H>(
    key: KeyModel,
    outcome: Outcome,
    says: spec_fn(RuntimeCall, H) -> Outcome,
    encode: spec_fn(H) -> Seq<u8>,
) -> bool {
    forall|request: CachedRequest, at: H|
        #![trigger request.coherent(), encode(at)]
        request.coherent() && request.key@ == key && key.at == encode(at) ==> outcome == told(
            request.call,
            says(request.call, at),
        )
}

/// Whether every result in the cache is what the runtime says of every request
/// with its key.
pub open spec fn truthful<H>(
    cache: CacheModel,
    says: spec_fn(RuntimeCall, H) -> Outcome,
    encode: spec_fn(H) -> Seq<u8>,
) -> bool {
    forall|id: int| #[trigger]
        cache.slots.contains_key(id) ==> (cache.slots[id].progress matches Progress::Ready(known)
            ==> true_of(cache.slots[id].key, known, says, encode))
}

/// What the runtime says of one request holds of every request with its key.
proof fn lemma_true_of_all<H>(
    request: CachedRequest,
    at: H,
    says: spec_fn(RuntimeCall, H) -> Outcome,
    encode: spec_fn(H) -> Seq<u8>,
)
    requires
        settled(says, encode),
        request.coherent(),
        request.key@.at == encode(at),
    ensures
        true_of(request.key@, told(request.call, says(request.call, at)), says, encode),
{
    let outcome = told(request.call, says(request.call, at));
    assert forall|other: CachedRequest, block: H|
        #![trigger other.coherent(), encode(block)]
        other.coherent() && other.key@ == request.key@ && request.key@.at == encode(
            block,
        ) implies outcome == told(other.call, says(other.call, block)) by {
        law_one_key_one_call(request, other);
        assert(encode(at) == encode(block));
        assert(says(request.call, at) == says(other.call, at));
    }
}

/// A cache without results is truthful.
pub proof fn law_a_new_cache_is_truthful<H>(
    cap: nat,
    says: spec_fn(RuntimeCall, H) -> Outcome,
    encode: spec_fn(H) -> Seq<u8>,
)
    ensures
        truthful(CacheModel::empty(cap), says, encode),
{
}

/// The cache stays truthful whatever the requests do, as long as computations
/// come to what the runtime says.
pub proof fn law_the_cache_stays_truthful<H>(
    m: CacheModel,
    step: Move,
    says: spec_fn(RuntimeCall, H) -> Outcome,
    encode: spec_fn(H) -> Seq<u8>,
)
    requires
        m.valid(),
        m.can(step),
        truthful(m, says, encode),
        step matches Move::Complete { id, outcome } ==> true_of(
            m.slots[id].key,
            outcome,
            says,
            encode,
        ),
    ensures
        truthful(m.after(step), says, encode),
{
    let post = m.after(step);
    assert forall|id: int| #[trigger] post.slots.contains_key(id) implies (
    post.slots[id].progress matches Progress::Ready(known) ==> true_of(
        post.slots[id].key,
        known,
        says,
        encode,
    )) by {
        if m.slots.contains_key(id) {
            cache_laws::law_a_slot_changes_by_its_own_steps_only(m, step, id);
        } else {
            cache_laws::lemma_slots_are_taken(m, step, id);
        }
    }
}

/// The reply of a cached request is the runtime's reply: where the runtime's
/// answer is a function of the call and the block, and the key has the encoding
/// of the block that the runtime is called at, the reply is what the runtime
/// says of that call at that block, be the cache on or off and the result cached
/// or not. The cache stays truthful by it.
pub proof fn law_the_reply_is_the_answer_of_the_runtime<H, R>(
    pre: CacheModel,
    post: CacheModel,
    request: CachedRequest,
    at: H,
    runtime: R,
    reply: Result<Vec<u8>, ErrorObjectOwned>,
    says: spec_fn(RuntimeCall, H) -> Outcome,
    encode: spec_fn(H) -> Seq<u8>,
) where R: FnOnce(H, RuntimeCall) -> Result<Vec<u8>, String>
    requires
        settled(says, encode),
        pre.valid(),
        truthful(pre, says, encode),
        pre.enabled() ==> !(pre.progress_of(request.key@) is Running),
        request.coherent(),
        request.key@.at == encode(at),
        forall|answer: Result<Vec<u8>, String>| #[trigger]
            call_ensures(runtime, (at, request.call), answer) ==> rpc_cache::reply(answer) == says(
                request.call,
                at,
            ),
        request::served(pre, post, request, at, runtime, reply),
    ensures
        request::replies(reply, told(request.call, says(request.call, at))),
        post.valid(),
        truthful(post, says, encode),
{
    let key = request.key@;
    let outcome = told(request.call, says(request.call, at));
    lemma_true_of_all(request, at, says, encode);
    if pre.enabled() && pre.progress_of(key) is Ready {
        let id = pre.entries[key].slot;
        let take = Move::Take { key, fresh: id };
        let enter = Move::Enter { id };
        assert(pre.slots.contains_key(id));
        assert(request.coherent() && key.at == encode(at));
        cache_laws::law_steps_keep_the_state_valid(pre, take);
        law_the_cache_stays_truthful(pre, take, says, encode);
        cache_laws::law_steps_keep_the_state_valid(pre.after(take), enter);
        law_the_cache_stays_truthful(pre.after(take), enter, says, encode);
        assert(post == pre.after(take).after(enter));
    } else {
        let (answer, fresh) = choose|answer: Result<Vec<u8>, String>, fresh: int| #[trigger]
            request::answered(pre, post, request, at, runtime, reply, answer, fresh);
        assert(call_ensures(runtime, (at, request.call), answer));
        assert(request::outcome_of(request.failure, answer) == outcome);
        if pre.enabled() {
            let id = pre.slot_for(key, fresh);
            let take = Move::Take { key, fresh };
            let enter = Move::Enter { id };
            let finish = Move::Complete { id, outcome };
            let taken = pre.after(take);
            let started = taken.after(enter);
            cache_laws::law_steps_keep_the_state_valid(pre, take);
            law_the_cache_stays_truthful(pre, take, says, encode);
            cache_laws::law_steps_keep_the_state_valid(taken, enter);
            law_the_cache_stays_truthful(taken, enter, says, encode);
            assert(started == taken.started(id));
            assert(post == started.after(finish));
            cache_laws::law_steps_keep_the_state_valid(started, finish);
            law_the_cache_stays_truthful(started, finish, says, encode);
        }
    }
}

/// The whole course of a cached method ends in the runtime's answer. Where the
/// runtime's answer is a function of the call and the block, and `method` makes
/// requests whose keys have the encodings that it is given, the reply is what the
/// runtime says of the call that `method` makes, at the given block, or else at
/// the best one known.
pub proof fn law_a_method_is_answered_by_the_runtime<H, B, E, M, R>(
    pre: CacheModel,
    post: CacheModel,
    at: Option<H>,
    best_hash: B,
    encode: E,
    method: M,
    hash: H,
    request: CachedRequest,
    runtime: R,
    reply: Result<Vec<u8>, ErrorObjectOwned>,
    says: spec_fn(RuntimeCall, H) -> Outcome,
    encoding: spec_fn(H) -> Seq<u8>,
) where
    B: FnOnce() -> H,
    E: FnOnce(&H) -> Vec<u8>,
    M: FnOnce(Vec<u8>) -> CachedRequest,
    R: FnOnce(H, RuntimeCall) -> Result<Vec<u8>, String>,

    requires
        settled(says, encoding),
        pre.valid(),
        truthful(pre, says, encoding),
        forall|block: H, bytes: Vec<u8>| #[trigger]
            call_ensures(encode, (&block,), bytes) ==> bytes@ == encoding(block),
        forall|bytes: Vec<u8>, made: CachedRequest| #[trigger]
            call_ensures(method, (bytes,), made) ==> made.coherent() && made.key@.at == bytes@,
        forall|block: H, call: RuntimeCall, answer: Result<Vec<u8>, String>| #[trigger]
            call_ensures(runtime, (block, call), answer) ==> rpc_cache::reply(answer) == says(
                call,
                block,
            ),
        pre.enabled() ==> !(pre.progress_of(request.key@) is Running),
        request::pins(at, best_hash, encode, method, hash, request),
        request::served(pre, post, request, hash, runtime, reply),
    ensures
        request.key@.at == encoding(hash),
        request::replies(reply, told(request.call, says(request.call, hash))),
        post.valid(),
        truthful(post, says, encoding),
{
    law_the_reply_is_the_answer_of_the_runtime(
        pre,
        post,
        request,
        hash,
        runtime,
        reply,
        says,
        encoding,
    );
}

/// In a truthful cache, a slot that has its result holds what the runtime says of
/// every request with the key of the slot. So a request that shares the cache and
/// is served from a slot is answered that.
pub proof fn law_a_ready_slot_holds_the_answer_of_the_runtime<H>(
    m: CacheModel,
    id: int,
    request: CachedRequest,
    at: H,
    says: spec_fn(RuntimeCall, H) -> Outcome,
    encode: spec_fn(H) -> Seq<u8>,
)
    requires
        truthful(m, says, encode),
        m.slots.contains_key(id),
        m.slots[id].progress is Ready,
        m.slots[id].key == request.key@,
        request.coherent(),
        request.key@.at == encode(at),
    ensures
        m.slots[id].progress == Progress::Ready(told(request.call, says(request.call, at))),
{
    assert(request.coherent() && request.key@.at == encode(at));
}

/// What a request reports of the runtime's answer is what the runtime says of
/// every request with its key, so to complete its slot with it keeps the cache
/// truthful.
pub proof fn law_what_is_reported_is_true<H>(
    request: CachedRequest,
    at: H,
    answer: Result<Vec<u8>, String>,
    says: spec_fn(RuntimeCall, H) -> Outcome,
    encode: spec_fn(H) -> Seq<u8>,
)
    requires
        settled(says, encode),
        request.coherent(),
        request.key@.at == encode(at),
        rpc_cache::reply(answer) == says(request.call, at),
    ensures
        request::outcome_of(request.failure, answer) == told(request.call, says(request.call, at)),
        true_of(request.key@, request::outcome_of(request.failure, answer), says, encode),
{
    lemma_true_of_all(request, at, says, encode);
}

proof fn lemma_all_truthful<H>(
    cap: nat,
    steps: Seq<Move>,
    says: spec_fn(RuntimeCall, H) -> Outcome,
    encode: spec_fn(H) -> Seq<u8>,
    n: int,
)
    requires
        CacheModel::empty(cap).can_all(steps),
        forall|k: int|
            0 <= k < steps.len() ==> (#[trigger] steps[k] matches Move::Complete { id, outcome }
                ==> true_of(
                CacheModel::empty(cap).after_all(steps, k).slots[id].key,
                outcome,
                says,
                encode,
            )),
        0 <= n <= steps.len(),
    ensures
        CacheModel::empty(cap).after_all(steps, n).valid(),
        truthful(CacheModel::empty(cap).after_all(steps, n), says, encode),
    decreases n,
{
    if n > 0 {
        let m = CacheModel::empty(cap).after_all(steps, n - 1);
        lemma_all_truthful(cap, steps, says, encode, n - 1);
        assert(m.can(steps[n - 1]));
        cache_laws::law_steps_keep_the_state_valid(m, steps[n - 1]);
        law_the_cache_stays_truthful(m, steps[n - 1], says, encode);
    }
}

/// Requests that share a cache are answered what the runtime says: whatever the
/// requests do, as long as each computation comes to what the runtime says, every
/// answer to a request, be it served from a slot or computed by itself, is what
/// the runtime says of its call at its block.
pub proof fn law_sharing_requests_are_answered_by_the_runtime<H>(
    cap: nat,
    steps: Seq<Move>,
    request: CachedRequest,
    at: H,
    says: spec_fn(RuntimeCall, H) -> Outcome,
    encode: spec_fn(H) -> Seq<u8>,
    n: int,
)
    requires
        CacheModel::empty(cap).can_all(steps),
        forall|k: int|
            0 <= k < steps.len() ==> (#[trigger] steps[k] matches Move::Complete { id, outcome }
                ==> true_of(
                CacheModel::empty(cap).after_all(steps, k).slots[id].key,
                outcome,
                says,
                encode,
            )),
        request.coherent(),
        request.key@.at == encode(at),
        0 <= n < steps.len(),
        CacheModel::empty(cap).after_all(steps, n).concerns(steps[n], request.key@),
    ensures
        CacheModel::empty(cap).after_all(steps, n).answer(steps[n]) matches Some(outcome)
            ==> outcome == told(request.call, says(request.call, at)),
{
    let m = CacheModel::empty(cap).after_all(steps, n);
    lemma_all_truthful(cap, steps, says, encode, n);
    assert(m.can(steps[n]));
    assert(request.coherent() && request.key@.at == encode(at));
    if let Move::Enter { id } = steps[n] {
        if m.slots[id].progress is Ready {
            law_a_ready_slot_holds_the_answer_of_the_runtime(m, id, request, at, says, encode);
        }
    }
}

/// A failure is reported with the words for it and, if it is described, with what
/// the runtime says; these words are the ones that a request is said to have.
pub proof fn law_a_failure_is_reported_in_its_words(
    failure: Failure,
    words: Seq<char>,
    detail: Seq<char>,
)
    ensures
        match failure {
            Failure::Described(text) => {
                &&& failure.message(detail) == text@ + detail
                &&& failure.describes(words) <==> text@ == words
                &&& !failure.is_fixed(words)
            },
            Failure::Fixed(text) => {
                &&& failure.message(detail) == text@
                &&& failure.is_fixed(words) <==> text@ == words
                &&& !failure.describes(words)
            },
        },
{
}

/// A result is never reported as a failure, nor a failure as a result.
pub proof fn law_a_result_is_not_a_failure<T>(failure: Failure, answer: Result<T, String>)
    ensures
        match answer {
            Ok(value) => request::reported(failure, answer) == Ok::<T, Seq<char>>(value),
            Err(detail) => request::reported(failure, answer) == Err::<T, Seq<char>>(
                match failure {
                    Failure::Described(words) => words@ + detail@,
                    Failure::Fixed(words) => words@,
                },
            ),
        },
{
}

/// A method that is not cached replies with the runtime's answer: a result is the
/// reply as it is, whatever failures are reported as, and only a failure is
/// replied to with an error.
pub proof fn law_a_direct_reply_is_the_answer<H, Q, T, R>(
    request: DirectRequest<Q>,
    at: H,
    runtime: R,
    reply: Result<T, ErrorObjectOwned>,
) where R: FnOnce(H, Q) -> Result<T, String>
    requires
        call_ensures(request::serve_direct::<H, Q, T, R>, (request, at, runtime), reply),
    ensures
        exists|answer: Result<T, String>| #[trigger]
            call_ensures(runtime, (at, request.call), answer) && match answer {
                Ok(value) => reply == Ok::<T, ErrorObjectOwned>(value),
                Err(detail) => reply == Err::<T, ErrorObjectOwned>(
                    error::error_object(
                        1,
                        match request.failure {
                            Failure::Described(words) => words@ + detail@,
                            Failure::Fixed(words) => words@,
                        },
                    ),
                ),
            },
{
}

/// The same of the two steps that a shared request takes with the runtime's
/// answer: it is reported, and the report is the reply.
pub proof fn law_a_report_becomes_the_reply<T>(
    failure: Failure,
    answer: Result<T, String>,
    result: Result<T, String>,
    reply: Result<T, ErrorObjectOwned>,
)
    requires
        call_ensures(request::report::<T>, (&failure, answer), result),
        call_ensures(request::to_reply::<T>, (result,), reply),
    ensures
        match answer {
            Ok(value) => reply == Ok::<T, ErrorObjectOwned>(value),
            Err(detail) => reply == Err::<T, ErrorObjectOwned>(
                error::error_object(
                    1,
                    match failure {
                        Failure::Described(words) => words@ + detail@,
                        Failure::Fixed(words) => words@,
                    },
                ),
            ),
        },
{
}

/// A cached method replies with the result that the cache has, if it is on and has
/// one: with the bytes, or with the error that was reported.
pub proof fn law_a_cached_result_is_the_reply<H, R>(
    pre: CacheModel,
    post: CacheModel,
    request: CachedRequest,
    at: H,
    runtime: R,
    reply: Result<Vec<u8>, ErrorObjectOwned>,
) where R: FnOnce(H, RuntimeCall) -> Result<Vec<u8>, String>
    requires
        pre.cap > 0,
        pre.entries.contains_key(request.key@),
        pre.slots[pre.entries[request.key@].slot].progress is Ready,
        request::served(pre, post, request, at, runtime, reply),
    ensures
        match pre.slots[pre.entries[request.key@].slot].progress->Ready_0 {
            Ok(bytes) => reply matches Ok(given) && given@ == bytes,
            Err(message) => reply == Err::<Vec<u8>, ErrorObjectOwned>(
                error::error_object(1, message),
            ),
        },
        post == pre.recalled(request.key@),
{
}

/// A cached method replies with the runtime's answer, if the cache is off or has no
/// result; and if it is on, what is kept is what was replied.
pub proof fn law_an_absent_result_is_asked_of_the_runtime<H, R>(
    pre: CacheModel,
    post: CacheModel,
    request: CachedRequest,
    at: H,
    runtime: R,
    reply: Result<Vec<u8>, ErrorObjectOwned>,
) -> (answer: Result<Vec<u8>, String>) where R: FnOnce(H, RuntimeCall) -> Result<Vec<u8>, String>
    requires
        pre.valid(),
        pre.cap > 0 && pre.entries.contains_key(request.key@) ==> !(
        pre.slots[pre.entries[request.key@].slot].progress is Ready),
        request::served(pre, post, request, at, runtime, reply),
    ensures
        call_ensures(runtime, (at, request.call), answer),
        match answer {
            Ok(bytes) => reply matches Ok(given) && given@ == bytes@,
            Err(detail) => reply == Err::<Vec<u8>, ErrorObjectOwned>(
                error::error_object(
                    1,
                    match request.failure {
                        Failure::Described(words) => words@ + detail@,
                        Failure::Fixed(words) => words@,
                    },
                ),
            ),
        },
        pre.cap == 0 ==> post == pre,
        pre.cap > 0 ==> exists|fresh: int|
            (pre.entries.contains_key(request.key@) || !pre.slots.contains_key(fresh)) && post == (
            #[trigger] pre.attempted(request.key@, fresh)).kept(
                request.key@,
                match answer {
                    Ok(bytes) => Ok(bytes@),
                    Err(detail) => Err(
                        match request.failure {
                            Failure::Described(words) => words@ + detail@,
                            Failure::Fixed(words) => words@,
                        },
                    ),
                },
            ),
{
    let (answer, fresh) = choose|answer: Result<Vec<u8>, String>, fresh: int| #[trigger]
        request::answered(pre, post, request, at, runtime, reply, answer, fresh);
    if pre.cap > 0 {
        operation_laws::law_to_compute_is_to_attempt_and_to_keep(
            pre,
            request.key@,
            fresh,
            request::outcome_of(request.failure, answer),
        );
        assert(post == pre.attempted(request.key@, fresh).kept(
            request.key@,
            request::outcome_of(request.failure, answer),
        ));
    }
    answer
}

/// A pinned request is answered at the given block, or else at the best one known,
/// and is made for the encoding of that block.
pub proof fn law_a_pinned_request_is_for_its_block<H, B, E, M>(
    at: Option<H>,
    best_hash: B,
    encode: E,
    method: M,
    pinned: (H, CachedRequest),
) -> (bytes: Vec<u8>) where
    B: FnOnce() -> H,
    E: FnOnce(&H) -> Vec<u8>,
    M: FnOnce(Vec<u8>) -> CachedRequest,

    requires
        call_ensures(
            request::pinned_request::<H, B, E, M>,
            (at, best_hash, encode, method),
            pinned,
        ),
    ensures
        match at {
            Some(given) => pinned.0 == given,
            None => call_ensures(best_hash, (), pinned.0),
        },
        call_ensures(encode, (&pinned.0,), bytes),
        call_ensures(method, (bytes,), pinned.1),
{
    choose|bytes: Vec<u8>|
        call_ensures(encode, (&pinned.0,), bytes) && call_ensures(method, (bytes,), pinned.1)
}

} // verus!
