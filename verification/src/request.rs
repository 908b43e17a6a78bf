//! How a request is carried out: the runtime is called, what it says is turned
//! into a reply, and where the results are cached, the cache is asked first.
use crate::cache_key::Key;
use crate::cache_model::{CacheModel, Outcome, Progress};
use crate::error;
use crate::error::Error;
use crate::rpc_cache;
use crate::rpc_cache::ResultCache;
use crate::runtime_call::RuntimeCall;
use jsonrpsee::types::ErrorObjectOwned;
use vstd::prelude::*;

verus! {

/// What a failed runtime call is reported as.
#[derive(Debug, PartialEq)]
pub enum Failure {
    /// The given words, followed by what the runtime says.
    Described(&'static str),
    /// The given words, whatever the runtime says.
    Fixed(&'static str),
}

impl Failure {
    /// Whether failures are reported by the given words and what the runtime
    /// says.
    pub open spec fn describes(self, words: Seq<char>) -> bool {
        self matches Failure::Described(text) && text@ == words
    }

    /// Whether failures are reported by the given words alone.
    pub open spec fn is_fixed(self, words: Seq<char>) -> bool {
        self matches Failure::Fixed(text) && text@ == words
    }

    /// The report of a failure of which the runtime says `detail`.
    pub open spec fn message(self, detail: Seq<char>) -> Seq<char> {
        match self {
            Failure::Described(words) => words@ + detail,
            Failure::Fixed(words) => words@,
        }
    }

    /// The report of a failure of which the runtime says `detail`.
    pub fn describe(&self, detail: &str) -> (message: String)
        ensures
            message@ == self.message(detail@),
            match *self {
                Failure::Described(words) => message@ == words@ + detail@,
                Failure::Fixed(words) => message@ == words@,
            },
    {
        match self {
            Failure::Described(words) => {
                let mut message = (*words).to_owned();
                message.append(detail);
                message
            },
            Failure::Fixed(words) => (*words).to_owned(),
        }
    }
}

/// What is said of an answer of the runtime: the result as it is, or the report
/// of the failure.
pub open spec fn reported<T>(failure: Failure, answer: Result<T, String>) -> Result<T, Seq<char>> {
    match answer {
        Ok(result) => Ok(result),
        Err(detail) => Err(failure.message(detail@)),
    }
}

/// Turns what the runtime says of a failure into the report of it.
pub fn report<T>(failure: &Failure, answer: Result<T, String>) -> (result: Result<T, String>)
    ensures
        match reported(*failure, answer) {
            Ok(value) => result == Ok::<T, String>(value),
            Err(message) => result matches Err(text) && text@ == message,
        },
        match answer {
            Ok(value) => result == Ok::<T, String>(value),
            Err(detail) => result matches Err(text) && text@ == match *failure {
                Failure::Described(words) => words@ + detail@,
                Failure::Fixed(words) => words@,
            },
        },
{
    match answer {
        Ok(result) => Ok(result),
        Err(detail) => Err(failure.describe(detail.as_str())),
    }
}

/// Turns a result, or the report of a failure, into the reply of an RPC method.
pub fn to_reply<T>(result: Result<T, String>) -> (reply: Result<T, ErrorObjectOwned>)
    ensures
        match result {
            Ok(value) => reply == Ok::<T, ErrorObjectOwned>(value),
            Err(message) => reply == Err::<T, ErrorObjectOwned>(
                error::error_object(error::RUNTIME_ERROR, message@),
            ),
        },
{
    match result {
        Ok(value) => Ok(value),
        Err(message) => Err(ErrorObjectOwned::from(Error::RuntimeError(message))),
    }
}

/// The block that a request is answered at: the given one, or else the best one
/// known, which is asked for only then.
pub fn block<H, B>(at: Option<H>, best_hash: B) -> (hash: H) where B: FnOnce() -> H
    requires
        at is None ==> call_requires(best_hash, ()),
    ensures
        match at {
            Some(given) => hash == given,
            None => call_ensures(best_hash, (), hash),
        },
{
    match at {
        Some(given) => given,
        None => best_hash(),
    }
}

/// The block that a request is answered at, with its encoding: the given block,
/// or else the best one known.
pub fn pinned<H, B, E>(at: Option<H>, best_hash: B, encode: E) -> (block: (H, Vec<u8>)) where
    B: FnOnce() -> H,
    E: FnOnce(&H) -> Vec<u8>,

    requires
        at is None ==> call_requires(best_hash, ()),
        forall|hash: H| #[trigger] call_requires(encode, (&hash,)),
    ensures
        match at {
            Some(given) => block.0 == given,
            None => call_ensures(best_hash, (), block.0),
        },
        call_ensures(encode, (&block.0,), block.1),
{
    let hash = self::block(at, best_hash);
    let bytes = encode(&hash);
    (hash, bytes)
}

/// A request whose result is not cached.
#[derive(Debug, PartialEq)]
pub struct DirectRequest<Q> {
    pub call: Q,
    pub failure: Failure,
}

/// A request whose result is cached under a key.
#[derive(Debug)]
pub struct CachedRequest {
    pub call: RuntimeCall,
    pub key: Key,
    pub failure: Failure,
}

impl CachedRequest {
    /// Whether the key is the one of the call, and failures are reported with the
    /// words for the call.
    pub open spec fn coherent(self) -> bool {
        &&& self.call.cache_name() == Some(self.key@.call)
        &&& self.call.params() == self.key@.params
        &&& self.call.encodable()
        &&& self.failure.describes(self.call.failure_words())
    }
}

/// Carries out a request whose result is not cached: calls the runtime at the
/// block `at` and replies with what it says.
pub fn serve_direct<H, Q, T, R>(
    request: DirectRequest<Q>,
    at: H,
    runtime: R,
) -> (reply: Result<T, ErrorObjectOwned>) where R: FnOnce(H, Q) -> Result<T, String>
    requires
        call_requires(runtime, (at, request.call)),
    ensures
        exists|answer: Result<T, String>| #[trigger]
            call_ensures(runtime, (at, request.call), answer) && match reported(
                request.failure,
                answer,
            ) {
                Ok(result) => reply == Ok::<T, ErrorObjectOwned>(result),
                Err(message) => reply == Err::<T, ErrorObjectOwned>(
                    error::error_object(error::RUNTIME_ERROR, message),
                ),
            } && match answer {
                Ok(result) => reply == Ok::<T, ErrorObjectOwned>(result),
                Err(detail) => reply == Err::<T, ErrorObjectOwned>(
                    error::error_object(
                        1,
                        match request.failure {
                            Failure::Described(words) => words@ + detail@,
                            Failure::Fixed(words) => words@,
                        },
                    ),
                ),
            },
{
    let answer = runtime(at, request.call);
    to_reply(report(&request.failure, answer))
}

/// What the report of an answer comes to in the cache.
pub open spec fn outcome_of(failure: Failure, answer: Result<Vec<u8>, String>) -> Outcome {
    match answer {
        Ok(bytes) => Ok(bytes@),
        Err(detail) => Err(failure.message(detail@)),
    }
}

/// Whether a reply says the given outcome.
pub open spec fn replies(reply: Result<Vec<u8>, ErrorObjectOwned>, outcome: Outcome) -> bool {
    match outcome {
        Ok(bytes) => reply matches Ok(given) && given@ == bytes,
        Err(message) => reply == Err::<Vec<u8>, ErrorObjectOwned>(
            error::error_object(error::RUNTIME_ERROR, message),
        ),
    }
}

/// What a cached request comes to that the runtime has answered: the answer is
/// the reply, and if the cache is on, the answer goes into it, failures included.
/// `fresh` is the slot that is made if the key has none.
pub open spec fn answered<H, R>(
    pre: CacheModel,
    post: CacheModel,
    request: CachedRequest,
    at: H,
    runtime: R,
    reply: Result<Vec<u8>, ErrorObjectOwned>,
    answer: Result<Vec<u8>, String>,
    fresh: int,
) -> bool where R: FnOnce(H, RuntimeCall) -> Result<Vec<u8>, String> {
    let outcome = outcome_of(request.failure, answer);
    &&& call_ensures(runtime, (at, request.call), answer)
    &&& replies(reply, outcome)
    &&& if pre.enabled() {
        &&& !pre.entries.contains_key(request.key@) ==> !pre.slots.contains_key(fresh)
        &&& post == pre.computed(request.key@, fresh, outcome)
    } else {
        post == pre
    }
}

/// What a cached request by a caller that has the cache to itself comes to. If
/// the result is in the cache, that is the reply. Otherwise the runtime is called
/// and answers.
pub open spec fn served<H, R>(
    pre: CacheModel,
    post: CacheModel,
    request: CachedRequest,
    at: H,
    runtime: R,
    reply: Result<Vec<u8>, ErrorObjectOwned>,
) -> bool where R: FnOnce(H, RuntimeCall) -> Result<Vec<u8>, String> {
    if pre.enabled() && pre.progress_of(request.key@) is Ready {
        &&& replies(reply, pre.progress_of(request.key@)->Ready_0)
        &&& post == pre.recalled(request.key@)
    } else {
        exists|answer: Result<Vec<u8>, String>, fresh: int| #[trigger]
            answered(pre, post, request, at, runtime, reply, answer, fresh)
    }
}

/// Carries out a request whose result is cached, for a caller that has the cache
/// to itself: replies with the cached result, or calls the runtime at the block
/// `at` and replies with what it says.
pub fn serve_cached<H, R>(
    cache: &mut ResultCache,
    request: CachedRequest,
    at: H,
    runtime: R,
) -> (reply: Result<Vec<u8>, ErrorObjectOwned>) where
    R: FnOnce(H, RuntimeCall) -> Result<Vec<u8>, String>,

    requires
        old(cache).wf(),
        old(cache)@.enabled() ==> !(old(cache)@.progress_of(request.key@) is Running),
        old(cache)@.enabled() && old(cache)@.progress_of(request.key@) is Ready || call_requires(
            runtime,
            (at, request.call),
        ),
    ensures
        final(cache).wf(),
        served(old(cache)@, final(cache)@, request, at, runtime, reply),
{
    let CachedRequest { call, key, failure } = request;
    let compute = || -> (result: Result<Vec<u8>, String>)
        requires
            call_requires(runtime, (at, call)),
        ensures
            exists|answer: Result<Vec<u8>, String>| #[trigger]
                call_ensures(runtime, (at, call), answer) && rpc_cache::reply(result) == outcome_of(
                    failure,
                    answer,
                ),
        {
            let answer = runtime(at, call);
            report(&failure, answer)
        };
    let result = rpc_cache::cached(cache, key.call, key.params.as_slice(), key.at, compute);
    let ghost reported = result;
    let reply = to_reply(result);
    proof {
        let pre = old(cache)@;
        let key = request.key@;
        if !pre.enabled() {
            let answer = choose|answer: Result<Vec<u8>, String>| #[trigger]
                call_ensures(runtime, (at, call), answer) && rpc_cache::reply(reported)
                    == outcome_of(failure, answer);
            assert(call_ensures(runtime, (at, request.call), answer));
            assert(replies(reply, outcome_of(failure, answer)));
            assert(answered(pre, cache@, request, at, runtime, reply, answer, 0));
        } else if !(pre.progress_of(key) is Ready) {
            let (computed, fresh) = choose|computed: Result<Vec<u8>, String>, fresh: int| #[trigger]
                rpc_cache::missed(pre, cache@, key, compute, reported, computed, fresh);
            let answer = choose|answer: Result<Vec<u8>, String>| #[trigger]
                call_ensures(runtime, (at, call), answer) && rpc_cache::reply(computed)
                    == outcome_of(failure, answer);
            assert(call_ensures(runtime, (at, request.call), answer));
            assert(answered(pre, cache@, request, at, runtime, reply, answer, fresh));
        }
    }
    reply
}

/// Whether a request is the one that `method` makes for the encoding of the block
/// that it is answered at, and that block is the given one, or else the best one
/// known.
pub open spec fn pins<H, B, E, M>(
    at: Option<H>,
    best_hash: B,
    encode: E,
    method: M,
    hash: H,
    request: CachedRequest,
) -> bool where B: FnOnce() -> H, E: FnOnce(&H) -> Vec<u8>, M: FnOnce(Vec<u8>) -> CachedRequest {
    &&& match at {
        Some(given) => hash == given,
        None => call_ensures(best_hash, (), hash),
    }
    &&& exists|bytes: Vec<u8>|
        #![trigger call_ensures(encode, (&hash,), bytes)]
        #![trigger call_ensures(method, (bytes,), request)]
        call_ensures(encode, (&hash,), bytes) && call_ensures(method, (bytes,), request)
}

/// The request that `method` makes for a block, with that block: the given one,
/// or else the best one known. The key of the request gets the encoding of the
/// block that is handed out, so it pins the block that the runtime is asked at.
pub fn pinned_request<H, B, E, M>(
    at: Option<H>,
    best_hash: B,
    encode: E,
    method: M,
) -> (pinned: (H, CachedRequest)) where
    B: FnOnce() -> H,
    E: FnOnce(&H) -> Vec<u8>,
    M: FnOnce(Vec<u8>) -> CachedRequest,

    requires
        at is None ==> call_requires(best_hash, ()),
        forall|hash: H| #[trigger] call_requires(encode, (&hash,)),
        forall|bytes: Vec<u8>| #[trigger] call_requires(method, (bytes,)),
    ensures
        pins(at, best_hash, encode, method, pinned.0, pinned.1),
{
    let (hash, bytes) = pinned(at, best_hash, encode);
    let request = method(bytes);
    (hash, request)
}

/// The whole course of a cached method for a caller that has the cache to itself:
/// settles the block, makes the request for it with `method`, and carries it out
/// at that block.
pub fn serve_cached_at<H, B, E, M, R>(
    cache: &mut ResultCache,
    at: Option<H>,
    best_hash: B,
    encode: E,
    method: M,
    runtime: R,
) -> (reply: Result<Vec<u8>, ErrorObjectOwned>) where
    B: FnOnce() -> H,
    E: FnOnce(&H) -> Vec<u8>,
    M: FnOnce(Vec<u8>) -> CachedRequest,
    R: FnOnce(H, RuntimeCall) -> Result<Vec<u8>, String>,

    requires
        old(cache).wf(),
        at is None ==> call_requires(best_hash, ()),
        forall|hash: H| #[trigger] call_requires(encode, (&hash,)),
        forall|bytes: Vec<u8>| #[trigger] call_requires(method, (bytes,)),
        forall|bytes: Vec<u8>, request: CachedRequest| #[trigger]
            call_ensures(method, (bytes,), request) && old(cache)@.enabled() ==> !(old(
                cache,
            )@.progress_of(request.key@) is Running),
        forall|hash: H, call: RuntimeCall| #[trigger] call_requires(runtime, (hash, call)),
    ensures
        final(cache).wf(),
        exists|hash: H, request: CachedRequest|
            #![trigger pins(at, best_hash, encode, method, hash, request)]
            {
                &&& pins(at, best_hash, encode, method, hash, request)
                &&& served(old(cache)@, final(cache)@, request, hash, runtime, reply)
            },
{
    let (hash, request) = pinned_request(at, best_hash, encode, method);
    let ghost (block, asked) = (hash, request);
    let reply = serve_cached(cache, request, hash, runtime);
    assert(pins(at, best_hash, encode, method, block, asked));
    reply
}

} // verus!
