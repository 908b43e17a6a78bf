# Subtensor custom RPC

The custom RPC methods of a Subtensor node, with a per-block cache for the
results of heavy read methods.

* `src/` is the core, verified with Verus: the requests that the methods make,
  the replies that they give, and the result cache.
* `app/` is the server around it: the JSON-RPC interface, the calls into the
  runtime, and the lock that lets requests share the cache.
* `tests/` runs the core on concrete values.

## The result cache

Results are cached by call, SCALE-encoded parameters and block hash. They are
functions of that key, so an entry cannot go stale. Requests for one key share a
single execution. Entries are evicted in insertion order once the byte budget is
exceeded.

The cache is off unless `SUBTENSOR_RPC_CACHE_BYTES` is set to a number above 0.

`src/cache_model.rs` defines the states of the cache and its steps;
`src/rpc_cache.rs` is proved to take exactly these steps; `src/cache_laws.rs`
proves what follows for any interleaving of requests.
