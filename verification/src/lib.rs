//! The verified core of the custom Subtensor RPC.
//!
//! * [`custom`] has the RPC methods: what each of them asks of the runtime, under
//!   which key its result is cached, and what a failure is reported as.
//! * [`request`] carries such requests out.
//! * [`rpc_cache`] is the per-block result cache. [`cache_model`] says what it is
//!   as mathematics, [`operation_laws`] what each operation does to each part of it,
//!   [`cache_laws`] what holds of it over many requests.
//! * [`request_laws`] says what holds of the keys and the replies of cached
//!   requests.
//! * [`cache_key`] is about the keys of the cache, [`cache_setting`] about the
//!   setting that switches it on.
//! * [`error`], [`runtime_call`], [`scale`] and [`types`] have what the others
//!   share.
pub mod cache_key;
pub mod cache_laws;
pub mod cache_model;
pub mod cache_setting;
pub mod custom;
pub mod error;
pub mod operation_laws;
pub mod request;
pub mod request_laws;
pub mod rpc_cache;
pub mod runtime_call;
pub mod scale;
pub mod types;
