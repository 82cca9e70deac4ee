//! A chunked object store: bounded pieces are uploaded to a shard, committed
//! into immutable assets under a checksum, swept when they go stale, and served
//! back through a paginated streaming protocol. An orchestrator keeps the
//! append-only list of shards and decides when a new one is needed.

pub mod http;
pub mod identity;
pub mod order;
pub mod scaler;
pub mod asset;
pub mod chunk;
pub mod state;
pub mod utils;
