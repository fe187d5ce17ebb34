//! Verified core of a permission-checking JSON-RPC proxy for bitcoind.
//!
//! The library decides what the proxy does with each request: who is
//! authenticated, which calls a user may make, which calls are answered by
//! the proxy itself, how batches are reassembled, and how blocks that a
//! pruned node no longer holds are fetched from peers. The surrounding
//! program performs the network and file I/O.

pub mod block;
pub mod encoding;
pub mod error;
pub mod fetch_blocks;
pub mod json;
pub mod proxy;
pub mod rpc_methods;
pub mod state;
pub mod users;
pub mod client;
pub mod create_env;
pub mod create_state;
pub mod util;
