//! A mock HTTP server's library: mock definitions, the matching of requests
//! against them, and the decisions the server makes in answering.
use vstd::prelude::*;

pub mod config;
pub mod laws;
pub mod matcher;
pub mod mock;
pub mod server;
pub mod strmap;
pub mod text;
pub mod trusted;
pub mod watcher;

verus! {
}
