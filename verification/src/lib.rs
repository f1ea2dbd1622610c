//! The decision core of a Mainline DHT node: what to ask, whom to ask, what to
//! answer and when to stop, free of sockets, clocks and tasks.

pub mod addr;
pub mod backoff;
pub mod channel;
pub mod config;
pub mod error;
pub mod id;
pub mod inflight;
pub mod lookup;
pub mod message;
pub mod pass;
pub mod rate_limit;
pub mod state;
pub mod time;
pub mod useful_nodes;
pub mod worker;

use crate::addr::SocketAddr;
use crate::config::{DhtConfig, LookupTuning};
use crate::id::Id20;
use crate::state::{is_fresh, DhtState};
use crate::time::Duration;
use vstd::prelude::*;

verus! {

/// How long the answer of a node is waited for, in seconds.
pub const RESPONSE_TIMEOUT_SECS: u64 = 10;

/// After how long a node of the routing table is questionable, in seconds.
pub const INACTIVITY_TIMEOUT_SECS: u64 = 900;

/// How often each torrent's lookup pass is run again, in seconds.
pub const LOOKUP_INTERVAL_SECS: u64 = 300;

/// Maximum number of requests in flight per lookup pass. This bounds memory:
/// each of them is a task that waits for an answer.
pub const LOOKUP_MAX_INFLIGHT: usize = 16;

/// Hard cap on requests sent per lookup pass. Passes normally converge before
/// it; it bounds adversarial swarms.
pub const LOOKUP_MAX_REQUESTS: usize = 256;

/// Starts nodes.
pub struct DhtBuilder {}

impl DhtBuilder {
    /// A node with the default settings. See [`DhtState::with_config`].
    pub fn new(listen_addr: SocketAddr, generated_id: Id20, queries_per_second: usize) -> (state:
        DhtState)
        requires
            queries_per_second >= 10,
        ensures
            is_fresh(
                state@,
                generated_id,
                listen_addr,
                LookupTuning {
                    interval: Duration { nanos: 300_000_000_000 },
                    max_inflight: 16,
                    max_requests: 256,
                },
                queries_per_second,
            ),
    {
        DhtState::new(listen_addr, generated_id, queries_per_second)
    }

    /// A node with the given settings. See [`DhtState::with_config`].
    pub fn with_config(
        config: DhtConfig,
        listen_addr: SocketAddr,
        generated_id: Id20,
        queries_per_second: usize,
    ) -> (state: DhtState)
        requires
            queries_per_second >= 10,
        ensures
            is_fresh(
                state@,
                match config.peer_id {
                    Some(id) => id,
                    None => generated_id,
                },
                listen_addr,
                LookupTuning::of(config),
                queries_per_second,
            ),
            config.cancellation_token matches Some(token) ==> state@.cancellation_token == token,
    {
        DhtState::with_config(config, listen_addr, generated_id, queries_per_second)
    }
}

} // verus!
