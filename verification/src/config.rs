//! What can be set when a node is started, and what holds where it is not set.

use crate::addr::{SocketAddr, SocketAddrV6};
use crate::id::Id20;
use crate::time::{max_int, Duration};
use crate::{LOOKUP_INTERVAL_SECS, LOOKUP_MAX_INFLIGHT, LOOKUP_MAX_REQUESTS};
use tokio_util::sync::CancellationToken;
use vstd::prelude::*;

verus! {

/// `tokio_util::sync::CancellationToken`, by which the node is told to stop. The
/// library keeps it and hands it out.
#[verifier::external_type_specification]
#[verifier::external_body]
pub struct ExCancellationToken(tokio_util::sync::CancellationToken);

/// `CancellationToken::new`: a token of its own. Nothing is claimed of it.
pub assume_specification[ CancellationToken::new ]() -> CancellationToken;

/// The settings of a node.
pub struct DhtConfig {
    pub peer_id: Option<Id20>,
    /// Hosts to start from, as host name and number.
    pub bootstrap_addrs: Option<Vec<String>>,
    pub listen_addr: Option<SocketAddr>,
    pub cancellation_token: Option<CancellationToken>,
    /// How often each torrent's lookup pass is run again (default 5 minutes).
    pub lookup_interval: Option<Duration>,
    /// Maximum requests in flight per lookup pass (default 16).
    pub lookup_max_inflight: Option<usize>,
    /// Hard cap on requests sent per lookup pass (default 256).
    pub lookup_max_requests: Option<usize>,
}

impl Default for DhtConfig {
    fn default() -> (config: Self)
        ensures
            config.peer_id is None,
            config.bootstrap_addrs is None,
            config.listen_addr is None,
            config.cancellation_token is None,
            config.lookup_interval is None,
            config.lookup_max_inflight is None,
            config.lookup_max_requests is None,
    {
        DhtConfig {
            peer_id: None,
            bootstrap_addrs: None,
            listen_addr: None,
            cancellation_token: None,
            lookup_interval: None,
            lookup_max_inflight: None,
            lookup_max_requests: None,
        }
    }
}

/// Every address of the machine, with a number that the system picks.
pub open spec fn any_addr() -> SocketAddr {
    SocketAddr::V6(SocketAddrV6 { ip: 0, port: 0, flowinfo: 0, scope_id: 0 })
}

impl DhtConfig {
    /// The address to bind to.
    pub fn addr_to_bind(&self) -> (addr: SocketAddr)
        ensures
            addr == (match self.listen_addr {
                Some(addr) => addr,
                None => any_addr(),
            }),
            self.listen_addr is None ==> {
                &&& addr matches SocketAddr::V6(a)
                &&& a.ip == 0 && a.port == 0 && a.flowinfo == 0 && a.scope_id == 0
            },
    {
        match self.listen_addr {
            Some(addr) => addr,
            None => SocketAddr::V6(SocketAddrV6 { ip: 0, port: 0, flowinfo: 0, scope_id: 0 }),
        }
    }
}

/// The hosts to start from: those that were set, or two well-known ones.
pub fn bootstrap_hosts(configured: Option<Vec<String>>) -> (hosts: Vec<String>)
    ensures
        match configured {
            Some(addrs) => hosts == addrs,
            None => {
                &&& hosts@.len() == 2
                &&& hosts@[0]@ == "dht.transmissionbt.com:6881"@
                &&& hosts@[1]@ == "dht.libtorrent.org:25401"@
            },
        },
{
    match configured {
        Some(addrs) => addrs,
        None => {
            let mut hosts: Vec<String> = Vec::new();
            hosts.push("dht.transmissionbt.com:6881".to_owned());
            hosts.push("dht.libtorrent.org:25401".to_owned());
            hosts
        },
    }
}

/// How lookups are paced.
#[derive(Clone, Copy, Debug, PartialEq, Eq, Structural)]
pub struct LookupTuning {
    pub interval: Duration,
    pub max_inflight: usize,
    pub max_requests: usize,
}

impl LookupTuning {
    /// What a configuration asks for. The interval is at least a second:
    /// shorter ones would take the rate limiter for themselves.
    pub open spec fn of(config: DhtConfig) -> LookupTuning {
        LookupTuning {
            interval: Duration {
                nanos: max_int(
                    match config.lookup_interval {
                        Some(d) => d.nanos as int,
                        None => 300_000_000_000,
                    },
                    1_000_000_000,
                ) as u128,
            },
            max_inflight: match config.lookup_max_inflight {
                Some(n) => n,
                None => 16,
            },
            max_requests: match config.lookup_max_requests {
                Some(n) => n,
                None => 256,
            },
        }
    }

    /// What a configuration asks for.
    pub fn from_config(config: &DhtConfig) -> (tuning: LookupTuning)
        ensures
            tuning == LookupTuning::of(*config),
            tuning.interval.nanos >= 1_000_000_000,
    {
        let interval = match config.lookup_interval {
            Some(interval) => interval,
            None => Duration::from_secs(LOOKUP_INTERVAL_SECS),
        };
        let max_inflight: usize = match config.lookup_max_inflight {
            Some(n) => n,
            None => LOOKUP_MAX_INFLIGHT,
        };
        let max_requests: usize = match config.lookup_max_requests {
            Some(n) => n,
            None => LOOKUP_MAX_REQUESTS,
        };
        LookupTuning { interval: interval.max(Duration::from_secs(1)), max_inflight, max_requests }
    }
}

/// What is configured is taken, with an interval of at least a second; what is not configured
/// is five minutes, sixteen requests in flight and 256 requests per pass.
pub proof fn law_tuning_follows_the_configuration(config: DhtConfig)
    ensures
        ({
            let tuning = LookupTuning::of(config);
            &&& match config.lookup_interval {
                Some(d) => if d.nanos < 1_000_000_000 {
                    tuning.interval.nanos == 1_000_000_000
                } else {
                    tuning.interval == d
                },
                None => tuning.interval.nanos == 5 * 60 * 1_000_000_000,
            }
            &&& config.lookup_max_inflight matches Some(n) ==> tuning.max_inflight == n
            &&& config.lookup_max_inflight is None ==> tuning.max_inflight == 16
            &&& config.lookup_max_requests matches Some(n) ==> tuning.max_requests == n
            &&& config.lookup_max_requests is None ==> tuning.max_requests == 256
        }),
{
}

} // verus!
