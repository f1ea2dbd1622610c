//! Identifiers, addresses, time, queues, settings.

use dht::addr::{FromSocketAddr, SocketAddr, SocketAddrV4, SocketAddrV6};
use dht::backoff::bootstrap_backoff;
use dht::channel::Channel;
use dht::config::{bootstrap_hosts, DhtConfig, LookupTuning};
use dht::id::Id20;
use dht::rate_limit::{make_rate_limiter, queries_per_second};
use dht::time::{now, Duration, Timestamp, MAX_DURATION_NANOS};

fn v4(ip: u32, port: u16) -> SocketAddr {
    SocketAddr::V4(SocketAddrV4 { ip, port })
}

fn v6(ip: u128, port: u16) -> SocketAddr {
    SocketAddr::V6(SocketAddrV6 { ip, port, flowinfo: 0, scope_id: 0 })
}

#[test]
fn distance_is_xor() {
    let a = Id20::new([0xAB; 20]);
    let b = Id20::new([0x0F; 20]);
    assert_eq!(a.distance(&b), Id20::new([0xA4; 20]));
    assert_eq!(b.distance(&a), a.distance(&b));
    assert_eq!(a.distance(&a), Id20::new([0; 20]));
}

#[test]
fn one_id_lies_at_a_distance() {
    let from = Id20::new([0x5A; 20]);
    let a = Id20::new([0x01; 20]);
    let d = from.distance(&a);
    assert!(from.distance(&d).same(&a));
}

#[test]
fn ids_are_ordered_from_the_first_byte() {
    let mut low = [0u8; 20];
    low[19] = 0xff;
    let mut high = [0u8; 20];
    high[18] = 1;
    assert!(Id20::new(low).less_than(&Id20::new(high)));
    assert!(!Id20::new(high).less_than(&Id20::new(low)));
    assert!(!Id20::new(low).less_than(&Id20::new(low)));
    assert!(!Id20::new(low).same(&Id20::new(high)));
}

#[test]
fn families_are_told_apart() {
    let a4 = SocketAddrV4 { ip: 0x7f000001, port: 6881 };
    let a6 = SocketAddrV6 { ip: 1, port: 6881, flowinfo: 3, scope_id: 4 };
    assert_eq!(SocketAddrV4::from_socket_addr(SocketAddr::V4(a4)), Some(a4));
    assert_eq!(SocketAddrV4::from_socket_addr(SocketAddr::V6(a6)), None);
    assert_eq!(SocketAddrV6::from_socket_addr(SocketAddr::V6(a6)), Some(a6));
    assert_eq!(SocketAddrV6::from_socket_addr(SocketAddr::V4(a4)), None);
    assert!(v4(1, 2).is_ipv4() && !v4(1, 2).is_ipv6());
    assert!(v6(1, 2).is_ipv6() && !v6(1, 2).is_ipv4());
}

#[test]
fn spans_saturate() {
    let second = Duration::from_secs(1);
    assert_eq!(second.nanos, 1_000_000_000);
    assert_eq!(second.divided_by(8).nanos, 125_000_000);
    assert_eq!(Duration { nanos: 10 }.divided_by(4).nanos, 2);
    assert_eq!(second.saturating_mul(7).nanos, 7_000_000_000);
    assert_eq!(second.saturating_mul(0).nanos, 0);
    assert_eq!(Duration { nanos: MAX_DURATION_NANOS }.saturating_mul(2).nanos, MAX_DURATION_NANOS);
    assert_eq!(second.saturating_sub(Duration { nanos: 1 }).nanos, 999_999_999);
    assert_eq!(second.saturating_sub(Duration::from_secs(2)).nanos, 0);
    assert_eq!(second.max(Duration::from_secs(3)), Duration::from_secs(3));
    assert_eq!(Duration::from_secs(3).max(second), Duration::from_secs(3));
}

#[test]
fn points_in_time_lie_apart() {
    let (early, late) = (Timestamp { nanos: 5 }, Timestamp { nanos: 12 });
    assert_eq!(late.since(early).nanos, 7);
    assert_eq!(early.since(late).nanos, 0);
}

#[test]
fn longest_span_is_that_of_the_standard_library() {
    assert_eq!(std::time::Duration::MAX.as_nanos(), MAX_DURATION_NANOS);
}

#[test]
fn clock_does_not_go_back() {
    let first = now();
    let second = now();
    assert!(second >= first);
}

#[test]
fn queue_is_first_in_first_out() {
    let mut channel: Channel<u32> = Channel::new();
    assert!(channel.is_empty());
    assert!(channel.send(1));
    assert!(channel.send(2));
    assert_eq!(channel.len(), 2);
    assert_eq!(channel.receive(), Some(1));
    channel.close();
    assert!(channel.is_closed());
    assert!(!channel.send(3));
    assert_eq!(channel.receive(), Some(2));
    assert_eq!(channel.receive(), None);
}

#[test]
fn settings_have_defaults() {
    let config = DhtConfig::default();
    assert_eq!(config.addr_to_bind(), v6(0, 0));
    assert_eq!(
        LookupTuning::from_config(&config),
        LookupTuning { interval: Duration::from_secs(300), max_inflight: 16, max_requests: 256 }
    );
    assert_eq!(
        bootstrap_hosts(config.bootstrap_addrs),
        vec!["dht.transmissionbt.com:6881".to_string(), "dht.libtorrent.org:25401".to_string()]
    );
}

#[test]
fn settings_are_taken_over() {
    let config = DhtConfig {
        bootstrap_addrs: Some(vec!["localhost:1".to_string()]),
        listen_addr: Some(v4(0x7f000001, 0)),
        lookup_interval: Some(Duration::from_secs(7)),
        lookup_max_inflight: Some(4),
        lookup_max_requests: Some(0),
        ..DhtConfig::default()
    };
    assert_eq!(config.addr_to_bind(), v4(0x7f000001, 0));
    assert_eq!(
        LookupTuning::from_config(&config),
        LookupTuning { interval: Duration::from_secs(7), max_inflight: 4, max_requests: 0 }
    );
    assert_eq!(bootstrap_hosts(config.bootstrap_addrs), vec!["localhost:1".to_string()]);
}

#[test]
fn interval_is_at_least_a_second() {
    let config = DhtConfig {
        lookup_interval: Some(Duration { nanos: 999_999_999 }),
        ..DhtConfig::default()
    };
    assert_eq!(LookupTuning::from_config(&config).interval, Duration::from_secs(1));
}

#[test]
fn rate_is_a_decimal_number() {
    assert_eq!(queries_per_second(None), Some(250));
    assert_eq!(queries_per_second(Some("40")), Some(40));
    assert_eq!(queries_per_second(Some("+5")), Some(5));
    assert_eq!(queries_per_second(Some("007")), Some(7));
    assert_eq!(queries_per_second(Some("18446744073709551615")), Some(usize::MAX));
    assert_eq!(queries_per_second(Some("18446744073709551616")), None);
    for text in ["", "+", "-1", " 5", "5 ", "1e3", "++5", "0x10", "\u{0663}"] {
        assert_eq!(queries_per_second(Some(text)), None);
    }
}

#[test]
fn limiter_has_its_settings() {
    let limiter = make_rate_limiter(255);
    assert_eq!(limiter.max(), 255);
    assert_eq!(limiter.refill(), 25);
    assert_eq!(limiter.balance(), 25);
    assert_eq!(limiter.interval(), std::time::Duration::from_millis(100));
    assert!(!limiter.is_fair());
    let limiter = make_rate_limiter(usize::MAX);
    assert_eq!(limiter.max(), isize::MAX as usize);
    assert_eq!(limiter.refill(), usize::MAX / 10);
}

#[test]
fn backoff_has_its_settings() {
    let settings = format!("{:?}", bootstrap_backoff());
    assert!(settings.contains("jitter: true"));
    assert!(settings.contains("max_delay: Some(60s)"));
    assert!(settings.contains("total_delay: Some(86400s)"));
    assert!(settings.contains("max_times: None"));
}
