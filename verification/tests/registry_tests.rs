// The connection registry, the reuse of an open Memcached connection, and
// the walk over the sentinels of a connection.

use cache_manager_lib::memcachedx::reuses_connection;
use cache_manager_lib::model::ConnStatus;
use cache_manager_lib::redisx::server::{replica_query, SentinelProbe, SentinelScan};
use cache_manager_lib::registry::Registry;

#[test]
fn registry_connect_replaces_and_returns_old() {
    let mut r: Registry<u32> = Registry::new();
    assert_eq!(r.insert("a".to_string(), 1), None);
    assert_eq!(r.insert("b".to_string(), 2), None);
    assert_eq!(r.get("a"), Some(&1));
    assert_eq!(r.insert("a".to_string(), 3), Some(1));
    assert_eq!(r.get("a"), Some(&3));
    assert_eq!(r.get("b"), Some(&2));
    let mut ids = r.ids();
    ids.sort();
    assert_eq!(ids, vec!["a".to_string(), "b".to_string()]);
}

#[test]
fn registry_disconnect_leaves_nothing() {
    let mut r: Registry<u32> = Registry::new();
    r.insert("a".to_string(), 1);
    r.insert("b".to_string(), 2);
    assert_eq!(r.remove("a"), Some(1));
    assert_eq!(r.remove("a"), None);
    assert!(!r.contains("a"));
    assert!(r.contains("b"));
    r.clear();
    assert!(r.ids().is_empty());
    assert_eq!(r.get("b"), None);
}

#[test]
fn memcached_reuses_only_a_live_connection() {
    assert!(reuses_connection(Some(ConnStatus::Connected)));
    assert!(!reuses_connection(Some(ConnStatus::Error)));
    assert!(!reuses_connection(Some(ConnStatus::Connecting)));
    assert!(!reuses_connection(None));
}

#[test]
fn sentinel_scan_keeps_last_failure_and_stops_at_first_answer() {
    let hosts = vec![
        ("10.0.0.1".to_string(), 26379u16),
        ("10.0.0.2".to_string(), 26380u16),
        ("10.0.0.3".to_string(), 26381u16),
    ];
    let mut scan = SentinelScan::new();
    assert_eq!(scan.target(hosts.len()), Some(0));
    assert!(!scan.record(&hosts, SentinelProbe::Refused));
    assert_eq!(scan.last_failure.as_deref(), Some("10.0.0.1:26379"));
    assert_eq!(scan.target(hosts.len()), Some(1));
    assert!(!scan.record(&hosts, SentinelProbe::TimedOut));
    assert_eq!(scan.last_failure.as_deref(), Some("10.0.0.2:26380 连接超时"));
    assert_eq!(scan.target(hosts.len()), Some(2));
    assert!(scan.record(&hosts, SentinelProbe::Reached));
    assert_eq!(scan.last_failure, None);
}

#[test]
fn sentinel_scan_ends_when_all_were_asked() {
    let hosts = vec![("h".to_string(), 1u16)];
    let mut scan = SentinelScan::new();
    assert!(!scan.record(&hosts, SentinelProbe::Refused));
    assert_eq!(scan.target(hosts.len()), None);
    assert_eq!(scan.last_failure.as_deref(), Some("h:1"));
}

#[test]
fn replicas_asked_newest_command_first() {
    assert_eq!(replica_query(0), Some("REPLICAS"));
    assert_eq!(replica_query(1), Some("SLAVES"));
    assert_eq!(replica_query(2), None);
}
