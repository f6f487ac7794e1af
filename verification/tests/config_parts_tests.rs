// The parts of a client configuration, read back from the client library.

use cache_manager_lib::model::{ConnConfig, ConnMode, NodeSpec};
use cache_manager_lib::redisx::{build_fred_config, build_replica_config, ServerKind};

fn base() -> ConnConfig {
    ConnConfig {
        id: "p".into(),
        name: "p".into(),
        mode: ConnMode::Single,
        host: "127.0.0.1".into(),
        port: 6379,
        username: None,
        password: None,
        database: Some(2),
        nodes: Vec::new(),
        service_name: None,
        tls: false,
        connect_timeout_ms: 5000,
    }
}

#[test]
fn parts_of_single_server() {
    let (_, parts) = build_fred_config(&base()).unwrap();
    assert_eq!(parts.kind, ServerKind::Centralized);
    assert_eq!(parts.hosts, vec![("127.0.0.1".to_string(), 6379)]);
    assert_eq!(parts.database, Some(2));
    assert_eq!(parts.username, None);
    assert_eq!(parts.password, None);
    assert_eq!(parts.service_name, None);
}

#[test]
fn parts_carry_credentials() {
    let mut cfg = base();
    cfg.username = Some("alice".into());
    cfg.password = Some("secret".into());
    cfg.database = None;
    let (_, parts) = build_fred_config(&cfg).unwrap();
    assert_eq!(parts.username.as_deref(), Some("alice"));
    assert_eq!(parts.password.as_deref(), Some("secret"));
    assert_eq!(parts.database, None);
}

#[test]
fn parts_of_cluster_list_every_node() {
    let mut cfg = base();
    cfg.mode = ConnMode::Cluster;
    cfg.port = 7000;
    cfg.nodes = vec![
        NodeSpec { host: "10.0.0.2".into(), port: 7001 },
        NodeSpec { host: "10.0.0.3".into(), port: 7002 },
    ];
    let (_, parts) = build_fred_config(&cfg).unwrap();
    assert_eq!(parts.kind, ServerKind::Clustered);
    let mut hosts = parts.hosts.clone();
    hosts.sort();
    assert_eq!(
        hosts,
        vec![
            ("10.0.0.2".to_string(), 7001),
            ("10.0.0.3".to_string(), 7002),
            ("127.0.0.1".to_string(), 7000),
        ]
    );
    assert_eq!(parts.database, None);
}

#[test]
fn parts_of_sentinel_name_the_master() {
    let mut cfg = base();
    cfg.mode = ConnMode::Sentinel;
    cfg.nodes = vec![NodeSpec { host: "10.0.0.2".into(), port: 26380 }];
    cfg.service_name = Some("mymaster".into());
    let (_, parts) = build_fred_config(&cfg).unwrap();
    assert_eq!(parts.kind, ServerKind::Sentinel);
    assert_eq!(parts.service_name.as_deref(), Some("mymaster"));
    assert_eq!(parts.hosts.len(), 2);
    assert!(parts.hosts.contains(&("10.0.0.2".to_string(), 26380)));
    assert!(parts.hosts.contains(&("127.0.0.1".to_string(), 6379)));
    assert_eq!(parts.database, Some(2));
}

#[test]
fn replica_config_points_at_the_replica() {
    let mut master = base();
    master.mode = ConnMode::MasterSlave;
    master.password = Some("pw".into());
    let replica = NodeSpec { host: "10.0.0.5".into(), port: 6381 };
    let (_, parts) = build_replica_config(&master, &replica).unwrap();
    assert_eq!(parts.kind, ServerKind::Centralized);
    assert_eq!(parts.hosts, vec![("10.0.0.5".to_string(), 6381)]);
    assert_eq!(parts.password.as_deref(), Some("pw"));
    assert_eq!(parts.database, Some(2));
}

#[test]
fn replica_config_of_sentinel_without_master_name_fails() {
    let mut master = base();
    master.mode = ConnMode::Sentinel;
    let replica = NodeSpec { host: "10.0.0.5".into(), port: 6381 };
    let err = build_replica_config(&master, &replica).unwrap_err();
    assert_eq!(err.message, "Sentinel 模式必须填写主节点服务名 (master name)");
}

#[test]
fn bad_host_is_refused_with_parse_prefix() {
    let mut cfg = base();
    cfg.host = "bad host".into();
    let err = build_fred_config(&cfg).unwrap_err();
    assert!(err.message.starts_with("配置解析失败: "));
}
