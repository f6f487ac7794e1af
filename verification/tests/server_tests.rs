use cache_manager_lib::model::{ConnConfig, ConnMode, NodeSpec};
use cache_manager_lib::redisx::server::{
    cluster_topology, database_list, info_section_request, int_of, parse_client_list, parse_info,
    parse_info_kind, parse_slowlog, replicas_from_reply, replication_topology, sentinel_failure,
    sentinel_hosts, sentinel_nodes, sentinel_topology, topology_source, InfoKind, TopologySource,
};
use cache_manager_lib::redisx::{JsonValue, RespValue};

fn text(s: &str) -> RespValue {
    RespValue::Text(s.to_string())
}

#[test]
fn info_sections() {
    let raw = "# Server\r\nredis_version:7.2.0\r\nmode: standalone\r\n\r\n# Keyspace\r\ndb0:keys=1,expires=0\r\n";
    let secs = parse_info(raw);
    assert_eq!(secs.len(), 2);
    assert_eq!(secs[0].name, "Server");
    assert_eq!(secs[0].fields[1], ("mode".to_string(), " standalone".to_string()));
    assert_eq!(secs[1].name, "Keyspace");
    assert_eq!(secs[1].fields[0].1, "keys=1,expires=0");
}

#[test]
fn info_kinds() {
    assert_eq!(parse_info_kind("Memory").unwrap(), InfoKind::Memory);
    assert_eq!(parse_info_kind("COMMANDSTATS").unwrap(), InfoKind::CommandStats);
    assert_eq!(parse_info_kind("bogus").unwrap_err().message, "未知 INFO 段: bogus");
    assert_eq!(info_section_request(&Some(String::new())).unwrap(), None);
    assert_eq!(info_section_request(&Some("cpu".to_string())).unwrap(), Some(InfoKind::Cpu));
    assert_eq!(info_section_request(&None).unwrap(), None);
}

#[test]
fn client_list() {
    let raw = "id=3 addr=127.0.0.1:5000 name= db=0 lib-name=redis-rs foo=bar\nid=4 addr=x\n";
    let cs = parse_client_list(raw);
    assert_eq!(cs.len(), 2);
    assert_eq!(cs[0].id, "3");
    assert_eq!(cs[0].addr, "127.0.0.1:5000");
    assert_eq!(cs[0].lib_name, "redis-rs");
    assert_eq!(cs[0].other, vec![("foo".to_string(), "bar".to_string())]);
    assert_eq!(cs[1].db, "");
}

#[test]
fn replication_view() {
    let raw = "# Replication\r\nrole:master\r\nslave0:ip=10.0.0.2,port=6380,state=online,offset=1\r\nslave1:ip=10.0.0.3,port=x,state=wait_bgsave\r\n";
    let nodes = replication_topology(raw, "10.0.0.1", 6379);
    assert_eq!(nodes.len(), 3);
    assert_eq!(nodes[0].role, "master");
    assert_eq!(nodes[0].host, "10.0.0.1");
    assert_eq!(nodes[1].port, 6380);
    assert_eq!(nodes[1].status, "up");
    assert_eq!(nodes[2].port, 0);
    assert_eq!(nodes[2].status, "wait_bgsave");
    let replica = "# Replication\r\nrole:slave\r\nmaster_host:10.0.0.1\r\nmaster_port:6379\r\nmaster_link_status:down\r\n";
    let n = replication_topology(replica, "h", 1);
    assert_eq!(n.len(), 1);
    assert_eq!(n[0].status, "down");
    assert_eq!(n[0].extra.as_deref(), Some("master_link_status=down"));
}

#[test]
fn cluster_view() {
    let reply = text(
        "a1 10.0.0.1:7000@17000 myself,master - 0 0 1 connected 0-5460\n\
         b2 10.0.0.2:7001@17001 slave,fail a1 0 0 1 connected\n\
         short line\n",
    );
    let nodes = cluster_topology(&reply);
    assert_eq!(nodes.len(), 2);
    assert_eq!(nodes[0].host, "10.0.0.1");
    assert_eq!(nodes[0].port, 0);
    assert_eq!(nodes[0].role, "master");
    assert_eq!(nodes[0].status, "up");
    assert_eq!(nodes[1].role, "replica");
    assert_eq!(nodes[1].status, "down");
    assert!(cluster_topology(&RespValue::Null).is_empty());
}

#[test]
fn slow_log() {
    let entry = RespValue::Array(vec![
        RespValue::Integer(7),
        text("1700000000"),
        RespValue::Integer(120),
        RespValue::Array(vec![text("GET"), RespValue::Bytes(vec![0xff])]),
        text("127.0.0.1:5000"),
    ]);
    let log = parse_slowlog(&RespValue::Array(vec![entry, text("skip")]));
    assert_eq!(log.len(), 1);
    assert_eq!(log[0].id, 7);
    assert_eq!(log[0].timestamp, 1700000000);
    assert_eq!(log[0].duration_us, 120);
    assert_eq!(log[0].args, vec!["GET".to_string(), "/w==".to_string()]);
    assert_eq!(log[0].client_addr, "127.0.0.1:5000");
    assert_eq!(log[0].client_name, "");
    assert_eq!(int_of(&text("x")), 0);
}

#[test]
fn databases() {
    let cfg = vec![("databases".to_string(), "4".to_string())];
    assert_eq!(database_list(&cfg), vec![0, 1, 2, 3]);
    let big = vec![("databases".to_string(), "1000".to_string())];
    assert_eq!(database_list(&big).len(), 64);
    assert_eq!(database_list(&vec![]).len(), 16);
    let bad = vec![("databases".to_string(), "many".to_string())];
    assert_eq!(database_list(&bad).len(), 16);
}

#[test]
fn topology_sources() {
    assert_eq!(topology_source(ConnMode::MasterSlave).unwrap(), TopologySource::Replication);
    assert_eq!(topology_source(ConnMode::Cluster).unwrap(), TopologySource::ClusterNodes);
    assert_eq!(topology_source(ConnMode::Memcached).unwrap_err().message, "Memcached 不支持拓扑查看");
}

fn obj(ip: &str, port: i64, flags: &str) -> JsonValue {
    JsonValue::Object(vec![
        ("ip".to_string(), JsonValue::Str(ip.to_string())),
        ("port".to_string(), JsonValue::Int(port)),
        ("flags".to_string(), JsonValue::Str(flags.to_string())),
    ])
}

#[test]
fn sentinel_view() {
    let cfg = ConnConfig {
        id: "s".to_string(),
        name: "s".to_string(),
        mode: ConnMode::Sentinel,
        host: "10.0.0.9".to_string(),
        port: 26379,
        username: None,
        password: None,
        database: None,
        nodes: vec![NodeSpec { host: "10.0.0.8".to_string(), port: 26380 }],
        service_name: Some("mymaster".to_string()),
        tls: false,
        connect_timeout_ms: 1000,
    };
    assert_eq!(
        sentinel_hosts(&cfg),
        vec![("10.0.0.9".to_string(), 26379), ("10.0.0.8".to_string(), 26380)]
    );
    assert_eq!(sentinel_failure("h", 1, true), "h:1 连接超时");
    let masters = vec![obj("10.0.0.1", 6379, "master,s_down")];
    let replicas = vec![obj("10.0.0.2", 6380, "slave")];
    let peers = vec![obj("10.0.0.8", 26380, "sentinel")];
    let nodes = sentinel_nodes("10.0.0.9", 26379, &masters, &replicas, &peers);
    assert_eq!(nodes.len(), 4);
    assert_eq!(nodes[0].status, "down");
    assert_eq!(nodes[1].role, "replica");
    assert_eq!(nodes[1].status, "up");
    assert_eq!(nodes[3].extra.as_deref(), Some("当前连接的哨兵节点"));
    assert_eq!(
        nodes[0].extra.as_deref(),
        Some("{\"flags\":\"master,s_down\",\"ip\":\"10.0.0.1\",\"port\":6379}")
    );
    let with_self = vec![obj("10.0.0.9", 26379, "sentinel")];
    assert_eq!(sentinel_nodes("10.0.0.9", 26379, &vec![], &vec![], &with_self).len(), 1);
    let reply = RespValue::Array(vec![RespValue::Dict(vec![(b"ip".to_vec(), text("1.2.3.4"))])]);
    assert_eq!(replicas_from_reply(&reply).unwrap().len(), 1);
    assert!(replicas_from_reply(&text("no")).is_none());
    assert_eq!(
        sentinel_topology(vec![], Some("h:1".to_string())).unwrap_err().message,
        "无法获取哨兵信息: h:1"
    );
    assert_eq!(
        sentinel_topology(vec![], None).unwrap_err().message,
        "无法获取哨兵信息（服务名可能不存在）"
    );
}
