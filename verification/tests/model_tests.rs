use cache_manager_lib::error::{redis_error, timeout_error, AppError};
use cache_manager_lib::model::{base64_decode, base64_encode, ConnConfig, ConnMode, EncodedValue, NodeSpec};
use cache_manager_lib::redisx::{
    build_url, check_conn_id, check_pong, config_error, connect_timeout_ms, init_timeout_ms,
    pool_size, replica_choice, status_from_code, STATUS_CONNECTED, STATUS_CONNECTING, STATUS_ERROR,
};
use cache_manager_lib::model::ConnStatus;

fn base() -> ConnConfig {
    ConnConfig {
        id: "c1".to_string(),
        name: "local".to_string(),
        mode: ConnMode::Single,
        host: "127.0.0.1".to_string(),
        port: 6379,
        username: None,
        password: None,
        database: Some(2),
        nodes: Vec::new(),
        service_name: None,
        tls: false,
        connect_timeout_ms: 5000,
    }
}

#[test]
fn display_url_masks_credentials() {
    let mut cfg = base();
    cfg.username = Some("alice".to_string());
    cfg.password = Some("secret".to_string());
    let shown = cfg.display_url();
    assert_eq!(shown, "redis://***@127.0.0.1:6379/2");
    assert!(!shown.contains("secret"));
    cfg.password = Some("other".to_string());
    assert_eq!(cfg.display_url(), shown);
}

#[test]
fn display_url_of_cluster_and_sentinel() {
    let mut cfg = base();
    cfg.mode = ConnMode::Sentinel;
    cfg.database = None;
    cfg.nodes = vec![NodeSpec { host: "10.0.0.2".to_string(), port: 26380 }];
    cfg.service_name = Some("mymaster".to_string());
    assert_eq!(cfg.display_url(), "redis-sentinel://127.0.0.1:6379,10.0.0.2:26380 (sentinel: mymaster)");
    let mut m = base();
    m.mode = ConnMode::Memcached;
    m.port = 11211;
    m.password = Some("x".to_string());
    assert_eq!(m.display_url(), "memcached://127.0.0.1:11211");
}

#[test]
fn default_connection() {
    let c = ConnConfig::default();
    assert_eq!(c.host, "127.0.0.1");
    assert_eq!(c.port, 6379);
    assert_eq!(c.database, Some(0));
    assert_eq!(c.connect_timeout_ms, 10_000);
    assert!(matches!(c.mode, ConnMode::Single));
}

#[test]
fn text_form_of_bytes() {
    let v = EncodedValue::from_bytes("héllo".as_bytes());
    assert_eq!(v.encoding, "utf8");
    assert_eq!(v.value, "héllo");
    let b = EncodedValue::from_bytes(&[0xff, 0x00, 0x10]);
    assert_eq!(b.encoding, "base64");
    assert_eq!(b.value, "/wAQ");
    assert_eq!(base64_decode(&b.value).unwrap(), vec![0xff, 0x00, 0x10]);
    let s = EncodedValue::from_string("plain".to_string());
    assert_eq!(s.encoding, "utf8");
    assert_eq!(s.value, "plain");
}

#[test]
fn base64_round_trip_and_errors() {
    let data = vec![1u8, 2, 3, 250, 251];
    let text = base64_encode(&data);
    assert_eq!(base64_decode(&text).unwrap(), data);
    let err = base64_decode("@@@").unwrap_err();
    assert!(err.message.starts_with("Base64 解码失败: "));
}

#[test]
fn url_building() {
    assert_eq!(build_url(&base()).unwrap(), "redis://127.0.0.1:6379/2");
    let mut c = base();
    c.mode = ConnMode::Cluster;
    c.tls = true;
    c.nodes = vec![NodeSpec { host: "h2".to_string(), port: 7001 }];
    assert_eq!(build_url(&c).unwrap(), "rediss-cluster://127.0.0.1:6379?node=h2:7001");
    let mut s = base();
    s.mode = ConnMode::Sentinel;
    s.database = None;
    s.service_name = Some("m".to_string());
    assert_eq!(build_url(&s).unwrap(), "redis-sentinel://127.0.0.1:6379?sentinelServiceName=m");
    s.service_name = Some(String::new());
    assert_eq!(build_url(&s).unwrap_err().message, "Sentinel 模式必须填写主节点服务名 (master name)");
    let mut a = base();
    a.username = Some(String::new());
    a.password = Some("pw".to_string());
    assert_eq!(build_url(&a).unwrap(), "redis://:pw@127.0.0.1:6379/2");
}

#[test]
fn connection_checks() {
    assert!(check_conn_id("x").is_ok());
    assert_eq!(check_conn_id("").unwrap_err().message, "连接 id 不能为空");
    assert_eq!(connect_timeout_ms(300), 1000);
    assert_eq!(connect_timeout_ms(4000), 4000);
    assert_eq!(init_timeout_ms(300), 3000);
    assert_eq!(pool_size(true), 1);
    assert_eq!(pool_size(false), 2);
    assert!(check_pong("PONG").is_ok());
    assert_eq!(check_pong("pong").unwrap_err().message, "连接验证失败 (PING 无响应)");
}

#[test]
fn replica_selection() {
    assert_eq!(replica_choice(None, 0).unwrap(), None);
    assert_eq!(replica_choice(Some(1), 2).unwrap(), Some(1));
    assert_eq!(replica_choice(Some(0), 0).unwrap_err().message, "当前连接没有配置从库");
    assert_eq!(replica_choice(Some(5), 2).unwrap_err().message, "从库索引 5 无效");
}

#[test]
fn status_codes_round_trip() {
    assert!(matches!(status_from_code(STATUS_CONNECTING), ConnStatus::Connecting));
    assert!(matches!(status_from_code(STATUS_CONNECTED), ConnStatus::Connected));
    assert!(matches!(status_from_code(STATUS_ERROR), ConnStatus::Error));
    assert!(matches!(status_from_code(9), ConnStatus::Disconnected));
}

#[test]
fn error_messages() {
    assert_eq!(AppError::new("x".to_string()).message, "x");
    assert_eq!(redis_error("boom").message, "Redis 错误: boom");
    assert_eq!(timeout_error().message, "操作超时");
    let e = config_error(&base(), AppError::new("refused".to_string()));
    assert_eq!(e.message, "连接 local (redis://127.0.0.1:6379/2) 失败: refused");
}

#[test]
fn client_errors_keep_their_text() {
    let e = fred::error::Error::new(fred::error::ErrorKind::IO, "broken pipe");
    let app = cache_manager_lib::error::from_fred_error(&e);
    assert!(app.message.starts_with("Redis 错误: "));
    assert!(app.message.ends_with("broken pipe"));
}

#[test]
fn url_laws_on_examples() {
    let mut c = base();
    c.mode = ConnMode::Cluster;
    let with_db = build_url(&c).unwrap();
    c.database = None;
    assert_eq!(build_url(&c).unwrap(), with_db);
    let mut ms = base();
    ms.mode = ConnMode::MasterSlave;
    let plain = build_url(&ms).unwrap();
    ms.nodes = vec![NodeSpec { host: "10.0.0.5".to_string(), port: 6381 }];
    assert_eq!(build_url(&ms).unwrap(), plain);
}

#[test]
fn base64_needs_canonical_text() {
    assert!(base64_decode("aGk").is_err());
    assert!(base64_decode("aGl=").is_err());
    assert_eq!(base64_decode("aGk=").unwrap(), b"hi".to_vec());
    assert_eq!(base64_decode("").unwrap(), Vec::<u8>::new());
}
