use cache_manager_lib::commands::{
    export_dir_setting, export_file_name, import_connections, rename_unsupported,
    switch_database_config,
};
use cache_manager_lib::model::{ConnConfig, ConnMode};
use cache_manager_lib::redisx::{merge_cluster_pages, text_lt};
use cache_manager_lib::single_instance::{_unused, INSTANCE_PORT};
use cache_manager_lib::store::{merge_settings, AppSettings};
use cache_manager_lib::tray::{connect_item_id, connect_item_label, find_connection, tray_action, TrayAction};

fn conn(id: &str, host: &str, port: u16) -> ConnConfig {
    ConnConfig {
        id: id.to_string(),
        name: format!("n-{id}"),
        mode: ConnMode::Single,
        host: host.to_string(),
        port,
        username: None,
        password: None,
        database: None,
        nodes: Vec::new(),
        service_name: None,
        tls: false,
        connect_timeout_ms: 1000,
    }
}

#[test]
fn importing_connections() {
    let existing = vec![conn("a", "Redis.Local", 6379)];
    let incoming = vec![
        conn("x", "redis.local", 6379),
        conn("a", "10.0.0.1", 6379),
        conn("", "10.0.0.2", 6380),
        conn("y", "10.0.0.1", 6379),
        conn("z", "10.0.0.3", 6379),
    ];
    let (all, result) = import_connections(existing, incoming, 1700);
    assert_eq!(result.imported, 3);
    assert_eq!(result.duplicated, 2);
    let ids: Vec<&str> = all.iter().map(|c| c.id.as_str()).collect();
    assert_eq!(ids, vec!["a", "imp-1700-0", "imp-1700-1", "z"]);
    assert_eq!(all[1].host, "10.0.0.1");
}

#[test]
fn exports_and_settings() {
    assert_eq!(export_file_name(42), "cache-manager-connections-42.json");
    assert_eq!(export_dir_setting(Some("  ".to_string())), None);
    assert_eq!(export_dir_setting(Some("D:/out".to_string())).as_deref(), Some("D:/out"));
    let d = AppSettings::default();
    assert!(d.minimize_to_tray);
    assert!(d.export_dir.is_none());
    let prev = AppSettings { minimize_to_tray: true, export_dir: Some("X".to_string()) };
    let m = merge_settings(AppSettings { minimize_to_tray: false, export_dir: None }, prev);
    assert!(!m.minimize_to_tray);
    assert_eq!(m.export_dir.as_deref(), Some("X"));
}

#[test]
fn switching_databases() {
    let c = switch_database_config(conn("a", "h", 1), 3, false).unwrap();
    assert_eq!(c.database, Some(3));
    assert_eq!(switch_database_config(conn("a", "h", 1), 3, true).unwrap_err().message, "Memcached 不支持数据库切换");
    assert_eq!(rename_unsupported().message, "Memcached 不支持键重命名");
}

#[test]
fn tray_items() {
    assert_eq!(connect_item_id("c1"), "tray-connect:c1");
    assert!(matches!(tray_action("tray-connect:c1"), TrayAction::Connect(id) if id == "c1"));
    assert!(matches!(tray_action("tray-connect:tray-connect:c1"), TrayAction::Connect(id) if id == "c1"));
    assert!(matches!(tray_action("tray-quit"), TrayAction::Quit));
    assert!(matches!(tray_action("tray-show"), TrayAction::Show));
    assert!(matches!(tray_action("tray-settings"), TrayAction::Settings));
    assert!(matches!(tray_action("other"), TrayAction::Ignore));
    let mut c = conn("c1", "h", 1);
    c.password = Some("pw".to_string());
    assert_eq!(connect_item_label(&c), "n-c1  [redis://***@h:1]");
    let list = vec![conn("a", "h", 1), conn("b", "h", 2)];
    assert_eq!(find_connection(&list, "b"), Some(1));
    assert_eq!(find_connection(&list, "q"), None);
    assert_eq!(_unused(), 17453);
    assert_eq!(INSTANCE_PORT, 17453);
}

#[test]
fn cluster_scan_merge() {
    assert!(text_lt("10", "9"));
    assert!(!text_lt("9", "10"));
    let (cursor, keys) = merge_cluster_pages(vec![
        ("0".to_string(), vec!["a".to_string()]),
        ("12".to_string(), vec!["b".to_string()]),
        ("3".to_string(), vec![]),
    ]);
    assert_eq!(cursor, "3");
    assert_eq!(keys, vec!["a".to_string(), "b".to_string()]);
    let (done, _) = merge_cluster_pages(vec![("0".to_string(), vec![]), ("0".to_string(), vec![])]);
    assert_eq!(done, "0");
}

#[test]
fn imported_ids_stay_distinct() {
    let existing = vec![conn("a", "h1", 1), conn("b", "h2", 2)];
    let incoming = vec![conn("a", "h3", 3), conn("", "h4", 4), conn("c", "h5", 5), conn("c", "h6", 6)];
    let (all, result) = import_connections(existing, incoming, 7);
    assert_eq!(result.imported, 4);
    let ids: Vec<&str> = all.iter().map(|c| c.id.as_str()).collect();
    assert_eq!(ids, vec!["a", "b", "imp-7-0", "imp-7-1", "c", "imp-7-3"]);
    let mut sorted = ids.clone();
    sorted.sort();
    sorted.dedup();
    assert_eq!(sorted.len(), ids.len());
}
