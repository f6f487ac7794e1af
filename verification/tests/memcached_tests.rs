use cache_manager_lib::memcachedx::{memcached_console_outcome, needs_metadump};
use cache_manager_lib::memcachedx::{
    collect_slabs, encode_set_request, expiry_time, glob_match, memcached_key_info,
    memcached_scan_page, memcached_server_info, memcached_string_bytes, memcached_value_view,
    parse_cachedump, parse_delete_reply, parse_get_header, parse_metadump, parse_stats,
    parse_store_reply, parse_version_reply, raw_begin, raw_on_data, raw_on_line, reply_is_ok,
    rewrite_raw_command, take_line, ttl_and_size, MemcachedKeyMeta, RawMode, RawStep,
};
use cache_manager_lib::redisx::keys::ValuePayload;

fn lines(v: &[&str]) -> Vec<String> {
    v.iter().map(|s| s.to_string()).collect()
}

#[test]
fn globs() {
    assert!(glob_match("*", ""));
    assert!(glob_match("*", "anything"));
    assert!(glob_match("user:*", "user:42"));
    assert!(glob_match("u?er", "user"));
    assert!(glob_match("[a-c]x", "bx"));
    assert!(!glob_match("[!a-c]x", "bx"));
    assert!(glob_match("plain", "plain"));
    assert!(!glob_match("plain", "plains"));
}

#[test]
fn protocol_lines() {
    let mut buf = b"VALUE k 5 3\r\nabc\r\nEND\r\n".to_vec();
    assert_eq!(take_line(&mut buf).as_deref(), Some("VALUE k 5 3"));
    assert_eq!(parse_get_header("VALUE k 5 3").unwrap(), Some((5, 3)));
    assert_eq!(parse_get_header("END").unwrap(), None);
    assert_eq!(parse_get_header("SERVER_ERROR x").unwrap_err().message, "get 失败: SERVER_ERROR x");
    assert_eq!(encode_set_request("k", b"ab", 0, 60), b"set k 0 60 2\r\nab\r\n".to_vec());
    assert!(parse_store_reply("STORED").is_ok());
    assert_eq!(parse_store_reply("NOT_STORED").unwrap_err().message, "NOT_STORED：存储被拒绝");
    assert_eq!(parse_delete_reply("DELETED").unwrap(), true);
    assert_eq!(parse_delete_reply("NOT_FOUND").unwrap(), false);
    assert_eq!(parse_version_reply("VERSION 1.6.21").unwrap(), "1.6.21");
}

#[test]
fn listings() {
    let stats = parse_stats(&lines(&["STAT pid 1", "STAT version 1.6 x", "junk"]));
    assert_eq!(stats, vec![("pid".to_string(), "1".to_string()), ("version".to_string(), "1.6 x".to_string())]);
    let slabs = collect_slabs(&lines(&["STAT items:1:number 3", "STAT items:1:age 9", "STAT items:5:number 1"]));
    assert_eq!(slabs, vec![1, 5]);
    let metas = parse_cachedump(&lines(&["ITEM user:1 [5 b; 1700000000 s]", "ITEM  [1 b; 0 s]"]));
    assert_eq!(metas.len(), 1);
    assert_eq!(metas[0].key, "user:1");
    assert_eq!(metas[0].size, 5);
    assert_eq!(metas[0].exp, 1700000000);
    let md = parse_metadump(&lines(&["key=a exp=-1 la=1 cas=2 fetch=no cls=1 size=63"]));
    assert_eq!(md[0].key, "a");
    assert_eq!(md[0].exp, -1);
    assert_eq!(md[0].size, 63);
}

#[test]
fn console_completion() {
    let (line, data) = rewrite_raw_command("set k hello world 60");
    assert_eq!(line, "set k 0 60 11");
    assert_eq!(data, Some(b"hello world".to_vec()));
    let (line, data) = rewrite_raw_command("SET k 1 0 99 x y");
    assert_eq!(line, "set k 1 0 3");
    assert_eq!(data, Some(b"x y".to_vec()));
    let (line, data) = rewrite_raw_command("get k");
    assert_eq!(line, "get k");
    assert_eq!(data, None);
    let mut r = raw_begin("VALUE k 0 2");
    assert_eq!(r.mode, RawMode::Values);
    match raw_on_line(&mut r, "VALUE k 0 2") {
        RawStep::Data { bytes, header } => {
            assert_eq!(bytes, 2);
            raw_on_data(&mut r, &header, b"hi");
        }
        _ => panic!("data expected"),
    }
    assert!(matches!(raw_on_line(&mut r, "END"), RawStep::Finished));
    assert_eq!(r.out, "VALUE k 0 2\nVALUE k 0 2\nhi\nEND");
    assert!(raw_begin("STORED").done);
    assert!(reply_is_ok("STORED"));
    assert!(!reply_is_ok("CLIENT_ERROR bad"));
}

#[test]
fn memcached_keys() {
    assert_eq!(expiry_time(-1, 1000), 0);
    assert_eq!(expiry_time(30, 1000), 1030);
    let metas = vec![
        MemcachedKeyMeta { key: "a".to_string(), exp: 1030, size: 7 },
        MemcachedKeyMeta { key: "b".to_string(), exp: 0, size: 2 },
    ];
    assert_eq!(ttl_and_size(&metas, "a", 1000), (30, 7));
    assert_eq!(ttl_and_size(&metas, "b", 1000), (-1, 2));
    assert_eq!(ttl_and_size(&metas, "z", 1000), (-1, -1));
    let info = memcached_key_info("a", 30, 7);
    assert_eq!(info.pttl, 30000);
    assert_eq!(info.memory, Some(7));
    assert_eq!(info.encoding.as_deref(), Some("memcached"));
    let page = memcached_scan_page(metas, "a*");
    assert_eq!(page.keys, vec!["a".to_string()]);
    assert_eq!(page.cursor, "0");
    let v = memcached_value_view("a", 30, Some(b"xyz".to_vec())).unwrap();
    assert_eq!(v.length, 3);
    assert!(matches!(v.payload, ValuePayload::String { value } if value.value == "xyz"));
    assert_eq!(memcached_value_view("q", -1, None).unwrap_err().message, "键不存在: q");
    let info = memcached_server_info(vec![("pid".to_string(), "1".to_string())]);
    assert_eq!(info.raw, "STAT pid 1\r\nEND\r\n");
    assert_eq!(info.sections[0].name, "stats");
    assert_eq!(memcached_string_bytes(" aGk= ", "base64").unwrap(), b"hi".to_vec());
    assert!(memcached_string_bytes("%", "base64").unwrap_err().message.starts_with("base64 解码失败: "));
    assert_eq!(memcached_string_bytes(" x ", "utf8").unwrap(), b" x ".to_vec());
}

#[test]
fn substring_search() {
    assert!(glob_match("*ser:*", "user:42"));
    assert!(glob_match("*42*", "42"));
    assert!(!glob_match("*xyz*", "user:42"));
    assert!(glob_match("**", ""));
}

#[test]
fn status_listing() {
    let mut cfg = cache_manager_lib::model::ConnConfig::default();
    cfg.id = "m1".to_string();
    cfg.name = "cache".to_string();
    let info = cache_manager_lib::memcachedx::memcached_status_info(&cfg, 2, None, 99);
    assert!(matches!(info.mode, cache_manager_lib::model::ConnMode::Memcached));
    assert!(matches!(info.status, cache_manager_lib::model::ConnStatus::Connected));
    assert_eq!(info.connected_at, Some(99));
    let r = cache_manager_lib::redisx::conn_status_info(&cfg, 3, Some("x".to_string()), 5);
    assert!(matches!(r.mode, cache_manager_lib::model::ConnMode::Single));
    assert!(matches!(r.status, cache_manager_lib::model::ConnStatus::Error));
    assert_eq!(r.error.as_deref(), Some("x"));
}

#[test]
fn star_keeps_a_match() {
    assert!(glob_match("user:4?", "user:42"));
    assert!(glob_match("*user:4?", "xxuser:42"));
    assert!(glob_match("user:4?*", "user:42yy"));
    assert!(glob_match("[a-c]x", "bx"));
    assert!(glob_match("[a-c]x*", "bxyz"));
    assert!(glob_match("*[a-c]x", "zzbx"));
}

#[test]
fn memcached_console_and_fallback() {
    let ok = memcached_console_outcome("version".to_string(), "VERSION 1.6".to_string());
    assert!(ok.ok);
    assert!(ok.error.is_none());
    assert_eq!(ok.text.as_deref(), Some("VERSION 1.6"));
    let bad = memcached_console_outcome("x".to_string(), "ERROR".to_string());
    assert!(!bad.ok);
    assert_eq!(bad.error.as_deref(), Some("ERROR"));
    assert!(needs_metadump(&vec![]));
    assert!(!needs_metadump(&vec![MemcachedKeyMeta { key: "a".to_string(), exp: 0, size: 1 }]));
}
