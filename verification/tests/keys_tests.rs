use cache_manager_lib::redisx::keys::{
    paged_hash_payload, paged_set_payload, paged_zset_payload, whole_hash_payload,
    whole_set_payload, whole_zset_payload,
};
use cache_manager_lib::redisx::keys::{
    args_with_pairs, collection_read_whole, create_key_plan, key_args, key_info_of, key_kind,
    key_types, length_command, list_payload, lrem_args, paging_stops, parse_hscan_reply,
    parse_sscan_reply, parse_zscan_reply, push_command, reply_count, scan_result,
    scan_type_filter, stream_payload, string_payload, string_write, ttl_command, value_kind,
    value_to_display, KeyKind, SizeCommand, TtlCommand, ValuePayload, WriteCommand, ZScore,
};
use cache_manager_lib::redisx::{reply_json_text, RespValue};

fn text(s: &str) -> RespValue {
    RespValue::Text(s.to_string())
}

#[test]
fn display_of_replies() {
    assert_eq!(value_to_display(&text("abc")).value, "abc");
    assert_eq!(value_to_display(&RespValue::Integer(-42)).value, "-42");
    assert_eq!(value_to_display(&RespValue::Boolean(true)).value, "true");
    assert_eq!(value_to_display(&RespValue::Null).value, "(nil)");
    assert_eq!(value_to_display(&RespValue::Queued).value, "QUEUED");
    let d = RespValue::Double { text: "1.5".to_string(), json: "1.5".to_string() };
    assert_eq!(value_to_display(&d).value, "1.5");
    let b = value_to_display(&RespValue::Bytes(vec![0xfe]));
    assert_eq!(b.encoding, "base64");
    assert_eq!(b.value, "/g==");
    let arr = RespValue::Array(vec![text("a"), RespValue::Integer(1)]);
    assert_eq!(value_to_display(&arr).value, "[\"a\",1]");
}

#[test]
fn json_text_of_maps() {
    let m = RespValue::Dict(vec![
        (b"b".to_vec(), RespValue::Integer(2)),
        (b"a".to_vec(), RespValue::Null),
        (b"b".to_vec(), RespValue::Integer(3)),
    ]);
    assert_eq!(reply_json_text(&m), "{\"a\":null,\"b\":3}");
    let d = RespValue::Double { text: "2".to_string(), json: "2.0".to_string() };
    assert_eq!(reply_json_text(&d), "2.0");
}

#[test]
fn scan_filters() {
    assert_eq!(scan_type_filter(&None).unwrap(), None);
    assert_eq!(scan_type_filter(&Some("all".to_string())).unwrap(), None);
    assert_eq!(scan_type_filter(&Some("zset".to_string())).unwrap(), Some(KeyKind::ZSet));
    assert_eq!(scan_type_filter(&Some("json".to_string())).unwrap_err().message, "未知键类型: json");
    assert_eq!(key_kind("set"), Some(KeyKind::SetMembers));
    assert_eq!(key_kind("String"), None);
}

#[test]
fn scan_pages_and_types() {
    let keys = vec!["a".to_string(), "b".to_string(), "a".to_string()];
    let types = vec!["string".to_string(), "hash".to_string(), "list".to_string()];
    let t = key_types(&keys, &types);
    assert_eq!(t, vec![("a".to_string(), "list".to_string()), ("b".to_string(), "hash".to_string())]);
    let short = key_types(&keys, &vec!["set".to_string()]);
    assert_eq!(short, vec![("a".to_string(), "set".to_string())]);
    let page = scan_result("17".to_string(), keys.clone(), None);
    assert_eq!(page.cursor, "17");
    assert!(!page.truncated);
    assert!(page.types.is_empty());
    let many: Vec<String> = (0..1000).map(|i| format!("k{i}")).collect();
    assert!(scan_result("0".to_string(), many, Some(Vec::new())).truncated);
}

#[test]
fn key_description() {
    assert_eq!(length_command("hash"), Some(SizeCommand::Hlen));
    assert_eq!(length_command("stream"), Some(SizeCommand::Xlen));
    assert_eq!(length_command("vectorset"), None);
    let info = key_info_of(
        "k",
        "string".to_string(),
        10,
        10000,
        None,
        Some(RespValue::Integer(56)),
        Some(text("embstr")),
    );
    assert_eq!(info.length, 0);
    assert_eq!(info.memory, Some(56));
    assert_eq!(info.encoding.as_deref(), Some("embstr"));
    let none = key_info_of("k", "list".to_string(), -1, -1, Some(3), Some(text("x")), None);
    assert_eq!(none.memory, None);
    assert_eq!(none.encoding, None);
    assert_eq!(none.length, 3);
}

#[test]
fn value_reading() {
    assert_eq!(value_kind("list").unwrap(), KeyKind::List);
    assert_eq!(value_kind("vectorset").unwrap_err().message, "暂不支持的值类型: vectorset");
    assert!(collection_read_whole(5000));
    assert!(!collection_read_whole(5001));
    assert!(paging_stops("0", 3));
    assert!(paging_stops("12", 5000));
    assert!(!paging_stops("12", 4999));
    let (len, p) = string_payload(Some(b"hello".to_vec()));
    assert_eq!(len, 5);
    assert!(matches!(p, ValuePayload::String { value } if value.value == "hello"));
    let (len, p) = string_payload(None);
    assert_eq!(len, 0);
    assert!(matches!(p, ValuePayload::String { value } if value.value == "(key 不存在)"));
    let values: Vec<Vec<u8>> = (0..5001).map(|i| format!("v{i}").into_bytes()).collect();
    match list_payload(&values) {
        ValuePayload::List { values, truncated } => {
            assert!(truncated);
            assert_eq!(values.len(), 5000);
            assert_eq!(values[4999].value, "v4999");
        }
        _ => panic!("list expected"),
    }
    let entries = vec![("1-0".to_string(), vec![("f".to_string(), b"v".to_vec())])];
    match stream_payload(entries) {
        ValuePayload::Stream { entries, truncated } => {
            assert!(!truncated);
            assert_eq!(entries[0].id, "1-0");
            assert_eq!(entries[0].fields[0].field.value, "f");
            assert_eq!(entries[0].fields[0].value.value, "v");
        }
        _ => panic!("stream expected"),
    }
}

#[test]
fn scan_page_replies() {
    let reply = RespValue::Array(vec![
        text("9"),
        RespValue::Array(vec![text("f1"), text("v1"), text("f2"), RespValue::Bytes(vec![0xff]), text("odd")]),
    ]);
    let (cursor, fields) = parse_hscan_reply(&reply).unwrap();
    assert_eq!(cursor, "9");
    assert_eq!(fields.len(), 2);
    assert_eq!(fields[1].value.encoding, "base64");
    assert_eq!(parse_hscan_reply(&text("x")).unwrap_err().message, "HSCAN 响应格式异常");
    let (c, members) = parse_sscan_reply(&RespValue::Array(vec![text("0"), RespValue::Array(vec![text("m")])])).unwrap();
    assert_eq!(c, "0");
    assert_eq!(members[0].value, "m");
    assert_eq!(parse_sscan_reply(&RespValue::Array(vec![text("0")])).unwrap_err().message, "SSCAN 响应格式异常");
    let z = RespValue::Array(vec![
        text("0"),
        RespValue::Array(vec![
            text("a"),
            RespValue::Integer(3),
            text("b"),
            RespValue::Double { text: "2.5".to_string(), json: "2.5".to_string() },
            text("c"),
            text("oops"),
        ]),
    ]);
    let (_, ms) = parse_zscan_reply(&z).unwrap();
    assert_eq!(ms.len(), 3);
    assert!(matches!(ms[0].score, ZScore::Integer(3)));
    assert!(matches!(&ms[1].score, ZScore::Float(t) if t == "2.5"));
    assert!(matches!(&ms[2].score, ZScore::Float(t) if t == "0"));
}

#[test]
fn creating_keys() {
    assert_eq!(
        create_key_plan(true, "k", "string", None, "v", None).unwrap_err().message,
        "键已存在: k"
    );
    assert!(matches!(create_key_plan(false, "k", "string", None, "v", None).unwrap(), WriteCommand::SetBytes(b) if b == b"v".to_vec()));
    match create_key_plan(false, "k", "zset", None, "m", None).unwrap() {
        WriteCommand::Command { name, args } => {
            assert_eq!(name, "ZADD");
            assert_eq!(args, vec!["k", "1", "m"]);
        }
        _ => panic!("command expected"),
    }
    match create_key_plan(false, "k", "stream", None, "v", None).unwrap() {
        WriteCommand::Command { name, args } => {
            assert_eq!(name, "XADD");
            assert_eq!(args, vec!["k", "*", "f", "v"]);
        }
        _ => panic!("command expected"),
    }
    match create_key_plan(false, "k", "hash", Some("fld"), "v", None).unwrap() {
        WriteCommand::Command { name, args } => {
            assert_eq!(name, "HSET");
            assert_eq!(args, vec!["k", "fld", "v"]);
        }
        _ => panic!("command expected"),
    }
    assert_eq!(create_key_plan(false, "k", "json", None, "v", None).unwrap_err().message, "未知类型: json");
}

#[test]
fn writing_values() {
    assert_eq!(ttl_command(-1), TtlCommand::Persist);
    assert_eq!(ttl_command(0), TtlCommand::Expire(0));
    assert_eq!(ttl_command(60), TtlCommand::Expire(60));
    let (b, ex) = string_write("aGk=", Some(30), "base64").unwrap();
    assert_eq!(b, b"hi".to_vec());
    assert_eq!(ex, Some(30));
    let (b, ex) = string_write("aGk=", Some(0), "utf8").unwrap();
    assert_eq!(b, b"aGk=".to_vec());
    assert_eq!(ex, None);
    assert!(string_write("%%", None, "base64").unwrap_err().message.starts_with("Base64 解码失败: "));
}

#[test]
fn command_arguments() {
    assert_eq!(key_args("k", vec!["a".to_string(), "b".to_string()]), vec!["k", "a", "b"]);
    assert_eq!(push_command(true), "RPUSH");
    assert_eq!(push_command(false), "LPUSH");
    assert_eq!(lrem_args("k", "v", -2), vec!["k", "-2", "v"]);
    let args = args_with_pairs(
        vec!["k".to_string(), "*".to_string()],
        vec![("f".to_string(), "v".to_string()), ("g".to_string(), "w".to_string())],
    );
    assert_eq!(args, vec!["k", "*", "f", "v", "g", "w"]);
    assert_eq!(reply_count(&RespValue::Integer(4)), 4);
    assert_eq!(reply_count(&RespValue::Integer(-1)), u64::MAX);
    assert_eq!(reply_count(&text("4")), 0);
}

#[test]
fn paging_truncation() {
    assert!(cache_manager_lib::redisx::keys::paging_truncated(5000));
    assert!(cache_manager_lib::redisx::keys::paging_truncated(5200));
    assert!(!cache_manager_lib::redisx::keys::paging_truncated(4999));
}

#[test]
fn whole_and_paged_payloads() {
    match whole_hash_payload(&vec![("f".to_string(), b"v".to_vec())]) {
        ValuePayload::Hash { fields, truncated } => {
            assert!(!truncated);
            assert_eq!(fields[0].field.value, "f");
        }
        _ => panic!("hash expected"),
    }
    assert!(matches!(whole_set_payload(&vec![b"m".to_vec()]), ValuePayload::SetMembers { truncated: false, .. }));
    assert!(matches!(whole_zset_payload(vec![(b"m".to_vec(), ZScore::Integer(1))]), ValuePayload::ZSet { truncated: false, .. }));
    assert!(matches!(paged_hash_payload(Vec::new()), ValuePayload::Hash { truncated: false, .. }));
    let many: Vec<_> = (0..5000).map(|i| cache_manager_lib::model::EncodedValue::from_string(i.to_string())).collect();
    assert!(matches!(paged_set_payload(many), ValuePayload::SetMembers { truncated: true, .. }));
    assert!(matches!(paged_zset_payload(Vec::new()), ValuePayload::ZSet { truncated: false, .. }));
}
