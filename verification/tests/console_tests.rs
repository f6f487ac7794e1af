use cache_manager_lib::redisx::console::{console_failure, console_reply};
use cache_manager_lib::model::ConnMode;
use cache_manager_lib::redisx::console::{is_blocking, prepare_command, scalar_text};
use cache_manager_lib::redisx::stream::{
    check_monitor_mode, message_text, monitor_args, publish_client, value_bytes,
};
use cache_manager_lib::redisx::RespValue;

#[test]
fn console_lines() {
    let p = prepare_command("  get  'my key'  ").unwrap();
    assert_eq!(p.line, "get  'my key'");
    assert_eq!(p.name, "GET");
    assert_eq!(p.args, vec!["my key".to_string()]);
    assert!(!p.blocking);
    let b = prepare_command("blpop q 0").unwrap();
    assert_eq!(b.name, "BLPOP");
    assert!(b.blocking);
    assert_eq!(prepare_command("   ").unwrap_err().message, "命令不能为空");
    assert_eq!(prepare_command("# nothing").unwrap_err().message, "命令不能为空");
    assert_eq!(prepare_command("get \"x").unwrap_err().message, "命令解析失败（引号不匹配）");
    assert_eq!(prepare_command("subscribe ch").unwrap_err().message, "请使用「实时监控」页面进行订阅");
    assert_eq!(prepare_command("Monitor").unwrap_err().message, "请使用「实时监控」页面开启 Monitor");
    assert_eq!(prepare_command("select 1").unwrap_err().message, "请通过连接设置切换数据库 (Database)");
    assert!(is_blocking("XREADGROUP"));
    assert!(!is_blocking("xread"));
}

#[test]
fn reply_texts() {
    assert_eq!(scalar_text(&RespValue::Integer(5)).as_deref(), Some("5"));
    assert_eq!(scalar_text(&RespValue::Null).as_deref(), Some("(nil)"));
    assert_eq!(scalar_text(&RespValue::Boolean(false)).as_deref(), Some("false"));
    assert_eq!(scalar_text(&RespValue::Bytes(vec![1])), None);
    assert_eq!(scalar_text(&RespValue::Queued), None);
}

#[test]
fn live_streams() {
    assert!(check_monitor_mode(ConnMode::Single).is_ok());
    assert!(check_monitor_mode(ConnMode::MasterSlave).is_ok());
    assert_eq!(
        check_monitor_mode(ConnMode::Cluster).unwrap_err().message,
        "MONITOR 仅支持单机 / 主从模式（Cluster/Sentinel 请使用订阅功能）"
    );
    assert_eq!(message_text(&RespValue::Text("hi".to_string())), "hi");
    assert_eq!(message_text(&RespValue::Queued), "\"QUEUED\"");
    assert_eq!(message_text(&RespValue::Array(vec![RespValue::Integer(1)])), "[1]");
    assert_eq!(value_bytes(&RespValue::Null), Vec::<u8>::new());
    assert_eq!(value_bytes(&RespValue::Integer(12)), b"12".to_vec());
    let args = monitor_args(&vec![RespValue::Text("SET".to_string()), RespValue::Bytes(vec![0xff, 0xfe])]);
    assert_eq!(args, vec!["SET".to_string(), "//4=".to_string()]);
    assert_eq!(publish_client(2), 1);
    assert_eq!(publish_client(1), 0);
}

#[test]
fn console_outcomes() {
    let ok = console_reply("GET k".to_string(), &RespValue::Text("v".to_string()));
    assert!(ok.ok);
    assert!(ok.error.is_none());
    assert_eq!(ok.text.as_deref(), Some("v"));
    assert!(ok.value.is_some());
    let arr = console_reply("LRANGE l 0 -1".to_string(), &RespValue::Array(vec![]));
    assert!(arr.text.is_none());
    let bad = console_failure("FOO".to_string(), "ERR unknown".to_string());
    assert!(!bad.ok);
    assert_eq!(bad.error.as_deref(), Some("ERR unknown"));
    assert!(bad.value.is_none() && bad.text.is_none());
}
