//! Live streams: the text of published messages and of monitored commands.
use vstd::prelude::*;

use crate::encoding::utf8_bytes;
use crate::error::AppError;
use crate::model::{encoded_value_of, ConnMode, EncodedValue};
use crate::redisx::keys::{display_of, item_bytes_of, scalar_bytes, value_to_display};
use crate::redisx::{json_of, json_text, reply_json_text, RespValue};
use vstd::utf8::encode_utf8;

verus! {

/// `MONITOR` runs on single and master-slave connections only; others are
/// refused with a message that points to the subscriptions.
pub fn check_monitor_mode(mode: ConnMode) -> (r: Result<(), AppError>)
    ensures
        (mode == ConnMode::Single || mode == ConnMode::MasterSlave) ==> r is Ok,
        !(mode == ConnMode::Single || mode == ConnMode::MasterSlave) ==> (r matches Err(e)
            && e.message@ == "MONITOR 仅支持单机 / 主从模式（Cluster/Sentinel 请使用订阅功能）"@),
{
    if mode != ConnMode::Single && mode != ConnMode::MasterSlave {
        Err(AppError::from_str("MONITOR 仅支持单机 / 主从模式（Cluster/Sentinel 请使用订阅功能）"))
    } else {
        Ok(())
    }
}

/// The text of a published message: scalars as their text, binary
/// messages in their binary-safe text form, anything else as JSON text.
pub open spec fn message_text_of(v: RespValue) -> Seq<char> {
    match v {
        RespValue::Text(_) | RespValue::Bytes(_) | RespValue::Integer(_) | RespValue::Double { .. }
        | RespValue::Boolean(_) | RespValue::Null => display_of(v).1,
        _ => json_text(json_of(v)),
    }
}

/// The text of a published message (see `message_text_of`).
pub fn message_text(v: &RespValue) -> (r: String)
    ensures
        r@ == message_text_of(*v),
{
    match v {
        RespValue::Text(_) | RespValue::Bytes(_) | RespValue::Integer(_) | RespValue::Double { .. }
        | RespValue::Boolean(_) | RespValue::Null => value_to_display(v).value,
        _ => reply_json_text(v),
    }
}

/// The bytes of a monitored argument: those of a scalar (see
/// `item_bytes_of`), none for null, the UTF-8 of the JSON text of anything
/// else.
pub open spec fn monitor_bytes_of(v: RespValue) -> Seq<u8> {
    match v {
        RespValue::Text(_) | RespValue::Bytes(_) | RespValue::Integer(_) | RespValue::Double { .. }
        | RespValue::Boolean(_) => item_bytes_of(v),
        RespValue::Null => Seq::empty(),
        _ => encode_utf8(json_text(json_of(v))),
    }
}

/// The bytes of a monitored argument (see `monitor_bytes_of`).
pub fn value_bytes(v: &RespValue) -> (r: Vec<u8>)
    ensures
        r@ == monitor_bytes_of(*v),
{
    match v {
        RespValue::Text(_) | RespValue::Bytes(_) | RespValue::Integer(_) | RespValue::Double { .. }
        | RespValue::Boolean(_) => scalar_bytes(v),
        RespValue::Null => Vec::new(),
        _ => {
            let t = reply_json_text(v);
            utf8_bytes(t.as_str())
        },
    }
}

/// The text of each argument of a monitored command (binary safe).
pub fn monitor_args(args: &Vec<RespValue>) -> (r: Vec<String>)
    ensures
        r@.len() == args@.len(),
        forall|i: int| 0 <= i < r@.len() ==> (#[trigger] r@[i])@ == encoded_value_of(monitor_bytes_of(args@[i])).1,
{
    let mut out: Vec<String> = Vec::new();
    let mut i: usize = 0;
    while i < args.len()
        invariant
            i <= args@.len(),
            out@.len() == i,
            forall|k: int| 0 <= k < i ==> (#[trigger] out@[k])@ == encoded_value_of(monitor_bytes_of(args@[k])).1,
        decreases args.len() - i,
    {
        let b = value_bytes(&args[i]);
        out.push(EncodedValue::from_bytes(b.as_slice()).value);
        i = i + 1;
    }
    out
}

/// The client of a pool that publishes: the second where there is one (the
/// first may be subscribed), else the first.
pub fn publish_client(clients: usize) -> (r: usize)
    ensures
        r == if clients > 1 {
            1usize
        } else {
            0usize
        },
{
    if clients > 1 {
        1
    } else {
        0
    }
}

} // verus!
