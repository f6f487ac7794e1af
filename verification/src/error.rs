//! The error type of the library: a message meant to be shown as it is.
use vstd::prelude::*;

use crate::text::push_str;

verus! {

/// An error, carrying the message to show.
#[derive(Debug, Clone)]
pub struct AppError {
    pub message: String,
}

impl AppError {
    /// An error with the given message.
    pub fn new(message: String) -> (e: AppError)
        ensures
            e.message@ == message@,
    {
        AppError { message }
    }

    /// An error whose message is the string literal `message`.
    pub fn from_str(message: &str) -> (e: AppError)
        ensures
            e.message@ == message@,
    {
        AppError { message: message.to_owned() }
    }
}

/// An error whose message is `prefix` followed by `detail`.
fn prefixed(prefix: &str, detail: &str) -> (e: AppError)
    ensures
        e.message@ == prefix@ + detail@,
{
    let mut m = prefix.to_owned();
    push_str(&mut m, detail);
    AppError::new(m)
}

/// The error of a failed Redis command, from the client's description.
pub fn redis_error(detail: &str) -> (e: AppError)
    ensures
        e.message@ == "Redis 错误: "@ + detail@,
{
    prefixed("Redis 错误: ", detail)
}

/// The error of failed file input or output, from its description.
pub fn io_error(detail: &str) -> (e: AppError)
    ensures
        e.message@ == "IO 错误: "@ + detail@,
{
    prefixed("IO 错误: ", detail)
}

/// The error of JSON that could not be read or written, from its
/// description.
pub fn json_error(detail: &str) -> (e: AppError)
    ensures
        e.message@ == "JSON 错误: "@ + detail@,
{
    prefixed("JSON 错误: ", detail)
}

/// The error of an operation that took too long.
pub fn timeout_error() -> (e: AppError)
    ensures
        e.message@ == "操作超时"@,
{
    AppError::from_str("操作超时")
}

/// The text that the Redis client's error displays; nothing is stated of
/// it.
#[verifier::external_body]
pub(crate) fn fred_error_text(e: &fred::error::Error) -> String {
    e.to_string()
}

/// The error of a failed Redis command: `Redis 错误: ` and what the
/// client's error says.
pub fn from_fred_error(e: &fred::error::Error) -> (r: AppError)
    ensures
        r.message@.len() >= "Redis 错误: "@.len(),
        r.message@.take("Redis 错误: "@.len() as int) == "Redis 错误: "@,
{
    let t = fred_error_text(e);
    let r = redis_error(t.as_str());
    assert(r.message@.take("Redis 错误: "@.len() as int) =~= "Redis 错误: "@);
    r
}

} // verus!
