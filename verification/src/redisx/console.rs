//! The console: reading a command line into a command and its arguments,
//! and what a reply shows as text.
use vstd::prelude::*;

use crate::error::AppError;
use crate::memcachedx::strings_view;
use crate::redisx::keys::bool_text;
use crate::redisx::{json_of, json_view, value_to_json, JsonValue, RespValue};
use crate::text::{
    ascii_upper_seq, chars_of, copy_string, decimal_int, push_i64, split_char, str_eq,
    string_from, trim, trim_chars,
};

verus! {

/// The words that `shlex::split` reads from a text, or none where its
/// quoting is unbalanced.
pub uninterp spec fn shell_words(s: Seq<char>) -> Option<Seq<Seq<char>>>;

/// A text that holds none of the characters that `shlex` treats specially
/// (quotes, backslash, `#`) nor a tab or newline.
pub open spec fn plain_shell_text(s: Seq<char>) -> bool {
    forall|i: int|
        0 <= i < s.len() ==> s[i] != '\'' && s[i] != '"' && s[i] != '\\' && s[i] != '#' && s[i]
            != '\t' && s[i] != '\n'
}

/// The non-empty pieces of `ps`, in order.
pub open spec fn non_empty(ps: Seq<Seq<char>>) -> Seq<Seq<char>>
    decreases ps.len(),
{
    if ps.len() == 0 {
        Seq::empty()
    } else if ps.last().len() == 0 {
        non_empty(ps.drop_last())
    } else {
        non_empty(ps.drop_last()).push(ps.last())
    }
}

/// The words between the spaces of `s`.
pub open spec fn space_words(s: Seq<char>) -> Seq<Seq<char>> {
    non_empty(split_char(s, ' '))
}

/// `shlex::split`: the shell words of a text. A plain text (see
/// `plain_shell_text`) splits at its spaces.
#[verifier::external_body]
fn shlex_split(s: &str) -> (r: Option<Vec<String>>)
    ensures
        match r {
            Some(ws) => shell_words(s@) == Some(strings_view(ws@)),
            None => shell_words(s@) is None,
        },
        plain_shell_text(s@) ==> r is Some && strings_view(r.unwrap()@) == space_words(s@),
{
    shlex::split(s)
}

/// The text that `str::to_uppercase` makes of a text (Unicode upper case).
pub uninterp spec fn uppercase_text(s: Seq<char>) -> Seq<char>;

/// `str::to_uppercase`: an ASCII text upper-cases letter by letter.
#[verifier::external_body]
fn to_uppercase(s: &str) -> (r: String)
    ensures
        r@ == uppercase_text(s@),
        (forall|i: int| 0 <= i < s@.len() ==> (s@[i] as u32) < 128) ==> r@ == ascii_upper_seq(s@),
{
    s.to_uppercase()
}

/// The commands that block their connection.
pub open spec fn blocking_names() -> Seq<Seq<char>> {
    seq![
        "BLPOP"@, "BRPOP"@, "BRPOPLPUSH"@, "BLMOVE"@, "BLMPOP"@, "BZPOPMIN"@, "BZPOPMAX"@,
        "BZMPOP"@, "WAIT"@, "SUBSCRIBE"@, "PSUBSCRIBE"@, "SSUBSCRIBE"@, "MONITOR"@, "XREAD"@,
        "XREADGROUP"@,
    ]
}

/// Whether the command `name` (upper case) blocks its connection.
pub fn is_blocking(name: &str) -> (r: bool)
    ensures
        r == blocking_names().contains(name@),
{
    let names: [&str; 15] = [
        "BLPOP", "BRPOP", "BRPOPLPUSH", "BLMOVE", "BLMPOP", "BZPOPMIN", "BZPOPMAX", "BZMPOP",
        "WAIT", "SUBSCRIBE", "PSUBSCRIBE", "SSUBSCRIBE", "MONITOR", "XREAD", "XREADGROUP",
    ];
    let ghost nv = names@.map_values(|t: &str| t@);
    assert(nv =~= blocking_names());
    let mut i: usize = 0;
    while i < 15
        invariant
            i <= 15,
            names@.len() == 15,
            nv == names@.map_values(|t: &str| t@),
            nv == blocking_names(),
            forall|k: int| 0 <= k < i ==> nv[k] != name@,
        decreases 15 - i,
    {
        if str_eq(names[i], name) {
            assert(nv[i as int] == name@);
            return true;
        }
        i = i + 1;
    }
    assert(!nv.contains(name@));
    false
}

/// A command line read for sending.
#[derive(Debug)]
pub struct PreparedCommand {
    /// The line, trimmed.
    pub line: String,
    /// The command's name, upper case.
    pub name: String,
    /// The arguments after the name.
    pub args: Vec<String>,
    /// Whether the command blocks its connection.
    pub blocking: bool,
}

/// The trimmed line, the upper-case name, the arguments and whether the
/// command blocks, or the message of a refused line. An empty line or one
/// with no words is refused, and so are unbalanced quotes, the subscribe
/// commands, `MONITOR` and `SELECT`, which have their own pages.
pub open spec fn prepared_of(line: Seq<char>) -> Result<
    (Seq<char>, Seq<char>, Seq<Seq<char>>, bool),
    Seq<char>,
> {
    let t = trim(line);
    if t.len() == 0 {
        Err("命令不能为空"@)
    } else {
        match shell_words(t) {
            None => Err("命令解析失败（引号不匹配）"@),
            Some(ws) => if ws.len() == 0 {
                Err("命令不能为空"@)
            } else {
                let name = uppercase_text(ws[0]);
                if name == "SUBSCRIBE"@ || name == "PSUBSCRIBE"@ || name == "SSUBSCRIBE"@ {
                    Err("请使用「实时监控」页面进行订阅"@)
                } else if name == "MONITOR"@ {
                    Err("请使用「实时监控」页面开启 Monitor"@)
                } else if name == "SELECT"@ {
                    Err("请通过连接设置切换数据库 (Database)"@)
                } else {
                    Ok((t, name, ws.skip(1), blocking_names().contains(name)))
                }
            },
        }
    }
}

/// Reads a console line (see `prepared_of`).
pub fn prepare_command(line: &str) -> (r: Result<PreparedCommand, AppError>)
    ensures
        match prepared_of(line@) {
            Ok((t, n, a, b)) => r matches Ok(p) && p.line@ == t && p.name@ == n && p.args@.map_values(
                |w: String| w@,
            ) == a && p.blocking == b,
            Err(m) => r matches Err(e) && e.message@ == m,
        },
{
    let lv = chars_of(line);
    let trimmed = string_from(trim_chars(lv.as_slice()).as_slice());
    if trimmed.as_str().is_empty() {
        return Err(AppError::from_str("命令不能为空"));
    }
    let words = match shlex_split(trimmed.as_str()) {
        Some(ws) => ws,
        None => return Err(AppError::from_str("命令解析失败（引号不匹配）")),
    };
    if words.len() == 0 {
        return Err(AppError::from_str("命令不能为空"));
    }
    let ghost wv = words@.map_values(|w: String| w@);
    assert(wv[0] == words@[0]@);
    let name = to_uppercase(words[0].as_str());
    if str_eq(name.as_str(), "SUBSCRIBE") || str_eq(name.as_str(), "PSUBSCRIBE") || str_eq(
        name.as_str(),
        "SSUBSCRIBE",
    ) {
        return Err(AppError::from_str("请使用「实时监控」页面进行订阅"));
    }
    if str_eq(name.as_str(), "MONITOR") {
        return Err(AppError::from_str("请使用「实时监控」页面开启 Monitor"));
    }
    if str_eq(name.as_str(), "SELECT") {
        return Err(AppError::from_str("请通过连接设置切换数据库 (Database)"));
    }
    let blocking = is_blocking(name.as_str());
    let mut args: Vec<String> = Vec::new();
    let mut i: usize = 1;
    while i < words.len()
        invariant
            1 <= i <= words@.len(),
            wv == words@.map_values(|w: String| w@),
            args@.map_values(|w: String| w@) == wv.subrange(1, i as int),
        decreases words.len() - i,
    {
        let ghost before = args@.map_values(|w: String| w@);
        args.push(copy_string(&words[i]));
        assert(args@.map_values(|w: String| w@) =~= before.push(wv[i as int]));
        assert(wv.subrange(1, i + 1) =~= wv.subrange(1, i as int).push(wv[i as int]));
        i = i + 1;
    }
    assert(wv.subrange(1, wv.len() as int) =~= wv.skip(1));
    Ok(PreparedCommand { line: trimmed, name, args, blocking })
}

/// The text that a console reply shows as one value: that of a text,
/// integer, double, boolean or null reply; none for binary, map, array and
/// queued replies.
pub open spec fn scalar_text_of(v: RespValue) -> Option<Seq<char>> {
    match v {
        RespValue::Text(s) => Some(s@),
        RespValue::Integer(i) => Some(decimal_int(i as int)),
        RespValue::Double { text, .. } => Some(text@),
        RespValue::Boolean(b) => Some(bool_text(b)),
        RespValue::Null => Some("(nil)"@),
        _ => None,
    }
}

/// The text that a console reply shows as one value (see `scalar_text_of`).
pub fn scalar_text(value: &RespValue) -> (r: Option<String>)
    ensures
        match r {
            Some(t) => scalar_text_of(*value) == Some(t@),
            None => scalar_text_of(*value) is None,
        },
{
    match value {
        RespValue::Text(s) => Some(copy_string(s)),
        RespValue::Integer(i) => {
            let mut t = String::new();
            push_i64(&mut t, *i);
            Some(t)
        },
        RespValue::Double { text, .. } => Some(copy_string(text)),
        RespValue::Boolean(b) => Some(if *b {
            "true".to_owned()
        } else {
            "false".to_owned()
        }),
        RespValue::Null => Some("(nil)".to_owned()),
        _ => None,
    }
}

/// What the console shows of a command, but for the time it took.
#[derive(Debug)]
pub struct ConsoleOutcome {
    /// The command as it was run.
    pub command: String,
    pub ok: bool,
    /// The error, exactly when the command failed.
    pub error: Option<String>,
    /// The reply as JSON.
    pub value: Option<JsonValue>,
    /// The reply as one text, where it is one.
    pub text: Option<String>,
}

/// The outcome of a command that the server answered with `reply`: ok, no
/// error, the reply's JSON form and its scalar text (see `scalar_text_of`).
pub fn console_reply(line: String, reply: &RespValue) -> (r: ConsoleOutcome)
    ensures
        r.command@ == line@,
        r.ok,
        r.error is None,
        r.value matches Some(j) && json_view(j) == json_of(*reply),
        match r.text {
            Some(t) => scalar_text_of(*reply) == Some(t@),
            None => scalar_text_of(*reply) is None,
        },
{
    let value = value_to_json(reply);
    let text = scalar_text(reply);
    ConsoleOutcome { command: line, ok: true, error: None, value: Some(value), text }
}

/// The outcome of a command that the server refused with `error`: not ok,
/// the error, no value and no text.
pub fn console_failure(line: String, error: String) -> (r: ConsoleOutcome)
    ensures
        r.command@ == line@,
        !r.ok,
        r.error matches Some(e) && e@ == error@,
        r.value is None,
        r.text is None,
{
    ConsoleOutcome { command: line, ok: false, error: Some(error), value: None, text: None }
}

} // verus!
