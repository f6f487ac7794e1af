//! Memcached: the text protocol (requests, replies, key listings) and the
//! local key filter.
use vstd::prelude::*;

use vstd::utf8::*;

use crate::encoding::{
    append_bytes, base64_standard_decode, base64_standard_decoding, utf8_bytes, utf8_lossy,
    utf8_lossy_decoding,
};
use crate::error::AppError;
use crate::model::{ConnConfig, ConnMode, ConnStatus, ConnStatusInfo, EncodedValue};
use crate::redisx::console::ConsoleOutcome;
use crate::redisx::keys::{encoded_view, KeyInfo, ScanPage, ValuePayload, ValueView};
use crate::redisx::server::{InfoSection, ServerInfo};
use crate::text::{
    ascii_lower_chars, ascii_lower_seq, chars_eq_str, join, join_exec, split_words, words,
    push_piece, append_chars,
    has_suffix, parse_i64, parse_i64_exec, trim, trim_chars, trim_end_char, trim_end_char_exec,
    trim_start_char, trim_start_char_exec, ends_with_str, chars_of, decimal, decimal_int, has_prefix, parse_u32, parse_u32_exec, parse_usize,
    parse_usize_exec, push_i64, push_str, push_u64, slice_chars, split_char, split_chars,
    split_once, split_once_exec, starts_with, starts_with_str, str_eq, string_from, substring,
};

verus! {

// ---------------------------------------------------------------------------
// glob patterns
// ---------------------------------------------------------------------------

/// Reads the members of a `[...]` class of `p` from index `i` on, for the
/// character `c`: whether a member matched so far, and the index where the
/// reading stopped (the closing `]`, or the end of `p`). A `-` between two
/// members is a range from the last single member before it.
pub open spec fn class_scan(
    p: Seq<char>,
    c: char,
    i: int,
    first: bool,
    last: char,
    matched: bool,
) -> (bool, int)
    decreases p.len() - i,
{
    if i < 0 || i >= p.len() || p[i] == ']' {
        (matched, i)
    } else if !first && p[i] == '-' && i + 1 < p.len() && p[i + 1] != ']' {
        class_scan(p, c, i + 2, false, last, matched || (last <= c && c <= p[i + 1]))
    } else {
        class_scan(p, c, i + 1, false, p[i], matched || c == p[i])
    }
}

/// Where the members of the class that `p` starts with begin: after the
/// `[` and an optional `!` or `^`.
pub open spec fn class_start(p: Seq<char>) -> int {
    if 1 < p.len() && (p[1] == '!' || p[1] == '^') {
        2
    } else {
        1
    }
}

/// Whether `c` is in the class that `p` starts with, and the index of the
/// class's end.
pub open spec fn class_match(p: Seq<char>, c: char) -> (bool, int) {
    let (m, end) = class_scan(p, c, class_start(p), true, '\0', false);
    (if class_start(p) == 2 {
        !m
    } else {
        m
    }, end)
}

/// The pattern after the class that `p` starts with.
pub open spec fn after_class(p: Seq<char>, end: int) -> Seq<char> {
    if end + 1 < p.len() {
        p.skip(end + 1)
    } else {
        Seq::empty()
    }
}

/// The index where a class scan stops lies between its start and the end.
pub proof fn lemma_class_scan_bounds(
    p: Seq<char>,
    c: char,
    i: int,
    first: bool,
    last: char,
    matched: bool,
)
    requires
        0 <= i,
    ensures
        i <= class_scan(p, c, i, first, last, matched).1,
        i <= p.len() ==> class_scan(p, c, i, first, last, matched).1 <= p.len(),
    decreases p.len() - i,
{
    if i < 0 || i >= p.len() || p[i] == ']' {
    } else if !first && p[i] == '-' && i + 1 < p.len() && p[i + 1] != ']' {
        lemma_class_scan_bounds(p, c, i + 2, false, last, matched || (last <= c && c <= p[i + 1]));
    } else {
        lemma_class_scan_bounds(p, c, i + 1, false, p[i], matched || c == p[i]);
    }
}

/// Whether the text `t` matches the glob pattern `p`: `*` matches any run of
/// characters, `?` any one character, `[...]` one character of a class
/// (`[!...]` or `[^...]` one not in it, `a-z` a range), and every other
/// character itself.
pub open spec fn glob(p: Seq<char>, t: Seq<char>) -> bool
    decreases p.len(), t.len(),
{
    if p.len() == 0 {
        t.len() == 0
    } else if p[0] == '*' {
        glob(p.skip(1), t) || (t.len() > 0 && glob(p, t.skip(1)))
    } else if p[0] == '?' {
        t.len() > 0 && glob(p.skip(1), t.skip(1))
    } else if p[0] == '[' {
        t.len() > 0 && {
            let (m, end) = class_match(p, t[0]);
            m && {
                proof {
                    lemma_class_scan_bounds(p, t[0], class_start(p), true, '\0', false);
                }
                glob(after_class(p, end), t.skip(1))
            }
        }
    } else {
        t.len() > 0 && t[0] == p[0] && glob(p.skip(1), t.skip(1))
    }
}

/// Reads the class that starts at `p[pi]` for the character `c`.
fn class_match_exec(p: &[char], pi: usize, c: char) -> (r: (bool, usize))
    requires
        pi < p.len(),
    ensures
        r.0 == class_match(p@.skip(pi as int), c).0,
        r.1 == class_match(p@.skip(pi as int), c).1,
        1 <= r.1 <= p.len() - pi,
{
    let ghost q = p@.skip(pi as int);
    let n = p.len() - pi;
    let mut i: usize = 1;
    let mut negate = false;
    if i < n && (p[pi + i] == '!' || p[pi + i] == '^') {
        negate = true;
        i = i + 1;
    }
    assert(i == class_start(q));
    assert(negate == (class_start(q) == 2));
    let mut matched = false;
    let mut first = true;
    let mut last: char = '\0';
    proof {
        lemma_class_scan_bounds(q, c, i as int, first, last, matched);
    }
    while i < n && p[pi + i] != ']'
        invariant
            n == p.len() - pi,
            q == p@.skip(pi as int),
            1 <= i <= n,
            class_scan(q, c, class_start(q), true, '\0', false) == class_scan(
                q,
                c,
                i as int,
                first,
                last,
                matched,
            ),
        decreases n - i,
    {
        assert(q[i as int] == p@[pi + i]);
        if !first && p[pi + i] == '-' && i + 1 < n && p[pi + i + 1] != ']' {
            assert(q[i + 1] == p@[pi + i + 1]);
            let hi = p[pi + i + 1];
            matched = matched || (last <= c && c <= hi);
            i = i + 2;
        } else {
            let x = p[pi + i];
            matched = matched || c == x;
            last = x;
            i = i + 1;
        }
        first = false;
    }
    proof {
        if i < n {
            assert(q[i as int] == p@[pi + i]);
        }
    }
    if negate {
        matched = !matched;
    }
    (matched, i)
}

/// Whether `t[ti..]` matches `p[pi..]`.
fn glob_at(p: &[char], t: &[char], pi: usize, ti: usize) -> (r: bool)
    requires
        pi <= p.len(),
        ti <= t.len(),
    ensures
        r == glob(p@.skip(pi as int), t@.skip(ti as int)),
    decreases p.len() - pi, t.len() - ti,
{
    let ghost ps = p@.skip(pi as int);
    let ghost ts = t@.skip(ti as int);
    if pi == p.len() {
        return ti == t.len();
    }
    assert(ps[0] == p@[pi as int]);
    assert(ps.skip(1) =~= p@.skip(pi + 1));
    if ti < t.len() {
        assert(ts.skip(1) =~= t@.skip(ti + 1));
    }
    let pc = p[pi];
    if pc == '*' {
        if glob_at(p, t, pi + 1, ti) {
            true
        } else {
            ti < t.len() && glob_at(p, t, pi, ti + 1)
        }
    } else if pc == '?' {
        ti < t.len() && glob_at(p, t, pi + 1, ti + 1)
    } else if pc == '[' {
        if ti == t.len() {
            return false;
        }
        assert(ts[0] == t@[ti as int]);
        let (m, end) = class_match_exec(p, pi, t[ti]);
        if !m {
            return false;
        }
        let next = if end < p.len() - pi - 1 {
            pi + end + 1
        } else {
            p.len()
        };
        assert(after_class(ps, end as int) =~= p@.skip(next as int));
        glob_at(p, t, next, ti + 1)
    } else {
        if ti == t.len() {
            return false;
        }
        assert(ts[0] == t@[ti as int]);
        t[ti] == pc && glob_at(p, t, pi + 1, ti + 1)
    }
}

/// Whether `text` matches the glob `pattern` (`*`, `?`, `[...]`), used to
/// filter Memcached keys.
pub fn glob_match(pattern: &str, text: &str) -> (r: bool)
    ensures
        r == glob(pattern@, text@),
{
    let p = chars_of(pattern);
    let t = chars_of(text);
    assert(p@.skip(0) =~= p@);
    assert(t@.skip(0) =~= t@);
    glob_at(p.as_slice(), t.as_slice(), 0, 0)
}


// ---------------------------------------------------------------------------
// the reply buffer
// ---------------------------------------------------------------------------

/// `\r\n` starts at index `i` of `b`.
pub open spec fn crlf_at(b: Seq<u8>, i: int) -> bool {
    0 <= i && i + 1 < b.len() && b[i] == 13 && b[i + 1] == 10
}

/// The index of the first `\r\n` in `b`, if any.
pub open spec fn first_crlf(b: Seq<u8>) -> Option<int> {
    if exists|i: int| crlf_at(b, i) {
        Some(choose|i: int| crlf_at(b, i) && forall|j: int| 0 <= j < i ==> !crlf_at(b, j))
    } else {
        None
    }
}

/// The index of the first `\r\n` in `buf`.
pub fn find_crlf(buf: &[u8]) -> (r: Option<usize>)
    ensures
        match r {
            Some(i) => crlf_at(buf@, i as int) && forall|j: int| 0 <= j < i ==> !crlf_at(buf@, j),
            None => forall|j: int| !crlf_at(buf@, j),
        },
        r matches Some(i) ==> first_crlf(buf@) == Some(i as int),
        r is None ==> first_crlf(buf@) is None,
{
    let mut i: usize = 0;
    while i < buf.len() && i < buf.len() - 1
        invariant
            i <= buf.len(),
            forall|j: int| 0 <= j < i ==> !crlf_at(buf@, j),
        decreases buf.len() - i,
    {
        if buf[i] == 13 && buf[i + 1] == 10 {
            proof {
                let k = choose|k: int| crlf_at(buf@, k) && forall|j: int| 0 <= j < k ==> !crlf_at(
                    buf@,
                    j,
                );
                assert(crlf_at(buf@, i as int));
                if k < i {
                } else if k > i {
                    assert(!crlf_at(buf@, i as int));
                }
            }
            return Some(i);
        }
        i = i + 1;
    }
    assert forall|j: int| !crlf_at(buf@, j) by {
        if 0 <= j < i {
        }
    }
    None
}

/// Takes the first line (up to `\r\n`) off the front of `buf`, decoded as
/// text; `None`, with `buf` untouched, while no line is complete.
pub fn take_line(buf: &mut Vec<u8>) -> (r: Option<String>)
    ensures
        match first_crlf(old(buf)@) {
            Some(i) => r matches Some(line) && line@ == utf8_lossy_decoding(old(buf)@.take(i))
                && final(buf)@ == old(buf)@.skip(i + 2),
            None => r is None && final(buf)@ == old(buf)@,
        },
{
    match find_crlf(buf.as_slice()) {
        Some(pos) => {
            assert(crlf_at(buf@, pos as int));
            assert(pos + 2 <= buf.len());
            let head = crate::text::slice_bytes(buf.as_slice(), 0, pos);
            let rest = crate::text::slice_bytes(buf.as_slice(), pos + 2, buf.len());
            let line = utf8_lossy(head.as_slice());
            *buf = rest;
            Some(line)
        },
        None => None,
    }
}

/// Takes the first `n` bytes off the front of `buf`; `None`, with `buf`
/// untouched, while fewer are there.
pub fn take_bytes(buf: &mut Vec<u8>, n: usize) -> (r: Option<Vec<u8>>)
    ensures
        n <= old(buf)@.len() ==> (r matches Some(d) && d@ == old(buf)@.take(n as int)
            && final(buf)@ == old(buf)@.skip(n as int)),
        n > old(buf)@.len() ==> r is None && final(buf)@ == old(buf)@,
{
    if buf.len() < n {
        return None;
    }
    let head = crate::text::slice_bytes(buf.as_slice(), 0, n);
    let rest = crate::text::slice_bytes(buf.as_slice(), n, buf.len());
    *buf = rest;
    Some(head)
}

/// The bytes of a request line: `cmd` and `\r\n`.
pub fn command_line(cmd: &str) -> (r: Vec<u8>)
    ensures
        r@ == encode_utf8(cmd@) + seq![13u8, 10u8],
{
    let mut r = utf8_bytes(cmd);
    r.push(13);
    r.push(10);
    assert(r@ =~= encode_utf8(cmd@) + seq![13u8, 10u8]);
    r
}

// ---------------------------------------------------------------------------
// requests and replies
// ---------------------------------------------------------------------------

/// A value that `get` read.
#[derive(Debug)]
pub struct MemcachedValue {
    pub flags: u32,
    pub data: Vec<u8>,
}

/// A key as the key listings describe it.
#[derive(Debug)]
pub struct MemcachedKeyMeta {
    pub key: String,
    /// The expiry time in Unix seconds; -1 when it never expires or is not
    /// known.
    pub exp: i64,
    /// The size in bytes; -1 when not known.
    pub size: i64,
}

/// An error whose message is `prefix` followed by `line`.
fn failure(prefix: &str, line: &str) -> (e: AppError)
    ensures
        e.message@ == prefix@ + line@,
{
    let mut m = prefix.to_owned();
    push_str(&mut m, line);
    AppError::new(m)
}

/// The text of a `set` request line: `set key flags exptime bytes`.
pub open spec fn set_head(key: Seq<char>, flags: u32, exptime: i64, len: nat) -> Seq<char> {
    "set "@ + key + " "@ + decimal(flags as nat) + " "@ + decimal_int(exptime as int) + " "@
        + decimal(len) + "\r\n"@
}

/// The bytes of a `set` request: the request line, the data and `\r\n`.
pub fn encode_set_request(key: &str, value: &[u8], flags: u32, exptime: i64) -> (r: Vec<u8>)
    ensures
        r@ == encode_utf8(set_head(key@, flags, exptime, value@.len())) + value@ + seq![
            13u8,
            10u8,
        ],
{
    let mut head = "set ".to_owned();
    push_str(&mut head, key);
    push_str(&mut head, " ");
    push_u64(&mut head, flags as u64);
    push_str(&mut head, " ");
    push_i64(&mut head, exptime);
    push_str(&mut head, " ");
    push_u64(&mut head, value.len() as u64);
    push_str(&mut head, "\r\n");
    let mut out = utf8_bytes(head.as_str());
    append_bytes(&mut out, value);
    out.push(13);
    out.push(10);
    assert(out@ =~= encode_utf8(set_head(key@, flags, exptime, value@.len())) + value@ + seq![
        13u8,
        10u8,
    ]);
    out
}

/// The first reply line of `get`: a value header `VALUE key flags bytes`
/// (a field that does not read as a number counts as 0), `END` for a miss,
/// or anything else for a failure.
pub open spec fn get_header_of(line: Seq<char>) -> Result<Option<(u32, usize)>, Seq<char>> {
    if has_prefix(line, "VALUE "@) {
        let parts = split_char(line, ' ');
        let flags = if parts.len() > 2 {
            match parse_u32(parts[2]) {
                Some(f) => f,
                None => 0,
            }
        } else {
            0
        };
        let bytes = if parts.len() > 3 {
            match parse_usize(parts[3]) {
                Some(b) => b,
                None => 0,
            }
        } else {
            0
        };
        Ok(Some((flags, bytes)))
    } else if line == "END"@ {
        Ok(None)
    } else {
        Err("get 失败: "@ + line)
    }
}

/// Reads the first reply line of `get`.
pub fn parse_get_header(line: &str) -> (r: Result<Option<(u32, usize)>, AppError>)
    ensures
        match get_header_of(line@) {
            Ok(h) => r == Ok::<Option<(u32, usize)>, AppError>(h),
            Err(m) => r matches Err(e) && e.message@ == m,
        },
{
    let lv = chars_of(line);
    if starts_with_str(lv.as_slice(), "VALUE ") {
        let parts = split_chars(lv.as_slice(), ' ');
        let flags = if parts.len() > 2 {
            match parse_u32_exec(parts[2].as_slice()) {
                Some(f) => f,
                None => 0,
            }
        } else {
            0
        };
        let bytes = if parts.len() > 3 {
            match parse_usize_exec(parts[3].as_slice()) {
                Some(b) => b,
                None => 0,
            }
        } else {
            0
        };
        proof {
            if parts.len() > 2 {
                assert(parts.deep_view()[2] == parts@[2]@);
            }
            if parts.len() > 3 {
                assert(parts.deep_view()[3] == parts@[3]@);
            }
        }
        Ok(Some((flags, bytes)))
    } else if str_eq(line, "END") {
        Ok(None)
    } else {
        Err(failure("get 失败: ", line))
    }
}

/// The reply to a storage request: `STORED` succeeds, `NOT_STORED` is a
/// refusal, anything else a failure.
pub open spec fn store_reply_of(line: Seq<char>) -> Result<(), Seq<char>> {
    if line == "STORED"@ {
        Ok(())
    } else if line == "NOT_STORED"@ {
        Err("NOT_STORED：存储被拒绝"@)
    } else {
        Err("set 失败: "@ + line)
    }
}

/// Reads the reply to `set`.
pub fn parse_store_reply(line: &str) -> (r: Result<(), AppError>)
    ensures
        match store_reply_of(line@) {
            Ok(_) => r is Ok,
            Err(m) => r matches Err(e) && e.message@ == m,
        },
{
    if str_eq(line, "STORED") {
        Ok(())
    } else if str_eq(line, "NOT_STORED") {
        Err(AppError::from_str("NOT_STORED：存储被拒绝"))
    } else {
        Err(failure("set 失败: ", line))
    }
}

/// The reply to a request that finds a key: `hit` when it was found,
/// `NOT_FOUND` when it was not, anything else a failure.
pub open spec fn found_reply_of(line: Seq<char>, hit: Seq<char>, what: Seq<char>) -> Result<
    bool,
    Seq<char>,
> {
    if line == hit {
        Ok(true)
    } else if line == "NOT_FOUND"@ {
        Ok(false)
    } else {
        Err(what + " 失败: "@ + line)
    }
}

/// Reads the reply to `delete`: whether the key was there.
pub fn parse_delete_reply(line: &str) -> (r: Result<bool, AppError>)
    ensures
        match found_reply_of(line@, "DELETED"@, "delete"@) {
            Ok(b) => r == Ok::<bool, AppError>(b),
            Err(m) => r matches Err(e) && e.message@ == m,
        },
{
    if str_eq(line, "DELETED") {
        Ok(true)
    } else if str_eq(line, "NOT_FOUND") {
        Ok(false)
    } else {
        proof {
            assert("delete"@ + " 失败: "@ =~= "delete 失败: "@) by {
                reveal_strlit("delete");
                reveal_strlit(" 失败: ");
                reveal_strlit("delete 失败: ");
            }
        }
        Err(failure("delete 失败: ", line))
    }
}

/// Reads the reply to `touch`: whether the key was there.
pub fn parse_touch_reply(line: &str) -> (r: Result<bool, AppError>)
    ensures
        match found_reply_of(line@, "TOUCHED"@, "touch"@) {
            Ok(b) => r == Ok::<bool, AppError>(b),
            Err(m) => r matches Err(e) && e.message@ == m,
        },
{
    if str_eq(line, "TOUCHED") {
        Ok(true)
    } else if str_eq(line, "NOT_FOUND") {
        Ok(false)
    } else {
        proof {
            assert("touch"@ + " 失败: "@ =~= "touch 失败: "@) by {
                reveal_strlit("touch");
                reveal_strlit(" 失败: ");
                reveal_strlit("touch 失败: ");
            }
        }
        Err(failure("touch 失败: ", line))
    }
}

/// Reads the reply to `flush_all`: `OK`, or a failure.
pub fn parse_flush_reply(line: &str) -> (r: Result<(), AppError>)
    ensures
        line@ == "OK"@ ==> r is Ok,
        line@ != "OK"@ ==> (r matches Err(e) && e.message@ == "flush_all 失败: "@ + line@),
{
    if str_eq(line, "OK") {
        Ok(())
    } else {
        Err(failure("flush_all 失败: ", line))
    }
}

/// Reads the reply to `version`: the text after `VERSION `, or a failure.
pub fn parse_version_reply(line: &str) -> (r: Result<String, AppError>)
    ensures
        has_prefix(line@, "VERSION "@) ==> (r matches Ok(v) && v@ == line@.skip(
            "VERSION "@.len() as int,
        )),
        !has_prefix(line@, "VERSION "@) ==> (r matches Err(e) && e.message@ == "version 失败: "@
            + line@),
{
    let lv = chars_of(line);
    let p = chars_of("VERSION ");
    if starts_with(lv.as_slice(), p.as_slice()) {
        Ok(substring(lv.as_slice(), p.len(), lv.len()))
    } else {
        Err(failure("version 失败: ", line))
    }
}

/// The text of a `stats` reply line `STAT name value`: the name, and the
/// rest after the first space (empty when there is none).
pub open spec fn stat_line_of(line: Seq<char>) -> Option<(Seq<char>, Seq<char>)> {
    if has_prefix(line, "STAT "@) {
        let rest = line.skip("STAT "@.len() as int);
        match split_once(rest, ' ') {
            Some((k, v)) => Some((k, v)),
            None => Some((rest, Seq::empty())),
        }
    } else {
        None
    }
}

/// Reads a `STAT name value` line.
pub fn parse_stat_line(line: &str) -> (r: Option<(String, String)>)
    ensures
        match stat_line_of(line@) {
            Some((k, v)) => r matches Some((a, b)) && a@ == k && b@ == v,
            None => r is None,
        },
{
    let lv = chars_of(line);
    let p = chars_of("STAT ");
    if !starts_with(lv.as_slice(), p.as_slice()) {
        return None;
    }
    let rest = slice_chars(lv.as_slice(), p.len(), lv.len());
    match split_once_exec(rest.as_slice(), ' ') {
        Some((k, v)) => Some((string_from(k.as_slice()), string_from(v.as_slice()))),
        None => Some((string_from(rest.as_slice()), String::new())),
    }
}

/// The statistics of the `stats` reply lines (those before `END`), in
/// order; other lines are skipped.
pub open spec fn stats_of(lines: Seq<Seq<char>>) -> Seq<(Seq<char>, Seq<char>)>
    decreases lines.len(),
{
    if lines.len() == 0 {
        Seq::empty()
    } else {
        let before = stats_of(lines.drop_last());
        match stat_line_of(lines.last()) {
            Some(kv) => before.push(kv),
            None => before,
        }
    }
}

/// The view of a list of string pairs.
pub open spec fn pairs_view(v: Seq<(String, String)>) -> Seq<(Seq<char>, Seq<char>)> {
    v.map_values(|p: (String, String)| (p.0@, p.1@))
}

/// The view of a list of strings.
pub open spec fn strings_view(v: Seq<String>) -> Seq<Seq<char>> {
    v.map_values(|s: String| s@)
}

/// Reads the lines of a `stats` reply.
pub fn parse_stats(lines: &Vec<String>) -> (r: Vec<(String, String)>)
    ensures
        pairs_view(r@) == stats_of(strings_view(lines@)),
{
    let mut out: Vec<(String, String)> = Vec::new();
    let mut i: usize = 0;
    while i < lines.len()
        invariant
            i <= lines.len(),
            pairs_view(out@) == stats_of(strings_view(lines@).take(i as int)),
        decreases lines.len() - i,
    {
        let parsed = parse_stat_line(lines[i].as_str());
        proof {
            assert(strings_view(lines@).take(i + 1).drop_last() =~= strings_view(lines@).take(
                i as int,
            ));
            assert(strings_view(lines@).take(i + 1).last() == lines@[i as int]@);
        }
        match parsed {
            Some(kv) => {
                let ghost before = out@;
                out.push(kv);
                assert(pairs_view(out@) =~= pairs_view(before).push((kv.0@, kv.1@)));
            },
            None => {},
        }
        i = i + 1;
    }
    assert(strings_view(lines@).take(lines@.len() as int) =~= strings_view(lines@));
    out
}


// ---------------------------------------------------------------------------
// key listings
// ---------------------------------------------------------------------------

/// The view of a key description: key, expiry time, size.
pub open spec fn meta_view(m: MemcachedKeyMeta) -> (Seq<char>, i64, i64) {
    (m.key@, m.exp, m.size)
}

/// The view of a list of key descriptions.
pub open spec fn metas_view(ms: Seq<MemcachedKeyMeta>) -> Seq<(Seq<char>, i64, i64)> {
    ms.map_values(|m: MemcachedKeyMeta| meta_view(m))
}

/// The number that `s` writes, or -1.
pub open spec fn int_or_minus_one(s: Seq<char>) -> i64 {
    match parse_i64(s) {
        Some(n) => n,
        None => -1i64,
    }
}

/// The slab that a `stats items` line `STAT items:<slab>:<name> <value>`
/// names.
pub open spec fn items_slab_of(line: Seq<char>) -> Option<u32> {
    if has_prefix(line, "STAT items:"@) {
        parse_u32(split_char(line.skip("STAT items:"@.len() as int), ':')[0])
    } else {
        None
    }
}

/// The slabs that `stats items` lines name, each once, in the order of
/// their first line.
pub open spec fn slabs_of(lines: Seq<Seq<char>>) -> Seq<u32>
    decreases lines.len(),
{
    if lines.len() == 0 {
        Seq::empty()
    } else {
        let before = slabs_of(lines.drop_last());
        match items_slab_of(lines.last()) {
            Some(id) => if before.contains(id) {
                before
            } else {
                before.push(id)
            },
            None => before,
        }
    }
}

/// Reads the slab of a `stats items` line.
pub fn parse_items_slab(line: &str) -> (r: Option<u32>)
    ensures
        r == items_slab_of(line@),
{
    let lv = chars_of(line);
    let p = chars_of("STAT items:");
    if !starts_with(lv.as_slice(), p.as_slice()) {
        return None;
    }
    let rest = slice_chars(lv.as_slice(), p.len(), lv.len());
    let pieces = split_chars(rest.as_slice(), ':');
    proof {
        crate::text::lemma_split_char_len(rest@, ':');
        assert(pieces.deep_view()[0] == pieces@[0]@);
    }
    parse_u32_exec(pieces[0].as_slice())
}

/// The slabs that the lines of a `stats items` reply name, each once.
pub fn collect_slabs(lines: &Vec<String>) -> (r: Vec<u32>)
    ensures
        r@ == slabs_of(strings_view(lines@)),
{
    let mut out: Vec<u32> = Vec::new();
    let mut i: usize = 0;
    while i < lines.len()
        invariant
            i <= lines.len(),
            out@ == slabs_of(strings_view(lines@).take(i as int)),
        decreases lines.len() - i,
    {
        let slab = parse_items_slab(lines[i].as_str());
        proof {
            assert(strings_view(lines@).take(i + 1).drop_last() =~= strings_view(lines@).take(
                i as int,
            ));
            assert(strings_view(lines@).take(i + 1).last() == lines@[i as int]@);
        }
        match slab {
            Some(id) => {
                let mut seen = false;
                let mut k: usize = 0;
                while k < out.len()
                    invariant
                        k <= out.len(),
                        seen == out@.take(k as int).contains(id),
                    decreases out.len() - k,
                {
                    proof {
                        assert(out@.take(k + 1) =~= out@.take(k as int).push(out@[k as int]));
                    }
                    let ghost pre = out@.take(k as int);
                    if out[k] == id {
                        seen = true;
                    }
                    proof {
                        let nxt = out@.take(k + 1);
                        if out@[k as int] == id {
                            assert(nxt[k as int] == id);
                        }
                        if pre.contains(id) {
                            let j = choose|j: int| 0 <= j < pre.len() && pre[j] == id;
                            assert(nxt[j] == id);
                        }
                        if nxt.contains(id) {
                            let j = choose|j: int| 0 <= j < nxt.len() && nxt[j] == id;
                            if j < k {
                                assert(pre[j] == id);
                            }
                        }
                    }
                    k = k + 1;
                }
                assert(out@.take(out@.len() as int) =~= out@);
                if !seen {
                    out.push(id);
                }
            },
            None => {},
        }
        i = i + 1;
    }
    assert(strings_view(lines@).take(lines@.len() as int) =~= strings_view(lines@));
    out
}

/// Reads the `;`-separated parts `<size> b` and `<exp> s` of a cache dump
/// line; a later part wins, a number that does not read gives -1.
pub open spec fn dump_parts(parts: Seq<Seq<char>>) -> (i64, i64)
    decreases parts.len(),
{
    if parts.len() == 0 {
        (-1i64, -1i64)
    } else {
        let (exp, size) = dump_parts(parts.drop_last());
        let t = trim(parts.last());
        if has_suffix(t, " b"@) {
            (exp, int_or_minus_one(trim(t.take(t.len() - 2))))
        } else if has_suffix(t, " s"@) {
            (int_or_minus_one(trim(t.take(t.len() - 2))), size)
        } else {
            (exp, size)
        }
    }
}

/// A key and the rest of the line after the first space, if any.
pub open spec fn key_and_rest(rest: Seq<char>) -> (Seq<char>, Option<Seq<char>>) {
    match split_once(rest, ' ') {
        Some((k, m)) => (k, Some(m)),
        None => (rest, None),
    }
}

/// A `stats cachedump` line `ITEM <key> [<size> b; <exp> s]`: the key
/// (not empty), its expiry time and its size.
pub open spec fn cachedump_line_of(line: Seq<char>) -> Option<(Seq<char>, i64, i64)> {
    if has_prefix(line, "ITEM "@) {
        let (key, meta) = key_and_rest(line.skip("ITEM "@.len() as int));
        let (exp, size) = match meta {
            Some(m) => dump_parts(
                split_char(trim_end_char(trim_start_char(trim(m), '['), ']'), ';'),
            ),
            None => (-1i64, -1i64),
        };
        if key.len() > 0 {
            Some((key, exp, size))
        } else {
            None
        }
    } else {
        None
    }
}

/// Reads the number before a two-character unit such as ` b`.
fn number_before_unit(t: &[char]) -> (r: i64)
    requires
        t@.len() >= 2,
    ensures
        r == int_or_minus_one(trim(t@.take(t@.len() - 2))),
{
    let v = slice_chars(t, 0, t.len() - 2);
    let tv = trim_chars(v.as_slice());
    match parse_i64_exec(tv.as_slice()) {
        Some(n) => n,
        None => -1,
    }
}

/// Reads the parts of a cache dump line.
fn read_dump_parts(parts: &Vec<Vec<char>>) -> (r: (i64, i64))
    ensures
        r == dump_parts(parts.deep_view()),
{
    let mut exp: i64 = -1;
    let mut size: i64 = -1;
    let mut i: usize = 0;
    while i < parts.len()
        invariant
            i <= parts.len(),
            (exp, size) == dump_parts(parts.deep_view().take(i as int)),
        decreases parts.len() - i,
    {
        let t = trim_chars(parts[i].as_slice());
        proof {
            assert(parts.deep_view().take(i + 1).drop_last() =~= parts.deep_view().take(i as int));
            assert(parts.deep_view().take(i + 1).last() == parts@[i as int]@);
        }
        if ends_with_str(t.as_slice(), " b") {
            proof {
                reveal_strlit(" b");
            }
            size = number_before_unit(t.as_slice());
        } else if ends_with_str(t.as_slice(), " s") {
            proof {
                reveal_strlit(" s");
            }
            exp = number_before_unit(t.as_slice());
        }
        i = i + 1;
    }
    assert(parts.deep_view().take(parts.deep_view().len() as int) =~= parts.deep_view());
    (exp, size)
}

/// Splits off the key at the first space.
fn split_key(rest: &[char]) -> (r: (Vec<char>, Option<Vec<char>>))
    ensures
        r.0@ == key_and_rest(rest@).0,
        match key_and_rest(rest@).1 {
            Some(m) => r.1 matches Some(x) && x@ == m,
            None => r.1 is None,
        },
{
    match split_once_exec(rest, ' ') {
        Some((k, m)) => (k, Some(m)),
        None => (slice_chars(rest, 0, rest.len()), None),
    }
}

/// Reads a `stats cachedump` line.
pub fn parse_cachedump_line(line: &str) -> (r: Option<MemcachedKeyMeta>)
    ensures
        match cachedump_line_of(line@) {
            Some(v) => r matches Some(m) && meta_view(m) == v,
            None => r is None,
        },
{
    let lv = chars_of(line);
    let p = chars_of("ITEM ");
    if !starts_with(lv.as_slice(), p.as_slice()) {
        return None;
    }
    let rest = slice_chars(lv.as_slice(), p.len(), lv.len());
    let (key, meta) = split_key(rest.as_slice());
    let (exp, size) = match meta {
        Some(m) => {
            let t = trim_chars(m.as_slice());
            let a = trim_start_char_exec(t.as_slice(), '[');
            let b = trim_end_char_exec(a.as_slice(), ']');
            let parts = split_chars(b.as_slice(), ';');
            read_dump_parts(&parts)
        },
        None => (-1, -1),
    };
    if key.len() > 0 {
        Some(MemcachedKeyMeta { key: string_from(key.as_slice()), exp, size })
    } else {
        None
    }
}

/// Reads the space-separated parts `exp=<n>` and `size=<n>` of a metadump
/// line; a later part wins, a number that does not read gives -1.
pub open spec fn metadump_parts(parts: Seq<Seq<char>>) -> (i64, i64)
    decreases parts.len(),
{
    if parts.len() == 0 {
        (-1i64, -1i64)
    } else {
        let (exp, size) = metadump_parts(parts.drop_last());
        let t = parts.last();
        if has_prefix(t, "exp="@) {
            (int_or_minus_one(t.skip("exp="@.len() as int)), size)
        } else if has_prefix(t, "size="@) {
            (exp, int_or_minus_one(t.skip("size="@.len() as int)))
        } else {
            (exp, size)
        }
    }
}

/// A `lru_crawler metadump` line `key=<key> exp=<exp> ... size=<size>`:
/// the key (not empty), its expiry time and its size.
pub open spec fn metadump_line_of(line: Seq<char>) -> Option<(Seq<char>, i64, i64)> {
    if has_prefix(line, "key="@) {
        let (key, meta) = key_and_rest(line.skip("key="@.len() as int));
        let (exp, size) = match meta {
            Some(m) => metadump_parts(split_char(m, ' ')),
            None => (-1i64, -1i64),
        };
        if key.len() > 0 {
            Some((key, exp, size))
        } else {
            None
        }
    } else {
        None
    }
}

/// Reads the number after a prefix such as `exp=`.
fn number_after(t: &[char], n: usize) -> (r: i64)
    requires
        n <= t@.len(),
    ensures
        r == int_or_minus_one(t@.skip(n as int)),
{
    let v = slice_chars(t, n, t.len());
    assert(v@ =~= t@.skip(n as int));
    match parse_i64_exec(v.as_slice()) {
        Some(x) => x,
        None => -1,
    }
}

/// Reads the parts of a metadump line.
fn read_metadump_parts(parts: &Vec<Vec<char>>) -> (r: (i64, i64))
    ensures
        r == metadump_parts(parts.deep_view()),
{
    let mut exp: i64 = -1;
    let mut size: i64 = -1;
    let pe = chars_of("exp=");
    let ps = chars_of("size=");
    let mut i: usize = 0;
    while i < parts.len()
        invariant
            i <= parts.len(),
            pe@ == "exp="@,
            ps@ == "size="@,
            (exp, size) == metadump_parts(parts.deep_view().take(i as int)),
        decreases parts.len() - i,
    {
        let t = &parts[i];
        proof {
            assert(parts.deep_view().take(i + 1).drop_last() =~= parts.deep_view().take(i as int));
            assert(parts.deep_view().take(i + 1).last() == parts@[i as int]@);
        }
        if starts_with(t.as_slice(), pe.as_slice()) {
            exp = number_after(t.as_slice(), pe.len());
        } else if starts_with(t.as_slice(), ps.as_slice()) {
            size = number_after(t.as_slice(), ps.len());
        }
        i = i + 1;
    }
    assert(parts.deep_view().take(parts.deep_view().len() as int) =~= parts.deep_view());
    (exp, size)
}

/// Reads a `lru_crawler metadump` line.
pub fn parse_metadump_line(line: &str) -> (r: Option<MemcachedKeyMeta>)
    ensures
        match metadump_line_of(line@) {
            Some(v) => r matches Some(m) && meta_view(m) == v,
            None => r is None,
        },
{
    let lv = chars_of(line);
    let p = chars_of("key=");
    if !starts_with(lv.as_slice(), p.as_slice()) {
        return None;
    }
    let rest = slice_chars(lv.as_slice(), p.len(), lv.len());
    let (key, meta) = split_key(rest.as_slice());
    let (exp, size) = match meta {
        Some(m) => {
            let parts = split_chars(m.as_slice(), ' ');
            read_metadump_parts(&parts)
        },
        None => (-1, -1),
    };
    if key.len() > 0 {
        Some(MemcachedKeyMeta { key: string_from(key.as_slice()), exp, size })
    } else {
        None
    }
}


/// The keys that `stats cachedump` lines describe, in order.
pub open spec fn cachedump_keys_of(lines: Seq<Seq<char>>) -> Seq<(Seq<char>, i64, i64)>
    decreases lines.len(),
{
    if lines.len() == 0 {
        Seq::empty()
    } else {
        let before = cachedump_keys_of(lines.drop_last());
        match cachedump_line_of(lines.last()) {
            Some(m) => before.push(m),
            None => before,
        }
    }
}

/// The keys that `lru_crawler metadump` lines describe, in order.
pub open spec fn metadump_keys_of(lines: Seq<Seq<char>>) -> Seq<(Seq<char>, i64, i64)>
    decreases lines.len(),
{
    if lines.len() == 0 {
        Seq::empty()
    } else {
        let before = metadump_keys_of(lines.drop_last());
        match metadump_line_of(lines.last()) {
            Some(m) => before.push(m),
            None => before,
        }
    }
}

/// Reads the lines of `stats cachedump` replies (those before each `END`).
pub fn parse_cachedump(lines: &Vec<String>) -> (r: Vec<MemcachedKeyMeta>)
    ensures
        metas_view(r@) == cachedump_keys_of(strings_view(lines@)),
{
    let mut out: Vec<MemcachedKeyMeta> = Vec::new();
    let mut i: usize = 0;
    while i < lines.len()
        invariant
            i <= lines.len(),
            metas_view(out@) == cachedump_keys_of(strings_view(lines@).take(i as int)),
        decreases lines.len() - i,
    {
        let parsed = parse_cachedump_line(lines[i].as_str());
        proof {
            assert(strings_view(lines@).take(i + 1).drop_last() =~= strings_view(lines@).take(
                i as int,
            ));
            assert(strings_view(lines@).take(i + 1).last() == lines@[i as int]@);
        }
        match parsed {
            Some(m) => {
                let ghost before = out@;
                let ghost mv = meta_view(m);
                out.push(m);
                assert(metas_view(out@) =~= metas_view(before).push(mv));
            },
            None => {},
        }
        i = i + 1;
    }
    assert(strings_view(lines@).take(lines@.len() as int) =~= strings_view(lines@));
    out
}

/// Reads the lines of a `lru_crawler metadump` reply (those before `END`).
pub fn parse_metadump(lines: &Vec<String>) -> (r: Vec<MemcachedKeyMeta>)
    ensures
        metas_view(r@) == metadump_keys_of(strings_view(lines@)),
{
    let mut out: Vec<MemcachedKeyMeta> = Vec::new();
    let mut i: usize = 0;
    while i < lines.len()
        invariant
            i <= lines.len(),
            metas_view(out@) == metadump_keys_of(strings_view(lines@).take(i as int)),
        decreases lines.len() - i,
    {
        let parsed = parse_metadump_line(lines[i].as_str());
        proof {
            assert(strings_view(lines@).take(i + 1).drop_last() =~= strings_view(lines@).take(
                i as int,
            ));
            assert(strings_view(lines@).take(i + 1).last() == lines@[i as int]@);
        }
        match parsed {
            Some(m) => {
                let ghost before = out@;
                let ghost mv = meta_view(m);
                out.push(m);
                assert(metas_view(out@) =~= metas_view(before).push(mv));
            },
            None => {},
        }
        i = i + 1;
    }
    assert(strings_view(lines@).take(lines@.len() as int) =~= strings_view(lines@));
    out
}

// ---------------------------------------------------------------------------
// raw commands
// ---------------------------------------------------------------------------

/// The storage commands whose data block is filled in.
pub open spec fn is_storage_verb(v: Seq<char>) -> bool {
    v == "set"@ || v == "add"@ || v == "replace"@ || v == "append"@ || v == "prepend"@
}

/// What is sent for the console command `cmd`: the request line, and the
/// data block of a storage command. A storage command is written either in
/// full (`set <key> <flags> <exptime> <bytes> <data...>`, the byte count
/// recomputed) or short (`set <key> <value...> [exptime]`, flags 0 and
/// exptime 0 unless a number ends the command); its words are lower-cased
/// in the verb only and joined by single spaces. Any other command is sent
/// as it is.
pub open spec fn raw_request_of(cmd: Seq<char>) -> (Seq<char>, Option<Seq<u8>>) {
    let toks = words(cmd);
    if toks.len() >= 3 && is_storage_verb(ascii_lower_seq(toks[0])) {
        let verb = ascii_lower_seq(toks[0]);
        let key = toks[1];
        let rest = toks.skip(2);
        if rest.len() >= 4 && parse_i64(rest[1]) is Some && parse_i64(rest[2]) is Some {
            let data = encode_utf8(join(rest.skip(3), " "@));
            (
                verb + " "@ + key + " "@ + rest[0] + " "@ + rest[1] + " "@ + decimal(data.len()),
                Some(data),
            )
        } else {
            let has_exp = rest.len() >= 2 && parse_i64(rest.last()) is Some;
            let exp = if has_exp {
                rest.last()
            } else {
                "0"@
            };
            let data = encode_utf8(
                join(
                    if has_exp {
                        rest.drop_last()
                    } else {
                        rest
                    },
                    " "@,
                ),
            );
            (verb + " "@ + key + " 0 "@ + exp + " "@ + decimal(data.len()), Some(data))
        }
    } else {
        (cmd, None)
    }
}

/// Whether `v` names a storage command.
fn is_storage_verb_exec(v: &[char]) -> (r: bool)
    ensures
        r == is_storage_verb(v@),
{
    chars_eq_str(v, "set") || chars_eq_str(v, "add") || chars_eq_str(v, "replace")
        || chars_eq_str(v, "append") || chars_eq_str(v, "prepend")
}

/// Builds what is sent for the console command `cmd` (see `raw_request_of`).
pub fn rewrite_raw_command(cmd: &str) -> (r: (String, Option<Vec<u8>>))
    ensures
        r.0@ == raw_request_of(cmd@).0,
        match raw_request_of(cmd@).1 {
            Some(d) => r.1 matches Some(x) && x@ == d,
            None => r.1 is None,
        },
{
    let cv = chars_of(cmd);
    let toks = split_words(cv.as_slice());
    if toks.len() >= 3 {
        let verb = ascii_lower_chars(toks[0].as_slice());
        proof {
            assert(toks.deep_view()[0] == toks@[0]@);
            assert(toks.deep_view()[1] == toks@[1]@);
        }
        if is_storage_verb_exec(verb.as_slice()) {
            let ghost rest = toks.deep_view().skip(2);
            let n = toks.len();
            let full = n - 2 >= 4 && parse_i64_exec(toks[3].as_slice()).is_some()
                && parse_i64_exec(toks[4].as_slice()).is_some();
            proof {
                if n - 2 >= 4 {
                    assert(rest[1] == toks@[3]@);
                    assert(rest[2] == toks@[4]@);
                }
            }
            if full {
                let data = join_exec(&toks, 5, n, " ");
                assert(toks.deep_view().subrange(5, n as int) =~= rest.skip(3));
                let bytes = crate::encoding::utf8_bytes(data.as_str());
                let mut wire = string_from(verb.as_slice());
                push_str(&mut wire, " ");
                append_chars(&mut wire, toks[1].as_slice());
                push_str(&mut wire, " ");
                append_chars(&mut wire, toks[2].as_slice());
                push_str(&mut wire, " ");
                append_chars(&mut wire, toks[3].as_slice());
                push_str(&mut wire, " ");
                push_u64(&mut wire, bytes.len() as u64);
                proof {
                    assert(rest[0] == toks@[2]@);
                }
                return (wire, Some(bytes));
            } else {
                let has_exp = n - 2 >= 2 && parse_i64_exec(toks[n - 1].as_slice()).is_some();
                proof {
                    assert(rest.last() == toks@[n - 1]@);
                }
                let end = if has_exp {
                    n - 1
                } else {
                    n
                };
                let data = join_exec(&toks, 2, end, " ");
                proof {
                    if has_exp {
                        assert(toks.deep_view().subrange(2, end as int) =~= rest.drop_last());
                    } else {
                        assert(toks.deep_view().subrange(2, end as int) =~= rest);
                    }
                }
                let bytes = crate::encoding::utf8_bytes(data.as_str());
                let mut wire = string_from(verb.as_slice());
                push_str(&mut wire, " ");
                append_chars(&mut wire, toks[1].as_slice());
                push_str(&mut wire, " 0 ");
                if has_exp {
                    append_chars(&mut wire, toks[n - 1].as_slice());
                } else {
                    push_str(&mut wire, "0");
                }
                push_str(&mut wire, " ");
                push_u64(&mut wire, bytes.len() as u64);
                return (wire, Some(bytes));
            }
        }
    }
    (cmd.to_owned(), None)
}

/// How the reply to a console command is being read.
#[derive(Debug, Clone, Copy, PartialEq, Eq, Structural)]
pub enum RawMode {
    /// `get`/`gets` values, up to `END`.
    Values,
    /// `STAT` or `key=` lines, up to `END`.
    Listing,
    /// One line only.
    Single,
}

/// The reply read so far.
#[derive(Debug)]
pub struct RawReader {
    pub mode: RawMode,
    pub out: String,
    pub done: bool,
}

/// What to read next.
#[derive(Debug)]
pub enum RawStep {
    /// Another line.
    Line,
    /// `bytes` bytes of data and the line that ends them; `header` goes
    /// before the data in the text.
    Data { bytes: usize, header: String },
    /// Nothing: the reply is complete.
    Finished,
}

/// How a reply whose first line is `first` is read.
pub open spec fn raw_mode_of(first: Seq<char>) -> RawMode {
    if has_prefix(first, "VALUE "@) {
        RawMode::Values
    } else if has_prefix(first, "STAT "@) || has_prefix(first, "key="@) {
        RawMode::Listing
    } else {
        RawMode::Single
    }
}

/// Starts reading a reply from its first line; a reply of one line is
/// complete at once.
pub fn raw_begin(first: &str) -> (r: RawReader)
    ensures
        r.mode == raw_mode_of(first@),
        r.out@ == first@,
        r.done == (r.mode == RawMode::Single),
{
    let fv = chars_of(first);
    let mode = if starts_with_str(fv.as_slice(), "VALUE ") {
        RawMode::Values
    } else if starts_with_str(fv.as_slice(), "STAT ") || starts_with_str(fv.as_slice(), "key=") {
        RawMode::Listing
    } else {
        RawMode::Single
    };
    RawReader { mode, out: first.to_owned(), done: mode == RawMode::Single }
}

/// A value header line `VALUE <key> <flags> <bytes> ...` in a `get` reply.
pub open spec fn value_header(line: Seq<char>) -> bool {
    split_char(line, ' ').len() >= 4 && split_char(line, ' ')[0] == "VALUE"@
}

/// The text put before the data of a value: `\nVALUE <key> <flags> <bytes>\n`.
pub open spec fn value_header_text(line: Seq<char>) -> Seq<char> {
    let parts = split_char(line, ' ');
    "\nVALUE "@ + parts[1] + " "@ + parts[2] + " "@ + parts[3] + "\n"@
}

/// Reads the next line of a reply: `END` completes it; in a values reply a
/// header asks for the data; any other line is added after a line break.
pub fn raw_on_line(reader: &mut RawReader, line: &str) -> (step: RawStep)
    requires
        !old(reader).done,
    ensures
        final(reader).mode == old(reader).mode,
        line@ == "END"@ ==> (step is Finished && final(reader).done && final(reader).out@ == old(
            reader,
        ).out@ + "\nEND"@),
        line@ != "END"@ && old(reader).mode == RawMode::Values && value_header(line@) ==> (
        step matches RawStep::Data { bytes, header } && header@ == value_header_text(line@)
            && bytes == match parse_usize(split_char(line@, ' ')[3]) {
            Some(b) => b,
            None => 0,
        } && final(reader).out@ == old(reader).out@ && !final(reader).done),
        line@ != "END"@ && !(old(reader).mode == RawMode::Values && value_header(line@)) ==> (
        step is Line && final(reader).out@ == old(reader).out@ + "\n"@ + line@
            && !final(reader).done),
{
    if str_eq(line, "END") {
        push_str(&mut reader.out, "\nEND");
        reader.done = true;
        return RawStep::Finished;
    }
    if reader.mode == RawMode::Values {
        let lv = chars_of(line);
        let parts = split_chars(lv.as_slice(), ' ');
        proof {
            if parts.len() >= 1 {
                assert(parts.deep_view()[0] == parts@[0]@);
            }
        }
        if parts.len() >= 4 && chars_eq_str(parts[0].as_slice(), "VALUE") {
            proof {
                assert(parts.deep_view()[1] == parts@[1]@);
                assert(parts.deep_view()[2] == parts@[2]@);
                assert(parts.deep_view()[3] == parts@[3]@);
            }
            let bytes = match parse_usize_exec(parts[3].as_slice()) {
                Some(b) => b,
                None => 0,
            };
            let mut header = "\nVALUE ".to_owned();
            append_chars(&mut header, parts[1].as_slice());
            push_str(&mut header, " ");
            append_chars(&mut header, parts[2].as_slice());
            push_str(&mut header, " ");
            append_chars(&mut header, parts[3].as_slice());
            push_str(&mut header, "\n");
            return RawStep::Data { bytes, header };
        }
    }
    push_str(&mut reader.out, "\n");
    push_str(&mut reader.out, line);
    RawStep::Line
}

/// Adds the data of a value, after its header, to the reply text.
pub fn raw_on_data(reader: &mut RawReader, header: &str, data: &[u8])
    ensures
        final(reader).mode == old(reader).mode,
        final(reader).done == old(reader).done,
        final(reader).out@ == old(reader).out@ + header@ + utf8_lossy_decoding(data@),
{
    push_str(&mut reader.out, header);
    let text = utf8_lossy(data);
    push_str(&mut reader.out, text.as_str());
}

/// Whether a console reply reports success: it does not start with
/// `ERROR`, `CLIENT_ERROR` or `SERVER_ERROR`.
pub open spec fn reply_ok(text: Seq<char>) -> bool {
    !has_prefix(text, "ERROR"@) && !has_prefix(text, "CLIENT_ERROR"@) && !has_prefix(
        text,
        "SERVER_ERROR"@,
    )
}

/// Whether a console reply reports success.
pub fn reply_is_ok(text: &str) -> (r: bool)
    ensures
        r == reply_ok(text@),
{
    let tv = chars_of(text);
    !starts_with_str(tv.as_slice(), "ERROR") && !starts_with_str(tv.as_slice(), "CLIENT_ERROR")
        && !starts_with_str(tv.as_slice(), "SERVER_ERROR")
}


// ---------------------------------------------------------------------------
// operations on the data
// ---------------------------------------------------------------------------

/// The absolute expiry time sent for a time to live of `ttl` seconds at
/// time `now`: 0 (never) for a negative one.
pub open spec fn expiry_of(ttl: i64, now: i64) -> int {
    if ttl < 0 {
        0
    } else {
        now + ttl
    }
}

/// The absolute expiry time for a time to live of `ttl` seconds at `now`.
pub fn expiry_time(ttl: i64, now: i64) -> (r: i64)
    requires
        ttl >= 0 ==> i64::MIN <= now + ttl <= i64::MAX,
    ensures
        r == expiry_of(ttl, now),
{
    if ttl < 0 {
        0
    } else {
        now + ttl
    }
}

/// The seconds left until the expiry time `exp`, -1 when it never expires.
pub open spec fn seconds_left(exp: i64, now: i64) -> int {
    if exp <= 0 {
        -1
    } else {
        exp - now
    }
}

/// The index of the first description of `key` in `metas`.
pub open spec fn find_meta(metas: Seq<(Seq<char>, i64, i64)>, key: Seq<char>) -> Option<int>
    decreases metas.len(),
{
    if metas.len() == 0 {
        None
    } else {
        match find_meta(metas.drop_last(), key) {
            Some(i) => Some(i),
            None => if metas.last().0 == key {
                Some(metas.len() - 1)
            } else {
                None
            },
        }
    }
}

/// The time to live and the size of `key` as the key listing gives them at
/// time `now`: (-1, -1) when the listing does not hold it.
pub open spec fn ttl_and_size_of(metas: Seq<(Seq<char>, i64, i64)>, key: Seq<char>, now: i64) -> (
    int,
    int,
) {
    match find_meta(metas, key) {
        Some(i) => (seconds_left(metas[i].1, now), metas[i].2 as int),
        None => (-1, -1),
    }
}

/// The time to live and the size of `key` from the key listing.
pub fn ttl_and_size(metas: &Vec<MemcachedKeyMeta>, key: &str, now: i64) -> (r: (i64, i64))
    requires
        now >= 0,
    ensures
        (r.0 as int, r.1 as int) == ttl_and_size_of(metas_view(metas@), key@, now),
{
    let mut i: usize = 0;
    while i < metas.len()
        invariant
            i <= metas.len(),
            now >= 0,
            find_meta(metas_view(metas@).take(i as int), key@) is None,
        decreases metas.len() - i,
    {
        proof {
            assert(metas_view(metas@).take(i + 1).drop_last() =~= metas_view(metas@).take(
                i as int,
            ));
        }
        if str_eq(metas[i].key.as_str(), key) {
            proof {
                lemma_find_meta_prefix(metas_view(metas@), key@, i + 1);
            }
            let exp = metas[i].exp;
            let ttl = if exp <= 0 {
                -1
            } else {
                exp - now
            };
            return (ttl, metas[i].size);
        }
        i = i + 1;
    }
    assert(metas_view(metas@).take(metas@.len() as int) =~= metas_view(metas@));
    (-1, -1)
}

/// A first description found in a prefix of the listing is the first in
/// the whole listing.
proof fn lemma_find_meta_prefix(metas: Seq<(Seq<char>, i64, i64)>, key: Seq<char>, n: int)
    requires
        0 <= n <= metas.len(),
        find_meta(metas.take(n), key) is Some,
    ensures
        find_meta(metas, key) == find_meta(metas.take(n), key),
    decreases metas.len() - n,
{
    if n < metas.len() {
        assert(metas.take(n + 1).drop_last() =~= metas.take(n));
        lemma_find_meta_prefix(metas, key, n + 1);
    } else {
        assert(metas.take(n) =~= metas);
    }
}

/// What is known of the Memcached key `key` whose time to live is `ttl`
/// and size `size` (-1 when not known): a string, with times in seconds
/// and milliseconds, its size as memory and `memcached` as encoding.
pub fn memcached_key_info(key: &str, ttl: i64, size: i64) -> (r: KeyInfo)
    requires
        ttl >= 0 ==> ttl * 1000 <= i64::MAX,
    ensures
        r.key@ == key@,
        r.key_type@ == "string"@,
        r.ttl == ttl,
        r.pttl == if ttl < 0 {
            -1
        } else {
            ttl * 1000
        },
        r.length == -1,
        r.memory == if size >= 0 {
            Some(size)
        } else {
            None::<i64>
        },
        r.encoding matches Some(e) && e@ == "memcached"@,
{
    KeyInfo {
        key: key.to_owned(),
        key_type: "string".to_owned(),
        ttl,
        pttl: if ttl < 0 {
            -1
        } else {
            ttl * 1000
        },
        length: -1,
        memory: if size >= 0 {
            Some(size)
        } else {
            None
        },
        encoding: Some("memcached".to_owned()),
    }
}

/// The keys of the listing that match the glob `pattern`, in order.
pub open spec fn matching_keys(keys: Seq<Seq<char>>, pattern: Seq<char>) -> Seq<Seq<char>>
    decreases keys.len(),
{
    if keys.len() == 0 {
        Seq::empty()
    } else {
        let before = matching_keys(keys.drop_last(), pattern);
        if glob(pattern, keys.last()) {
            before.push(keys.last())
        } else {
            before
        }
    }
}

/// One page holding all listed keys that match `pattern`: cursor `0`, not
/// cut short, no types.
pub fn memcached_scan_page(metas: Vec<MemcachedKeyMeta>, pattern: &str) -> (r: ScanPage)
    ensures
        r.cursor@ == "0"@,
        strings_view(r.keys@) == matching_keys(
            metas_view(metas@).map_values(|m: (Seq<char>, i64, i64)| m.0),
            pattern@,
        ),
        !r.truncated,
        r.types@.len() == 0,
{
    let ghost all = metas_view(metas@).map_values(|m: (Seq<char>, i64, i64)| m.0);
    let mut keys: Vec<String> = Vec::new();
    let mut i: usize = 0;
    while i < metas.len()
        invariant
            i <= metas.len(),
            all == metas_view(metas@).map_values(|m: (Seq<char>, i64, i64)| m.0),
            strings_view(keys@) == matching_keys(all.take(i as int), pattern@),
        decreases metas.len() - i,
    {
        proof {
            assert(all.take(i + 1).drop_last() =~= all.take(i as int));
            assert(all.take(i + 1).last() == metas@[i as int].key@);
        }
        if glob_match(pattern, metas[i].key.as_str()) {
            let ghost before = keys@;
            keys.push(crate::text::copy_string(&metas[i].key));
            assert(strings_view(keys@) =~= strings_view(before).push(metas@[i as int].key@));
        } else {
            assert(matching_keys(all.take(i + 1), pattern@) =~= matching_keys(
                all.take(i as int),
                pattern@,
            ));
        }
        i = i + 1;
    }
    assert(all.take(metas@.len() as int) =~= all);
    ScanPage { cursor: "0".to_owned(), keys, truncated: false, types: Vec::new() }
}

/// `STAT name value\r\n` for each statistic.
pub open spec fn stats_lines(stats: Seq<(Seq<char>, Seq<char>)>) -> Seq<char>
    decreases stats.len(),
{
    if stats.len() == 0 {
        Seq::empty()
    } else {
        stats_lines(stats.drop_last()) + "STAT "@ + stats.last().0 + " "@ + stats.last().1
            + "\r\n"@
    }
}

/// The server information of a Memcached server: one section `stats`
/// holding its statistics, and their raw text.
pub fn memcached_server_info(stats: Vec<(String, String)>) -> (r: ServerInfo)
    ensures
        r.sections@.len() == 1,
        r.sections@[0].name@ == "stats"@,
        pairs_view(r.sections@[0].fields@) == pairs_view(stats@),
        r.raw@ == stats_lines(pairs_view(stats@)) + "END\r\n"@,
{
    let mut raw = String::new();
    let mut i: usize = 0;
    while i < stats.len()
        invariant
            i <= stats.len(),
            raw@ == stats_lines(pairs_view(stats@).take(i as int)),
        decreases stats.len() - i,
    {
        push_str(&mut raw, "STAT ");
        push_str(&mut raw, stats[i].0.as_str());
        push_str(&mut raw, " ");
        push_str(&mut raw, stats[i].1.as_str());
        push_str(&mut raw, "\r\n");
        proof {
            assert(pairs_view(stats@).take(i + 1).drop_last() =~= pairs_view(stats@).take(
                i as int,
            ));
        }
        i = i + 1;
    }
    assert(pairs_view(stats@).take(stats@.len() as int) =~= pairs_view(stats@));
    push_str(&mut raw, "END\r\n");
    let mut sections: Vec<InfoSection> = Vec::new();
    sections.push(InfoSection { name: "stats".to_owned(), fields: stats });
    ServerInfo { sections, raw }
}

/// The value of the Memcached key `key` whose time to live is `ttl`: a
/// string holding the bytes read, or an error `键不存在: ` and the key when
/// the server holds none.
pub fn memcached_value_view(key: &str, ttl: i64, value: Option<Vec<u8>>) -> (r: Result<
    ValueView,
    AppError,
>)
    ensures
        match value {
            Some(b) => r matches Ok(v) && v.key@ == key@ && v.key_type@ == "string"@ && v.ttl
                == ttl && v.length == b@.len() as i64 && (v.payload matches ValuePayload::String {
                value: e,
            } && encoded_view(e) == crate::model::encoded_value_of(b@)),
            None => r matches Err(e) && e.message@ == "键不存在: "@ + key@,
        },
{
    match value {
        Some(data) => Ok(
            ValueView {
                key: key.to_owned(),
                key_type: "string".to_owned(),
                ttl,
                length: data.len() as i64,
                payload: ValuePayload::String { value: EncodedValue::from_bytes(data.as_slice()) },
            },
        ),
        None => {
            let mut m = "键不存在: ".to_owned();
            push_str(&mut m, key);
            Err(AppError::new(m))
        },
    }
}

/// The bytes that a string value written to Memcached stores: where
/// `encoding` is `base64`, those that the Base64 text decodes to once the
/// whitespace round it is trimmed (refused with a message that starts with
/// `base64 解码失败: `); the UTF-8 bytes of the text otherwise.
pub fn memcached_string_bytes(value: &str, encoding: &str) -> (r: Result<Vec<u8>, AppError>)
    ensures
        encoding@ == "base64"@ ==> match r {
            Ok(b) => base64_standard_decoding(trim(value@)) == Some(b@),
            Err(e) => base64_standard_decoding(trim(value@)) is None && has_prefix(
                e.message@,
                "base64 解码失败: "@,
            ),
        },
        encoding@ != "base64"@ ==> (r matches Ok(b) && b@ == encode_utf8(value@)),
{
    if str_eq(encoding, "base64") {
        let v = chars_of(value);
        let t = string_from(trim_chars(v.as_slice()).as_slice());
        match base64_standard_decode(t.as_str()) {
            Ok(b) => Ok(b),
            Err(text) => {
                let mut m = "base64 解码失败: ".to_owned();
                let ghost p = m@;
                push_str(&mut m, text.as_str());
                assert(m@.take(p.len() as int) =~= p);
                Err(AppError::new(m))
            },
        }
    } else {
        Ok(utf8_bytes(value))
    }
}

/// Creating a key that the server holds already is refused with
/// `键已存在: ` and the key.
pub fn check_new_key(exists: bool, key: &str) -> (r: Result<(), AppError>)
    ensures
        exists ==> (r matches Err(e) && e.message@ == "键已存在: "@ + key@),
        !exists ==> r is Ok,
{
    if exists {
        let mut m = "键已存在: ".to_owned();
        push_str(&mut m, key);
        Err(AppError::new(m))
    } else {
        Ok(())
    }
}

/// Whether connecting again keeps the connection already open under the
/// same id: only one that is still connected is kept.
pub fn reuses_connection(existing: Option<ConnStatus>) -> (r: bool)
    ensures
        r == (existing == Some(ConnStatus::Connected)),
{
    match existing {
        Some(ConnStatus::Connected) => true,
        _ => false,
    }
}

/// A Memcached connection as the user interface lists it: like a Redis one
/// (see `conn_status_info`), always in Memcached mode.
pub fn memcached_status_info(config: &ConnConfig, code: u8, error: Option<String>, connected_at: u64) -> (r:
    ConnStatusInfo)
    ensures
        r.id@ == config.id@,
        r.name@ == config.name@,
        r.mode == ConnMode::Memcached,
        r.status == crate::redisx::status_of_code(code),
        r.error == error,
        r.nodes@.len() == 0,
        r.databases is None,
        r.connected_at == Some(connected_at),
{
    let info = crate::redisx::conn_status_info(config, code, error, connected_at);
    ConnStatusInfo { mode: ConnMode::Memcached, ..info }
}

/// The outcome of a console command whose whole reply is `result`: ok
/// unless the reply reports an error (see `reply_ok`), the reply as the
/// error exactly when it does, the reply as the text, no JSON value.
pub fn memcached_console_outcome(command: String, result: String) -> (r: ConsoleOutcome)
    ensures
        r.command@ == command@,
        r.ok == reply_ok(result@),
        r.ok ==> r.error is None,
        !r.ok ==> (r.error matches Some(e) && e@ == result@),
        r.value is None,
        r.text matches Some(t) && t@ == result@,
{
    let ok = reply_is_ok(result.as_str());
    let error = if ok {
        None
    } else {
        Some(crate::text::copy_string(&result))
    };
    ConsoleOutcome { command, ok, error, value: None, text: Some(result) }
}

/// All keys are listed through `lru_crawler metadump all` only when the
/// per-slab `stats cachedump` listings gave no key.
pub fn needs_metadump(found: &Vec<MemcachedKeyMeta>) -> (r: bool)
    ensures
        r == (found@.len() == 0),
{
    found.len() == 0
}

} // verus!
