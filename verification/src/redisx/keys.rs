//! Keys and values: listing keys, describing a key, and shaping values and
//! the arguments of the commands that change them.
use vstd::prelude::*;

use crate::error::AppError;
use crate::memcachedx::strings_view;
use crate::encoding::{base64_standard_decoding, utf8_bytes};
use crate::model::{base64_decode, base64_error_prefix, encoded_value_of, EncodedValue};
use crate::redisx::{json_of, json_text, reply_json_text, RespValue};
use crate::text::{copy_string, decimal_int, push_i64, push_str, slice_bytes, str_eq};
use vstd::utf8::encode_utf8;

verus! {

/// Most keys that one scan page holds before it counts as cut short.
pub const SCAN_PAGE_MAX: usize = 1000;

/// Most members of a collection that are read.
pub const COLLECTION_MAX: usize = 5000;

/// One page of a key scan.
#[derive(Debug)]
pub struct ScanPage {
    pub cursor: String,
    pub keys: Vec<String>,
    pub truncated: bool,
    /// The type of each key, where the server was asked (single and
    /// master-slave connections), as key and type pairs.
    pub types: Vec<(String, String)>,
}

/// What is known of a key.
#[derive(Debug)]
pub struct KeyInfo {
    pub key: String,
    /// `string`, `list`, `hash`, `set`, `zset`, `stream`, ...
    pub key_type: String,
    pub ttl: i64,
    pub pttl: i64,
    pub length: i64,
    pub memory: Option<i64>,
    pub encoding: Option<String>,
}

/// A field of a hash (or of a stream entry) and its value.
#[derive(Debug)]
pub struct HashField {
    pub field: EncodedValue,
    pub value: EncodedValue,
}

/// An entry of a stream.
#[derive(Debug)]
pub struct StreamEntry {
    pub id: String,
    pub fields: Vec<HashField>,
}

/// The score of a sorted-set member as the server gave it: an integer, or
/// the text that `Display` writes for a double.
#[derive(Debug)]
pub enum ZScore {
    Integer(i64),
    Float(String),
}

/// A member of a sorted set and its score.
#[derive(Debug)]
pub struct ZMember {
    pub member: EncodedValue,
    pub score: ZScore,
}

/// The value of a key, by its type.
#[derive(Debug)]
pub enum ValuePayload {
    String { value: EncodedValue },
    List { values: Vec<EncodedValue>, truncated: bool },
    Hash { fields: Vec<HashField>, truncated: bool },
    SetMembers { values: Vec<EncodedValue>, truncated: bool },
    ZSet { members: Vec<ZMember>, truncated: bool },
    Stream { entries: Vec<StreamEntry>, truncated: bool },
}

/// A key, its type, time to live and length, and its value.
#[derive(Debug)]
pub struct ValueView {
    pub key: String,
    pub key_type: String,
    pub ttl: i64,
    pub length: i64,
    pub payload: ValuePayload,
}

/// The mathematical form of a text value: its encoding and its text.
pub open spec fn encoded_view(e: EncodedValue) -> (Seq<char>, Seq<char>) {
    (e.encoding@, e.value@)
}

/// The mathematical forms of a list of text values.
pub open spec fn encoded_views(v: Seq<EncodedValue>) -> Seq<(Seq<char>, Seq<char>)> {
    v.map_values(|e: EncodedValue| encoded_view(e))
}

/// `true` or `false`.
pub open spec fn bool_text(b: bool) -> Seq<char> {
    if b {
        "true"@
    } else {
        "false"@
    }
}

/// A reply shown as one value: scalars as their text, binary replies in
/// their binary-safe text form, maps and arrays as their JSON text.
pub open spec fn display_of(v: RespValue) -> (Seq<char>, Seq<char>) {
    match v {
        RespValue::Text(s) => ("utf8"@, s@),
        RespValue::Bytes(b) => encoded_value_of(b@),
        RespValue::Integer(i) => ("utf8"@, decimal_int(i as int)),
        RespValue::Double { text, .. } => ("utf8"@, text@),
        RespValue::Boolean(b) => ("utf8"@, bool_text(b)),
        RespValue::Null => ("utf8"@, "(nil)"@),
        RespValue::Queued => ("utf8"@, "QUEUED"@),
        _ => ("utf8"@, json_text(json_of(v))),
    }
}

fn bool_string(b: bool) -> (r: String)
    ensures
        r@ == bool_text(b),
{
    if b {
        "true".to_owned()
    } else {
        "false".to_owned()
    }
}

/// A reply shown as one value (see `display_of`).
pub fn value_to_display(value: &RespValue) -> (r: EncodedValue)
    ensures
        encoded_view(r) == display_of(*value),
{
    match value {
        RespValue::Text(s) => EncodedValue::from_string(copy_string(s)),
        RespValue::Bytes(b) => EncodedValue::from_bytes(b.as_slice()),
        RespValue::Integer(i) => {
            let mut t = String::new();
            push_i64(&mut t, *i);
            EncodedValue::from_string(t)
        },
        RespValue::Double { text, .. } => EncodedValue::from_string(copy_string(text)),
        RespValue::Boolean(b) => EncodedValue::from_string(bool_string(*b)),
        RespValue::Null => EncodedValue::from_string("(nil)".to_owned()),
        RespValue::Queued => EncodedValue::from_string("QUEUED".to_owned()),
        _ => EncodedValue::from_string(reply_json_text(value)),
    }
}

/// The bytes of a reply taken as one value: those of a binary reply, else
/// the UTF-8 of its text (see `display_of`).
pub open spec fn item_bytes_of(v: RespValue) -> Seq<u8> {
    match v {
        RespValue::Bytes(b) => b@,
        _ => encode_utf8(display_of(v).1),
    }
}

/// The bytes of a reply taken as one value (see `item_bytes_of`).
pub fn scalar_bytes(v: &RespValue) -> (r: Vec<u8>)
    ensures
        r@ == item_bytes_of(*v),
{
    match v {
        RespValue::Bytes(b) => slice_bytes(b.as_slice(), 0, b.len()),
        _ => {
            let d = value_to_display(v);
            utf8_bytes(d.value.as_str())
        },
    }
}

// ---------------------------------------------------------------------------
// key types
// ---------------------------------------------------------------------------

/// The types of value that keys can hold.
#[derive(Debug, Clone, Copy, PartialEq, Eq, Structural)]
pub enum KeyKind {
    String,
    Hash,
    List,
    SetMembers,
    ZSet,
    Stream,
}

/// The kind that a type name stands for.
pub open spec fn key_kind_of(t: Seq<char>) -> Option<KeyKind> {
    if t == "string"@ {
        Some(KeyKind::String)
    } else if t == "hash"@ {
        Some(KeyKind::Hash)
    } else if t == "list"@ {
        Some(KeyKind::List)
    } else if t == "set"@ {
        Some(KeyKind::SetMembers)
    } else if t == "zset"@ {
        Some(KeyKind::ZSet)
    } else if t == "stream"@ {
        Some(KeyKind::Stream)
    } else {
        None
    }
}

/// The kind that the type name `t` stands for.
pub fn key_kind(t: &str) -> (r: Option<KeyKind>)
    ensures
        r == key_kind_of(t@),
{
    if str_eq(t, "string") {
        Some(KeyKind::String)
    } else if str_eq(t, "hash") {
        Some(KeyKind::Hash)
    } else if str_eq(t, "list") {
        Some(KeyKind::List)
    } else if str_eq(t, "set") {
        Some(KeyKind::SetMembers)
    } else if str_eq(t, "zset") {
        Some(KeyKind::ZSet)
    } else if str_eq(t, "stream") {
        Some(KeyKind::Stream)
    } else {
        None
    }
}

/// The type filter of a scan: none for no filter, the empty text, `all`
/// and `none`; a kind for its name; an error naming any other text.
pub open spec fn scan_filter_of(f: Option<Seq<char>>) -> Result<Option<KeyKind>, Seq<char>> {
    match f {
        None => Ok(None),
        Some(t) => if t == ""@ || t == "all"@ || t == "none"@ {
            Ok(None)
        } else {
            match key_kind_of(t) {
                Some(k) => Ok(Some(k)),
                None => Err("未知键类型: "@ + t),
            }
        },
    }
}

/// The type filter of a scan (see `scan_filter_of`).
pub fn scan_type_filter(filter: &Option<String>) -> (r: Result<Option<KeyKind>, AppError>)
    ensures
        match (r, scan_filter_of(
            match filter {
                Some(t) => Some(t@),
                None => None,
            },
        )) {
            (Ok(a), Ok(b)) => a == b,
            (Err(e), Err(m)) => e.message@ == m,
            _ => false,
        },
{
    match filter {
        None => Ok(None),
        Some(t) => {
            if str_eq(t.as_str(), "") || str_eq(t.as_str(), "all") || str_eq(t.as_str(), "none") {
                Ok(None)
            } else {
                match key_kind(t.as_str()) {
                    Some(k) => Ok(Some(k)),
                    None => {
                        let mut m = "未知键类型: ".to_owned();
                        push_str(&mut m, t.as_str());
                        Err(AppError::new(m))
                    },
                }
            }
        },
    }
}

// ---------------------------------------------------------------------------
// scanning
// ---------------------------------------------------------------------------

/// The types that a batch of `TYPE` replies gives the first `n` scanned
/// keys: key `i` has type `i`, and a key listed twice its later type.
pub open spec fn key_type_map(keys: Seq<Seq<char>>, types: Seq<Seq<char>>, n: nat) -> Map<
    Seq<char>,
    Seq<char>,
>
    decreases n,
{
    if n == 0 {
        Map::empty()
    } else {
        key_type_map(keys, types, (n - 1) as nat).insert(keys[n - 1], types[n - 1])
    }
}

/// The smaller of two lengths.
pub open spec fn min_len(a: nat, b: nat) -> nat {
    if a < b {
        a
    } else {
        b
    }
}

/// `pairs` lists the map `m`: each key once, with its value, and every key
/// of `m`.
pub open spec fn lists_map(pairs: Seq<(String, String)>, m: Map<Seq<char>, Seq<char>>) -> bool {
    &&& forall|i: int, j: int|
        0 <= i < j < pairs.len() ==> (#[trigger] pairs[i]).0@ != (#[trigger] pairs[j]).0@
    &&& forall|i: int|
        0 <= i < pairs.len() ==> m.contains_key((#[trigger] pairs[i]).0@) && m[pairs[i].0@]
            == pairs[i].1@
    &&& forall|k: Seq<char>|
        #[trigger] m.contains_key(k) ==> exists|i: int| 0 <= i < pairs.len() && (#[trigger] pairs[i]).0@ == k
}

/// The index of the pair whose key is `k`.
fn find_key(pairs: &Vec<(String, String)>, k: &str) -> (r: Option<usize>)
    ensures
        match r {
            Some(j) => j < pairs@.len() && pairs@[j as int].0@ == k@,
            None => forall|j: int| 0 <= j < pairs@.len() ==> (#[trigger] pairs@[j]).0@ != k@,
        },
{
    let mut j: usize = 0;
    while j < pairs.len()
        invariant
            j <= pairs@.len(),
            forall|i: int| 0 <= i < j ==> (#[trigger] pairs@[i]).0@ != k@,
        decreases pairs.len() - j,
    {
        if str_eq(pairs[j].0.as_str(), k) {
            return Some(j);
        }
        j = j + 1;
    }
    None
}

/// The keys of a scan paired with their types, as a batch of `TYPE` replies
/// gives them (see `key_type_map`), each key once.
pub fn key_types(keys: &Vec<String>, types: &Vec<String>) -> (r: Vec<(String, String)>)
    ensures
        lists_map(
            r@,
            key_type_map(
                strings_view(keys@),
                strings_view(types@),
                min_len(keys@.len(), types@.len()),
            ),
        ),
{
    let n: usize = if keys.len() < types.len() {
        keys.len()
    } else {
        types.len()
    };
    let ghost kv = strings_view(keys@);
    let ghost tv = strings_view(types@);
    let mut out: Vec<(String, String)> = Vec::new();
    let mut i: usize = 0;
    while i < n
        invariant
            i <= n,
            n == min_len(keys@.len(), types@.len()),
            kv == strings_view(keys@),
            tv == strings_view(types@),
            lists_map(out@, key_type_map(kv, tv, i as nat)),
        decreases n - i,
    {
        let ghost before = out@;
        let ghost m0 = key_type_map(kv, tv, i as nat);
        let ghost m1 = key_type_map(kv, tv, (i + 1) as nat);
        assert(m1 == m0.insert(kv[i as int], tv[i as int]));
        assert(kv[i as int] == keys@[i as int]@);
        assert(tv[i as int] == types@[i as int]@);
        let k = copy_string(&keys[i]);
        let t = copy_string(&types[i]);
        match find_key(&out, keys[i].as_str()) {
            Some(j) => {
                out.set(j, (k, t));
                assert forall|x: Seq<char>| #[trigger] m1.contains_key(x) implies exists|a: int|
                    0 <= a < out@.len() && (#[trigger] out@[a]).0@ == x by {
                    if x == kv[i as int] {
                        assert(out@[j as int].0@ == x);
                    } else {
                        assert(m0.contains_key(x));
                        let a = choose|a: int| 0 <= a < before.len() && (#[trigger] before[a]).0@ == x;
                        assert(a != j);
                        assert(out@[a] == before[a]);
                    }
                }
            },
            None => {
                out.push((k, t));
                assert forall|x: Seq<char>| #[trigger] m1.contains_key(x) implies exists|a: int|
                    0 <= a < out@.len() && (#[trigger] out@[a]).0@ == x by {
                    if x == kv[i as int] {
                        assert(out@[before.len() as int].0@ == x);
                    } else {
                        assert(m0.contains_key(x));
                        let a = choose|a: int| 0 <= a < before.len() && (#[trigger] before[a]).0@ == x;
                        assert(out@[a] == before[a]);
                    }
                }
            },
        }
        i = i + 1;
    }
    out
}

/// A page of a key scan: cut short when it holds `SCAN_PAGE_MAX` keys or
/// more; the types of its keys where the `TYPE` batch answered.
pub fn scan_result(cursor: String, keys: Vec<String>, types: Option<Vec<String>>) -> (r: ScanPage)
    ensures
        r.cursor@ == cursor@,
        r.keys@ == keys@,
        r.truncated == (keys@.len() >= SCAN_PAGE_MAX),
        match types {
            Some(t) => lists_map(
                r.types@,
                key_type_map(
                    strings_view(keys@),
                    strings_view(t@),
                    min_len(keys@.len(), t@.len()),
                ),
            ),
            None => r.types@.len() == 0,
        },
{
    let truncated = keys.len() >= SCAN_PAGE_MAX;
    let pairs = match &types {
        Some(t) => key_types(&keys, t),
        None => Vec::new(),
    };
    ScanPage { cursor, keys, truncated, types: pairs }
}

// ---------------------------------------------------------------------------
// describing a key
// ---------------------------------------------------------------------------

/// The command that gives the length of a key of a kind.
#[derive(Debug, Clone, Copy, PartialEq, Eq, Structural)]
pub enum SizeCommand {
    Strlen,
    Llen,
    Hlen,
    Scard,
    Zcard,
    Xlen,
}

/// The length command of a kind.
pub open spec fn size_command_of(k: KeyKind) -> SizeCommand {
    match k {
        KeyKind::String => SizeCommand::Strlen,
        KeyKind::List => SizeCommand::Llen,
        KeyKind::Hash => SizeCommand::Hlen,
        KeyKind::SetMembers => SizeCommand::Scard,
        KeyKind::ZSet => SizeCommand::Zcard,
        KeyKind::Stream => SizeCommand::Xlen,
    }
}

/// The command that gives the length of a key of type `key_type`; none for
/// a type that has no length (its length reads as 0).
pub fn length_command(key_type: &str) -> (r: Option<SizeCommand>)
    ensures
        r == match key_kind_of(key_type@) {
            Some(k) => Some(size_command_of(k)),
            None => None,
        },
{
    match key_kind(key_type) {
        Some(KeyKind::String) => Some(SizeCommand::Strlen),
        Some(KeyKind::List) => Some(SizeCommand::Llen),
        Some(KeyKind::Hash) => Some(SizeCommand::Hlen),
        Some(KeyKind::SetMembers) => Some(SizeCommand::Scard),
        Some(KeyKind::ZSet) => Some(SizeCommand::Zcard),
        Some(KeyKind::Stream) => Some(SizeCommand::Xlen),
        None => None,
    }
}

/// What is known of a key from the replies about it: its length is 0 where
/// the length command failed or there is none; its memory is known only
/// from an integer `MEMORY USAGE` reply; its encoding is the text of the
/// `OBJECT ENCODING` reply, where there was one.
pub fn key_info_of(
    key: &str,
    key_type: String,
    ttl: i64,
    pttl: i64,
    length: Option<i64>,
    memory: Option<RespValue>,
    encoding: Option<RespValue>,
) -> (r: KeyInfo)
    ensures
        r.key@ == key@,
        r.key_type@ == key_type@,
        r.ttl == ttl,
        r.pttl == pttl,
        r.length == match length {
            Some(n) => n,
            None => 0,
        },
        r.memory == match memory {
            Some(RespValue::Integer(i)) => Some(i),
            _ => None,
        },
        match encoding {
            Some(v) => r.encoding matches Some(e) && e@ == display_of(v).1,
            None => r.encoding is None,
        },
{
    let length = match length {
        Some(n) => n,
        None => 0,
    };
    let memory = match memory {
        Some(RespValue::Integer(i)) => Some(i),
        _ => None,
    };
    let encoding = match &encoding {
        Some(v) => Some(value_to_display(v).value),
        None => None,
    };
    KeyInfo { key: key.to_owned(), key_type, ttl, pttl, length, memory, encoding }
}

// ---------------------------------------------------------------------------
// reading values
// ---------------------------------------------------------------------------

/// The kind of value to read for a key of type `key_type`; other types are
/// refused with `暂不支持的值类型: ` and the type.
pub fn value_kind(key_type: &str) -> (r: Result<KeyKind, AppError>)
    ensures
        match key_kind_of(key_type@) {
            Some(k) => r == Ok::<KeyKind, AppError>(k),
            None => r matches Err(e) && e.message@ == "暂不支持的值类型: "@ + key_type@,
        },
{
    match key_kind(key_type) {
        Some(k) => Ok(k),
        None => {
            let mut m = "暂不支持的值类型: ".to_owned();
            push_str(&mut m, key_type);
            Err(AppError::new(m))
        },
    }
}

/// A collection whose length is at most `COLLECTION_MAX` is read whole;
/// a longer one page by page.
pub open spec fn read_whole(len: i64) -> bool {
    (len as usize) <= COLLECTION_MAX
}

/// Whether a collection of length `len` is read whole (see `read_whole`).
pub fn collection_read_whole(len: i64) -> (r: bool)
    ensures
        r == read_whole(len),
{
    (len as usize) <= COLLECTION_MAX
}

/// Paging stops at the cursor `0` or once `COLLECTION_MAX` items are read.
pub open spec fn paging_done(cursor: Seq<char>, read: nat) -> bool {
    cursor == "0"@ || read >= COLLECTION_MAX
}

/// Whether paging stops after a page that gave `cursor`, with `read` items
/// read so far; the value is then cut short when `read >= COLLECTION_MAX`.
pub fn paging_stops(cursor: &str, read: usize) -> (r: bool)
    ensures
        r == paging_done(cursor@, read as nat),
{
    str_eq(cursor, "0") || read >= COLLECTION_MAX
}

/// A collection read page by page is cut short when paging stopped with
/// `COLLECTION_MAX` items or more read.
pub fn paging_truncated(read: usize) -> (r: bool)
    ensures
        r == (read >= COLLECTION_MAX),
{
    read >= COLLECTION_MAX
}

/// The value of a string key: its bytes and their length, or the marker
/// text `(key 不存在)` and 0 when the key holds none.
pub fn string_payload(value: Option<Vec<u8>>) -> (r: (i64, ValuePayload))
    ensures
        match value {
            Some(b) => r.0 == b@.len() as i64 && (r.1 matches ValuePayload::String { value: v }
                && encoded_view(v) == encoded_value_of(b@)),
            None => r.0 == 0 && (r.1 matches ValuePayload::String { value: v } && encoded_view(v)
                == ("utf8"@, "(key 不存在)"@)),
        },
{
    match value {
        Some(bytes) => (
            bytes.len() as i64,
            ValuePayload::String { value: EncodedValue::from_bytes(bytes.as_slice()) },
        ),
        None => (0, ValuePayload::String { value: EncodedValue::from_string("(key 不存在)".to_owned()) }),
    }
}

/// The text forms of a list of binary values, in order.
pub fn encode_all(values: &Vec<Vec<u8>>, n: usize) -> (r: Vec<EncodedValue>)
    requires
        n <= values@.len(),
    ensures
        r@.len() == n,
        forall|i: int| 0 <= i < n ==> encoded_view(#[trigger] r@[i]) == encoded_value_of(values@[i]@),
{
    let mut out: Vec<EncodedValue> = Vec::new();
    let mut i: usize = 0;
    while i < n
        invariant
            i <= n <= values@.len(),
            out@.len() == i,
            forall|j: int| 0 <= j < i ==> encoded_view(#[trigger] out@[j]) == encoded_value_of(values@[j]@),
        decreases n - i,
    {
        out.push(EncodedValue::from_bytes(values[i].as_slice()));
        i = i + 1;
    }
    out
}

/// The value of a list key: its first `COLLECTION_MAX` items, cut short when
/// it has more.
pub fn list_payload(values: &Vec<Vec<u8>>) -> (r: ValuePayload)
    ensures
        r matches ValuePayload::List { values: vs, truncated } && truncated == (values@.len()
            > COLLECTION_MAX) && vs@.len() == min_len(values@.len(), COLLECTION_MAX as nat) && (
        forall|i: int| 0 <= i < vs@.len() ==> encoded_view(#[trigger] vs@[i]) == encoded_value_of(values@[i]@)),
{
    let n = if values.len() < COLLECTION_MAX {
        values.len()
    } else {
        COLLECTION_MAX
    };
    let vs = encode_all(values, n);
    ValuePayload::List { values: vs, truncated: values.len() > COLLECTION_MAX }
}

/// The fields of a hash read whole: each field name as text, each value in
/// its binary-safe text form, in the order given.
pub fn hash_fields(pairs: &Vec<(String, Vec<u8>)>) -> (r: Vec<HashField>)
    ensures
        r@.len() == pairs@.len(),
        forall|i: int| 0 <= i < r@.len() ==> encoded_view((#[trigger] r@[i]).field) == ("utf8"@, pairs@[i].0@)
            && encoded_view(r@[i].value) == encoded_value_of(pairs@[i].1@),
{
    let mut out: Vec<HashField> = Vec::new();
    let mut i: usize = 0;
    while i < pairs.len()
        invariant
            i <= pairs@.len(),
            out@.len() == i,
            forall|j: int| 0 <= j < i ==> encoded_view((#[trigger] out@[j]).field) == ("utf8"@, pairs@[j].0@)
                && encoded_view(out@[j].value) == encoded_value_of(pairs@[j].1@),
        decreases pairs.len() - i,
    {
        out.push(HashField {
            field: EncodedValue::from_string(copy_string(&pairs[i].0)),
            value: EncodedValue::from_bytes(pairs[i].1.as_slice()),
        });
        i = i + 1;
    }
    out
}

/// The members of a sorted set read whole, with their scores, in order.
pub fn zset_members(items: Vec<(Vec<u8>, ZScore)>) -> (r: Vec<ZMember>)
    ensures
        r@.len() == items@.len(),
        forall|i: int| 0 <= i < r@.len() ==> encoded_view((#[trigger] r@[i]).member) == encoded_value_of(items@[i].0@)
            && r@[i].score == items@[i].1,
{
    let mut out: Vec<ZMember> = Vec::new();
    let mut rest = items;
    let ghost all = rest@;
    let total = rest.len();
    assert(all.len() == total);
    let mut i: usize = 0;
    while rest.len() > 0
        invariant
            i + rest@.len() == all.len(),
            all.len() <= usize::MAX,
            rest@ == all.skip(i as int),
            out@.len() == i,
            forall|j: int| 0 <= j < i ==> encoded_view((#[trigger] out@[j]).member) == encoded_value_of(all[j].0@)
                && out@[j].score == all[j].1,
        decreases rest.len(),
    {
        let (m, score) = rest.remove(0);
        assert(all[i as int] == (m, score));
        out.push(ZMember { member: EncodedValue::from_bytes(m.as_slice()), score });
        assert(rest@ =~= all.skip(i + 1));
        i = i + 1;
    }
    out
}

/// The value of a hash read whole (see `hash_fields`): never cut short.
pub fn whole_hash_payload(pairs: &Vec<(String, Vec<u8>)>) -> (r: ValuePayload)
    ensures
        r matches ValuePayload::Hash { fields, truncated } && !truncated && fields@.len()
            == pairs@.len() && (forall|i: int|
            0 <= i < fields@.len() ==> encoded_view((#[trigger] fields@[i]).field) == (
            "utf8"@,
            pairs@[i].0@,
        ) && encoded_view(fields@[i].value) == encoded_value_of(pairs@[i].1@)),
{
    ValuePayload::Hash { fields: hash_fields(pairs), truncated: false }
}

/// The value of a hash read page by page: the fields read, cut short when
/// paging stopped with `COLLECTION_MAX` or more.
pub fn paged_hash_payload(fields: Vec<HashField>) -> (r: ValuePayload)
    ensures
        r matches ValuePayload::Hash { fields: f, truncated } && f@ == fields@ && truncated == (
        fields@.len() >= COLLECTION_MAX),
{
    let truncated = paging_truncated(fields.len());
    ValuePayload::Hash { fields, truncated }
}

/// The value of a set read whole: each member's text form, in order, never
/// cut short.
pub fn whole_set_payload(members: &Vec<Vec<u8>>) -> (r: ValuePayload)
    ensures
        r matches ValuePayload::SetMembers { values, truncated } && !truncated && values@.len()
            == members@.len() && (forall|i: int|
            0 <= i < values@.len() ==> encoded_view(#[trigger] values@[i]) == encoded_value_of(
                members@[i]@,
            )),
{
    ValuePayload::SetMembers { values: encode_all(members, members.len()), truncated: false }
}

/// The value of a set read page by page: the members read, cut short when
/// paging stopped with `COLLECTION_MAX` or more.
pub fn paged_set_payload(values: Vec<EncodedValue>) -> (r: ValuePayload)
    ensures
        r matches ValuePayload::SetMembers { values: v, truncated } && v@ == values@ && truncated
            == (values@.len() >= COLLECTION_MAX),
{
    let truncated = paging_truncated(values.len());
    ValuePayload::SetMembers { values, truncated }
}

/// The value of a sorted set read whole (see `zset_members`): never cut
/// short.
pub fn whole_zset_payload(items: Vec<(Vec<u8>, ZScore)>) -> (r: ValuePayload)
    ensures
        r matches ValuePayload::ZSet { members, truncated } && !truncated && members@.len()
            == items@.len() && (forall|i: int|
            0 <= i < members@.len() ==> encoded_view((#[trigger] members@[i]).member)
                == encoded_value_of(items@[i].0@) && members@[i].score == items@[i].1),
{
    ValuePayload::ZSet { members: zset_members(items), truncated: false }
}

/// The value of a sorted set read page by page: the members read, cut
/// short when paging stopped with `COLLECTION_MAX` or more.
pub fn paged_zset_payload(members: Vec<ZMember>) -> (r: ValuePayload)
    ensures
        r matches ValuePayload::ZSet { members: m, truncated } && m@ == members@ && truncated == (
        members@.len() >= COLLECTION_MAX),
{
    let truncated = paging_truncated(members.len());
    ValuePayload::ZSet { members, truncated }
}

/// Most entries of a stream that are read.
pub const STREAM_MAX: usize = 1000;

/// The entries of a stream as read (at most `STREAM_MAX` asked for): each
/// with its id and fields, cut short when `STREAM_MAX` came back.
pub fn stream_payload(entries: Vec<(String, Vec<(String, Vec<u8>)>)>) -> (r: ValuePayload)
    ensures
        r matches ValuePayload::Stream { entries: es, truncated } && truncated == (entries@.len()
            >= STREAM_MAX) && es@.len() == entries@.len() && (forall|i: int|
            0 <= i < es@.len() ==> (#[trigger] es@[i]).id@ == entries@[i].0@ && es@[i].fields@.len()
                == entries@[i].1@.len() && (forall|k: int|
                0 <= k < es@[i].fields@.len() ==> encoded_view((#[trigger] es@[i].fields@[k]).field) == (
                "utf8"@,
                entries@[i].1@[k].0@,
            ) && encoded_view(es@[i].fields@[k].value) == encoded_value_of(entries@[i].1@[k].1@))),
{
    let truncated = entries.len() >= STREAM_MAX;
    let mut out: Vec<StreamEntry> = Vec::new();
    let mut i: usize = 0;
    while i < entries.len()
        invariant
            i <= entries@.len(),
            out@.len() == i,
            forall|a: int|
                0 <= a < i ==> (#[trigger] out@[a]).id@ == entries@[a].0@ && out@[a].fields@.len()
                    == entries@[a].1@.len() && (forall|k: int|
                    0 <= k < out@[a].fields@.len() ==> encoded_view((#[trigger] out@[a].fields@[k]).field) == (
                    "utf8"@,
                    entries@[a].1@[k].0@,
                ) && encoded_view(out@[a].fields@[k].value) == encoded_value_of(entries@[a].1@[k].1@)),
        decreases entries.len() - i,
    {
        let fields = hash_fields(&entries[i].1);
        out.push(StreamEntry { id: copy_string(&entries[i].0), fields });
        i = i + 1;
    }
    ValuePayload::Stream { entries: out, truncated }
}

// ---------------------------------------------------------------------------
// the pages of HSCAN, SSCAN and ZSCAN
// ---------------------------------------------------------------------------

/// The items of a scan page's list: those of an array reply, none else.
pub open spec fn page_items(v: RespValue) -> Seq<RespValue> {
    match v {
        RespValue::Array(items) => items@,
        _ => Seq::empty(),
    }
}

/// The cursor and the list of a scan reply, when it is an array of at
/// least two items.
pub open spec fn scan_reply_parts(v: RespValue) -> Option<(Seq<char>, Seq<RespValue>)> {
    match v {
        RespValue::Array(items) => if items@.len() >= 2 {
            Some((display_of(items@[0]).1, page_items(items@[1])))
        } else {
            None
        },
        _ => None,
    }
}

/// The field and value pairs of a `HSCAN` page: items 2k and 2k+1, an odd
/// last item left out.
pub open spec fn hash_pairs_of(items: Seq<RespValue>) -> Seq<
    ((Seq<char>, Seq<char>), (Seq<char>, Seq<char>)),
> {
    Seq::new(items.len() / 2, |k: int| (display_of(items[2 * k]), display_of(items[2 * k + 1])))
}

/// The mathematical form of a hash field.
pub open spec fn field_view(f: HashField) -> ((Seq<char>, Seq<char>), (Seq<char>, Seq<char>)) {
    (encoded_view(f.field), encoded_view(f.value))
}

/// Reads a `HSCAN` page: the next cursor and the fields of the page; a
/// reply of another shape is refused with `HSCAN 响应格式异常`.
pub fn parse_hscan_reply(value: &RespValue) -> (r: Result<(String, Vec<HashField>), AppError>)
    ensures
        match scan_reply_parts(*value) {
            Some((cursor, items)) => r matches Ok((c, fields)) && c@ == cursor && fields@.map_values(
                |f: HashField| field_view(f),
            ) == hash_pairs_of(items),
            None => r matches Err(e) && e.message@ == "HSCAN 响应格式异常"@,
        },
{
    match value {
        RespValue::Array(items) => {
            if items.len() >= 2 {
                let next = value_to_display(&items[0]).value;
                let mut fields: Vec<HashField> = Vec::new();
                match &items[1] {
                    RespValue::Array(pairs) => {
                        let ghost target = hash_pairs_of(pairs@);
                        let mut i: usize = 0;
                        while i + 1 < pairs.len()
                            invariant
                                i % 2 == 0,
                                i <= pairs@.len(),
                                target == hash_pairs_of(pairs@),
                                fields@.len() == i / 2,
                                forall|k: int| 0 <= k < fields@.len() ==> field_view(#[trigger] fields@[k]) == target[k],
                            decreases pairs.len() - i,
                        {
                            let f = value_to_display(&pairs[i]);
                            let v = value_to_display(&pairs[i + 1]);
                            fields.push(HashField { field: f, value: v });
                            i = i + 2;
                        }
                        assert(fields@.map_values(|f: HashField| field_view(f)) =~= target);
                    },
                    _ => {
                        assert(fields@.map_values(|f: HashField| field_view(f)) =~= hash_pairs_of(
                            Seq::empty(),
                        ));
                    },
                }
                Ok((next, fields))
            } else {
                Err(AppError::from_str("HSCAN 响应格式异常"))
            }
        },
        _ => Err(AppError::from_str("HSCAN 响应格式异常")),
    }
}

/// Reads a `SSCAN` page: the next cursor and each member's text form; a
/// reply of another shape is refused with `SSCAN 响应格式异常`.
pub fn parse_sscan_reply(value: &RespValue) -> (r: Result<(String, Vec<EncodedValue>), AppError>)
    ensures
        match scan_reply_parts(*value) {
            Some((cursor, items)) => r matches Ok((c, vs)) && c@ == cursor && encoded_views(vs@)
                == items.map_values(|v: RespValue| display_of(v)),
            None => r matches Err(e) && e.message@ == "SSCAN 响应格式异常"@,
        },
{
    match value {
        RespValue::Array(items) => {
            if items.len() >= 2 {
                let next = value_to_display(&items[0]).value;
                let mut values: Vec<EncodedValue> = Vec::new();
                match &items[1] {
                    RespValue::Array(members) => {
                        let mut i: usize = 0;
                        while i < members.len()
                            invariant
                                i <= members@.len(),
                                values@.len() == i,
                                forall|k: int| 0 <= k < i ==> encoded_view(#[trigger] values@[k]) == display_of(members@[k]),
                            decreases members.len() - i,
                        {
                            values.push(value_to_display(&members[i]));
                            i = i + 1;
                        }
                        assert(encoded_views(values@) =~= members@.map_values(
                            |v: RespValue| display_of(v),
                        ));
                    },
                    _ => {
                        assert(encoded_views(values@) =~= Seq::<RespValue>::empty().map_values(
                            |v: RespValue| display_of(v),
                        ));
                    },
                }
                Ok((next, values))
            } else {
                Err(AppError::from_str("SSCAN 响应格式异常"))
            }
        },
        _ => Err(AppError::from_str("SSCAN 响应格式异常")),
    }
}

/// The score that a `ZSCAN` item gives: an integer, a double's text, and
/// `0` for any other reply.
pub open spec fn score_of(z: ZScore, v: RespValue) -> bool {
    match v {
        RespValue::Integer(n) => z == ZScore::Integer(n),
        RespValue::Double { text, .. } => z matches ZScore::Float(t) && t@ == text@,
        _ => z matches ZScore::Float(t) && t@ == "0"@,
    }
}

fn score_from(v: &RespValue) -> (z: ZScore)
    ensures
        score_of(z, *v),
{
    match v {
        RespValue::Integer(n) => ZScore::Integer(*n),
        RespValue::Double { text, .. } => ZScore::Float(copy_string(text)),
        _ => ZScore::Float("0".to_owned()),
    }
}

/// Reads a `ZSCAN` page: the next cursor and the members of the page, from
/// items 2k (member) and 2k+1 (score); a reply of another shape is refused
/// with `ZSCAN 响应格式异常`.
pub fn parse_zscan_reply(value: &RespValue) -> (r: Result<(String, Vec<ZMember>), AppError>)
    ensures
        match scan_reply_parts(*value) {
            Some((cursor, items)) => r matches Ok((c, ms)) && c@ == cursor && ms@.len() == items.len()
                / 2 && (forall|k: int|
                0 <= k < ms@.len() ==> encoded_view((#[trigger] ms@[k]).member) == display_of(items[2 * k])
                    && score_of(ms@[k].score, items[2 * k + 1])),
            None => r matches Err(e) && e.message@ == "ZSCAN 响应格式异常"@,
        },
{
    match value {
        RespValue::Array(items) => {
            if items.len() >= 2 {
                let next = value_to_display(&items[0]).value;
                let mut members: Vec<ZMember> = Vec::new();
                match &items[1] {
                    RespValue::Array(pairs) => {
                        let mut i: usize = 0;
                        while i + 1 < pairs.len()
                            invariant
                                i % 2 == 0,
                                i <= pairs@.len(),
                                members@.len() == i / 2,
                                forall|k: int|
                                    0 <= k < members@.len() ==> encoded_view((#[trigger] members@[k]).member)
                                        == display_of(pairs@[2 * k]) && score_of(members@[k].score, pairs@[2 * k + 1]),
                            decreases pairs.len() - i,
                        {
                            let m = value_to_display(&pairs[i]);
                            let score = score_from(&pairs[i + 1]);
                            members.push(ZMember { member: m, score });
                            i = i + 2;
                        }
                    },
                    _ => {},
                }
                Ok((next, members))
            } else {
                Err(AppError::from_str("ZSCAN 响应格式异常"))
            }
        },
        _ => Err(AppError::from_str("ZSCAN 响应格式异常")),
    }
}

// ---------------------------------------------------------------------------
// changing keys
// ---------------------------------------------------------------------------

/// A write to send to the server.
#[derive(Debug)]
pub enum WriteCommand {
    /// `SET` the key to these bytes.
    SetBytes(Vec<u8>),
    /// A command, by name, with its arguments.
    Command { name: String, args: Vec<String> },
}

/// The text of an optional argument, `default` when it is absent.
pub open spec fn text_or(o: Option<Seq<char>>, default: Seq<char>) -> Seq<char> {
    match o {
        Some(t) => t,
        None => default,
    }
}

/// The command that writes the first member of a new key of type `kind`
/// (other than `string`): its name and arguments. A hash gets `field` (or
/// the empty field), a stream the entry `field` (or `f`) under a new id, a
/// sorted set the score text `score` (or `1`).
pub open spec fn create_command_of(
    kind: Seq<char>,
    key: Seq<char>,
    field: Option<Seq<char>>,
    value: Seq<char>,
    score: Option<Seq<char>>,
) -> Option<(Seq<char>, Seq<Seq<char>>)> {
    if kind == "hash"@ {
        Some(("HSET"@, seq![key, text_or(field, ""@), value]))
    } else if kind == "list"@ {
        Some(("RPUSH"@, seq![key, value]))
    } else if kind == "set"@ {
        Some(("SADD"@, seq![key, value]))
    } else if kind == "zset"@ {
        Some(("ZADD"@, seq![key, text_or(score, "1"@), value]))
    } else if kind == "stream"@ {
        Some(("XADD"@, seq![key, "*"@, text_or(field, "f"@), value]))
    } else {
        None
    }
}

/// The view of an optional text.
pub open spec fn opt_view(o: Option<&str>) -> Option<Seq<char>> {
    match o {
        Some(t) => Some(t@),
        None => None,
    }
}

/// The view of an optional owned text.
pub open spec fn opt_string_view(o: Option<String>) -> Option<Seq<char>> {
    match o {
        Some(t) => Some(t@),
        None => None,
    }
}

fn text_or_exec(o: Option<&str>, default: &str) -> (r: String)
    ensures
        r@ == text_or(opt_view(o), default@),
{
    match o {
        Some(t) => t.to_owned(),
        None => default.to_owned(),
    }
}

/// What creating the key `key` of type `kind` writes: refused with
/// `键已存在: ` and the key when it exists already; the UTF-8 bytes of
/// `value` for a string; the command of `create_command_of` for the other
/// types; refused with `未知类型: ` and the type for any other type.
/// `score` is the text of the given score, if any.
pub fn create_key_plan(
    exists: bool,
    key: &str,
    kind: &str,
    field: Option<&str>,
    value: &str,
    score: Option<String>,
) -> (r: Result<WriteCommand, AppError>)
    ensures
        exists ==> (r matches Err(e) && e.message@ == "键已存在: "@ + key@),
        !exists && kind@ == "string"@ ==> (r matches Ok(WriteCommand::SetBytes(b)) && b@
            == encode_utf8(value@)),
        !exists && kind@ != "string"@ ==> match create_command_of(
            kind@,
            key@,
            opt_view(field),
            value@,
            opt_string_view(score),
        ) {
            Some((n, a)) => r matches Ok(WriteCommand::Command { name, args }) && name@ == n
                && strings_view(args@) == a,
            None => r matches Err(e) && e.message@ == "未知类型: "@ + kind@,
        },
{
    if exists {
        let mut m = "键已存在: ".to_owned();
        push_str(&mut m, key);
        return Err(AppError::new(m));
    }
    proof {
        reveal_strlit("string");
        reveal_strlit("hash");
        reveal_strlit("list");
        reveal_strlit("set");
        reveal_strlit("zset");
        reveal_strlit("stream");
    }
    if str_eq(kind, "string") {
        return Ok(WriteCommand::SetBytes(utf8_bytes(value)));
    }
    let mut args: Vec<String> = Vec::new();
    args.push(key.to_owned());
    let name: String;
    if str_eq(kind, "hash") {
        args.push(text_or_exec(field, ""));
        args.push(value.to_owned());
        name = "HSET".to_owned();
    } else if str_eq(kind, "list") {
        args.push(value.to_owned());
        name = "RPUSH".to_owned();
    } else if str_eq(kind, "set") {
        args.push(value.to_owned());
        name = "SADD".to_owned();
    } else if str_eq(kind, "zset") {
        let s = match &score {
            Some(t) => copy_string(t),
            None => "1".to_owned(),
        };
        args.push(s);
        args.push(value.to_owned());
        name = "ZADD".to_owned();
    } else if str_eq(kind, "stream") {
        args.push("*".to_owned());
        args.push(text_or_exec(field, "f"));
        args.push(value.to_owned());
        name = "XADD".to_owned();
    } else {
        let mut m = "未知类型: ".to_owned();
        push_str(&mut m, kind);
        return Err(AppError::new(m));
    }
    assert(strings_view(args@) =~= create_command_of(
        kind@,
        key@,
        opt_view(field),
        value@,
        opt_string_view(score),
    ).unwrap().1);
    Ok(WriteCommand::Command { name, args })
}

/// How a time to live is set.
#[derive(Debug, Clone, Copy, PartialEq, Eq, Structural)]
pub enum TtlCommand {
    /// Remove the expiry (`PERSIST`).
    Persist,
    /// Expire after this many seconds (`EXPIRE`).
    Expire(i64),
}

/// A negative time to live removes the expiry; any other sets it.
pub fn ttl_command(ttl: i64) -> (r: TtlCommand)
    ensures
        r == if ttl < 0 {
            TtlCommand::Persist
        } else {
            TtlCommand::Expire(ttl)
        },
{
    if ttl < 0 {
        TtlCommand::Persist
    } else {
        TtlCommand::Expire(ttl)
    }
}

/// The expiry that a string write sets: a positive time to live, else none.
pub open spec fn expire_of(ttl: Option<i64>) -> Option<i64> {
    match ttl {
        Some(t) => if t > 0 {
            Some(t)
        } else {
            None
        },
        None => None,
    }
}

/// What writing the string value `value` stores: the bytes that its
/// Base64 text decodes to where `encoding` is `base64` (refused when the
/// text is no Base64), its UTF-8 bytes otherwise; with the expiry of
/// `expire_of`.
pub fn string_write(value: &str, ttl: Option<i64>, encoding: &str) -> (r: Result<
    (Vec<u8>, Option<i64>),
    AppError,
>)
    ensures
        encoding@ == "base64"@ ==> match r {
            Ok((b, ex)) => base64_standard_decoding(value@) == Some(b@) && ex == expire_of(ttl),
            Err(e) => base64_standard_decoding(value@) is None && e.message@.len()
                >= base64_error_prefix().len() && e.message@.take(
                base64_error_prefix().len() as int,
            ) == base64_error_prefix(),
        },
        encoding@ != "base64"@ ==> (r matches Ok((b, ex)) && b@ == encode_utf8(value@) && ex
            == expire_of(ttl)),
{
    let bytes = if str_eq(encoding, "base64") {
        match base64_decode(value) {
            Ok(b) => b,
            Err(e) => return Err(e),
        }
    } else {
        utf8_bytes(value)
    };
    let ex = match ttl {
        Some(t) => if t > 0 {
            Some(t)
        } else {
            None
        },
        None => None,
    };
    Ok((bytes, ex))
}

/// The key followed by the items, as the arguments of a command.
pub fn key_args(key: &str, items: Vec<String>) -> (r: Vec<String>)
    ensures
        strings_view(r@) == seq![key@] + strings_view(items@),
{
    let mut args: Vec<String> = Vec::new();
    args.push(key.to_owned());
    let mut rest = items;
    args.append(&mut rest);
    assert(strings_view(args@) =~= seq![key@] + strings_view(items@));
    args
}

/// The command that pushes onto a list: `RPUSH` at the tail, `LPUSH` at
/// the head.
pub fn push_command(tail: bool) -> (r: &'static str)
    ensures
        r@ == if tail {
            "RPUSH"@
        } else {
            "LPUSH"@
        },
{
    if tail {
        "RPUSH"
    } else {
        "LPUSH"
    }
}

/// The arguments of `LREM`: key, count and value.
pub fn lrem_args(key: &str, value: &str, count: i64) -> (r: Vec<String>)
    ensures
        strings_view(r@) == seq![key@, decimal_int(count as int), value@],
{
    let mut c = String::new();
    push_i64(&mut c, count);
    let mut args: Vec<String> = Vec::new();
    args.push(key.to_owned());
    args.push(c);
    args.push(value.to_owned());
    assert(strings_view(args@) =~= seq![key@, decimal_int(count as int), value@]);
    args
}

/// The pieces of pairs, in order: first and second of each.
pub open spec fn flatten_pairs(ps: Seq<(String, String)>) -> Seq<Seq<char>>
    decreases ps.len(),
{
    if ps.len() == 0 {
        Seq::empty()
    } else {
        flatten_pairs(ps.drop_last()) + seq![ps.last().0@, ps.last().1@]
    }
}

/// The leading arguments followed by each pair's two pieces.
pub fn args_with_pairs(lead: Vec<String>, pairs: Vec<(String, String)>) -> (r: Vec<String>)
    ensures
        strings_view(r@) == strings_view(lead@) + flatten_pairs(pairs@),
{
    let mut args = lead;
    let ghost start = strings_view(args@);
    let mut rest = pairs;
    let ghost all = rest@;
    let total = rest.len();
    assert(all.len() == total);
    let mut i: usize = 0;
    while rest.len() > 0
        invariant
            i + rest@.len() == all.len(),
            all.len() <= usize::MAX,
            rest@ == all.skip(i as int),
            strings_view(args@) == start + flatten_pairs(all.take(i as int)),
        decreases rest.len(),
    {
        let (a, b) = rest.remove(0);
        assert(all[i as int] == (a, b));
        let ghost before = strings_view(args@);
        let ghost piece = seq![a@, b@];
        args.push(a);
        args.push(b);
        proof {
            let t = all.take(i + 1);
            assert(t.drop_last() =~= all.take(i as int));
            assert(t.last() == all[i as int]);
            assert(flatten_pairs(t) == flatten_pairs(t.drop_last()) + piece);
            assert(strings_view(args@) =~= before + piece);
        }
        assert(rest@ =~= all.skip(i + 1));
        i = i + 1;
    }
    assert(all.take(i as int) =~= all);
    args
}

/// The count that an integer reply gives (as `u64`, a negative one wrapping
/// around); 0 for any other reply.
pub fn reply_count(value: &RespValue) -> (r: u64)
    ensures
        r == match *value {
            RespValue::Integer(n) => n as u64,
            _ => 0,
        },
{
    match value {
        RespValue::Integer(n) => *n as u64,
        _ => 0,
    }
}

} // verus!
