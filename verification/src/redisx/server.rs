//! Server information: INFO sections, client lists, the slow log, the
//! topology and the databases.
use vstd::prelude::*;

use crate::error::AppError;
use crate::memcachedx::pairs_view;
use crate::model::{ConnConfig, ConnMode, NodeStatus};
use crate::redisx::keys::{item_bytes_of, scalar_bytes};
use crate::redisx::{
    json_list_view, json_members_view, json_text, json_view, render_json, value_to_json, JsonValue,
    JsonView, RespValue,
};
use crate::text::{
    decimal, eq_ignore_ascii_case, eq_ignore_ascii_case_exec, parse_u16, parse_u16_exec,
    push_str, push_u64, split_char, split_chars, str_eq, copy_string,
    chars_eq_str, split_words, words, chars_of, lines, lines_exec, split_once, split_once_exec, string_from, trim, trim_chars,
    trim_end, trim_end_chars, contains_seq, contains_str, rsplit_once, rsplit_once_exec,
    parse_i64, parse_i64_exec, decimal_int,
};

verus! {

/// One section of an INFO reply.
#[derive(Debug)]
pub struct InfoSection {
    pub name: String,
    pub fields: Vec<(String, String)>,
}

/// An INFO reply, read into sections, and its raw text.
#[derive(Debug)]
pub struct ServerInfo {
    pub sections: Vec<InfoSection>,
    pub raw: String,
}

/// A section as a name and its fields.
pub type SectionView = (Seq<char>, Seq<(Seq<char>, Seq<char>)>);

/// The view of a section.
pub open spec fn section_view(s: InfoSection) -> SectionView {
    (s.name@, pairs_view(s.fields@))
}

/// The view of a pair of strings.
pub open spec fn pair_view(p: (String, String)) -> (Seq<char>, Seq<char>) {
    (p.0@, p.1@)
}

/// The view of a list of sections.
pub open spec fn sections_view(s: Seq<InfoSection>) -> Seq<SectionView> {
    s.map_values(|x: InfoSection| section_view(x))
}

/// The sections read so far and the one being read, after `ls`: a line
/// `# Name` opens a section, an empty line closes it, and a line
/// `key:value` adds a field (its key trimmed) to the open section.
pub open spec fn info_state(ls: Seq<Seq<char>>) -> (Seq<SectionView>, Option<SectionView>)
    decreases ls.len(),
{
    if ls.len() == 0 {
        (Seq::empty(), None)
    } else {
        let (done, cur) = info_state(ls.drop_last());
        let line = trim_end(ls.last());
        let closed = match cur {
            Some(c) => done.push(c),
            None => done,
        };
        if line.len() > 0 && line[0] == '#' {
            (closed, Some((trim(line.skip(1)), Seq::empty())))
        } else if line.len() == 0 {
            (closed, None)
        } else {
            match split_once(line, ':') {
                Some((k, v)) => match cur {
                    Some(c) => (done, Some((c.0, c.1.push((trim(k), v))))),
                    None => (done, None),
                },
                None => (done, cur),
            }
        }
    }
}

/// The sections of an INFO reply.
pub open spec fn info_sections(raw: Seq<char>) -> Seq<SectionView> {
    let (done, cur) = info_state(lines(raw));
    match cur {
        Some(c) => done.push(c),
        None => done,
    }
}

/// Closes the open section, if any.
fn close_section(done: &mut Vec<InfoSection>, cur: Option<InfoSection>)
    ensures
        sections_view(final(done)@) == match cur {
            Some(c) => sections_view(old(done)@).push(section_view(c)),
            None => sections_view(old(done)@),
        },
{
    match cur {
        Some(c) => {
            let ghost v = section_view(c);
            done.push(c);
            assert(sections_view(done@) =~= sections_view(old(done)@).push(v));
        },
        None => {},
    }
}

/// Reads an INFO reply into its sections.
pub fn parse_info(raw: &str) -> (r: Vec<InfoSection>)
    ensures
        sections_view(r@) == info_sections(raw@),
{
    let rv = chars_of(raw);
    let ls = lines_exec(rv.as_slice());
    let mut done: Vec<InfoSection> = Vec::new();
    let mut cur: Option<InfoSection> = None;
    let mut i: usize = 0;
    while i < ls.len()
        invariant
            i <= ls.len(),
            ls.deep_view() == lines(raw@),
            (sections_view(done@), match cur {
                Some(c) => Some(section_view(c)),
                None => None,
            }) == info_state(ls.deep_view().take(i as int)),
        decreases ls.len() - i,
    {
        proof {
            assert(ls.deep_view().take(i + 1).drop_last() =~= ls.deep_view().take(i as int));
            assert(ls.deep_view().take(i + 1).last() == ls@[i as int]@);
        }
        let line = trim_end_chars(ls[i].as_slice());
        if line.len() > 0 && line[0] == '#' {
            let mut prev: Option<InfoSection> = None;
            std::mem::swap(&mut prev, &mut cur);
            close_section(&mut done, prev);
            let rest = crate::text::slice_chars(line.as_slice(), 1, line.len());
            assert(rest@ =~= line@.skip(1));
            let name = trim_chars(rest.as_slice());
            cur = Some(InfoSection { name: string_from(name.as_slice()), fields: Vec::new() });
            assert(pairs_view(Seq::<(String, String)>::empty()) =~= Seq::empty());
        } else if line.len() == 0 {
            let mut prev: Option<InfoSection> = None;
            std::mem::swap(&mut prev, &mut cur);
            close_section(&mut done, prev);
        } else {
            match split_once_exec(line.as_slice(), ':') {
                Some((k, v)) => {
                    let mut prev: Option<InfoSection> = None;
                    std::mem::swap(&mut prev, &mut cur);
                    match prev {
                        Some(mut sec) => {
                            let key = trim_chars(k.as_slice());
                            let ghost before = pairs_view(sec.fields@);
                            sec.fields.push((string_from(key.as_slice()), string_from(v.as_slice())));
                            assert(pairs_view(sec.fields@) =~= before.push((key@, v@)));
                            cur = Some(sec);
                        },
                        None => {},
                    }
                },
                None => {},
            }
        }
        i = i + 1;
    }
    assert(ls.deep_view().take(ls.deep_view().len() as int) =~= ls.deep_view());
    close_section(&mut done, cur);
    done
}


// ---------------------------------------------------------------------------
// CLIENT LIST
// ---------------------------------------------------------------------------

/// A connected client, as one line of `CLIENT LIST` describes it.
#[derive(Debug)]
pub struct ClientEntry {
    pub id: String,
    pub addr: String,
    pub laddr: String,
    pub fd: String,
    pub name: String,
    pub age: String,
    pub idle: String,
    pub flags: String,
    pub db: String,
    pub sub: String,
    pub psub: String,
    pub multi: String,
    pub watch: String,
    pub qbuf: String,
    pub qbuf_free: String,
    pub argv_mem: String,
    pub multi_mem: String,
    pub tot_mem: String,
    pub rbuf: String,
    pub rbuf_alloc: String,
    pub obl: String,
    pub oll: String,
    pub omem: String,
    pub events: String,
    pub cmd: String,
    pub user: String,
    pub redir: String,
    pub resp: String,
    pub lib_name: String,
    pub lib_ver: String,
    /// The fields that have no place of their own.
    pub other: Vec<(String, String)>,
}

/// The `name=value` words of a line, in order (words without `=` skipped).
pub open spec fn client_fields_state(ws: Seq<Seq<char>>) -> Seq<(Seq<char>, Seq<char>)>
    decreases ws.len(),
{
    if ws.len() == 0 {
        Seq::empty()
    } else {
        let before = client_fields_state(ws.drop_last());
        match split_once(ws.last(), '=') {
            Some(kv) => before.push(kv),
            None => before,
        }
    }
}

/// The fields of a client line.
pub open spec fn client_fields(line: Seq<char>) -> Seq<(Seq<char>, Seq<char>)> {
    client_fields_state(words(line))
}

/// The value of the first field named `key`, or empty.
pub open spec fn field_value(fields: Seq<(Seq<char>, Seq<char>)>, key: Seq<char>) -> Seq<char>
    decreases fields.len(),
{
    if fields.len() == 0 {
        Seq::empty()
    } else if fields[0].0 == key {
        fields[0].1
    } else {
        field_value(fields.skip(1), key)
    }
}

/// The fields that `CLIENT LIST` is known to give.
pub open spec fn known_client_field(k: Seq<char>) -> bool {
    k == "id"@ || k == "addr"@ || k == "laddr"@ || k == "fd"@ || k == "name"@ || k == "age"@ || k == "idle"@ || k == "flags"@ || k == "db"@ || k == "sub"@ || k == "psub"@ || k == "multi"@ || k == "watch"@ || k == "qbuf"@ || k == "qbuf-free"@ || k == "argv-mem"@ || k == "multi-mem"@ || k == "tot-mem"@ || k == "rbuf"@ || k == "rbuf-alloc"@ || k == "obl"@ || k == "oll"@ || k == "omem"@ || k == "events"@ || k == "cmd"@ || k == "user"@ || k == "redir"@ || k == "resp"@ || k == "lib-name"@ || k == "lib-ver"@
}

/// The fields that are not known ones, in order.
pub open spec fn other_fields(fields: Seq<(Seq<char>, Seq<char>)>) -> Seq<(Seq<char>, Seq<char>)>
    decreases fields.len(),
{
    if fields.len() == 0 {
        Seq::empty()
    } else {
        let before = other_fields(fields.drop_last());
        if known_client_field(fields.last().0) {
            before
        } else {
            before.push(fields.last())
        }
    }
}

/// The client that the fields `fields` describe.
pub open spec fn client_matches(e: ClientEntry, fields: Seq<(Seq<char>, Seq<char>)>) -> bool {
    &&& e.id@ == field_value(fields, "id"@)
    &&& e.addr@ == field_value(fields, "addr"@)
    &&& e.laddr@ == field_value(fields, "laddr"@)
    &&& e.fd@ == field_value(fields, "fd"@)
    &&& e.name@ == field_value(fields, "name"@)
    &&& e.age@ == field_value(fields, "age"@)
    &&& e.idle@ == field_value(fields, "idle"@)
    &&& e.flags@ == field_value(fields, "flags"@)
    &&& e.db@ == field_value(fields, "db"@)
    &&& e.sub@ == field_value(fields, "sub"@)
    &&& e.psub@ == field_value(fields, "psub"@)
    &&& e.multi@ == field_value(fields, "multi"@)
    &&& e.watch@ == field_value(fields, "watch"@)
    &&& e.qbuf@ == field_value(fields, "qbuf"@)
    &&& e.qbuf_free@ == field_value(fields, "qbuf_free"@)
    &&& e.argv_mem@ == field_value(fields, "argv-mem"@)
    &&& e.multi_mem@ == field_value(fields, "multi-mem"@)
    &&& e.tot_mem@ == field_value(fields, "tot-mem"@)
    &&& e.rbuf@ == field_value(fields, "rbuf"@)
    &&& e.rbuf_alloc@ == field_value(fields, "rbuf-alloc"@)
    &&& e.obl@ == field_value(fields, "obl"@)
    &&& e.oll@ == field_value(fields, "oll"@)
    &&& e.omem@ == field_value(fields, "omem"@)
    &&& e.events@ == field_value(fields, "events"@)
    &&& e.cmd@ == field_value(fields, "cmd"@)
    &&& e.user@ == field_value(fields, "user"@)
    &&& e.redir@ == field_value(fields, "redir"@)
    &&& e.resp@ == field_value(fields, "resp"@)
    &&& e.lib_name@ == field_value(fields, "lib-name"@)
    &&& e.lib_ver@ == field_value(fields, "lib-ver"@)
    &&& pairs_view(e.other@) == other_fields(fields)
}

/// Reads the fields of a client line.
fn read_client_fields(line: &[char]) -> (r: Vec<(String, String)>)
    ensures
        pairs_view(r@) == client_fields(line@),
{
    let ws = split_words(line);
    let mut out: Vec<(String, String)> = Vec::new();
    let mut i: usize = 0;
    while i < ws.len()
        invariant
            i <= ws.len(),
            ws.deep_view() == words(line@),
            pairs_view(out@) == client_fields_state(ws.deep_view().take(i as int)),
        decreases ws.len() - i,
    {
        proof {
            assert(ws.deep_view().take(i + 1).drop_last() =~= ws.deep_view().take(i as int));
            assert(ws.deep_view().take(i + 1).last() == ws@[i as int]@);
        }
        match split_once_exec(ws[i].as_slice(), '=') {
            Some((k, v)) => {
                let ghost before = pairs_view(out@);
                out.push((string_from(k.as_slice()), string_from(v.as_slice())));
                assert(pairs_view(out@) =~= before.push((k@, v@)));
            },
            None => {},
        }
        i = i + 1;
    }
    assert(ws.deep_view().take(ws.deep_view().len() as int) =~= ws.deep_view());
    out
}

/// The value of the first field named `key`, or empty.
pub fn lookup_field(fields: &Vec<(String, String)>, key: &str) -> (r: String)
    ensures
        r@ == field_value(pairs_view(fields@), key@),
{
    let mut i: usize = 0;
    assert(pairs_view(fields@).skip(0) =~= pairs_view(fields@));
    while i < fields.len()
        invariant
            i <= fields.len(),
            field_value(pairs_view(fields@), key@) == field_value(
                pairs_view(fields@).skip(i as int),
                key@,
            ),
        decreases fields.len() - i,
    {
        proof {
            assert(pairs_view(fields@).skip(i as int).skip(1) =~= pairs_view(fields@).skip(i + 1));
            assert(pairs_view(fields@).skip(i as int)[0] == (fields@[i as int].0@, fields@[i as int].1@));
        }
        if crate::text::str_eq(fields[i].0.as_str(), key) {
            return crate::text::copy_string(&fields[i].1);
        }
        i = i + 1;
    }
    String::new()
}

/// Whether `k` names a field that `CLIENT LIST` is known to give.
fn is_known_client_field(k: &[char]) -> (r: bool)
    ensures
        r == known_client_field(k@),
{
    chars_eq_str(k, "id")
        || chars_eq_str(k, "addr")
        || chars_eq_str(k, "laddr")
        || chars_eq_str(k, "fd")
        || chars_eq_str(k, "name")
        || chars_eq_str(k, "age")
        || chars_eq_str(k, "idle")
        || chars_eq_str(k, "flags")
        || chars_eq_str(k, "db")
        || chars_eq_str(k, "sub")
        || chars_eq_str(k, "psub")
        || chars_eq_str(k, "multi")
        || chars_eq_str(k, "watch")
        || chars_eq_str(k, "qbuf")
        || chars_eq_str(k, "qbuf-free")
        || chars_eq_str(k, "argv-mem")
        || chars_eq_str(k, "multi-mem")
        || chars_eq_str(k, "tot-mem")
        || chars_eq_str(k, "rbuf")
        || chars_eq_str(k, "rbuf-alloc")
        || chars_eq_str(k, "obl")
        || chars_eq_str(k, "oll")
        || chars_eq_str(k, "omem")
        || chars_eq_str(k, "events")
        || chars_eq_str(k, "cmd")
        || chars_eq_str(k, "user")
        || chars_eq_str(k, "redir")
        || chars_eq_str(k, "resp")
        || chars_eq_str(k, "lib-name")
        || chars_eq_str(k, "lib-ver")
}

/// The fields that are not known ones.
fn unknown_fields(fields: Vec<(String, String)>) -> (r: Vec<(String, String)>)
    ensures
        pairs_view(r@) == other_fields(pairs_view(fields@)),
{
    let mut out: Vec<(String, String)> = Vec::new();
    let mut i: usize = 0;
    while i < fields.len()
        invariant
            i <= fields.len(),
            pairs_view(out@) == other_fields(pairs_view(fields@).take(i as int)),
        decreases fields.len() - i,
    {
        proof {
            assert(pairs_view(fields@).take(i + 1).drop_last() =~= pairs_view(fields@).take(i as int));
        }
        let k = chars_of(fields[i].0.as_str());
        if !is_known_client_field(k.as_slice()) {
            let ghost before = pairs_view(out@);
            let pair = (crate::text::copy_string(&fields[i].0), crate::text::copy_string(&fields[i].1));
            out.push(pair);
            assert(pairs_view(out@) =~= before.push((fields@[i as int].0@, fields@[i as int].1@)));
        }
        i = i + 1;
    }
    assert(pairs_view(fields@).take(fields@.len() as int) =~= pairs_view(fields@));
    out
}

/// Reads one line of `CLIENT LIST`.
pub fn parse_client_line(line: &[char]) -> (r: ClientEntry)
    ensures
        client_matches(r, client_fields(line@)),
{
    let fields = read_client_fields(line);
    let e = ClientEntry {
        id: lookup_field(&fields, "id"),
        addr: lookup_field(&fields, "addr"),
        laddr: lookup_field(&fields, "laddr"),
        fd: lookup_field(&fields, "fd"),
        name: lookup_field(&fields, "name"),
        age: lookup_field(&fields, "age"),
        idle: lookup_field(&fields, "idle"),
        flags: lookup_field(&fields, "flags"),
        db: lookup_field(&fields, "db"),
        sub: lookup_field(&fields, "sub"),
        psub: lookup_field(&fields, "psub"),
        multi: lookup_field(&fields, "multi"),
        watch: lookup_field(&fields, "watch"),
        qbuf: lookup_field(&fields, "qbuf"),
        qbuf_free: lookup_field(&fields, "qbuf_free"),
        argv_mem: lookup_field(&fields, "argv-mem"),
        multi_mem: lookup_field(&fields, "multi-mem"),
        tot_mem: lookup_field(&fields, "tot-mem"),
        rbuf: lookup_field(&fields, "rbuf"),
        rbuf_alloc: lookup_field(&fields, "rbuf-alloc"),
        obl: lookup_field(&fields, "obl"),
        oll: lookup_field(&fields, "oll"),
        omem: lookup_field(&fields, "omem"),
        events: lookup_field(&fields, "events"),
        cmd: lookup_field(&fields, "cmd"),
        user: lookup_field(&fields, "user"),
        redir: lookup_field(&fields, "redir"),
        resp: lookup_field(&fields, "resp"),
        lib_name: lookup_field(&fields, "lib-name"),
        lib_ver: lookup_field(&fields, "lib-ver"),
        other: Vec::new(),
    };
    let other = unknown_fields(fields);
    ClientEntry { other, ..e }
}

/// Reads a `CLIENT LIST` reply: one client per line.
pub fn parse_client_list(raw: &str) -> (r: Vec<ClientEntry>)
    ensures
        r@.len() == lines(raw@).len(),
        forall|i: int| 0 <= i < r@.len() ==> client_matches(#[trigger] r@[i], client_fields(lines(raw@)[i])),
{
    let rv = chars_of(raw);
    let ls = lines_exec(rv.as_slice());
    let mut out: Vec<ClientEntry> = Vec::new();
    let mut i: usize = 0;
    while i < ls.len()
        invariant
            i <= ls.len(),
            ls.deep_view() == lines(raw@),
            out@.len() == i,
            forall|j: int| 0 <= j < i ==> client_matches(#[trigger] out@[j], client_fields(lines(raw@)[j])),
        decreases ls.len() - i,
    {
        assert(ls.deep_view()[i as int] == ls@[i as int]@);
        let e = parse_client_line(ls[i].as_slice());
        out.push(e);
        i = i + 1;
    }
    out
}


// ---------------------------------------------------------------------------
// topology of a master and its replicas
// ---------------------------------------------------------------------------

/// A node as host, port, role, status and further information.
pub type NodeView = (Seq<char>, u16, Seq<char>, Seq<char>, Option<Seq<char>>);

/// The view of a node.
pub open spec fn node_view(n: NodeStatus) -> NodeView {
    (n.host@, n.port, n.role@, n.status@, match n.extra {
        Some(e) => Some(e@),
        None => None,
    })
}

/// The view of a list of nodes.
pub open spec fn nodes_view(ns: Seq<NodeStatus>) -> Seq<NodeView> {
    ns.map_values(|n: NodeStatus| node_view(n))
}

/// The fields of the first section named `Replication` (in any case).
pub open spec fn replication_fields(secs: Seq<SectionView>) -> Seq<(Seq<char>, Seq<char>)>
    decreases secs.len(),
{
    if secs.len() == 0 {
        Seq::empty()
    } else if eq_ignore_ascii_case(secs[0].0, "Replication"@) {
        secs[0].1
    } else {
        replication_fields(secs.skip(1))
    }
}

/// The master node that the replication fields name: the upstream master
/// of a replica, or the connected server itself when it is a master.
pub open spec fn master_node_of(fields: Seq<(Seq<char>, Seq<char>)>, host: Seq<char>, port: u16) -> Option<NodeView> {
    let role = field_value(fields, "role"@);
    let link = field_value(fields, "master_link_status"@);
    if role == "slave"@ || role == "replica"@ {
        Some((
            field_value(fields, "master_host"@),
            match parse_u16(field_value(fields, "master_port"@)) {
                Some(p) => p,
                None => 0u16,
            },
            "master"@,
            if link == "up"@ {
                "up"@
            } else {
                "down"@
            },
            Some("master_link_status="@ + link),
        ))
    } else if role == "master"@ {
        Some((host, port, "master"@, "up"@, None))
    } else {
        None
    }
}

/// The field that describes replica `k`.
pub open spec fn slave_key(k: nat) -> Seq<char> {
    "slave"@ + decimal(k)
}

/// Host, port and state of a replica from the `name=value` parts of its
/// field; a later part wins.
pub open spec fn replica_parts(parts: Seq<Seq<char>>) -> (Seq<char>, u16, Seq<char>)
    decreases parts.len(),
{
    if parts.len() == 0 {
        (Seq::empty(), 0u16, "unknown"@)
    } else {
        let (h, p, st) = replica_parts(parts.drop_last());
        match split_once(parts.last(), '=') {
            Some((k, v)) => if k == "ip"@ {
                (v, p, st)
            } else if k == "port"@ {
                (h, match parse_u16(v) {
                    Some(x) => x,
                    None => 0u16,
                }, st)
            } else if k == "state"@ {
                (h, p, v)
            } else {
                (h, p, st)
            },
            None => (h, p, st),
        }
    }
}

/// The replica that a field `ip=...,port=...,state=...` describes: up when
/// online, else its state.
pub open spec fn replica_node_of(value: Seq<char>) -> NodeView {
    let (h, p, st) = replica_parts(split_char(value, ','));
    (h, p, "replica"@, if st == "online"@ {
        "up"@
    } else {
        st
    }, Some(value))
}

/// `n` replicas are listed: fields `slave0` .. `slave<n-1>` are set and
/// `slave<n>` is not.
pub open spec fn replica_count_is(fields: Seq<(Seq<char>, Seq<char>)>, n: nat) -> bool {
    &&& forall|k: nat| k < n ==> field_value(fields, #[trigger] slave_key(k)).len() > 0
    &&& field_value(fields, slave_key(n)).len() == 0
}

/// The number of listed replicas.
pub open spec fn replica_count(fields: Seq<(Seq<char>, Seq<char>)>) -> nat {
    choose|n: nat| replica_count_is(fields, n)
}

/// The nodes of a replication topology: the master (if known), then the
/// replicas in order.
pub open spec fn replication_nodes(fields: Seq<(Seq<char>, Seq<char>)>, host: Seq<char>, port: u16) -> Seq<NodeView> {
    let n = replica_count(fields);
    let master = match master_node_of(fields, host, port) {
        Some(m) => seq![m],
        None => Seq::empty(),
    };
    master + Seq::new(n, |k: int| replica_node_of(field_value(fields, slave_key(k as nat))))
}

proof fn lemma_decimal_len(n: nat)
    ensures
        decimal(n).len() >= 1,
        n >= 10 ==> decimal(n).len() >= 2,
    decreases n,
{
    if n >= 10 {
        lemma_decimal_len(n / 10);
    }
}

/// Different numbers have different decimal texts.
pub proof fn lemma_decimal_injective(a: nat, b: nat)
    requires
        decimal(a) == decimal(b),
    ensures
        a == b,
    decreases a,
{
    lemma_decimal_len(a);
    lemma_decimal_len(b);
    if a < 10 && b < 10 {
        assert(decimal(a) == seq![crate::text::digit_char(a)]);
        assert(decimal(b) == seq![crate::text::digit_char(b)]);
        assert(seq![crate::text::digit_char(a)][0] == crate::text::digit_char(a));
        assert(seq![crate::text::digit_char(b)][0] == crate::text::digit_char(b));
        assert(decimal(a)[0] == decimal(b)[0]);
        crate::text::lemma_digit_char_injective(a, b);
    } else if a >= 10 && b >= 10 {
        assert(decimal(a) == decimal(a / 10).push(crate::text::digit_char(a % 10)));
        assert(decimal(b) == decimal(b / 10).push(crate::text::digit_char(b % 10)));
        assert(decimal(a).last() == crate::text::digit_char(a % 10));
        assert(decimal(b).last() == crate::text::digit_char(b % 10));
        assert(decimal(a).last() == decimal(b).last());
        crate::text::lemma_digit_char_injective(a % 10, b % 10);
        assert(decimal(a).drop_last() =~= decimal(a / 10));
        assert(decimal(b).drop_last() =~= decimal(b / 10));
        lemma_decimal_injective(a / 10, b / 10);
    } else {
        assert(decimal(a).len() != decimal(b).len());
    }
}

/// A field that `field_value` finds set is there.
proof fn lemma_field_value_witness(fields: Seq<(Seq<char>, Seq<char>)>, key: Seq<char>)
    requires
        field_value(fields, key).len() > 0,
    ensures
        exists|j: int| 0 <= j < fields.len() && fields[j].0 == key,
    decreases fields.len(),
{
    if fields[0].0 != key {
        lemma_field_value_witness(fields.skip(1), key);
        let j = choose|j: int| 0 <= j < fields.skip(1).len() && fields.skip(1)[j].0 == key;
        assert(fields[j + 1].0 == key);
    }
}

/// Distinct replica numbers whose fields are all present are no more than
/// the fields.
proof fn lemma_replica_fields_bound(fields: Seq<(Seq<char>, Seq<char>)>, ks: Set<int>)
    requires
        ks.finite(),
        forall|k: int| ks.contains(k) ==> k >= 0 && exists|j: int| 0 <= j < fields.len() && fields[j].0 == slave_key(k as nat),
    ensures
        ks.len() <= fields.len(),
    decreases fields.len(),
{
    if fields.len() == 0 {
        if ks.len() > 0 {
            let k = ks.choose();
            assert(ks.contains(k));
        }
    } else {
        let last = fields.last();
        let rest = fields.drop_last();
        let hit = ks.filter(|k: int| slave_key(k as nat) == last.0);
        let miss = ks.filter(|k: int| slave_key(k as nat) != last.0);
        assert forall|k: int| miss.contains(k) implies k >= 0 && exists|j: int| 0 <= j < rest.len() && rest[j].0 == slave_key(k as nat) by {
            let j = choose|j: int| 0 <= j < fields.len() && fields[j].0 == slave_key(k as nat);
            assert(j < fields.len() - 1);
            assert(rest[j] == fields[j]);
        }
        vstd::set_lib::lemma_len_subset(miss, ks);
        lemma_replica_fields_bound(rest, miss);
        vstd::set_lib::lemma_len_subset(hit, ks);
        if hit.len() > 1 {
            let a = hit.choose();
            assert(hit.contains(a));
            assert(hit.remove(a).len() > 0);
            let b = hit.remove(a).choose();
            assert(hit.remove(a).contains(b));
            assert(("slave"@ + decimal(a as nat)).skip(5) =~= decimal(a as nat)) by {
                reveal_strlit("slave");
            }
            assert(("slave"@ + decimal(b as nat)).skip(5) =~= decimal(b as nat)) by {
                reveal_strlit("slave");
            }
            lemma_decimal_injective(a as nat, b as nat);
        }
        assert(ks =~= hit + miss);
        vstd::set_lib::lemma_set_disjoint_lens(hit, miss);
    }
}

/// When replicas `0..m` are all listed, `m` is at most the number of fields.
proof fn lemma_replica_count_bound(fields: Seq<(Seq<char>, Seq<char>)>, m: nat)
    requires
        forall|k: nat| k < m ==> field_value(fields, #[trigger] slave_key(k)).len() > 0,
    ensures
        m <= fields.len(),
{
    let ks = vstd::set_lib::set_int_range(0, m as int);
    vstd::set_lib::lemma_int_range(0, m as int);
    assert forall|k: int| ks.contains(k) implies k >= 0 && exists|j: int| 0 <= j < fields.len() && fields[j].0 == slave_key(k as nat) by {
        assert(field_value(fields, slave_key(k as nat)).len() > 0);
        lemma_field_value_witness(fields, slave_key(k as nat));
    }
    lemma_replica_fields_bound(fields, ks);
}

/// Reads a replica field.
fn replica_node(value: String) -> (r: NodeStatus)
    ensures
        node_view(r) == replica_node_of(value@),
{
    let vv = chars_of(value.as_str());
    let parts = split_chars(vv.as_slice(), ',');
    let mut host = String::new();
    let mut port: u16 = 0;
    let mut state = "unknown".to_owned();
    let mut i: usize = 0;
    while i < parts.len()
        invariant
            i <= parts.len(),
            (host@, port, state@) == replica_parts(parts.deep_view().take(i as int)),
        decreases parts.len() - i,
    {
        proof {
            assert(parts.deep_view().take(i + 1).drop_last() =~= parts.deep_view().take(i as int));
            assert(parts.deep_view().take(i + 1).last() == parts@[i as int]@);
        }
        match split_once_exec(parts[i].as_slice(), '=') {
            Some((k, v)) => {
                if chars_eq_str(k.as_slice(), "ip") {
                    host = string_from(v.as_slice());
                } else if chars_eq_str(k.as_slice(), "port") {
                    port = match parse_u16_exec(v.as_slice()) {
                        Some(x) => x,
                        None => 0,
                    };
                } else if chars_eq_str(k.as_slice(), "state") {
                    state = string_from(v.as_slice());
                }
            },
            None => {},
        }
        i = i + 1;
    }
    assert(parts.deep_view().take(parts.deep_view().len() as int) =~= parts.deep_view());
    let status = if str_eq(state.as_str(), "online") {
        "up".to_owned()
    } else {
        state
    };
    NodeStatus { host, port, role: "replica".to_owned(), status, extra: Some(value) }
}

/// The fields of the first section named `Replication`.
fn find_replication_fields(secs: Vec<InfoSection>) -> (r: Vec<(String, String)>)
    ensures
        pairs_view(r@) == replication_fields(sections_view(secs@)),
{
    let target = chars_of("Replication");
    let mut i: usize = 0;
    assert(sections_view(secs@).skip(0) =~= sections_view(secs@));
    while i < secs.len()
        invariant
            i <= secs.len(),
            target@ == "Replication"@,
            replication_fields(sections_view(secs@)) == replication_fields(sections_view(secs@).skip(i as int)),
        decreases secs.len() - i,
    {
        proof {
            assert(sections_view(secs@).skip(i as int).skip(1) =~= sections_view(secs@).skip(i + 1));
            assert(sections_view(secs@).skip(i as int)[0] == section_view(secs@[i as int]));
        }
        let name = chars_of(secs[i].name.as_str());
        if eq_ignore_ascii_case_exec(name.as_slice(), target.as_slice()) {
            let mut out: Vec<(String, String)> = Vec::new();
            let mut k: usize = 0;
            while k < secs[i].fields.len()
                invariant
                    i < secs.len(),
                    k <= secs@[i as int].fields@.len(),
                    pairs_view(out@) == pairs_view(secs@[i as int].fields@).take(k as int),
                decreases secs@[i as int].fields@.len() - k,
            {
                let pair = (copy_string(&secs[i].fields[k].0), copy_string(&secs[i].fields[k].1));
                let ghost before = pairs_view(out@);
                out.push(pair);
                k = k + 1;
                assert(pairs_view(out@) =~= before.push(pair_view(secs@[i as int].fields@[k - 1])));
                assert(pairs_view(secs@[i as int].fields@).take(k as int) =~= pairs_view(secs@[i as int].fields@).take(k - 1).push(pair_view(secs@[i as int].fields@[k - 1])));
            }
            assert(pairs_view(secs@[i as int].fields@).take(k as int) =~= pairs_view(secs@[i as int].fields@));
            return out;
        }
        i = i + 1;
    }
    Vec::new()
}

/// The text `slave<k>`.
fn slave_key_exec(k: usize) -> (r: String)
    ensures
        r@ == slave_key(k as nat),
{
    let mut s = "slave".to_owned();
    push_u64(&mut s, k as u64);
    s
}

/// The nodes of a master-slave topology from the `INFO replication` reply
/// of the connected server `host:port`.
pub fn replication_topology(raw: &str, host: &str, port: u16) -> (r: Vec<NodeStatus>)
    ensures
        nodes_view(r@) == replication_nodes(
            replication_fields(info_sections(raw@)),
            host@,
            port,
        ),
{
    let secs = parse_info(raw);
    let ghost sv = sections_view(secs@);
    let fields = find_replication_fields(secs);
    assert(pairs_view(fields@) == replication_fields(info_sections(raw@)));
    let ghost fv = pairs_view(fields@);
    let role = lookup_field(&fields, "role");
    let master_host = lookup_field(&fields, "master_host");
    let master_port = lookup_field(&fields, "master_port");
    let link = lookup_field(&fields, "master_link_status");
    let mut nodes: Vec<NodeStatus> = Vec::new();
    if str_eq(role.as_str(), "slave") || str_eq(role.as_str(), "replica") {
        let mp = chars_of(master_port.as_str());
        let port_num = match parse_u16_exec(mp.as_slice()) {
            Some(p) => p,
            None => 0,
        };
        let status = if str_eq(link.as_str(), "up") {
            "up".to_owned()
        } else {
            "down".to_owned()
        };
        let mut extra = "master_link_status=".to_owned();
        push_str(&mut extra, link.as_str());
        nodes.push(NodeStatus {
            host: master_host,
            port: port_num,
            role: "master".to_owned(),
            status,
            extra: Some(extra),
        });
    } else if str_eq(role.as_str(), "master") {
        nodes.push(NodeStatus {
            host: host.to_owned(),
            port,
            role: "master".to_owned(),
            status: "up".to_owned(),
            extra: None,
        });
    }
    let ghost master = match master_node_of(fv, host@, port) {
        Some(m) => seq![m],
        None => Seq::<NodeView>::empty(),
    };
    assert(nodes_view(nodes@) =~= master);
    let ghost base = nodes@.len();
    let mut idx: usize = 0;
    loop
        invariant
            fv == pairs_view(fields@),
            fv == replication_fields(info_sections(raw@)),
            master == match master_node_of(fv, host@, port) {
                Some(m) => seq![m],
                None => Seq::<NodeView>::empty(),
            },
            idx <= fields@.len(),
            base == master.len(),
            nodes@.len() == base + idx,
            nodes_view(nodes@).take(base as int) == master,
            forall|k: nat| k < idx ==> field_value(fv, #[trigger] slave_key(k)).len() > 0,
            forall|k: int| 0 <= k < idx ==> #[trigger] nodes_view(nodes@)[base + k] == replica_node_of(field_value(fv, slave_key(k as nat))),
        decreases fields@.len() - idx,
    {
        let key = slave_key_exec(idx);
        let value = lookup_field(&fields, key.as_str());
        if value.as_str().is_empty() {
            proof {
                assert(replica_count_is(fv, idx as nat));
                let n = replica_count(fv);
                if n < idx {
                    assert(field_value(fv, slave_key(n)).len() > 0);
                } else if n > idx {
                    assert(field_value(fv, slave_key(idx as nat)).len() > 0);
                }
                assert(n == idx);
                let rn = replication_nodes(fv, host@, port);
                assert(nodes_view(nodes@).len() == nodes@.len());
                assert(rn.len() == master.len() + idx);
                assert(rn.len() == nodes_view(nodes@).len());
                assert forall|j: int| 0 <= j < rn.len() implies nodes_view(nodes@)[j] == rn[j] by {
                    if j < base {
                        assert(nodes_view(nodes@).take(base as int)[j] == master[j]);
                    } else {
                        let k = j - base;
                        assert(nodes_view(nodes@)[base + k] == replica_node_of(field_value(fv, slave_key(k as nat))));
                    }
                }
                assert(nodes_view(nodes@) =~= rn);
            }
            return nodes;
        }
        proof {
            assert forall|k: nat| k < idx + 1 implies field_value(fv, #[trigger] slave_key(k)).len() > 0 by {
                if k == idx {
                }
            }
            lemma_replica_count_bound(fv, (idx + 1) as nat);
            assert(fv.len() == fields@.len());
            assert(fields@.len() == fields.len());
        }
        let ghost before = nodes_view(nodes@);
        let node = replica_node(value);
        nodes.push(node);
        proof {
            assert(nodes_view(nodes@) =~= before.push(node_view(node)));
        }
        idx = idx + 1;
    }
}

// ---------------------------------------------------------------------------
// topology of a cluster
// ---------------------------------------------------------------------------

/// The node that a line of a `CLUSTER NODES` reply describes, when it has
/// at least eight words: the host and port of its second word (split at the
/// last `:`, port 0 when unreadable), a master when its flags say so, down
/// when they say `fail` or `disconnected`, and the line itself.
pub open spec fn cluster_node_of(line: Seq<char>) -> Option<NodeView> {
    let parts = words(line);
    if parts.len() < 8 {
        None
    } else {
        let hp = parts[1];
        let flags = parts[2];
        let (host, port) = match rsplit_once(hp, ':') {
            Some((h, p)) => (h, match parse_u16(p) {
                Some(x) => x,
                None => 0u16,
            }),
            None => (hp, 0u16),
        };
        Some((
            host,
            port,
            if contains_seq(flags, "master"@) {
                "master"@
            } else {
                "replica"@
            },
            if contains_seq(flags, "fail"@) || contains_seq(flags, "disconnected"@) {
                "down"@
            } else {
                "up"@
            },
            Some(line),
        ))
    }
}

/// The nodes that the lines of a `CLUSTER NODES` reply describe, in order.
pub open spec fn cluster_nodes_of(ls: Seq<Seq<char>>) -> Seq<NodeView>
    decreases ls.len(),
{
    if ls.len() == 0 {
        Seq::empty()
    } else {
        let before = cluster_nodes_of(ls.drop_last());
        match cluster_node_of(ls.last()) {
            Some(n) => before.push(n),
            None => before,
        }
    }
}

fn cluster_node(line: &[char]) -> (r: Option<NodeStatus>)
    ensures
        match cluster_node_of(line@) {
            Some(n) => r matches Some(x) && node_view(x) == n,
            None => r is None,
        },
{
    let parts = split_words(line);
    if parts.len() < 8 {
        return None;
    }
    proof {
        assert(parts.deep_view()[1] == parts@[1]@);
        assert(parts.deep_view()[2] == parts@[2]@);
    }
    let hp = parts[1].as_slice();
    let flags = parts[2].as_slice();
    let (host, port) = match rsplit_once_exec(hp, ':') {
        Some((h, p)) => {
            let port = match parse_u16_exec(p.as_slice()) {
                Some(x) => x,
                None => 0,
            };
            (string_from(h.as_slice()), port)
        },
        None => (string_from(hp), 0),
    };
    let role = if contains_str(flags, "master") {
        "master".to_owned()
    } else {
        "replica".to_owned()
    };
    let status = if contains_str(flags, "fail") || contains_str(flags, "disconnected") {
        "down".to_owned()
    } else {
        "up".to_owned()
    };
    Some(NodeStatus { host, port, role, status, extra: Some(string_from(line)) })
}

/// The nodes of a cluster from its `CLUSTER NODES` reply: those its text
/// describes, none for a reply that is no text.
pub fn cluster_topology(reply: &RespValue) -> (r: Vec<NodeStatus>)
    ensures
        nodes_view(r@) == match *reply {
            RespValue::Text(s) => cluster_nodes_of(lines(s@)),
            _ => Seq::empty(),
        },
{
    let mut nodes: Vec<NodeStatus> = Vec::new();
    match reply {
        RespValue::Text(s) => {
            let sv = chars_of(s.as_str());
            let ls = lines_exec(sv.as_slice());
            let ghost lv = ls.deep_view();
            let mut i: usize = 0;
            while i < ls.len()
                invariant
                    i <= ls@.len(),
                    lv == ls.deep_view(),
                    lv == lines(s@),
                    nodes_view(nodes@) == cluster_nodes_of(lv.take(i as int)),
                decreases ls.len() - i,
            {
                proof {
                    assert(lv.take(i + 1).drop_last() =~= lv.take(i as int));
                    assert(lv[i as int] == ls@[i as int]@);
                }
                let ghost before = nodes_view(nodes@);
                match cluster_node(ls[i].as_slice()) {
                    Some(n) => {
                        nodes.push(n);
                        assert(nodes_view(nodes@) =~= before.push(node_view(n)));
                    },
                    None => {},
                }
                i = i + 1;
            }
            assert(lv.take(lv.len() as int) =~= lv);
        },
        _ => {
            assert(nodes_view(nodes@) =~= Seq::empty());
        },
    }
    nodes
}

// ---------------------------------------------------------------------------
// the slow log
// ---------------------------------------------------------------------------

/// An entry of the slow log.
#[derive(Debug)]
pub struct SlowlogEntry {
    pub id: i64,
    pub timestamp: i64,
    pub duration_us: i64,
    pub args: Vec<String>,
    pub client_addr: String,
    pub client_name: String,
}

/// The integer that a slow log item gives: an integer, a text that reads as
/// one, else 0.
pub open spec fn int_value_of(v: RespValue) -> i64 {
    match v {
        RespValue::Integer(i) => i,
        RespValue::Text(s) => match parse_i64(s@) {
            Some(n) => n,
            None => 0,
        },
        _ => 0,
    }
}

/// The integer that a slow log item gives (see `int_value_of`).
pub fn int_of(v: &RespValue) -> (r: i64)
    ensures
        r == int_value_of(*v),
{
    match v {
        RespValue::Integer(i) => *i,
        RespValue::Text(s) => {
            let c = chars_of(s.as_str());
            match parse_i64_exec(c.as_slice()) {
                Some(n) => n,
                None => 0,
            }
        },
        _ => 0,
    }
}

/// The item `i` of a list, `Null` past its end.
pub open spec fn item_or_null(items: Seq<RespValue>, i: int) -> RespValue {
    if 0 <= i < items.len() {
        items[i]
    } else {
        RespValue::Null
    }
}

/// The bytes that a slow log item stands for: the UTF-8 of a text or of a
/// scalar's text, the bytes of a binary reply, none for the rest.
pub open spec fn slowlog_bytes_of(v: RespValue) -> Seq<u8> {
    match v {
        RespValue::Text(_) | RespValue::Bytes(_) | RespValue::Integer(_) | RespValue::Double { .. }
        | RespValue::Boolean(_) => item_bytes_of(v),
        _ => Seq::empty(),
    }
}

/// The text of a slow log item (binary safe).
pub open spec fn slowlog_text_of(v: RespValue) -> Seq<char> {
    crate::model::encoded_value_of(slowlog_bytes_of(v)).1
}

/// The text of a slow log item.
pub fn slowlog_text(v: &RespValue) -> (r: String)
    ensures
        r@ == slowlog_text_of(*v),
{
    match v {
        RespValue::Text(_) | RespValue::Bytes(_) | RespValue::Integer(_) | RespValue::Double { .. }
        | RespValue::Boolean(_) => {
            let b = scalar_bytes(v);
            crate::model::EncodedValue::from_bytes(b.as_slice()).value
        },
        _ => crate::model::EncodedValue::from_bytes(&[]).value,
    }
}

/// The entry that a slow log item (an array) describes: id, time and
/// duration from items 0 to 2, the command's words from item 3, the
/// client's address and name from items 4 and 5.
pub open spec fn slowlog_entry_matches(e: SlowlogEntry, items: Seq<RespValue>) -> bool {
    &&& e.id == int_value_of(item_or_null(items, 0))
    &&& e.timestamp == int_value_of(item_or_null(items, 1))
    &&& e.duration_us == int_value_of(item_or_null(items, 2))
    &&& e.args@.map_values(|a: String| a@) == match item_or_null(items, 3) {
        RespValue::Array(a) => a@.map_values(|x: RespValue| slowlog_text_of(x)),
        _ => Seq::empty(),
    }
    &&& e.client_addr@ == slowlog_text_of(item_or_null(items, 4))
    &&& e.client_name@ == slowlog_text_of(item_or_null(items, 5))
}

fn item_at(items: &Vec<RespValue>, i: usize) -> (r: &RespValue)
    ensures
        *r == item_or_null(items@, i as int),
{
    if i < items.len() {
        &items[i]
    } else {
        &RespValue::Null
    }
}

fn slowlog_entry(items: &Vec<RespValue>) -> (r: SlowlogEntry)
    ensures
        slowlog_entry_matches(r, items@),
{
    let mut args: Vec<String> = Vec::new();
    match item_at(items, 3) {
        RespValue::Array(a) => {
            let mut i: usize = 0;
            while i < a.len()
                invariant
                    i <= a@.len(),
                    args@.len() == i,
                    forall|k: int| 0 <= k < i ==> (#[trigger] args@[k])@ == slowlog_text_of(a@[k]),
                decreases a.len() - i,
            {
                args.push(slowlog_text(&a[i]));
                i = i + 1;
            }
            assert(args@.map_values(|x: String| x@) =~= a@.map_values(|x: RespValue| slowlog_text_of(x)));
        },
        _ => {
            assert(args@.map_values(|x: String| x@) =~= Seq::<Seq<char>>::empty());
        },
    }
    SlowlogEntry {
        id: int_of(item_at(items, 0)),
        timestamp: int_of(item_at(items, 1)),
        duration_us: int_of(item_at(items, 2)),
        args,
        client_addr: slowlog_text(item_at(items, 4)),
        client_name: slowlog_text(item_at(items, 5)),
    }
}

/// The array items of a `SLOWLOG GET` reply, each an entry's items.
pub open spec fn slowlog_items(v: RespValue) -> Seq<Seq<RespValue>>
{
    match v {
        RespValue::Array(es) => slowlog_arrays(es@),
        _ => Seq::empty(),
    }
}

/// The items of the array entries, in order; other entries are left out.
pub open spec fn slowlog_arrays(es: Seq<RespValue>) -> Seq<Seq<RespValue>>
    decreases es.len(),
{
    if es.len() == 0 {
        Seq::empty()
    } else {
        let before = slowlog_arrays(es.drop_last());
        match es.last() {
            RespValue::Array(items) => before.push(items@),
            _ => before,
        }
    }
}

/// The entries of a `SLOWLOG GET` reply: one per array entry, in order.
pub fn parse_slowlog(value: &RespValue) -> (r: Vec<SlowlogEntry>)
    ensures
        r@.len() == slowlog_items(*value).len(),
        forall|i: int| 0 <= i < r@.len() ==> slowlog_entry_matches(#[trigger] r@[i], slowlog_items(*value)[i]),
{
    let mut out: Vec<SlowlogEntry> = Vec::new();
    match value {
        RespValue::Array(es) => {
            let mut i: usize = 0;
            while i < es.len()
                invariant
                    i <= es@.len(),
                    slowlog_items(*value) == slowlog_arrays(es@),
                    out@.len() == slowlog_arrays(es@.take(i as int)).len(),
                    forall|k: int| 0 <= k < out@.len() ==> slowlog_entry_matches(#[trigger] out@[k], slowlog_arrays(es@.take(i as int))[k]),
                decreases es.len() - i,
            {
                proof {
                    assert(es@.take(i + 1).drop_last() =~= es@.take(i as int));
                    assert(es@.take(i + 1).last() == es@[i as int]);
                }
                match &es[i] {
                    RespValue::Array(items) => {
                        let e = slowlog_entry(items);
                        out.push(e);
                    },
                    _ => {},
                }
                i = i + 1;
            }
            assert(es@.take(es@.len() as int) =~= es@);
        },
        _ => {},
    }
    out
}

// ---------------------------------------------------------------------------
// databases
// ---------------------------------------------------------------------------

/// Most databases listed.
pub const DATABASES_MAX: i64 = 64;

/// The number of databases that a `CONFIG GET databases` reply gives: the
/// value of the first `databases` entry when it reads as an integer, 16
/// otherwise, and at most `DATABASES_MAX`.
pub open spec fn database_count_of(configs: Seq<(Seq<char>, Seq<char>)>) -> i64 {
    let n = match first_value(configs, "databases"@) {
        Some(v) => match parse_i64(v) {
            Some(x) => x,
            None => 16,
        },
        None => 16,
    };
    if n < DATABASES_MAX {
        n
    } else {
        DATABASES_MAX
    }
}

/// The value of the first entry named `key`.
pub open spec fn first_value(configs: Seq<(Seq<char>, Seq<char>)>, key: Seq<char>) -> Option<Seq<char>>
    decreases configs.len(),
{
    if configs.len() == 0 {
        None
    } else if configs[0].0 == key {
        Some(configs[0].1)
    } else {
        first_value(configs.skip(1), key)
    }
}

/// The databases to list: `0` up to the count of `database_count_of`.
pub fn database_list(configs: &Vec<(String, String)>) -> (r: Vec<i64>)
    ensures
        r@.len() == if database_count_of(pairs_view(configs@)) > 0 {
            database_count_of(pairs_view(configs@)) as int
        } else {
            0
        },
        forall|i: int| 0 <= i < r@.len() ==> r@[i] == i,
{
    let ghost cv = pairs_view(configs@);
    let mut found: Option<i64> = None;
    let mut seen = false;
    let mut i: usize = 0;
    assert(cv.skip(0) =~= cv);
    while i < configs.len()
        invariant
            i <= configs@.len(),
            cv == pairs_view(configs@),
            !seen ==> found is None,
            !seen ==> first_value(cv, "databases"@) == first_value(cv.skip(i as int), "databases"@),
            seen ==> found == match first_value(cv, "databases"@) {
                Some(v) => parse_i64(v),
                None => None,
            },
        decreases configs.len() - i,
    {
        if !seen && str_eq(configs[i].0.as_str(), "databases") {
            let c = chars_of(configs[i].1.as_str());
            found = parse_i64_exec(c.as_slice());
            seen = true;
            assert(cv.skip(i as int)[0] == cv[i as int]);
        }
        proof {
            if !seen {
                assert(cv.skip(i as int).skip(1) =~= cv.skip(i + 1));
            }
        }
        i = i + 1;
    }
    if !seen {
        assert(cv.skip(i as int) =~= Seq::<(Seq<char>, Seq<char>)>::empty());
    }
    let n = match found {
        Some(x) => x,
        None => 16,
    };
    let total = if n < DATABASES_MAX {
        n
    } else {
        DATABASES_MAX
    };
    assert(total == database_count_of(cv));
    let mut out: Vec<i64> = Vec::new();
    let mut d: i64 = 0;
    while d < total
        invariant
            0 <= d,
            total <= DATABASES_MAX,
            total > 0 ==> d <= total,
            total <= 0 ==> d == 0,
            out@.len() == d,
            forall|k: int| 0 <= k < out@.len() ==> out@[k] == k,
        decreases total - d,
    {
        out.push(d);
        d = d + 1;
    }
    out
}

// ---------------------------------------------------------------------------
// INFO sections and topology sources
// ---------------------------------------------------------------------------

/// The sections that INFO can be asked for.
#[derive(Debug, Clone, Copy, PartialEq, Eq, Structural)]
pub enum InfoKind {
    Default,
    All,
    Keyspace,
    Cluster,
    CommandStats,
    Cpu,
    Replication,
    Stats,
    Persistence,
    Memory,
    Clients,
    Server,
}

/// The section that a lower-case name stands for.
pub open spec fn info_kind_of(name: Seq<char>) -> Option<InfoKind> {
    if name == "default"@ {
        Some(InfoKind::Default)
    } else if name == "all"@ {
        Some(InfoKind::All)
    } else if name == "keyspace"@ {
        Some(InfoKind::Keyspace)
    } else if name == "cluster"@ {
        Some(InfoKind::Cluster)
    } else if name == "commandstats"@ {
        Some(InfoKind::CommandStats)
    } else if name == "cpu"@ {
        Some(InfoKind::Cpu)
    } else if name == "replication"@ {
        Some(InfoKind::Replication)
    } else if name == "stats"@ {
        Some(InfoKind::Stats)
    } else if name == "persistence"@ {
        Some(InfoKind::Persistence)
    } else if name == "memory"@ {
        Some(InfoKind::Memory)
    } else if name == "clients"@ {
        Some(InfoKind::Clients)
    } else if name == "server"@ {
        Some(InfoKind::Server)
    } else {
        None
    }
}

/// The text that `str::to_lowercase` makes of a text (Unicode lower case).
pub uninterp spec fn lowercase_text(s: Seq<char>) -> Seq<char>;

/// `str::to_lowercase`: a text of ASCII letters and other ASCII characters
/// lower-cases letter by letter.
#[verifier::external_body]
fn to_lowercase(s: &str) -> (r: String)
    ensures
        r@ == lowercase_text(s@),
        (forall|i: int| 0 <= i < s@.len() ==> (s@[i] as u32) < 128) ==> r@ == crate::text::ascii_lower_seq(s@),
{
    s.to_lowercase()
}

/// The section that a lower-cased name stands for; any other name is
/// refused with `未知 INFO 段: ` and the name.
pub fn info_kind_from_lower(name: &str) -> (r: Result<InfoKind, AppError>)
    ensures
        match info_kind_of(name@) {
            Some(k) => r == Ok::<InfoKind, AppError>(k),
            None => r matches Err(e) && e.message@ == "未知 INFO 段: "@ + name@,
        },
{
    if str_eq(name, "default") {
        Ok(InfoKind::Default)
    } else if str_eq(name, "all") {
        Ok(InfoKind::All)
    } else if str_eq(name, "keyspace") {
        Ok(InfoKind::Keyspace)
    } else if str_eq(name, "cluster") {
        Ok(InfoKind::Cluster)
    } else if str_eq(name, "commandstats") {
        Ok(InfoKind::CommandStats)
    } else if str_eq(name, "cpu") {
        Ok(InfoKind::Cpu)
    } else if str_eq(name, "replication") {
        Ok(InfoKind::Replication)
    } else if str_eq(name, "stats") {
        Ok(InfoKind::Stats)
    } else if str_eq(name, "persistence") {
        Ok(InfoKind::Persistence)
    } else if str_eq(name, "memory") {
        Ok(InfoKind::Memory)
    } else if str_eq(name, "clients") {
        Ok(InfoKind::Clients)
    } else if str_eq(name, "server") {
        Ok(InfoKind::Server)
    } else {
        let mut m = "未知 INFO 段: ".to_owned();
        push_str(&mut m, name);
        Err(AppError::new(m))
    }
}

/// The INFO section asked for by `s`, named in any case.
pub fn parse_info_kind(s: &str) -> (r: Result<InfoKind, AppError>)
    ensures
        match info_kind_of(lowercase_text(s@)) {
            Some(k) => r == Ok::<InfoKind, AppError>(k),
            None => r matches Err(e) && e.message@ == "未知 INFO 段: "@ + lowercase_text(s@),
        },
{
    let lower = to_lowercase(s);
    info_kind_from_lower(lower.as_str())
}

/// The INFO section that a request names: none for no name or the empty
/// name, else the section that `parse_info_kind` reads.
pub fn info_section_request(section: &Option<String>) -> (r: Result<Option<InfoKind>, AppError>)
    ensures
        match section {
            None => r == Ok::<Option<InfoKind>, AppError>(None),
            Some(t) => if t@.len() == 0 {
                r == Ok::<Option<InfoKind>, AppError>(None)
            } else {
                match info_kind_of(lowercase_text(t@)) {
                    Some(k) => r == Ok::<Option<InfoKind>, AppError>(Some(k)),
                    None => r matches Err(e) && e.message@ == "未知 INFO 段: "@ + lowercase_text(t@),
                }
            },
        },
{
    match section {
        None => Ok(None),
        Some(t) => {
            if t.as_str().is_empty() {
                Ok(None)
            } else {
                match parse_info_kind(t.as_str()) {
                    Ok(k) => Ok(Some(k)),
                    Err(e) => Err(e),
                }
            }
        },
    }
}

/// Where the topology of a connection is read from.
#[derive(Debug, Clone, Copy, PartialEq, Eq, Structural)]
pub enum TopologySource {
    /// `INFO replication` of the connected server.
    Replication,
    /// `CLUSTER NODES`.
    ClusterNodes,
    /// The sentinels.
    Sentinels,
}

/// The topology source of a connection mode; Memcached has none and is
/// refused with `Memcached 不支持拓扑查看`.
pub fn topology_source(mode: ConnMode) -> (r: Result<TopologySource, AppError>)
    ensures
        match mode {
            ConnMode::Single | ConnMode::MasterSlave => r == Ok::<TopologySource, AppError>(
                TopologySource::Replication,
            ),
            ConnMode::Cluster => r == Ok::<TopologySource, AppError>(TopologySource::ClusterNodes),
            ConnMode::Sentinel => r == Ok::<TopologySource, AppError>(TopologySource::Sentinels),
            ConnMode::Memcached => r matches Err(e) && e.message@ == "Memcached 不支持拓扑查看"@,
        },
{
    match mode {
        ConnMode::Single | ConnMode::MasterSlave => Ok(TopologySource::Replication),
        ConnMode::Cluster => Ok(TopologySource::ClusterNodes),
        ConnMode::Sentinel => Ok(TopologySource::Sentinels),
        ConnMode::Memcached => Err(AppError::from_str("Memcached 不支持拓扑查看")),
    }
}

// ---------------------------------------------------------------------------
// topology through the sentinels
// ---------------------------------------------------------------------------

/// The sentinels to ask, in order: the connection's own address, then its
/// further nodes.
pub open spec fn sentinel_hosts_of(c: ConnConfig) -> Seq<(Seq<char>, u16)> {
    seq![(c.host@, c.port)] + c.nodes@.map_values(|n: crate::model::NodeSpec| (n.host@, n.port))
}

/// The sentinels to ask (see `sentinel_hosts_of`).
pub fn sentinel_hosts(cfg: &ConnConfig) -> (r: Vec<(String, u16)>)
    ensures
        r@.map_values(|h: (String, u16)| (h.0@, h.1)) == sentinel_hosts_of(*cfg),
{
    let mut out: Vec<(String, u16)> = Vec::new();
    out.push((copy_string(&cfg.host), cfg.port));
    let mut i: usize = 0;
    while i < cfg.nodes.len()
        invariant
            i <= cfg.nodes@.len(),
            out@.len() == i + 1,
            out@[0].0@ == cfg.host@,
            out@[0].1 == cfg.port,
            forall|k: int| 0 <= k < i ==> (#[trigger] out@[k + 1]).0@ == cfg.nodes@[k].host@ && out@[k + 1].1 == cfg.nodes@[k].port,
        decreases cfg.nodes.len() - i,
    {
        out.push((copy_string(&cfg.nodes[i].host), cfg.nodes[i].port));
        i = i + 1;
    }
    proof {
        let got = out@.map_values(|h: (String, u16)| (h.0@, h.1));
        let want = sentinel_hosts_of(*cfg);
        assert forall|k: int| 0 <= k < want.len() implies got[k] == want[k] by {
            if k > 0 {
                assert(out@[(k - 1) + 1].0@ == cfg.nodes@[k - 1].host@);
            }
        }
        assert(got =~= want);
    }
    out
}

/// How asking one sentinel went.
#[derive(PartialEq, Eq, Structural, Clone, Copy, Debug)]
pub enum SentinelProbe {
    Reached,
    Refused,
    TimedOut,
}

/// A walk over the sentinels of a connection (see `sentinel_hosts_of`),
/// asked in order until one answers: the next one to ask, and what the
/// last failure was.
pub struct SentinelScan {
    pub next: usize,
    pub last_failure: Option<String>,
}

impl SentinelScan {
    /// A walk that has asked no sentinel yet.
    pub fn new() -> (r: Self)
        ensures
            r.next == 0,
            r.last_failure is None,
    {
        SentinelScan { next: 0, last_failure: None }
    }

    /// The sentinel to ask next among `count`, or `None` once every one
    /// was asked.
    pub fn target(&self, count: usize) -> (r: Option<usize>)
        ensures
            r == (if self.next < count {
                Some(self.next)
            } else {
                None::<usize>
            }),
    {
        if self.next < count {
            Some(self.next)
        } else {
            None
        }
    }

    /// Records how asking the sentinel `hosts[next]` went. It returns
    /// whether that sentinel answered, so that its view of the topology is
    /// read and the walk ends there; otherwise the walk moves on to the
    /// next sentinel and keeps this failure as the last one.
    pub fn record(&mut self, hosts: &Vec<(String, u16)>, probe: SentinelProbe) -> (read: bool)
        requires
            old(self).next < hosts@.len(),
        ensures
            read == (probe == SentinelProbe::Reached),
            read ==> final(self).next == old(self).next && final(self).last_failure is None,
            !read ==> final(self).next == old(self).next + 1,
            !read ==> (final(self).last_failure matches Some(f) && f@ == sentinel_failure_text(
                hosts@[old(self).next as int].0@,
                hosts@[old(self).next as int].1,
                probe == SentinelProbe::TimedOut,
            )),
    {
        match probe {
            SentinelProbe::Reached => {
                self.last_failure = None;
                true
            },
            _ => {
                let i = self.next;
                let n = hosts.len();
                assert(i < n);
                let f = sentinel_failure(hosts[i].0.as_str(), hosts[i].1, probe == SentinelProbe::TimedOut);
                self.last_failure = Some(f);
                self.next = i + 1;
                false
            },
        }
    }
}

/// The sentinel command that lists a master's replicas, by attempt:
/// `REPLICAS` (Redis 5.0 on) first, then the older `SLAVES`, then none.
pub fn replica_query(attempt: usize) -> (r: Option<&'static str>)
    ensures
        attempt == 0 ==> (r matches Some(c) && c@ == "REPLICAS"@),
        attempt == 1 ==> (r matches Some(c) && c@ == "SLAVES"@),
        attempt >= 2 ==> r is None,
{
    if attempt == 0 {
        Some("REPLICAS")
    } else if attempt == 1 {
        Some("SLAVES")
    } else {
        None
    }
}

/// The text of a sentinel that could not be reached: its address, marked
/// as timed out where it was.
pub open spec fn sentinel_failure_text(host: Seq<char>, port: u16, timed_out: bool) -> Seq<char> {
    if timed_out {
        host + ":"@ + decimal(port as nat) + " 连接超时"@
    } else {
        host + ":"@ + decimal(port as nat)
    }
}

/// The text of a sentinel that could not be reached (see
/// `sentinel_failure_text`).
pub fn sentinel_failure(host: &str, port: u16, timed_out: bool) -> (r: String)
    ensures
        r@ == sentinel_failure_text(host@, port, timed_out),
{
    let mut m = host.to_owned();
    push_str(&mut m, ":");
    push_u64(&mut m, port as u64);
    if timed_out {
        push_str(&mut m, " 连接超时");
    }
    m
}

/// The value of the last member named `key` of the members `ms`.
pub open spec fn members_lookup(ms: Seq<(Seq<char>, JsonView)>, key: Seq<char>) -> Option<JsonView>
    decreases ms.len(),
{
    if ms.len() == 0 {
        None
    } else if ms.last().0 == key {
        Some(ms.last().1)
    } else {
        members_lookup(ms.drop_last(), key)
    }
}

/// The member `key` of a JSON object (serde_json's `get`); none for other
/// values.
pub open spec fn json_member(v: JsonView, key: Seq<char>) -> Option<JsonView> {
    match v {
        JsonView::Object(ms) => members_lookup(ms, key),
        _ => None,
    }
}

/// The text of member `key`, the empty text where it is no string.
pub open spec fn json_str_field(v: JsonView, key: Seq<char>) -> Seq<char> {
    match json_member(v, key) {
        Some(JsonView::Str(s)) => s,
        _ => ""@,
    }
}

/// The integer of member `key`, 0 where it is no integer.
pub open spec fn json_int_field(v: JsonView, key: Seq<char>) -> i64 {
    match json_member(v, key) {
        Some(JsonView::Int(i)) => i,
        _ => 0,
    }
}

proof fn lemma_members_view(ms: Seq<(String, JsonValue)>)
    ensures
        json_members_view(ms).len() == ms.len(),
        forall|i: int| 0 <= i < ms.len() ==> #[trigger] json_members_view(ms)[i] == (ms[i].0@, json_view(ms[i].1)),
    decreases ms.len(),
{
    if ms.len() > 0 {
        lemma_members_view(ms.drop_last());
    }
}

fn member_of<'a>(v: &'a JsonValue, key: &str) -> (r: Option<&'a JsonValue>)
    ensures
        match r {
            Some(x) => json_member(json_view(*v), key@) == Some(json_view(*x)),
            None => json_member(json_view(*v), key@) is None,
        },
{
    match v {
        JsonValue::Object(ms) => {
            let ghost mv = json_members_view(ms@);
            proof {
                lemma_members_view(ms@);
            }
            let mut i: usize = ms.len();
            assert(mv.take(i as int) =~= mv);
            while i > 0
                invariant
                    i <= ms@.len(),
                    *v == JsonValue::Object(*ms),
                    mv == json_members_view(ms@),
                    mv.len() == ms@.len(),
                    forall|j: int| 0 <= j < ms@.len() ==> #[trigger] mv[j] == (ms@[j].0@, json_view(ms@[j].1)),
                    members_lookup(mv, key@) == members_lookup(mv.take(i as int), key@),
                decreases i,
            {
                proof {
                    let t = mv.take(i as int);
                    assert(t.last() == mv[i - 1]);
                    assert(t.drop_last() =~= mv.take(i - 1));
                }
                if str_eq(ms[i - 1].0.as_str(), key) {
                    proof {
                        assert(*v == JsonValue::Object(*ms));
                        assert(json_view(*v) == JsonView::Object(json_members_view(ms@)));
                        assert(mv[i - 1] == (ms@[i - 1].0@, json_view(ms@[i - 1].1)));
                        assert(members_lookup(mv.take(i as int), key@) == Some(mv[i - 1].1));
                    }
                    return Some(&ms[i - 1].1);
                }
                i = i - 1;
            }
            None
        },
        _ => None,
    }
}

fn str_field(v: &JsonValue, key: &str) -> (r: String)
    ensures
        r@ == json_str_field(json_view(*v), key@),
{
    match member_of(v, key) {
        Some(JsonValue::Str(s)) => copy_string(s),
        _ => "".to_owned(),
    }
}

fn int_field(v: &JsonValue, key: &str) -> (r: i64)
    ensures
        r == json_int_field(json_view(*v), key@),
{
    match member_of(v, key) {
        Some(JsonValue::Int(i)) => *i,
        _ => 0,
    }
}

/// A master that a sentinel lists: down when its flags say `s_down` or
/// `odown`.
pub open spec fn sentinel_master_of(m: JsonView) -> NodeView {
    let flags = json_str_field(m, "flags"@);
    (json_str_field(m, "ip"@), json_int_field(m, "port"@) as u16, "master"@, if contains_seq(
        flags,
        "s_down"@,
    ) || contains_seq(flags, "odown"@) {
        "down"@
    } else {
        "up"@
    }, Some(json_text(m)))
}

/// A replica that a sentinel lists: down when its flags say
/// `disconnected` or `s_down`.
pub open spec fn sentinel_replica_of(r: JsonView) -> NodeView {
    let flags = json_str_field(r, "flags"@);
    (json_str_field(r, "ip"@), json_int_field(r, "port"@) as u16, "replica"@, if contains_seq(
        flags,
        "disconnected"@,
    ) || contains_seq(flags, "s_down"@) {
        "down"@
    } else {
        "up"@
    }, Some(json_text(r)))
}

/// Another sentinel that a sentinel lists.
pub open spec fn sentinel_peer_of(s: JsonView) -> NodeView {
    (json_str_field(s, "ip"@), json_int_field(s, "port"@) as u16, "sentinel"@, "up"@, Some(json_text(s)))
}

/// The sentinel `host:port` that was asked, as a node.
pub open spec fn sentinel_self_of(host: Seq<char>, port: u16) -> NodeView {
    (host, port, "sentinel"@, "up"@, Some("当前连接的哨兵节点"@))
}

/// A listed sentinel is the one that was asked.
pub open spec fn is_self_sentinel(s: JsonView, host: Seq<char>, port: u16) -> bool {
    json_str_field(s, "ip"@) == host && json_int_field(s, "port"@) as u16 == port
}

fn role_node(v: &JsonValue, role: &str, down: bool) -> (r: NodeStatus)
    ensures
        r.host@ == json_str_field(json_view(*v), "ip"@),
        r.port == json_int_field(json_view(*v), "port"@) as u16,
        r.role@ == role@,
        r.status@ == if down {
            "down"@
        } else {
            "up"@
        },
        r.extra matches Some(e) && e@ == json_text(json_view(*v)),
{
    NodeStatus {
        host: str_field(v, "ip"),
        port: int_field(v, "port") as u16,
        role: role.to_owned(),
        status: if down {
            "down".to_owned()
        } else {
            "up".to_owned()
        },
        extra: Some(render_json(v)),
    }
}

/// The JSON forms of a list of values.
pub open spec fn json_views(vs: Seq<JsonValue>) -> Seq<JsonView> {
    vs.map_values(|v: JsonValue| json_view(v))
}

/// The nodes that one reachable sentinel `host:port` reports: the masters,
/// the replicas and the other sentinels it lists, in that order, and itself
/// last unless it lists itself among the sentinels.
pub open spec fn sentinel_nodes_of(
    host: Seq<char>,
    port: u16,
    masters: Seq<JsonView>,
    replicas: Seq<JsonView>,
    sentinels: Seq<JsonView>,
) -> Seq<NodeView> {
    let listed = masters.map_values(|m: JsonView| sentinel_master_of(m)) + replicas.map_values(
        |r: JsonView| sentinel_replica_of(r),
    ) + sentinels.map_values(|s: JsonView| sentinel_peer_of(s));
    if exists|i: int| 0 <= i < sentinels.len() && is_self_sentinel(#[trigger] sentinels[i], host, port) {
        listed
    } else {
        listed.push(sentinel_self_of(host, port))
    }
}

/// The replicas that a `SENTINEL REPLICAS` (or `SLAVES`) reply lists: the
/// JSON forms of its items when it is an array; none when it is not.
pub fn replicas_from_reply(v: &RespValue) -> (r: Option<Vec<JsonValue>>)
    ensures
        match *v {
            RespValue::Array(items) => r matches Some(js) && json_views(js@) == crate::redisx::json_items(items@),
            _ => r is None,
        },
{
    match v {
        RespValue::Array(items) => {
            let mut out: Vec<JsonValue> = Vec::new();
            let mut i: usize = 0;
            while i < items.len()
                invariant
                    i <= items@.len(),
                    json_views(out@) == crate::redisx::json_items(items@.take(i as int)),
                decreases items.len() - i,
            {
                let j = value_to_json(&items[i]);
                let ghost before = json_views(out@);
                out.push(j);
                proof {
                    assert(items@.take(i + 1).drop_last() =~= items@.take(i as int));
                    assert(json_views(out@) =~= before.push(json_view(j)));
                }
                i = i + 1;
            }
            assert(items@.take(items@.len() as int) =~= items@);
            Some(out)
        },
        _ => None,
    }
}

/// The nodes that the reachable sentinel `host:port` reports (see
/// `sentinel_nodes_of`); a list that could not be read counts as empty.
pub fn sentinel_nodes(
    host: &str,
    port: u16,
    masters: &Vec<JsonValue>,
    replicas: &Vec<JsonValue>,
    sentinels: &Vec<JsonValue>,
) -> (r: Vec<NodeStatus>)
    ensures
        nodes_view(r@) == sentinel_nodes_of(
            host@,
            port,
            json_views(masters@),
            json_views(replicas@),
            json_views(sentinels@),
        ),
{
    let ghost mv = json_views(masters@);
    let ghost rv = json_views(replicas@);
    let ghost sv = json_views(sentinels@);
    let ghost ml = mv.map_values(|m: JsonView| sentinel_master_of(m));
    let ghost rl = rv.map_values(|r: JsonView| sentinel_replica_of(r));
    let ghost sl = sv.map_values(|s: JsonView| sentinel_peer_of(s));
    let mut nodes: Vec<NodeStatus> = Vec::new();
    let mut i: usize = 0;
    while i < masters.len()
        invariant
            i <= masters@.len(),
            mv == json_views(masters@),
            ml == mv.map_values(|m: JsonView| sentinel_master_of(m)),
            nodes_view(nodes@) == ml.take(i as int),
        decreases masters.len() - i,
    {
        let m = &masters[i];
        let flags = chars_of(str_field(m, "flags").as_str());
        let down = contains_str(flags.as_slice(), "s_down") || contains_str(flags.as_slice(), "odown");
        let ghost before = nodes_view(nodes@);
        let n = role_node(m, "master", down);
        nodes.push(n);
        assert(nodes_view(nodes@) =~= before.push(node_view(n)));
        assert(ml.take(i + 1) =~= ml.take(i as int).push(ml[i as int]));
        i = i + 1;
    }
    assert(ml.take(ml.len() as int) =~= ml);
    let mut i: usize = 0;
    while i < replicas.len()
        invariant
            i <= replicas@.len(),
            rv == json_views(replicas@),
            rl == rv.map_values(|r: JsonView| sentinel_replica_of(r)),
            nodes_view(nodes@) == ml + rl.take(i as int),
        decreases replicas.len() - i,
    {
        let r = &replicas[i];
        let flags = chars_of(str_field(r, "flags").as_str());
        let down = contains_str(flags.as_slice(), "disconnected") || contains_str(flags.as_slice(), "s_down");
        let ghost before = nodes_view(nodes@);
        let n = role_node(r, "replica", false);
        let n = NodeStatus {
            status: if down {
                "down".to_owned()
            } else {
                "up".to_owned()
            },
            ..n
        };
        nodes.push(n);
        assert(nodes_view(nodes@) =~= before.push(node_view(n)));
        assert(rl.take(i + 1) =~= rl.take(i as int).push(rl[i as int]));
        i = i + 1;
    }
    assert(rl.take(rl.len() as int) =~= rl);
    let mut has_self = false;
    let mut i: usize = 0;
    while i < sentinels.len()
        invariant
            i <= sentinels@.len(),
            sv == json_views(sentinels@),
            sl == sv.map_values(|s: JsonView| sentinel_peer_of(s)),
            nodes_view(nodes@) == ml + rl + sl.take(i as int),
            has_self == exists|k: int| 0 <= k < i && is_self_sentinel(#[trigger] sv[k], host@, port),
        decreases sentinels.len() - i,
    {
        let s = &sentinels[i];
        let shost = str_field(s, "ip");
        let sport = int_field(s, "port");
        if str_eq(shost.as_str(), host) && sport as u16 == port {
            has_self = true;
        }
        let ghost before = nodes_view(nodes@);
        let n = role_node(s, "sentinel", false);
        nodes.push(n);
        assert(nodes_view(nodes@) =~= before.push(node_view(n)));
        assert(sl.take(i + 1) =~= sl.take(i as int).push(sl[i as int]));
        proof {
            assert(sv[i as int] == json_view(sentinels@[i as int]));
            if has_self {
                if !is_self_sentinel(sv[i as int], host@, port) {
                    let k = choose|k: int| 0 <= k < i && is_self_sentinel(#[trigger] sv[k], host@, port);
                    assert(0 <= k < i + 1);
                }
            } else {
                assert forall|k: int| 0 <= k < i + 1 implies !is_self_sentinel(#[trigger] sv[k], host@, port) by {
                    if k < i {
                    }
                }
            }
        }
        i = i + 1;
    }
    assert(sl.take(sl.len() as int) =~= sl);
    if !has_self {
        let ghost before = nodes_view(nodes@);
        let n = NodeStatus {
            host: host.to_owned(),
            port,
            role: "sentinel".to_owned(),
            status: "up".to_owned(),
            extra: Some("当前连接的哨兵节点".to_owned()),
        };
        nodes.push(n);
        assert(nodes_view(nodes@) =~= before.push(node_view(n)));
    }
    nodes
}

/// The outcome of asking the sentinels in turn: the nodes of the first that
/// answered; where none gave a node, an error naming the last failure (or,
/// with none recorded, saying that the service name may not exist).
pub fn sentinel_topology(nodes: Vec<NodeStatus>, last_failure: Option<String>) -> (r: Result<
    Vec<NodeStatus>,
    AppError,
>)
    ensures
        nodes@.len() > 0 ==> (r matches Ok(ns) && ns@ == nodes@),
        nodes@.len() == 0 ==> match last_failure {
            Some(f) => r matches Err(e) && e.message@ == "无法获取哨兵信息: "@ + f@,
            None => r matches Err(e) && e.message@ == "无法获取哨兵信息（服务名可能不存在）"@,
        },
{
    if nodes.len() == 0 {
        match last_failure {
            Some(f) => {
                let mut m = "无法获取哨兵信息: ".to_owned();
                push_str(&mut m, f.as_str());
                Err(AppError::new(m))
            },
            None => Err(AppError::from_str("无法获取哨兵信息（服务名可能不存在）")),
        }
    } else {
        Ok(nodes)
    }
}

} // verus!
