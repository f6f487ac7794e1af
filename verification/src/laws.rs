//! Properties of the library as a whole, each proved over the meanings
//! that the functions' contracts give.
use vstd::prelude::*;

use crate::commands::{generated_id, import_plan, same_address};
use crate::memcachedx::{
    after_class, class_match, class_scan, class_start, expiry_of, glob, lemma_class_scan_bounds,
    raw_request_of, seconds_left, slabs_of,
};
use crate::model::{display_url_of, encoded_value_of, ConnConfig, ConnMode, ConnStatus, NodeSpec};
use crate::redisx::{
    cluster_cursor_of, filled, status_of_code, url_of, STATUS_CONNECTED, STATUS_CONNECTING,
    STATUS_ERROR,
};
use crate::text::{contains_seq, decimal, has_prefix, has_suffix, occurs_at, split_char};
use crate::tray::{connect_prefix, strip_all_prefix};
use vstd::utf8::{decode_utf8_encode_utf8, encode_utf8};

verus! {

/// Binary safety: the text form of bytes that are UTF-8 encodes back to
/// the same bytes (the Base64 form decodes back to them, as
/// `EncodedValue::from_bytes` states).
pub proof fn law_utf8_text_form_gives_bytes_back(b: Seq<u8>)
    ensures
        encoded_value_of(b).0 == "utf8"@ ==> encode_utf8(encoded_value_of(b).1) == b,
{
    if vstd::utf8::valid_utf8(b) {
        decode_utf8_encode_utf8(b);
    } else {
        reveal_strlit("utf8");
        reveal_strlit("base64");
        assert("base64"@[0] != "utf8"@[0]);
    }
}

/// A cluster URL does not depend on the database: clusters have none.
pub proof fn law_cluster_url_ignores_database(c: ConnConfig, db: Option<i64>)
    requires
        c.mode == ConnMode::Cluster,
    ensures
        url_of(c) == url_of(ConnConfig { database: db, ..c }),
{
}

/// A master-slave URL does not depend on the replicas: they get pools of
/// their own.
pub proof fn law_master_slave_url_ignores_replicas(c: ConnConfig, nodes: Vec<NodeSpec>)
    requires
        c.mode == ConnMode::MasterSlave,
    ensures
        url_of(c) == url_of(ConnConfig { nodes, ..c }),
{
}

/// A sentinel connection without a master name has no URL.
pub proof fn law_sentinel_needs_service_name(c: ConnConfig)
    requires
        c.mode == ConnMode::Sentinel,
        !filled(c.service_name),
    ensures
        url_of(c) is Err,
{
}

/// Every connection that is not a sentinel one has a URL.
pub proof fn law_only_sentinel_urls_fail(c: ConnConfig)
    requires
        c.mode != ConnMode::Sentinel,
    ensures
        url_of(c) is Ok,
{
}

/// The URL shown for a connection never depends on its user name or
/// password, only on whether one is set.
pub proof fn law_display_url_hides_credentials(
    c: ConnConfig,
    username: Option<String>,
    password: Option<String>,
)
    requires
        (c.username is Some || c.password is Some) == (username is Some || password is Some),
    ensures
        display_url_of(c) == display_url_of(ConnConfig { username, password, ..c }),
{
}

/// The stored status codes read back as the states they were written for.
pub proof fn law_status_codes_round_trip()
    ensures
        status_of_code(STATUS_CONNECTING) == ConnStatus::Connecting,
        status_of_code(STATUS_CONNECTED) == ConnStatus::Connected,
        status_of_code(STATUS_ERROR) == ConnStatus::Error,
        status_of_code(0) == ConnStatus::Disconnected,
{
}

/// The glob `*` matches every text.
pub proof fn law_star_matches_everything(t: Seq<char>)
    ensures
        glob("*"@, t),
    decreases t.len(),
{
    reveal_strlit("*");
    let p = "*"@;
    assert(p.len() == 1);
    assert(p[0] == '*');
    assert(p.skip(1) =~= Seq::<char>::empty());
    if t.len() > 0 {
        law_star_matches_everything(t.skip(1));
        assert(glob(p, t.skip(1)));
    } else {
        assert(glob(p.skip(1), t));
    }
}

/// A pattern without `*`, `?` and `[` matches exactly itself.
pub proof fn law_literal_pattern_matches_itself_only(p: Seq<char>, t: Seq<char>)
    requires
        forall|i: int| 0 <= i < p.len() ==> p[i] != '*' && p[i] != '?' && p[i] != '[',
    ensures
        glob(p, t) <==> p == t,
    decreases p.len(),
{
    if p.len() > 0 && t.len() > 0 {
        law_literal_pattern_matches_itself_only(p.skip(1), t.skip(1));
        if p[0] == t[0] && p.skip(1) == t.skip(1) {
            assert forall|i: int| 0 <= i < p.len() implies p[i] == t[i] by {
                if i > 0 {
                    assert(p[i] == p.skip(1)[i - 1]);
                    assert(t[i] == t.skip(1)[i - 1]);
                }
            }
            assert(p =~= t);
        }
        if p == t {
            assert(p.skip(1) =~= t.skip(1));
        }
    } else if p.len() == 0 && t.len() > 0 {
        assert(p != t);
    } else if p.len() > 0 && t.len() == 0 {
        assert(p != t);
    } else {
        assert(p =~= t);
    }
}

/// A time to live written to Memcached reads back: a positive one (the
/// clock not having moved) as itself, a negative one as "never expires".
pub proof fn law_memcached_ttl_reads_back(ttl: i64, now: i64)
    requires
        now > 0,
        now + ttl <= i64::MAX,
    ensures
        ttl >= 0 ==> seconds_left(expiry_of(ttl, now) as i64, now) == ttl,
        ttl < 0 ==> seconds_left(expiry_of(ttl, now) as i64, now) == -1,
{
}

/// A storage command that the console completes announces exactly the
/// length of the data block it sends.
pub proof fn law_raw_storage_byte_count(cmd: Seq<char>)
    ensures
        raw_request_of(cmd).1 matches Some(d) ==> has_suffix(raw_request_of(cmd).0, decimal(d.len())),
{
    match raw_request_of(cmd).1 {
        Some(d) => {
            let line = raw_request_of(cmd).0;
            let n = decimal(d.len());
            assert(line.subrange(line.len() - n.len(), line.len() as int) =~= n);
        },
        None => {},
    }
}

/// Entry `k` of an import plan takes a connection of the incoming list
/// whose server is neither saved nor taken by an earlier entry.
pub open spec fn takes_new_server(
    existing: Seq<ConnConfig>,
    incoming: Seq<ConnConfig>,
    plan: Seq<(int, Seq<char>)>,
    k: int,
) -> bool {
    let c = incoming[plan[k].0];
    &&& 0 <= plan[k].0 < incoming.len()
    &&& forall|i: int| 0 <= i < existing.len() ==> !same_address(#[trigger] existing[i], c)
    &&& forall|j: int| 0 <= j < k ==> !same_address(incoming[(#[trigger] plan[j]).0], c)
}

/// An import never takes a connection to a server that is saved already
/// or taken earlier in the same import; it takes at most all of them.
pub proof fn law_import_skips_known_servers(
    existing: Seq<ConnConfig>,
    incoming: Seq<ConnConfig>,
    millis: u64,
)
    ensures
        import_plan(existing, incoming, millis).len() <= incoming.len(),
        forall|k: int|
            0 <= k < import_plan(existing, incoming, millis).len() ==> #[trigger] takes_new_server(
                existing,
                incoming,
                import_plan(existing, incoming, millis),
                k,
            ),
    decreases incoming.len(),
{
    if incoming.len() > 0 {
        let pre = incoming.drop_last();
        law_import_skips_known_servers(existing, pre, millis);
        let prev = import_plan(existing, pre, millis);
        let plan = import_plan(existing, incoming, millis);
        assert forall|k: int| 0 <= k < plan.len() implies #[trigger] takes_new_server(
            existing,
            incoming,
            plan,
            k,
        ) by {
            if k < prev.len() {
                assert(takes_new_server(existing, pre, prev, k));
                assert(plan[k] == prev[k]);
                assert(pre[prev[k].0] == incoming[prev[k].0]);
                assert forall|j: int| 0 <= j < k implies plan[j] == prev[j] by {}
                assert forall|j: int| 0 <= j < k implies pre[(#[trigger] prev[j]).0] == incoming[prev[j].0] by {
                    assert(takes_new_server(existing, pre, prev, j));
                }
            } else {
                let c = incoming.last();
                assert(plan == prev.push(plan[k]));
                assert(plan[k].0 == incoming.len() - 1);
                assert forall|j: int| 0 <= j < k implies plan[j] == prev[j] by {}
                assert forall|i: int| 0 <= i < existing.len() implies !same_address(#[trigger] existing[i], c) by {
                    if same_address(existing[i], c) {
                        assert(exists|a: int| 0 <= a < existing.len() && same_address(#[trigger] existing[a], c));
                    }
                }
                assert forall|j: int| 0 <= j < k implies !same_address(incoming[(#[trigger] plan[j]).0], c) by {
                    if same_address(incoming[plan[j].0], c) {
                        assert(plan[j] == prev[j]);
                        assert(exists|b: int| 0 <= b < prev.len() && same_address(incoming[(#[trigger] prev[b]).0], c));
                    }
                }
            }
        }
    }
}

/// A cluster scan is over (cursor `0`) when every node is; otherwise it goes
/// on from the cursor of one of the nodes.
pub proof fn law_cluster_cursor(cs: Seq<Seq<char>>)
    ensures
        (forall|i: int| 0 <= i < cs.len() ==> cs[i] == "0"@) ==> cluster_cursor_of(cs) == "0"@,
        cluster_cursor_of(cs) == "0"@ || exists|i: int| 0 <= i < cs.len() && cs[i] == cluster_cursor_of(cs),
    decreases cs.len(),
{
    if cs.len() > 0 {
        law_cluster_cursor(cs.drop_last());
        let before = cluster_cursor_of(cs.drop_last());
        if cluster_cursor_of(cs) != "0"@ {
            if cluster_cursor_of(cs) == cs.last() {
                assert(cs[cs.len() - 1] == cluster_cursor_of(cs));
            } else {
                assert(cluster_cursor_of(cs) == before);
                let i = choose|i: int| 0 <= i < cs.drop_last().len() && cs.drop_last()[i] == before;
                assert(cs[i] == cluster_cursor_of(cs));
            }
        }
        if forall|i: int| 0 <= i < cs.len() ==> cs[i] == "0"@ {
            assert forall|i: int| 0 <= i < cs.drop_last().len() implies cs.drop_last()[i] == "0"@ by {
                assert(cs[i] == "0"@);
            }
            assert(cs[cs.len() - 1] == "0"@);
        }
    }
}

/// The quick-connect item of a connection leads back to that connection,
/// unless its id itself starts with the item prefix.
pub proof fn law_tray_item_round_trip(id: Seq<char>)
    requires
        !has_prefix(id, connect_prefix()),
    ensures
        strip_all_prefix(connect_prefix() + id, connect_prefix()) == id,
{
    reveal_strlit("tray-connect:");
    let p = connect_prefix();
    let s = p + id;
    assert(p.len() == 13);
    assert(s.take(p.len() as int) =~= p);
    assert(has_prefix(s, p));
    assert(s.skip(p.len() as int) =~= id);
    assert(strip_all_prefix(id, p) == id);
}

/// The slabs read from a `stats items` listing are each listed once.
pub proof fn law_slabs_listed_once(lines: Seq<Seq<char>>)
    ensures
        forall|i: int, j: int|
            0 <= i < j < slabs_of(lines).len() ==> slabs_of(lines)[i] != slabs_of(lines)[j],
    decreases lines.len(),
{
    if lines.len() > 0 {
        law_slabs_listed_once(lines.drop_last());
        let before = slabs_of(lines.drop_last());
        let all = slabs_of(lines);
        assert forall|i: int, j: int| 0 <= i < j < all.len() implies all[i] != all[j] by {
            if j == before.len() {
                assert(all == before.push(all[j]));
                assert(!before.contains(all[j]));
                assert(before[i] == all[i]);
            } else {
                assert(all[i] == before[i] && all[j] == before[j]);
            }
        }
    }
}

/// A pattern without `*`, `?` and `[`.
pub open spec fn plain_pattern(p: Seq<char>) -> bool {
    forall|i: int| 0 <= i < p.len() ==> p[i] != '*' && p[i] != '?' && p[i] != '['
}

proof fn lemma_star_prefix(q: Seq<char>, t: Seq<char>)
    ensures
        glob(seq!['*'] + q, t) <==> exists|i: int| 0 <= i <= t.len() && glob(q, #[trigger] t.skip(i)),
    decreases t.len(),
{
    let p = seq!['*'] + q;
    assert(p[0] == '*');
    assert(p.skip(1) =~= q);
    assert(t.skip(0) =~= t);
    if t.len() > 0 {
        lemma_star_prefix(q, t.skip(1));
        assert forall|i: int| 0 <= i <= t.len() - 1 implies #[trigger] t.skip(1).skip(i) == t.skip(i + 1) by {
            assert(t.skip(1).skip(i) =~= t.skip(i + 1));
        }
        if glob(p, t) {
            if glob(q, t) {
                assert(glob(q, t.skip(0)));
            } else {
                assert(glob(p, t.skip(1)));
                let i = choose|i: int| 0 <= i <= t.skip(1).len() && glob(q, #[trigger] t.skip(1).skip(i));
                assert(glob(q, t.skip(i + 1)));
            }
        }
        if exists|i: int| 0 <= i <= t.len() && glob(q, #[trigger] t.skip(i)) {
            let i = choose|i: int| 0 <= i <= t.len() && glob(q, #[trigger] t.skip(i));
            if i > 0 {
                assert(glob(q, t.skip(1).skip(i - 1)));
                assert(glob(p, t.skip(1)));
            }
        }
    } else {
        if exists|i: int| 0 <= i <= t.len() && glob(q, #[trigger] t.skip(i)) {
            let i = choose|i: int| 0 <= i <= t.len() && glob(q, #[trigger] t.skip(i));
            assert(i == 0);
        }
    }
}

proof fn lemma_plain_then_star(s: Seq<char>, u: Seq<char>)
    requires
        plain_pattern(s),
    ensures
        glob(s + seq!['*'], u) <==> has_prefix(u, s),
    decreases s.len(),
{
    let p = s + seq!['*'];
    if s.len() == 0 {
        assert(p =~= "*"@) by {
            reveal_strlit("*");
        }
        law_star_matches_everything(u);
        assert(u.take(0) =~= s);
    } else {
        assert(p[0] == s[0]);
        assert(p.skip(1) =~= s.skip(1) + seq!['*']);
        if u.len() > 0 {
            lemma_plain_then_star(s.skip(1), u.skip(1));
            if has_prefix(u, s) {
                assert(u.skip(1).take(s.len() - 1) =~= u.take(s.len() as int).skip(1));
                assert(s.skip(1) =~= s.skip(1));
                assert(u[0] == u.take(s.len() as int)[0]);
            }
            if has_prefix(u.skip(1), s.skip(1)) && u[0] == s[0] {
                assert(u.take(s.len() as int) =~= s) by {
                    assert forall|k: int| 0 <= k < s.len() implies u.take(s.len() as int)[k] == s[k] by {
                        if k > 0 {
                            assert(u.skip(1).take(s.len() - 1)[k - 1] == s.skip(1)[k - 1]);
                        }
                    }
                }
            }
        }
    }
}

/// Searching with `*text*` finds exactly the keys that hold `text` (a text
/// without `*`, `?` and `[`): the key list's fuzzy search.
pub proof fn law_substring_search(s: Seq<char>, t: Seq<char>)
    requires
        plain_pattern(s),
    ensures
        glob(seq!['*'] + s + seq!['*'], t) <==> contains_seq(t, s),
{
    let q = s + seq!['*'];
    assert(seq!['*'] + s + seq!['*'] =~= seq!['*'] + q);
    lemma_star_prefix(q, t);
    if glob(seq!['*'] + q, t) {
        let i = choose|i: int| 0 <= i <= t.len() && glob(q, #[trigger] t.skip(i));
        lemma_plain_then_star(s, t.skip(i));
        assert(t.subrange(i, i + s.len()) =~= t.skip(i).take(s.len() as int));
        assert(occurs_at(t, s, i));
    }
    if contains_seq(t, s) {
        let i = choose|i: int| occurs_at(t, s, i);
        lemma_plain_then_star(s, t.skip(i));
        assert(t.subrange(i, i + s.len()) =~= t.skip(i).take(s.len() as int));
        assert(glob(q, t.skip(i)));
    }
}

/// Generated ids of different places differ.
proof fn lemma_generated_id_injective(millis: u64, a: nat, b: nat)
    requires
        generated_id(millis, a) == generated_id(millis, b),
    ensures
        a == b,
{
    let pre = "imp-"@ + decimal(millis as nat) + "-"@;
    assert(generated_id(millis, a) == pre + decimal(a));
    assert(generated_id(millis, b) == pre + decimal(b));
    assert((pre + decimal(a)).skip(pre.len() as int) =~= decimal(a));
    assert((pre + decimal(b)).skip(pre.len() as int) =~= decimal(b));
    crate::redisx::server::lemma_decimal_injective(a, b);
}

/// Generated ids start with `imp-`.
proof fn lemma_generated_id_prefix(millis: u64, n: nat)
    ensures
        has_prefix(generated_id(millis, n), "imp-"@),
{
    reveal_strlit("imp-");
    let g = generated_id(millis, n);
    assert(g == "imp-"@ + (decimal(millis as nat) + "-"@ + decimal(n)));
    assert(g.take(4) =~= "imp-"@);
}

/// The ids of a list of connections.
pub open spec fn ids_of(cs: Seq<ConnConfig>) -> Seq<Seq<char>> {
    cs.map_values(|c: ConnConfig| c.id@)
}

/// No two entries of `ids` are equal.
pub open spec fn distinct_ids(ids: Seq<Seq<char>>) -> bool {
    forall|i: int, j: int| 0 <= i < j < ids.len() ==> ids[i] != ids[j]
}

/// Each id of an import plan is the incoming connection's own id or the
/// id generated for its place.
proof fn lemma_plan_ids(existing: Seq<ConnConfig>, incoming: Seq<ConnConfig>, millis: u64)
    ensures
        forall|k: int|
            0 <= k < import_plan(existing, incoming, millis).len() ==> {
                let e = #[trigger] import_plan(existing, incoming, millis)[k];
                (0 <= e.0 < incoming.len() && e.1 == incoming[e.0].id@ && e.1.len() > 0) || e.1
                    == generated_id(millis, k as nat)
            },
    decreases incoming.len(),
{
    if incoming.len() > 0 {
        let pre = incoming.drop_last();
        lemma_plan_ids(existing, pre, millis);
        law_import_skips_known_servers(existing, pre, millis);
        let prev = import_plan(existing, pre, millis);
        let plan = import_plan(existing, incoming, millis);
        assert forall|k: int| 0 <= k < plan.len() implies {
            let e = #[trigger] plan[k];
            (0 <= e.0 < incoming.len() && e.1 == incoming[e.0].id@ && e.1.len() > 0) || e.1
                == generated_id(millis, k as nat)
        } by {
            if k < prev.len() {
                assert(plan[k] == prev[k]);
                assert(takes_new_server(existing, pre, prev, k));
                assert(pre[prev[k].0] == incoming[prev[k].0]);
            }
        }
    }
}

/// With the saved ids distinct and no id, saved or incoming, starting with
/// `imp-`, the ids after an import are distinct: an incoming connection
/// keeps its id when it is set and not taken, and gets `imp-<millis>-<n>`
/// (`n` its place among the taken ones) otherwise.
pub proof fn law_import_ids_distinct(existing: Seq<ConnConfig>, incoming: Seq<ConnConfig>, millis: u64)
    requires
        distinct_ids(ids_of(existing)),
        forall|i: int| 0 <= i < existing.len() ==> !has_prefix(#[trigger] existing[i].id@, "imp-"@),
        forall|i: int| 0 <= i < incoming.len() ==> !has_prefix(#[trigger] incoming[i].id@, "imp-"@),
    ensures
        distinct_ids(
            ids_of(existing) + import_plan(existing, incoming, millis).map_values(
                |e: (int, Seq<char>)| e.1,
            ),
        ),
    decreases incoming.len(),
{
    let plan = import_plan(existing, incoming, millis);
    let all = ids_of(existing) + plan.map_values(|e: (int, Seq<char>)| e.1);
    if incoming.len() > 0 {
        let pre = incoming.drop_last();
        law_import_ids_distinct(existing, pre, millis);
        lemma_plan_ids(existing, pre, millis);
        let prev = import_plan(existing, pre, millis);
        let before = ids_of(existing) + prev.map_values(|e: (int, Seq<char>)| e.1);
        if plan.len() > prev.len() {
            let c = incoming.last();
            let n = prev.len();
            let id = plan[n as int].1;
            assert(plan == prev.push(plan[n as int]));
            assert(all =~= before.push(id));
            let used = (exists|i: int| 0 <= i < existing.len() && (#[trigger] existing[i]).id@ == c.id@)
                || (exists|k: int| 0 <= k < prev.len() && (#[trigger] prev[k]).1 == c.id@);
            assert(id == if c.id@.len() == 0 || used {
                generated_id(millis, n)
            } else {
                c.id@
            });
            assert forall|i: int| 0 <= i < before.len() implies before[i] != id by {
                if i < existing.len() {
                    assert(before[i] == existing[i].id@);
                    if !(c.id@.len() == 0 || used) {
                        assert(existing[i].id@ != c.id@);
                    } else {
                        lemma_generated_id_prefix(millis, n);
                        assert(!has_prefix(existing[i].id@, "imp-"@));
                    }
                } else {
                    let k = i - existing.len();
                    assert(before[i] == prev[k].1);
                    if id == c.id@ && !(c.id@.len() == 0 || used) {
                        assert(prev[k].1 != c.id@);
                    } else {
                        assert(id == generated_id(millis, n));
                        lemma_generated_id_prefix(millis, n);
                        let e = prev[k];
                        if e.1 == generated_id(millis, k as nat) {
                            if e.1 == id {
                                lemma_generated_id_injective(millis, k as nat, n);
                            }
                        } else {
                            assert(0 <= e.0 < pre.len());
                            assert(!has_prefix(incoming[e.0].id@, "imp-"@));
                        }
                    }
                }
            }
        } else {
            assert(all =~= before);
        }
    } else {
        assert(all =~= ids_of(existing));
    }
}

/// Where the reading of the class that `p` starts with stops (the same for
/// every character read, see `lemma_class_scan_end`).
pub open spec fn class_end(p: Seq<char>) -> int {
    class_scan(p, 'a', class_start(p), true, '\0', false).1
}

/// Every `[` class of the pattern `p` (read as `glob` reads it) is closed
/// by its `]`.
pub open spec fn no_open_class(p: Seq<char>) -> bool
    decreases p.len(),
{
    if p.len() == 0 {
        true
    } else if p[0] == '[' {
        class_end(p) < p.len() && {
            proof {
                lemma_class_scan_bounds(p, 'a', class_start(p), true, '\0', false);
            }
            no_open_class(after_class(p, class_end(p)))
        }
    } else {
        no_open_class(p.skip(1))
    }
}

/// Where a class reading stops does not depend on the character read.
proof fn lemma_class_scan_end(
    p: Seq<char>,
    c1: char,
    c2: char,
    i: int,
    first: bool,
    l1: char,
    l2: char,
    m1: bool,
    m2: bool,
)
    ensures
        class_scan(p, c1, i, first, l1, m1).1 == class_scan(p, c2, i, first, l2, m2).1,
    decreases p.len() - i,
{
    if i < 0 || i >= p.len() || p[i] == ']' {
    } else if !first && p[i] == '-' && i + 1 < p.len() && p[i + 1] != ']' {
        lemma_class_scan_end(
            p,
            c1,
            c2,
            i + 2,
            false,
            l1,
            l2,
            m1 || (l1 <= c1 && c1 <= p[i + 1]),
            m2 || (l2 <= c2 && c2 <= p[i + 1]),
        );
    } else {
        lemma_class_scan_end(p, c1, c2, i + 1, false, p[i], p[i], m1 || c1 == p[i], m2 || c2 == p[i]);
    }
}

/// A class that closes within `p` reads the same with more pattern after.
proof fn lemma_class_scan_extend(
    p: Seq<char>,
    s: Seq<char>,
    c: char,
    i: int,
    first: bool,
    last: char,
    matched: bool,
)
    requires
        0 <= i,
        class_scan(p, c, i, first, last, matched).1 < p.len(),
    ensures
        class_scan(p + s, c, i, first, last, matched) == class_scan(p, c, i, first, last, matched),
    decreases p.len() - i,
{
    let q = p + s;
    assert(i < p.len());
    assert(q[i] == p[i]);
    if p[i] == ']' {
    } else if !first && p[i] == '-' && i + 1 < p.len() && p[i + 1] != ']' {
        assert(q[i + 1] == p[i + 1]);
        lemma_class_scan_extend(p, s, c, i + 2, false, last, matched || (last <= c && c <= p[i + 1]));
    } else {
        if i + 1 < p.len() {
            assert(q[i + 1] == p[i + 1]);
            lemma_class_scan_extend(p, s, c, i + 1, false, p[i], matched || c == p[i]);
        } else {
            assert(class_scan(p, c, i + 1, false, p[i], matched || c == p[i]).1 == i + 1);
        }
    }
}

proof fn lemma_star_suffix(p: Seq<char>, t: Seq<char>, x: Seq<char>)
    requires
        glob(p, t),
        no_open_class(p),
    ensures
        glob(p + seq!['*'], t + x),
    decreases p.len(), t.len(),
{
    let q = p + seq!['*'];
    let tx = t + x;
    if p.len() == 0 {
        assert(q =~= "*"@) by {
            reveal_strlit("*");
        }
        assert(tx =~= x);
        law_star_matches_everything(x);
    } else {
        assert(q[0] == p[0]);
        if p[0] == '*' {
            assert(q.skip(1) =~= p.skip(1) + seq!['*']);
            if glob(p.skip(1), t) {
                lemma_star_suffix(p.skip(1), t, x);
            } else {
                lemma_star_suffix(p, t.skip(1), x);
                assert(tx.skip(1) =~= t.skip(1) + x);
            }
        } else if p[0] == '?' {
            assert(q.skip(1) =~= p.skip(1) + seq!['*']);
            assert(tx.skip(1) =~= t.skip(1) + x);
            lemma_star_suffix(p.skip(1), t.skip(1), x);
        } else if p[0] == '[' {
            let c = t[0];
            let (m, end) = class_match(p, c);
            lemma_class_scan_bounds(p, c, class_start(p), true, '\0', false);
            lemma_class_scan_end(p, c, 'a', class_start(p), true, '\0', '\0', false, false);
            assert(end == class_end(p));
            assert(class_start(q) == class_start(p));
            lemma_class_scan_extend(p, seq!['*'], c, class_start(p), true, '\0', false);
            assert(class_match(q, c) == class_match(p, c));
            let rest = after_class(p, end);
            assert(after_class(q, end) =~= rest + seq!['*']);
            assert(tx.skip(1) =~= t.skip(1) + x);
            assert(tx[0] == c);
            lemma_star_suffix(rest, t.skip(1), x);
        } else {
            assert(q.skip(1) =~= p.skip(1) + seq!['*']);
            assert(tx.skip(1) =~= t.skip(1) + x);
            assert(tx[0] == t[0]);
            lemma_star_suffix(p.skip(1), t.skip(1), x);
        }
    }
}

/// A pattern that matches a text still matches it with a `*` put before
/// the pattern and anything before the text; and, where every `[` class of
/// the pattern is closed, with a `*` put after the pattern and anything
/// after the text.
pub proof fn law_star_keeps_match(p: Seq<char>, t: Seq<char>, x: Seq<char>)
    requires
        glob(p, t),
    ensures
        glob(seq!['*'] + p, x + t),
        no_open_class(p) ==> glob(p + seq!['*'], t + x),
{
    lemma_star_prefix(p, x + t);
    assert((x + t).skip(x.len() as int) =~= t);
    assert(glob(p, (x + t).skip(x.len() as int)));
    if no_open_class(p) {
        lemma_star_suffix(p, t, x);
    }
}

/// The connection registry gives back what was last kept under an id:
/// after a connect under `id` a lookup of `id` finds the new connection and
/// every other id is as it was; after a disconnect nothing is kept under
/// `id` and every other id is as it was.
pub proof fn law_registry_read_after_write<T>(
    before: Map<Seq<char>, T>,
    id: Seq<char>,
    value: T,
    other: Seq<char>,
)
    requires
        other != id,
    ensures
        before.insert(id, value).contains_key(id),
        before.insert(id, value)[id] == value,
        before.insert(id, value).contains_key(other) == before.contains_key(other),
        before.contains_key(other) ==> before.insert(id, value)[other] == before[other],
        !before.remove(id).contains_key(id),
        before.remove(id).contains_key(other) == before.contains_key(other),
        before.contains_key(other) ==> before.remove(id)[other] == before[other],
{
}

/// An import skips an incoming connection only for a server that is saved
/// already or taken earlier in the same import, that is one with the same
/// host (ASCII letters in any case) and the same port: a connection whose
/// host and port together match no saved connection and no earlier
/// incoming one is always taken, as the next entry of the plan.
pub proof fn law_import_takes_unknown_address(
    existing: Seq<ConnConfig>,
    incoming: Seq<ConnConfig>,
    millis: u64,
)
    requires
        incoming.len() > 0,
        forall|i: int|
            0 <= i < existing.len() ==> (#[trigger] existing[i]).port != incoming.last().port
                || !crate::text::eq_ignore_ascii_case(existing[i].host@, incoming.last().host@),
        forall|j: int|
            0 <= j < incoming.len() - 1 ==> (#[trigger] incoming[j]).port != incoming.last().port
                || !crate::text::eq_ignore_ascii_case(incoming[j].host@, incoming.last().host@),
    ensures
        import_plan(existing, incoming, millis).len() == import_plan(
            existing,
            incoming.drop_last(),
            millis,
        ).len() + 1,
        import_plan(existing, incoming, millis).last().0 == incoming.len() - 1,
{
    let pre = incoming.drop_last();
    let c = incoming.last();
    law_import_skips_known_servers(existing, pre, millis);
    let prev = import_plan(existing, pre, millis);
    assert(!(exists|i: int| 0 <= i < existing.len() && same_address(#[trigger] existing[i], c)));
    assert forall|k: int| 0 <= k < prev.len() implies !same_address(incoming[(#[trigger] prev[k]).0], c) by {
        assert(takes_new_server(existing, pre, prev, k));
        assert(incoming[prev[k].0] == pre[prev[k].0]);
    }
}

/// Every storage command (`set`, `add`, `replace`, `append`, `prepend`, in
/// any case) with a key and a value is completed alike: the request line
/// starts with the verb in lower case and the key, and a data block is sent
/// after it.
pub proof fn law_storage_commands_get_data_block(cmd: Seq<char>)
    requires
        crate::text::words(cmd).len() >= 3,
        ({
            let v = crate::text::ascii_lower_seq(crate::text::words(cmd)[0]);
            v == "set"@ || v == "add"@ || v == "replace"@ || v == "append"@ || v == "prepend"@
        }),
    ensures
        raw_request_of(cmd).1 is Some,
        has_prefix(
            raw_request_of(cmd).0,
            crate::text::ascii_lower_seq(crate::text::words(cmd)[0]) + " "@ + crate::text::words(
                cmd,
            )[1] + " "@,
        ),
{
    reveal_strlit(" ");
    reveal_strlit(" 0 ");
    let toks = crate::text::words(cmd);
    let head = crate::text::ascii_lower_seq(toks[0]) + " "@ + toks[1] + " "@;
    let line = raw_request_of(cmd).0;
    assert(line.take(head.len() as int) =~= head);
}

/// A storage command written short, as `<verb> <key> <value>`, is sent
/// as the line `<verb> <key> 0 0 <bytes>` (verb in lower case, flags and
/// exptime 0, the value's byte count) with the value's UTF-8 bytes as its
/// data block, for each of `set`, `add`, `replace`, `append`, `prepend`.
pub proof fn law_short_storage_command_line(cmd: Seq<char>)
    requires
        crate::text::words(cmd).len() == 3,
        ({
            let v = crate::text::ascii_lower_seq(crate::text::words(cmd)[0]);
            v == "set"@ || v == "add"@ || v == "replace"@ || v == "append"@ || v == "prepend"@
        }),
    ensures
        ({
            let w = crate::text::words(cmd);
            let data = encode_utf8(w[2]);
            raw_request_of(cmd) == (
                crate::text::ascii_lower_seq(w[0]) + " "@ + w[1] + " 0 "@ + "0"@ + " "@ + decimal(
                    data.len(),
                ),
                Some(data),
            )
        }),
{
    let w = crate::text::words(cmd);
    let rest = w.skip(2);
    assert(rest.len() == 1);
    assert(rest =~= seq![w[2]]);
    assert(crate::text::join(rest, " "@) == w[2]);
}

/// Reading class members `p[i..e)` that hold no `-` or `]`, up to the
/// closing `]` at `e`: a member matches exactly when it is `c`.
proof fn lemma_class_scan_singles(p: Seq<char>, c: char, i: int, e: int, first: bool, last: char, matched: bool)
    requires
        0 <= i <= e < p.len(),
        p[e] == ']',
        forall|j: int| i <= j < e ==> #[trigger] p[j] != '-' && p[j] != ']',
    ensures
        class_scan(p, c, i, first, last, matched) == (
            matched || exists|j: int| i <= j < e && #[trigger] p[j] == c,
            e,
        ),
    decreases e - i,
{
    if i < e {
        lemma_class_scan_singles(p, c, i + 1, e, false, p[i], matched || c == p[i]);
        if exists|j: int| i <= j < e && #[trigger] p[j] == c {
            let j = choose|j: int| i <= j < e && #[trigger] p[j] == c;
            if j > i {
                assert(i + 1 <= j < e && p[j] == c);
            }
        }
    }
}

/// A class written as single characters matches exactly those characters:
/// for members `s` without `-`, `]`, `!` or `^`, the pattern `[s]` matches
/// the one-character text `c` exactly when `s` holds `c`.
pub proof fn law_glob_class_of_single_characters(s: Seq<char>, c: char)
    requires
        s.len() > 0,
        forall|j: int| 0 <= j < s.len() ==> #[trigger] s[j] != '-' && s[j] != ']' && s[j] != '!' && s[j] != '^',
    ensures
        glob(seq!['['] + s + seq![']'], seq![c]) <==> s.contains(c),
{
    let p = seq!['['] + s + seq![']'];
    let e = s.len() as int + 1;
    assert(p[0] == '[');
    assert(p[1] == s[0]);
    assert(p[e] == ']');
    assert forall|j: int| 1 <= j < e implies #[trigger] p[j] != '-' && p[j] != ']' by {
        assert(p[j] == s[j - 1]);
    }
    assert(class_start(p) == 1);
    lemma_class_scan_singles(p, c, 1, e, true, '\0', false);
    if s.contains(c) {
        let k = choose|k: int| 0 <= k < s.len() && s[k] == c;
        assert(p[k + 1] == c);
    }
    if exists|j: int| 1 <= j < e && #[trigger] p[j] == c {
        let j = choose|j: int| 1 <= j < e && #[trigger] p[j] == c;
        assert(p[j] == s[j - 1]);
    }
    assert(after_class(p, e) =~= Seq::<char>::empty());
    assert(seq![c].skip(1) =~= Seq::<char>::empty());
    assert(glob(Seq::<char>::empty(), Seq::<char>::empty()));
    assert(class_match(p, c) == (s.contains(c), e));
    assert(seq![c][0] == c);
    assert(p[0] != '*' && p[0] != '?');
    assert(glob(p, seq![c]) == (class_match(p, c).0 && glob(after_class(p, class_match(p, c).1), seq![c].skip(1))));
}

/// Splitting `k` + `=` + `v` at its first `=`, where `k` holds no `=`,
/// gives `k` and `v`; and a split whose first part is `k` comes from a text
/// that starts with `k` + `=`.
proof fn lemma_split_once_key(s: Seq<char>, k: Seq<char>)
    requires
        forall|j: int| 0 <= j < k.len() ==> #[trigger] k[j] != '=',
    ensures
        has_prefix(s, k + seq!['=']) ==> crate::text::split_once(s, '=') == Some(
            (k, s.skip(k.len() as int + 1)),
        ),
        (crate::text::split_once(s, '=') matches Some((a, b)) && a == k) ==> has_prefix(
            s,
            k + seq!['='],
        ),
{
    crate::text::lemma_find_char(s, '=');
    if has_prefix(s, k + seq!['=']) {
        assert(s[k.len() as int] == (k + seq!['='])[k.len() as int]);
        match crate::text::find_char(s, '=') {
            Some(i) => {
                if i < k.len() {
                    assert(s[i] == (k + seq!['='])[i]);
                }
                assert(i == k.len());
                assert(s.take(i) =~= k);
            },
            None => {
                assert(s[k.len() as int] == '=');
            },
        }
    }
    match crate::text::find_char(s, '=') {
        Some(i) => {
            if s.take(i) == k {
                assert(s.take(k.len() as int + 1) =~= k + seq!['=']);
            }
        },
        None => {},
    }
}

/// The host of a replica read from the parts of its field is the value of
/// its last `ip=` part.
proof fn lemma_replica_parts_host(ps: Seq<Seq<char>>, j: int, h: Seq<char>)
    requires
        0 <= j < ps.len(),
        ps[j] == "ip="@ + h,
        forall|l: int| j < l < ps.len() ==> !has_prefix(#[trigger] ps[l], "ip="@),
    ensures
        crate::redisx::server::replica_parts(ps).0 == h,
    decreases ps.len(),
{
    reveal_strlit("ip=");
    reveal_strlit("ip");
    let k = "ip"@;
    assert("ip="@ =~= k + seq!['=']);
    assert forall|a: int| 0 <= a < k.len() implies #[trigger] k[a] != '=' by {}
    let last = ps.last();
    lemma_split_once_key(last, k);
    if j == ps.len() - 1 {
        assert(last == "ip="@ + h);
        assert(last.take(3) =~= "ip="@);
        assert(has_prefix(last, k + seq!['=']));
        assert(last.skip(3) =~= h);
    } else {
        lemma_replica_parts_host(ps.drop_last(), j, h);
        assert(!has_prefix(last, "ip="@));
    }
}

/// The replica that a field `ip=H,...` of INFO replication describes has
/// host `H`: for a field value whose comma-separated part `j` is `ip=H`
/// and no later part starts with `ip=`, the replica's host is `H`.
pub proof fn law_replica_host_is_its_ip(value: Seq<char>, j: int, h: Seq<char>)
    requires
        0 <= j < split_char(value, ',').len(),
        split_char(value, ',')[j] == "ip="@ + h,
        forall|l: int|
            j < l < split_char(value, ',').len() ==> !has_prefix(
                #[trigger] split_char(value, ',')[l],
                "ip="@,
            ),
    ensures
        crate::redisx::server::replica_node_of(value).0 == h,
{
    lemma_replica_parts_host(split_char(value, ','), j, h);
}

/// The port of a replica read from the parts of its field is the number
/// in its last `port=` part (0 where that is no port number).
proof fn lemma_replica_parts_port(ps: Seq<Seq<char>>, j: int, n: Seq<char>)
    requires
        0 <= j < ps.len(),
        ps[j] == "port="@ + n,
        forall|l: int| j < l < ps.len() ==> !has_prefix(#[trigger] ps[l], "port="@),
    ensures
        crate::redisx::server::replica_parts(ps).1 == match crate::text::parse_u16(n) {
            Some(x) => x,
            None => 0u16,
        },
    decreases ps.len(),
{
    reveal_strlit("port=");
    reveal_strlit("port");
    reveal_strlit("ip");
    let k = "port"@;
    assert("port="@ =~= k + seq!['=']);
    assert forall|a: int| 0 <= a < k.len() implies #[trigger] k[a] != '=' by {}
    let last = ps.last();
    lemma_split_once_key(last, k);
    if j == ps.len() - 1 {
        assert(last == "port="@ + n);
        assert(last.take(5) =~= "port="@);
        assert(last.skip(5) =~= n);
        assert(k != "ip"@);
    } else {
        lemma_replica_parts_port(ps.drop_last(), j, n);
        assert(!has_prefix(last, "port="@));
    }
}

/// The replica that a field `...,port=P,...` of INFO replication describes
/// has port `P` (0 where `P` is no port number), from the last `port=`
/// part of the field value.
pub proof fn law_replica_port_is_its_port(value: Seq<char>, j: int, n: Seq<char>)
    requires
        0 <= j < split_char(value, ',').len(),
        split_char(value, ',')[j] == "port="@ + n,
        forall|l: int|
            j < l < split_char(value, ',').len() ==> !has_prefix(
                #[trigger] split_char(value, ',')[l],
                "port="@,
            ),
    ensures
        crate::redisx::server::replica_node_of(value).1 == match crate::text::parse_u16(n) {
            Some(x) => x,
            None => 0u16,
        },
{
    lemma_replica_parts_port(split_char(value, ','), j, n);
}

/// A text that ends in a character other than white space keeps its end.
proof fn lemma_trim_end_keeps(x: Seq<char>)
    requires
        x.len() > 0,
        !crate::text::is_ws(x.last()),
    ensures
        crate::text::trim_end(x) == x,
{
    assert(crate::text::trim_end_to(x, x.len() as int) == x.len());
    assert(x.take(x.len() as int) =~= x);
}

/// Splitting a text at its first `sep`, where the text is `k`, `sep`, `v`
/// and `k` holds no `sep`, gives `k` and `v`.
proof fn lemma_split_once_first(k: Seq<char>, sep: char, v: Seq<char>)
    requires
        forall|j: int| 0 <= j < k.len() ==> #[trigger] k[j] != sep,
    ensures
        crate::text::split_once(k + seq![sep] + v, sep) == Some((k, v)),
{
    let s = k + seq![sep] + v;
    crate::text::lemma_find_char(s, sep);
    assert(s[k.len() as int] == sep);
    match crate::text::find_char(s, sep) {
        Some(i) => {
            if i < k.len() {
                assert(s[i] == k[i]);
            }
            assert(i == k.len());
            assert(s.take(i) =~= k);
            assert(s.skip(i + 1) =~= v);
        },
        None => {},
    }
}

/// A text without `sep` is one piece.
proof fn lemma_split_char_whole(b: Seq<char>, sep: char)
    requires
        forall|j: int| 0 <= j < b.len() ==> #[trigger] b[j] != sep,
    ensures
        split_char(b, sep) == seq![b],
    decreases b.len(),
{
    if b.len() > 0 {
        lemma_split_char_whole(b.drop_last(), sep);
        assert(b.drop_last().push(b.last()) =~= b);
        assert(seq![b.drop_last()].update(0, b.drop_last().push(b.last())) =~= seq![b]);
    } else {
        assert(b =~= Seq::<char>::empty());
    }
}

/// The pieces of `a`, `sep`, `b` where `b` holds no `sep`: those of `a`,
/// then `b`.
proof fn lemma_split_char_after(a: Seq<char>, b: Seq<char>, sep: char)
    requires
        forall|j: int| 0 <= j < b.len() ==> #[trigger] b[j] != sep,
    ensures
        split_char(a + seq![sep] + b, sep) == split_char(a, sep).push(b),
    decreases b.len(),
{
    let s = a + seq![sep] + b;
    if b.len() == 0 {
        assert(s.drop_last() =~= a);
        assert(b =~= Seq::<char>::empty());
    } else {
        lemma_split_char_after(a, b.drop_last(), sep);
        assert(s.drop_last() =~= a + seq![sep] + b.drop_last());
        assert(s.last() == b.last());
        let p = split_char(a, sep).push(b.drop_last());
        assert(b.drop_last().push(b.last()) =~= b);
        assert(p.last() == b.drop_last());
        assert(p.update(p.len() - 1, p.last().push(b.last())) =~= split_char(a, sep).push(b));
    }
}

/// A field line `k:v` of an open INFO section, with `k` free of `:` and
/// not starting with `#`, adds the field (`k` trimmed, `v`) to that section,
/// whatever `v` holds: the line is split at its first `:`.
pub proof fn law_info_field_splits_at_first_colon(
    ls: Seq<Seq<char>>,
    k: Seq<char>,
    v: Seq<char>,
)
    requires
        crate::redisx::server::info_state(ls).1 is Some,
        forall|j: int| 0 <= j < k.len() ==> #[trigger] k[j] != ':',
        k.len() == 0 || k[0] != '#',
        v.len() == 0 || !crate::text::is_ws(v.last()),
    ensures
        ({
            let (done, cur) = crate::redisx::server::info_state(ls);
            crate::redisx::server::info_state(ls.push(k + seq![':'] + v)) == (
                done,
                Some(((cur->0).0, (cur->0).1.push((crate::text::trim(k), v)))),
            )
        }),
{
    let line = k + seq![':'] + v;
    let next = ls.push(line);
    assert(next.drop_last() =~= ls);
    assert(line.last() == if v.len() == 0 { ':' } else { v.last() });
    assert(!crate::text::is_ws(':'));
    lemma_trim_end_keeps(line);
    assert(line[0] == if k.len() == 0 { ':' } else { k[0] });
    lemma_split_once_first(k, ':', v);
}

/// An INFO reply made of a header `#name` and one field line `k:v` reads as
/// the section `name` (trimmed) holding the field (`k` trimmed, `v`): the
/// field line is split at its first `:`, whatever `v` holds.
pub proof fn law_info_section_with_one_field(name: Seq<char>, k: Seq<char>, v: Seq<char>)
    requires
        forall|j: int| 0 <= j < name.len() ==> #[trigger] name[j] != '\n',
        name.len() == 0 || !crate::text::is_ws(name.last()),
        forall|j: int| 0 <= j < k.len() ==> #[trigger] k[j] != ':' && k[j] != '\n',
        k.len() == 0 || k[0] != '#',
        forall|j: int| 0 <= j < v.len() ==> #[trigger] v[j] != '\n',
        v.len() == 0 || !crate::text::is_ws(v.last()),
    ensures
        crate::redisx::server::info_sections(seq!['#'] + name + seq!['\n'] + k + seq![':'] + v)
            == seq![(crate::text::trim(name), seq![(crate::text::trim(k), v)])],
{
    let h = seq!['#'] + name;
    let line = k + seq![':'] + v;
    let raw = seq!['#'] + name + seq!['\n'] + k + seq![':'] + v;
    assert(raw =~= h + seq!['\n'] + line);
    assert forall|j: int| 0 <= j < h.len() implies #[trigger] h[j] != '\n' by {
        if j > 0 {
            assert(h[j] == name[j - 1]);
        }
    }
    assert forall|j: int| 0 <= j < line.len() implies #[trigger] line[j] != '\n' by {
        if j < k.len() {
            assert(line[j] == k[j]);
        } else if j > k.len() {
            assert(line[j] == v[j - k.len() - 1]);
        }
    }
    lemma_split_char_whole(h, '\n');
    lemma_split_char_after(h, line, '\n');
    let parts = split_char(raw, '\n');
    assert(parts =~= seq![h, line]);
    assert(h.last() == if name.len() == 0 { '#' } else { name.last() });
    assert(!crate::text::is_ws('#'));
    assert(crate::text::is_ws('\r'));
    assert(crate::text::strip_cr(h) == h);
    let ls = crate::text::lines(raw);
    assert(line.len() > 0);
    assert(ls =~= seq![h, line]);
    lemma_trim_end_keeps(h);
    let first = seq![h];
    assert(first.drop_last() =~= Seq::<Seq<char>>::empty());
    assert(h.skip(1) =~= name);
    assert(first.last() == h);
    assert(h[0] == '#');
    assert(crate::redisx::server::info_state(first.drop_last()) == (
        Seq::<crate::redisx::server::SectionView>::empty(),
        None::<crate::redisx::server::SectionView>,
    ));
    assert(crate::redisx::server::info_state(first) == (
        Seq::<crate::redisx::server::SectionView>::empty(),
        Some((crate::text::trim(name), Seq::<(Seq<char>, Seq<char>)>::empty())),
    ));
    law_info_field_splits_at_first_colon(first, k, v);
    assert(first.push(line) =~= ls);
    assert(Seq::<(Seq<char>, Seq<char>)>::empty().push((crate::text::trim(k), v)) =~= seq![
        (crate::text::trim(k), v),
    ]);
}

} // verus!
