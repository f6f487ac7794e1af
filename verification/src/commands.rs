//! What the application's commands decide on their own: importing and
//! exporting saved connections, and switching a connection's database.
use vstd::prelude::*;

use crate::error::AppError;
use crate::laws::{distinct_ids, ids_of};
use crate::model::{ConnConfig, ImportResult};
use crate::text::{
    chars_of, decimal, eq_ignore_ascii_case, eq_ignore_ascii_case_exec, has_prefix, push_str, push_u64,
    str_eq, trim, trim_chars,
};

verus! {

/// Two connections point at the same server: the same host (ASCII letters
/// in any case) and the same port.
pub open spec fn same_address(a: ConnConfig, b: ConnConfig) -> bool {
    eq_ignore_ascii_case(a.host@, b.host@) && a.port == b.port
}

/// `a` is `b` but for its id.
pub open spec fn same_but_id(a: ConnConfig, b: ConnConfig) -> bool {
    &&& a.name == b.name
    &&& a.mode == b.mode
    &&& a.host == b.host
    &&& a.port == b.port
    &&& a.username == b.username
    &&& a.password == b.password
    &&& a.database == b.database
    &&& a.nodes == b.nodes
    &&& a.service_name == b.service_name
    &&& a.tls == b.tls
    &&& a.connect_timeout_ms == b.connect_timeout_ms
}

/// The id given to the `n`-th imported connection whose own id is empty or
/// taken.
pub open spec fn generated_id(millis: u64, n: nat) -> Seq<char> {
    "imp-"@ + decimal(millis as nat) + "-"@ + decimal(n)
}

/// Which incoming connections an import takes, in order, and the id each
/// gets: one whose server is already saved (or taken earlier in the same
/// import) is skipped; one whose id is empty or taken gets a generated id.
pub open spec fn import_plan(existing: Seq<ConnConfig>, incoming: Seq<ConnConfig>, millis: u64) -> Seq<
    (int, Seq<char>),
>
    decreases incoming.len(),
{
    if incoming.len() == 0 {
        Seq::empty()
    } else {
        let prev = import_plan(existing, incoming.drop_last(), millis);
        let c = incoming.last();
        let known = (exists|i: int| 0 <= i < existing.len() && same_address(#[trigger] existing[i], c))
            || (exists|k: int| 0 <= k < prev.len() && same_address(incoming[(#[trigger] prev[k]).0], c));
        let used = (exists|i: int| 0 <= i < existing.len() && (#[trigger] existing[i]).id@ == c.id@)
            || (exists|k: int| 0 <= k < prev.len() && (#[trigger] prev[k]).1 == c.id@);
        if known {
            prev
        } else {
            prev.push(
                (
                    incoming.len() - 1,
                    if c.id@.len() == 0 || used {
                        generated_id(millis, prev.len())
                    } else {
                        c.id@
                    },
                ),
            )
        }
    }
}

/// The indices of an import plan are those of the incoming list, rising.
proof fn lemma_plan_indices(existing: Seq<ConnConfig>, incoming: Seq<ConnConfig>, millis: u64)
    ensures
        forall|k: int|
            0 <= k < import_plan(existing, incoming, millis).len() ==> 0 <= (
            #[trigger] import_plan(existing, incoming, millis)[k]).0 < incoming.len(),
        import_plan(existing, incoming, millis).len() <= incoming.len(),
    decreases incoming.len(),
{
    if incoming.len() > 0 {
        lemma_plan_indices(existing, incoming.drop_last(), millis);
    }
}

fn address_known(list: &Vec<ConnConfig>, c: &ConnConfig) -> (r: bool)
    ensures
        r == exists|j: int| 0 <= j < list@.len() && same_address(#[trigger] list@[j], *c),
{
    let hv = chars_of(c.host.as_str());
    let mut j: usize = 0;
    while j < list.len()
        invariant
            j <= list@.len(),
            hv@ == c.host@,
            forall|k: int| 0 <= k < j ==> !same_address(#[trigger] list@[k], *c),
        decreases list.len() - j,
    {
        let lh = chars_of(list[j].host.as_str());
        if eq_ignore_ascii_case_exec(lh.as_slice(), hv.as_slice()) && list[j].port == c.port {
            assert(same_address(list@[j as int], *c));
            return true;
        }
        j = j + 1;
    }
    false
}

fn id_used(list: &Vec<ConnConfig>, id: &str) -> (r: bool)
    ensures
        r == exists|j: int| 0 <= j < list@.len() && (#[trigger] list@[j]).id@ == id@,
{
    let mut j: usize = 0;
    while j < list.len()
        invariant
            j <= list@.len(),
            forall|k: int| 0 <= k < j ==> (#[trigger] list@[k]).id@ != id@,
        decreases list.len() - j,
    {
        if str_eq(list[j].id.as_str(), id) {
            return true;
        }
        j = j + 1;
    }
    false
}

/// Imports `incoming` into the saved connections `existing` (see
/// `import_plan`): the saved ones come first and unchanged, then the taken
/// ones in order with their ids; the counts say how many were taken and
/// how many skipped. `millis` is the time that generated ids carry.
pub fn import_connections(existing: Vec<ConnConfig>, incoming: Vec<ConnConfig>, millis: u64) -> (r: (
    Vec<ConnConfig>,
    ImportResult,
))
    requires
        existing@.len() + incoming@.len() <= usize::MAX,
    ensures
        ({
            let plan = import_plan(existing@, incoming@, millis);
            &&& r.1.imported == plan.len()
            &&& r.1.imported + r.1.duplicated == incoming@.len()
            &&& r.0@.len() == existing@.len() + plan.len()
            &&& r.0@.take(existing@.len() as int) == existing@
            &&& forall|k: int|
                0 <= k < plan.len() ==> same_but_id(
                    #[trigger] r.0@[existing@.len() + k],
                    incoming@[plan[k].0],
                ) && r.0@[existing@.len() + k].id@ == plan[k].1
        }),
        distinct_ids(ids_of(existing@)) && (forall|i: int|
            0 <= i < existing@.len() ==> !has_prefix(#[trigger] existing@[i].id@, "imp-"@)) && (
        forall|i: int| 0 <= i < incoming@.len() ==> !has_prefix(#[trigger] incoming@[i].id@, "imp-"@))
            ==> distinct_ids(ids_of(r.0@)),
{
    let ghost ex = existing@;
    let ghost all = incoming@;
    let e = existing.len();
    let mut out = existing;
    let mut rest = incoming;
    let total = rest.len();
    let mut imported: usize = 0;
    let mut duplicated: usize = 0;
    let mut i: usize = 0;
    while rest.len() > 0
        invariant
            e == ex.len(),
            e + all.len() <= usize::MAX,
            i + rest@.len() == all.len(),
            total == all.len(),
            rest@ == all.skip(i as int),
            imported == import_plan(ex, all.take(i as int), millis).len(),
            imported + duplicated == i,
            out@.len() == e + imported,
            out@.take(e as int) == ex,
            forall|k: int|
                0 <= k < imported ==> same_but_id(
                    #[trigger] out@[e + k],
                    all[import_plan(ex, all.take(i as int), millis)[k].0],
                ) && out@[e + k].id@ == import_plan(ex, all.take(i as int), millis)[k].1,
        decreases rest.len(),
    {
        let ghost pre = all.take(i as int);
        let ghost plan = import_plan(ex, pre, millis);
        let ghost cur = all.take(i + 1);
        proof {
            assert(cur.drop_last() =~= pre);
            lemma_plan_indices(ex, pre, millis);
        }
        let mut cfg = rest.remove(0);
        assert(all[i as int] == cfg);
        assert(cur.last() == cfg);
        assert(rest@ =~= all.skip(i + 1));
        let known = address_known(&out, &cfg);
        proof {
            let spec_known = (exists|a: int| 0 <= a < ex.len() && same_address(#[trigger] ex[a], cfg))
                || (exists|k: int| 0 <= k < plan.len() && same_address(cur[(#[trigger] plan[k]).0], cfg));
            if known {
                let j = choose|j: int| 0 <= j < out@.len() && same_address(#[trigger] out@[j], cfg);
                if j < e {
                    assert(out@.take(e as int)[j] == out@[j]);
                    assert(same_address(ex[j], cfg));
                } else {
                    let k = j - e;
                    assert(out@[e + k] == out@[j]);
                    assert(cur[plan[k].0] == all[plan[k].0]);
                    assert(same_address(cur[plan[k].0], cfg));
                }
                assert(spec_known);
            } else {
                assert forall|a: int| 0 <= a < ex.len() implies !same_address(#[trigger] ex[a], cfg) by {
                    assert(out@.take(e as int)[a] == out@[a]);
                }
                assert forall|k: int| 0 <= k < plan.len() implies !same_address(cur[(#[trigger] plan[k]).0], cfg) by {
                    assert(cur[plan[k].0] == all[plan[k].0]);
                    assert(out@[e + k] == out@[e + k]);
                    assert(!same_address(out@[e + k], cfg));
                }
                assert(!spec_known);
            }
        }
        if known {
            duplicated = duplicated + 1;
            proof {
                assert(import_plan(ex, cur, millis) == plan);
            }
        } else {
            let used = id_used(&out, cfg.id.as_str());
            proof {
                let spec_used = (exists|a: int| 0 <= a < ex.len() && (#[trigger] ex[a]).id@ == cfg.id@)
                    || (exists|k: int| 0 <= k < plan.len() && (#[trigger] plan[k]).1 == cfg.id@);
                if used {
                    let j = choose|j: int| 0 <= j < out@.len() && (#[trigger] out@[j]).id@ == cfg.id@;
                    if j < e {
                        assert(out@.take(e as int)[j] == out@[j]);
                    } else {
                        let k = j - e;
                        assert(out@[e + k] == out@[j]);
                    }
                    assert(spec_used);
                } else {
                    assert forall|a: int| 0 <= a < ex.len() implies (#[trigger] ex[a]).id@ != cfg.id@ by {
                        assert(out@.take(e as int)[a] == out@[a]);
                    }
                    assert forall|k: int| 0 <= k < plan.len() implies (#[trigger] plan[k]).1 != cfg.id@ by {
                        assert(0 <= e + k < out@.len());
                        assert(out@[e + k].id@ == plan[k].1);
                        assert(out@[e + k].id@ != cfg.id@);
                    }
                    assert(!spec_used);
                }
            }
            if cfg.id.as_str().is_empty() || used {
                let mut id = "imp-".to_owned();
                push_u64(&mut id, millis);
                push_str(&mut id, "-");
                push_u64(&mut id, imported as u64);
                cfg.id = id;
            }
            let ghost before = out@;
            out.push(cfg);
            proof {
                let np = import_plan(ex, cur, millis);
                assert(np == plan.push(np.last()));
                assert(np.last().0 == i);
                assert forall|k: int| 0 <= k < imported + 1 implies same_but_id(
                    #[trigger] out@[e + k],
                    all[np[k].0],
                ) && out@[e + k].id@ == np[k].1 by {
                    if k < imported {
                        assert(out@[e + k] == before[e + k]);
                        assert(np[k] == plan[k]);
                    }
                }
                assert(out@.take(e as int) =~= before.take(e as int));
            }
            imported = imported + 1;
        }
        i = i + 1;
    }
    assert(all.take(i as int) =~= all);
    proof {
        let plan = import_plan(ex, all, millis);
        let want = ids_of(ex) + plan.map_values(|e: (int, Seq<char>)| e.1);
        assert forall|j: int| 0 <= j < out@.len() implies ids_of(out@)[j] == want[j] by {
            if j < e {
                assert(out@.take(e as int)[j] == out@[j]);
            } else {
                let k = j - e;
                assert(out@[e + k].id@ == plan[k].1);
            }
        }
        assert(ids_of(out@) =~= want);
        if distinct_ids(ids_of(ex)) && (forall|a: int| 0 <= a < ex.len() ==> !has_prefix(#[trigger] ex[a].id@, "imp-"@))
            && (forall|a: int| 0 <= a < all.len() ==> !has_prefix(#[trigger] all[a].id@, "imp-"@)) {
            crate::laws::law_import_ids_distinct(ex, all, millis);
        }
    }
    (out, ImportResult { imported, duplicated })
}

/// The folder that the settings name for exports, where it is set and not
/// blank.
pub fn export_dir_setting(setting: Option<String>) -> (r: Option<String>)
    ensures
        match setting {
            Some(d) => if trim(d@).len() > 0 {
                r == Some(d)
            } else {
                r is None
            },
            None => r is None,
        },
{
    match setting {
        Some(d) => {
            let dv = chars_of(d.as_str());
            if trim_chars(dv.as_slice()).len() > 0 {
                Some(d)
            } else {
                None
            }
        },
        None => None,
    }
}

/// The name of an export file written at `secs` seconds since the epoch.
pub fn export_file_name(secs: u64) -> (r: String)
    ensures
        r@ == "cache-manager-connections-"@ + decimal(secs as nat) + ".json"@,
{
    let mut n = "cache-manager-connections-".to_owned();
    push_u64(&mut n, secs);
    push_str(&mut n, ".json");
    n
}

/// The configuration that reconnects `config` on database `db`; Memcached
/// connections have no databases and are refused.
pub fn switch_database_config(config: ConnConfig, db: i64, memcached: bool) -> (r: Result<
    ConnConfig,
    AppError,
>)
    ensures
        memcached ==> (r matches Err(e) && e.message@ == "Memcached 不支持数据库切换"@),
        !memcached ==> (r matches Ok(c) && c.database == Some(db) && c.id == config.id
            && same_but_id(c, ConnConfig { database: Some(db), ..config })),
{
    if memcached {
        return Err(AppError::from_str("Memcached 不支持数据库切换"));
    }
    let mut c = config;
    c.database = Some(db);
    Ok(c)
}

/// Memcached keys cannot be renamed.
pub fn rename_unsupported() -> (e: AppError)
    ensures
        e.message@ == "Memcached 不支持键重命名"@,
{
    AppError::from_str("Memcached 不支持键重命名")
}

} // verus!
