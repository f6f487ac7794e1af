//! Redis connections: the URLs handed to the client library, the choice of
//! server for a command, and the shaping of replies.
pub mod console;
pub mod keys;
pub mod server;
pub mod stream;

use vstd::prelude::*;

use crate::error::AppError;
use crate::model::{
    encoded_value_of, node_text, ConnConfig, ConnMode, ConnStatus, ConnStatusInfo, EncodedValue,
    NodeSpec,
};
use crate::text::{decimal, decimal_int, push_i64, push_str, push_u64};
use fred::types::config::ServerConfig;

verus! {

/// Status code of a connection being set up.
pub const STATUS_CONNECTING: u8 = 1;

/// Status code of an established connection.
pub const STATUS_CONNECTED: u8 = 2;

/// Status code of a connection that failed.
pub const STATUS_ERROR: u8 = 3;

/// The state that a stored status code stands for.
pub open spec fn status_of_code(code: u8) -> ConnStatus {
    if code == STATUS_CONNECTING {
        ConnStatus::Connecting
    } else if code == STATUS_CONNECTED {
        ConnStatus::Connected
    } else if code == STATUS_ERROR {
        ConnStatus::Error
    } else {
        ConnStatus::Disconnected
    }
}

/// The state that a stored status code stands for; unknown codes read as
/// disconnected.
pub fn status_from_code(code: u8) -> (s: ConnStatus)
    ensures
        s == status_of_code(code),
{
    if code == STATUS_CONNECTING {
        ConnStatus::Connecting
    } else if code == STATUS_CONNECTED {
        ConnStatus::Connected
    } else if code == STATUS_ERROR {
        ConnStatus::Error
    } else {
        ConnStatus::Disconnected
    }
}

// ---------------------------------------------------------------------------
// connection URLs
// ---------------------------------------------------------------------------

/// The scheme of a client URL.
pub open spec fn url_scheme(mode: ConnMode, tls: bool) -> Seq<char> {
    match mode {
        ConnMode::Cluster => if tls {
            "rediss-cluster"@
        } else {
            "redis-cluster"@
        },
        ConnMode::Sentinel => if tls {
            "rediss-sentinel"@
        } else {
            "redis-sentinel"@
        },
        _ => if tls {
            "rediss"@
        } else {
            "redis"@
        },
    }
}

/// A set and non-empty credential.
pub open spec fn filled(o: Option<String>) -> bool {
    o is Some && o->0@.len() > 0
}

/// The credentials part of a client URL: `user:password@`, each part only
/// when it is set and not empty.
pub open spec fn url_credentials(c: ConnConfig) -> Seq<char> {
    if filled(c.username) || filled(c.password) {
        (if filled(c.username) {
            c.username->0@
        } else {
            Seq::empty()
        }) + (if filled(c.password) {
            ":"@ + c.password->0@
        } else {
            Seq::empty()
        }) + "@"@
    } else {
        Seq::empty()
    }
}

/// `node=host:port` for each node, joined by `&`.
pub open spec fn node_params(ns: Seq<NodeSpec>) -> Seq<char>
    decreases ns.len(),
{
    if ns.len() == 0 {
        Seq::empty()
    } else if ns.len() == 1 {
        "node="@ + node_text(ns[0])
    } else {
        node_params(ns.drop_last()) + "&node="@ + node_text(ns.last())
    }
}

/// The message when a sentinel connection has no master name.
pub open spec fn missing_service_message() -> Seq<char> {
    "Sentinel 模式必须填写主节点服务名 (master name)"@
}

/// The start of a client URL: scheme, credentials, server and (for every
/// mode but a cluster) the database.
pub open spec fn url_base(c: ConnConfig, host: Seq<char>, port: u16) -> Seq<char> {
    url_scheme(c.mode, c.tls) + "://"@ + url_credentials(c) + host + ":"@ + decimal(port as nat)
        + if c.mode != ConnMode::Cluster {
        crate::model::db_text(c.database)
    } else {
        Seq::empty()
    }
}

/// The nodes that go into the URL: all extra nodes but those of a
/// master-slave connection, whose replicas get pools of their own.
pub open spec fn url_nodes(c: ConnConfig) -> Seq<NodeSpec> {
    if c.mode == ConnMode::MasterSlave {
        Seq::<NodeSpec>::empty()
    } else {
        c.nodes@
    }
}

/// The query of a client URL: the `node=` parameters and, for a sentinel
/// connection, the master name.
pub open spec fn url_query(c: ConnConfig) -> Seq<char> {
    if url_nodes(c).len() > 0 {
        "?"@ + node_params(url_nodes(c)) + if c.mode == ConnMode::Sentinel {
            "&sentinelServiceName="@ + c.service_name->0@
        } else {
            Seq::empty()
        }
    } else if c.mode == ConnMode::Sentinel {
        "?sentinelServiceName="@ + c.service_name->0@
    } else {
        Seq::empty()
    }
}

/// The client URL for the server `host:port` of connection `c`, or the
/// message of why there is none: a sentinel connection needs a non-empty
/// master name.
pub open spec fn url_for(c: ConnConfig, host: Seq<char>, port: u16) -> Result<
    Seq<char>,
    Seq<char>,
> {
    if c.mode == ConnMode::Sentinel && !filled(c.service_name) {
        Err(missing_service_message())
    } else {
        Ok(url_base(c, host, port) + url_query(c))
    }
}

/// The client URL of connection `c`.
pub open spec fn url_of(c: ConnConfig) -> Result<Seq<char>, Seq<char>> {
    url_for(c, c.host@, c.port)
}

fn has_text(o: &Option<String>) -> (r: bool)
    ensures
        r == filled(*o),
{
    match o {
        Some(s) => !s.as_str().is_empty(),
        None => false,
    }
}

/// Appends `node=host:port` parameters for `nodes`, joined by `&`.
fn push_node_params(s: &mut String, nodes: &Vec<NodeSpec>)
    ensures
        final(s)@ == old(s)@ + node_params(nodes@),
{
    let ghost s0 = s@;
    let mut i: usize = 0;
    while i < nodes.len()
        invariant
            i <= nodes.len(),
            s@ == s0 + node_params(nodes@.take(i as int)),
        decreases nodes.len() - i,
    {
        if i > 0 {
            push_str(s, "&");
        }
        push_str(s, "node=");
        let t = nodes[i].to_text();
        push_str(s, t.as_str());
        i = i + 1;
        proof {
            assert(nodes@.take(i as int).drop_last() =~= nodes@.take(i - 1));
            if i == 1 {
                assert(nodes@.take(1)[0] == nodes@[0]);
                assert(s0 + node_params(nodes@.take(0)) =~= s0);
                assert("&"@ + "node="@ =~= "&node="@) by {
                    reveal_strlit("&");
                    reveal_strlit("node=");
                    reveal_strlit("&node=");
                }
            } else {
                assert("&"@ + "node="@ =~= "&node="@) by {
                    reveal_strlit("&");
                    reveal_strlit("node=");
                    reveal_strlit("&node=");
                }
            }
        }
    }
    assert(nodes@.take(nodes@.len() as int) =~= nodes@);
}

/// Appends the credentials part of the URL of `cfg`.
fn push_credentials(url: &mut String, cfg: &ConnConfig)
    ensures
        final(url)@ == old(url)@ + url_credentials(*cfg),
{
    let ghost at_auth = url@;
    let has_user = has_text(&cfg.username);
    let has_pass = has_text(&cfg.password);
    if has_user || has_pass {
        if has_user {
            match &cfg.username {
                Some(u) => push_str(url, u.as_str()),
                None => {},
            }
        }
        let ghost after_user = url@;
        if has_pass {
            match &cfg.password {
                Some(p) => {
                    push_str(url, ":");
                    push_str(url, p.as_str());
                },
                None => {},
            }
        }
        push_str(url, "@");
        proof {
            let u = if filled(cfg.username) {
                cfg.username->0@
            } else {
                Seq::empty()
            };
            let p = if filled(cfg.password) {
                ":"@ + cfg.password->0@
            } else {
                Seq::empty()
            };
            assert(after_user =~= at_auth + u);
            assert(url@ =~= at_auth + (u + p + "@"@));
        }
    } else {
        assert(url@ =~= at_auth + url_credentials(*cfg));
    }
}

/// The start of the URL for the server `host:port` of `cfg`.
fn build_url_base(cfg: &ConnConfig, host: &str, port: u16) -> (r: String)
    ensures
        r@ == url_base(*cfg, host@, port),
{
    let scheme = match (cfg.mode, cfg.tls) {
        (ConnMode::Cluster, true) => "rediss-cluster",
        (ConnMode::Cluster, false) => "redis-cluster",
        (ConnMode::Sentinel, true) => "rediss-sentinel",
        (ConnMode::Sentinel, false) => "redis-sentinel",
        (_, true) => "rediss",
        (_, false) => "redis",
    };
    let mut url = scheme.to_owned();
    push_str(&mut url, "://");
    push_credentials(&mut url, cfg);
    push_str(&mut url, host);
    push_str(&mut url, ":");
    push_u64(&mut url, port as u64);
    let ghost before_db = url@;
    if cfg.mode != ConnMode::Cluster {
        if let Some(db) = cfg.database {
            push_str(&mut url, "/");
            push_i64(&mut url, db);
        }
    }
    assert(url@ =~= url_base(*cfg, host@, port));
    url
}

/// Appends the query of the URL of `cfg`.
fn push_query(url: &mut String, cfg: &ConnConfig)
    requires
        cfg.mode == ConnMode::Sentinel ==> filled(cfg.service_name),
    ensures
        final(url)@ == old(url)@ + url_query(*cfg),
{
    let ghost u0 = url@;
    let has_extra = cfg.mode != ConnMode::MasterSlave && cfg.nodes.len() > 0;
    assert(has_extra == (url_nodes(*cfg).len() > 0));
    if has_extra {
        push_str(url, "?");
        push_node_params(url, &cfg.nodes);
        let ghost mid = url@;
        if cfg.mode == ConnMode::Sentinel {
            match &cfg.service_name {
                Some(sn) => {
                    push_str(url, "&sentinelServiceName=");
                    push_str(url, sn.as_str());
                },
                None => {},
            }
        }
        proof {
            assert(url_nodes(*cfg) == cfg.nodes@);
            assert(url@ =~= u0 + url_query(*cfg));
        }
    } else if cfg.mode == ConnMode::Sentinel {
        match &cfg.service_name {
            Some(sn) => {
                push_str(url, "?sentinelServiceName=");
                push_str(url, sn.as_str());
            },
            None => {},
        }
        assert(url@ =~= u0 + url_query(*cfg));
    } else {
        assert(url@ =~= u0 + url_query(*cfg));
    }
}

/// Builds the client URL for the server `host:port` of `cfg`.
fn build_url_for(cfg: &ConnConfig, host: &str, port: u16) -> (r: Result<String, AppError>)
    ensures
        match url_for(*cfg, host@, port) {
            Ok(u) => r matches Ok(s) && s@ == u,
            Err(m) => r matches Err(e) && e.message@ == m,
        },
{
    if cfg.mode == ConnMode::Sentinel && !has_text(&cfg.service_name) {
        return Err(AppError::from_str("Sentinel 模式必须填写主节点服务名 (master name)"));
    }
    let mut url = build_url_base(cfg, host, port);
    push_query(&mut url, cfg);
    Ok(url)
}

/// Builds the client URL of a connection.
pub fn build_url(cfg: &ConnConfig) -> (r: Result<String, AppError>)
    ensures
        match url_of(*cfg) {
            Ok(u) => r matches Ok(s) && s@ == u,
            Err(m) => r matches Err(e) && e.message@ == m,
        },
{
    build_url_for(cfg, cfg.host.as_str(), cfg.port)
}


// ---------------------------------------------------------------------------
// client configurations
// ---------------------------------------------------------------------------

#[verifier::external_type_specification]
#[verifier::external_body]
pub struct ExFredConfig(fred::types::config::Config);

#[verifier::external_type_specification]
#[verifier::external_body]
pub struct ExFredError(fred::error::Error);

/// The kind of server layout that a client configuration describes.
#[derive(PartialEq, Eq, Structural, Clone, Copy, Debug)]
pub enum ServerKind {
    Centralized,
    Clustered,
    Sentinel,
}

/// What the client library read out of a URL, as plain values: the server
/// layout, the `(host, port)` of each server in the order the library keeps
/// them, the credentials, the database and the sentinel master name.
#[derive(Clone, Debug)]
pub struct FredConfigParts {
    pub kind: ServerKind,
    pub hosts: Vec<(String, u16)>,
    pub username: Option<String>,
    pub password: Option<String>,
    pub database: Option<u8>,
    pub service_name: Option<String>,
}

/// The value of `FredConfigParts`.
pub struct FredConfigPartsView {
    pub kind: ServerKind,
    pub hosts: Seq<(Seq<char>, u16)>,
    pub username: Option<Seq<char>>,
    pub password: Option<Seq<char>>,
    pub database: Option<u8>,
    pub service_name: Option<Seq<char>>,
}

/// The value of an optional text.
pub open spec fn opt_text(o: Option<String>) -> Option<Seq<char>> {
    match o {
        Some(s) => Some(s@),
        None => None,
    }
}

impl View for FredConfigParts {
    type V = FredConfigPartsView;

    open spec fn view(&self) -> FredConfigPartsView {
        FredConfigPartsView {
            kind: self.kind,
            hosts: self.hosts@.map_values(|h: (String, u16)| (h.0@, h.1)),
            username: opt_text(self.username),
            password: opt_text(self.password),
            database: self.database,
            service_name: opt_text(self.service_name),
        }
    }
}

/// What the client library reads out of `url`, or `None` where it refuses
/// the URL itself (its scheme, host, port, database path, `node` parameters
/// or sentinel master name); a function of the URL alone.
pub uninterp spec fn fred_url_parts(url: Seq<char>) -> Option<FredConfigPartsView>;

/// A URL whose scheme is `redis` or `redis-...`: one that asks for no TLS.
pub open spec fn plain_scheme(url: Seq<char>) -> bool {
    url.len() >= 6 && url.take(5) == "redis"@ && (url[5] == ':' || url[5] == '-')
}

/// `fred::types::config::Config::from_url`, with the parts of the result
/// read back as plain values. Claimed: a configuration it returns holds the
/// parts `fred_url_parts` names for the URL; a URL the library refuses gives
/// an error; and a URL without TLS that the library reads gives a
/// configuration. For a TLS URL the library also loads the machine's
/// certificates, so whether a configuration comes back is left unsaid.
#[verifier::external_body]
fn fred_config_from_url(url: &str) -> (r: Result<
    (fred::types::config::Config, FredConfigParts),
    fred::error::Error,
>)
    ensures
        r matches Ok((_, p)) ==> fred_url_parts(url@) == Some(p@),
        fred_url_parts(url@) is None ==> r is Err,
        plain_scheme(url@) && fred_url_parts(url@) is Some ==> r is Ok,
{
    let c = fred::types::config::Config::from_url(url)?;
    let (kind, servers, service_name) = match &c.server {
        ServerConfig::Centralized { server } => (ServerKind::Centralized, std::slice::from_ref(server), None),
        ServerConfig::Clustered { hosts, .. } => (ServerKind::Clustered, hosts.as_slice(), None),
        ServerConfig::Sentinel { hosts, service_name, .. } => (ServerKind::Sentinel, hosts.as_slice(), Some(service_name.clone())),
    };
    let hosts = servers.iter().map(|s| (s.host.to_string(), s.port)).collect();
    let parts = FredConfigParts { kind, hosts, username: c.username.clone(), password: c.password.clone(), database: c.database, service_name };
    Ok((c, parts))
}

/// The start of the message when the client library refuses a URL.
pub open spec fn config_parse_prefix() -> Seq<char> {
    "配置解析失败: "@
}

/// A URL built for a connection without TLS has a plain scheme.
proof fn lemma_plain_scheme(c: ConnConfig, host: Seq<char>, port: u16)
    requires
        !c.tls,
        url_for(c, host, port) is Ok,
    ensures
        plain_scheme(url_for(c, host, port)->Ok_0),
{
    reveal_strlit("redis");
    reveal_strlit("redis-cluster");
    reveal_strlit("redis-sentinel");
    reveal_strlit("://");
    let u = url_for(c, host, port)->Ok_0;
    let sch = url_scheme(c.mode, c.tls);
    assert(u == sch + ("://"@ + url_credentials(c) + host + ":"@ + decimal(port as nat) + (if c.mode != ConnMode::Cluster {
        crate::model::db_text(c.database)
    } else {
        Seq::empty()
    }) + url_query(c)));
    assert(u.take(5) =~= "redis"@);
}

/// What a client configuration for a URL `u` promises: on success the
/// parts that the library reads from `u`; success wherever `u` asks for no
/// TLS and the library reads it; and a refusal message that starts with
/// `config_parse_prefix()`.
pub open spec fn config_outcome(
    u: Seq<char>,
    r: Result<(fred::types::config::Config, FredConfigParts), AppError>,
) -> bool {
    &&& r matches Ok((_, p)) ==> fred_url_parts(u) == Some(p@)
    &&& fred_url_parts(u) is None ==> r is Err
    &&& plain_scheme(u) && fred_url_parts(u) is Some ==> r is Ok
    &&& r matches Err(e) ==> config_parse_prefix().len() <= e.message@.len()
        && e.message@.take(config_parse_prefix().len() as int) == config_parse_prefix()
}

/// Hands the URL for `host:port` of `cfg` to the client library.
fn fred_config_for(cfg: &ConnConfig, host: &str, port: u16) -> (r: Result<
    (fred::types::config::Config, FredConfigParts),
    AppError,
>)
    ensures
        match url_for(*cfg, host@, port) {
            Ok(u) => config_outcome(u, r) && (!cfg.tls ==> plain_scheme(u)),
            Err(m) => r matches Err(e) && e.message@ == m,
        },
{
    let url = match build_url_for(cfg, host, port) {
        Ok(u) => u,
        Err(e) => return Err(e),
    };
    proof {
        if !cfg.tls {
            lemma_plain_scheme(*cfg, host@, port);
        }
    }
    match fred_config_from_url(url.as_str()) {
        Ok(c) => Ok(c),
        Err(err) => {
            let mut m = "配置解析失败: ".to_owned();
            let ghost p = m@;
            let text = crate::error::fred_error_text(&err);
            push_str(&mut m, text.as_str());
            assert(m@.take(p.len() as int) =~= p);
            Err(AppError::new(m))
        },
    }
}

/// The client configuration of a connection: its URL (see `url_of`) read
/// by the client library, with the parts it read.
pub fn build_fred_config(cfg: &ConnConfig) -> (r: Result<
    (fred::types::config::Config, FredConfigParts),
    AppError,
>)
    ensures
        match url_of(*cfg) {
            Ok(u) => config_outcome(u, r) && (!cfg.tls && fred_url_parts(u) is Some ==> r is Ok),
            Err(m) => r matches Err(e) && e.message@ == m,
        },
{
    fred_config_for(cfg, cfg.host.as_str(), cfg.port)
}

/// The client configuration of a replica of a master-slave connection:
/// the master's settings with the replica's address.
pub fn build_replica_config(master: &ConnConfig, replica: &NodeSpec) -> (r: Result<
    (fred::types::config::Config, FredConfigParts),
    AppError,
>)
    ensures
        match url_for(*master, replica.host@, replica.port) {
            Ok(u) => config_outcome(u, r) && (!master.tls && fred_url_parts(u) is Some ==> r is Ok),
            Err(m) => r matches Err(e) && e.message@ == m,
        },
{
    fred_config_for(master, replica.host.as_str(), replica.port)
}

/// The message of a failed connection: `连接 name (url) 失败: reason`.
pub open spec fn config_error_message(c: ConnConfig, reason: Seq<char>) -> Seq<char> {
    "连接 "@ + c.name@ + " ("@ + crate::model::display_url_of(c) + ") 失败: "@ + reason
}

/// The error of a failed connection, naming it by its masked URL.
pub fn config_error(config: &ConnConfig, e: AppError) -> (r: AppError)
    ensures
        r.message@ == config_error_message(*config, e.message@),
{
    let mut m = "连接 ".to_owned();
    push_str(&mut m, config.name.as_str());
    push_str(&mut m, " (");
    let url = config.display_url();
    push_str(&mut m, url.as_str());
    push_str(&mut m, ") 失败: ");
    push_str(&mut m, e.message.as_str());
    AppError::new(m)
}


// ---------------------------------------------------------------------------
// replies
// ---------------------------------------------------------------------------

/// A reply value of the Redis protocol.
#[derive(Debug)]
pub enum RespValue {
    Boolean(bool),
    Integer(i64),
    /// A double, held as the text that `Display` writes for it and as the
    /// JSON text that serde_json writes for it (`null` when not finite).
    Double { text: String, json: String },
    /// A text reply.
    Text(String),
    /// A binary reply.
    Bytes(Vec<u8>),
    Null,
    /// The reply to a command queued in a transaction.
    Queued,
    /// A map, as its entries: the key's bytes and the value.
    Dict(Vec<(Vec<u8>, RespValue)>),
    Array(Vec<RespValue>),
}

/// A JSON value.
#[derive(Debug)]
pub enum JsonValue {
    Null,
    Bool(bool),
    Int(i64),
    /// A floating-point number, held as its JSON text.
    Double(String),
    Str(String),
    Array(Vec<JsonValue>),
    /// An object, as its members in the order they were added.
    Object(Vec<(String, JsonValue)>),
}

/// The mathematical form of a JSON value.
pub enum JsonView {
    Null,
    Bool(bool),
    Int(i64),
    Double(Seq<char>),
    Str(Seq<char>),
    Array(Seq<JsonView>),
    Object(Seq<(Seq<char>, JsonView)>),
}

/// The mathematical form of `j`.
pub open spec fn json_view(j: JsonValue) -> JsonView
    decreases j,
{
    match j {
        JsonValue::Null => JsonView::Null,
        JsonValue::Bool(b) => JsonView::Bool(b),
        JsonValue::Int(i) => JsonView::Int(i),
        JsonValue::Double(d) => JsonView::Double(d@),
        JsonValue::Str(s) => JsonView::Str(s@),
        JsonValue::Array(items) => JsonView::Array(json_list_view(items@)),
        JsonValue::Object(members) => JsonView::Object(json_members_view(members@)),
    }
}

/// The mathematical forms of the items of a JSON array.
pub open spec fn json_list_view(items: Seq<JsonValue>) -> Seq<JsonView>
    decreases items,
{
    if items.len() == 0 {
        Seq::empty()
    } else {
        json_list_view(items.drop_last()).push(json_view(items.last()))
    }
}

/// The mathematical forms of the members of a JSON object.
pub open spec fn json_members_view(members: Seq<(String, JsonValue)>) -> Seq<(Seq<char>, JsonView)>
    decreases members,
{
    if members.len() == 0 {
        Seq::empty()
    } else {
        json_members_view(members.drop_last()).push((members.last().0@, json_view(members.last().1)))
    }
}

/// The text form of bytes (see `encoded_value_of`): the UTF-8 text, or the
/// Base64 text of bytes that are not UTF-8.
pub open spec fn display_text(bytes: Seq<u8>) -> Seq<char> {
    encoded_value_of(bytes).1
}

/// The JSON form of a reply (binary safe): bytes become their text form,
/// map keys too, `QUEUED` a string.
pub open spec fn json_of(v: RespValue) -> JsonView
    decreases v,
{
    match v {
        RespValue::Boolean(b) => JsonView::Bool(b),
        RespValue::Integer(i) => JsonView::Int(i),
        RespValue::Double { json, .. } => JsonView::Double(json@),
        RespValue::Text(s) => JsonView::Str(s@),
        RespValue::Bytes(b) => JsonView::Str(display_text(b@)),
        RespValue::Null => JsonView::Null,
        RespValue::Queued => JsonView::Str("QUEUED"@),
        RespValue::Dict(entries) => JsonView::Object(json_entries(entries@)),
        RespValue::Array(items) => JsonView::Array(json_items(items@)),
    }
}

/// The JSON forms of the items of an array reply.
pub open spec fn json_items(items: Seq<RespValue>) -> Seq<JsonView>
    decreases items,
{
    if items.len() == 0 {
        Seq::empty()
    } else {
        json_items(items.drop_last()).push(json_of(items.last()))
    }
}

/// The JSON members of the entries of a map reply.
pub open spec fn json_entries(entries: Seq<(Vec<u8>, RespValue)>) -> Seq<(Seq<char>, JsonView)>
    decreases entries,
{
    if entries.len() == 0 {
        Seq::empty()
    } else {
        json_entries(entries.drop_last()).push(
            (display_text(entries.last().0@), json_of(entries.last().1)),
        )
    }
}

/// The text form of bytes.
pub fn display_bytes(bytes: &[u8]) -> (r: EncodedValue)
    ensures
        (r.encoding@, r.value@) == encoded_value_of(bytes@),
{
    EncodedValue::from_bytes(bytes)
}

/// The JSON form of a reply (see `json_of`).
pub fn value_to_json(value: &RespValue) -> (r: JsonValue)
    ensures
        json_view(r) == json_of(*value),
    decreases value,
{
    match value {
        RespValue::Boolean(b) => JsonValue::Bool(*b),
        RespValue::Integer(i) => JsonValue::Int(*i),
        RespValue::Double { json, .. } => JsonValue::Double(json.clone()),
        RespValue::Text(s) => JsonValue::Str(s.clone()),
        RespValue::Bytes(b) => JsonValue::Str(display_bytes(b.as_slice()).value),
        RespValue::Null => JsonValue::Null,
        RespValue::Queued => JsonValue::Str("QUEUED".to_owned()),
        RespValue::Dict(entries) => {
            let mut out: Vec<(String, JsonValue)> = Vec::new();
            let mut i: usize = 0;
            while i < entries.len()
                invariant
                    i <= entries.len(),
                    *value == RespValue::Dict(*entries),
                    json_members_view(out@) == json_entries(entries@.take(i as int)),
                decreases entries.len() - i,
            {
                let key = display_bytes(entries[i].0.as_slice()).value;
                proof {
                    assert(decreases_to!(*value => value->Dict_0));
                    assert(value->Dict_0 == *entries);
                    assert(decreases_to!(*entries => entries@));
                    assert(decreases_to!(entries@ => entries@[i as int]));
                    assert(decreases_to!(entries@[i as int] => entries@[i as int].1));
                    assert(decreases_to!(*value => entries@[i as int].1));
                }
                let item = value_to_json(&entries[i].1);
                let ghost before = out@;
                out.push((key, item));
                proof {
                    assert(out@.drop_last() =~= before);
                    assert(entries@.take(i + 1).drop_last() =~= entries@.take(i as int));
                }
                i = i + 1;
            }
            assert(entries@.take(entries@.len() as int) =~= entries@);
            JsonValue::Object(out)
        },
        RespValue::Array(items) => {
            let mut out: Vec<JsonValue> = Vec::new();
            let mut i: usize = 0;
            while i < items.len()
                invariant
                    i <= items.len(),
                    *value == RespValue::Array(*items),
                    json_list_view(out@) == json_items(items@.take(i as int)),
                decreases items.len() - i,
            {
                proof {
                    assert(decreases_to!(*value => value->Array_0));
                    assert(value->Array_0 == *items);
                    assert(decreases_to!(*items => items@));
                    assert(decreases_to!(items@ => items@[i as int]));
                    assert(decreases_to!(*value => items@[i as int]));
                }
                let item = value_to_json(&items[i]);
                let ghost before = out@;
                out.push(item);
                proof {
                    assert(out@.drop_last() =~= before);
                    assert(items@.take(i + 1).drop_last() =~= items@.take(i as int));
                }
                i = i + 1;
            }
            assert(items@.take(items@.len() as int) =~= items@);
            JsonValue::Array(out)
        },
    }
}

/// The compact JSON text that serde_json writes for a JSON value (object
/// members sorted by name, a later member replacing an earlier one of the
/// same name; a `Double` whose text serde_json does not read as JSON is
/// written `null`).
pub uninterp spec fn json_text(v: JsonView) -> Seq<char>;

#[verifier::external_type_specification]
#[verifier::external_body]
pub struct ExSerdeJsonValue(serde_json::Value);

/// The serde_json value that stands for `v`, one for one (the conversion
/// half of `render_json`); a number text that serde_json does not read
/// becomes `null`.
#[verifier::external_body]
fn json_to_serde(v: &JsonValue) -> serde_json::Value {
    match v {
        JsonValue::Null => serde_json::Value::Null,
        JsonValue::Bool(b) => serde_json::Value::Bool(*b),
        JsonValue::Int(i) => serde_json::Value::from(*i),
        JsonValue::Double(t) => serde_json::from_str(t).unwrap_or(serde_json::Value::Null),
        JsonValue::Str(s) => serde_json::Value::String(s.clone()),
        JsonValue::Array(a) => serde_json::Value::Array(a.iter().map(json_to_serde).collect()),
        JsonValue::Object(m) => serde_json::Value::Object(
            m.iter().map(|(k, x)| (k.clone(), json_to_serde(x))).collect(),
        ),
    }
}

/// The JSON text of `v`, as serde_json's `Display` for its value writes it;
/// a `Double` whose text serde_json does not read becomes `null` first.
/// Claims only that the text is a function of `v` (`json_text`).
#[verifier::external_body]
pub(crate) fn render_json(v: &JsonValue) -> (r: String)
    ensures
        r@ == json_text(json_view(*v)),
{
    json_to_serde(v).to_string()
}

/// The JSON text of a reply.
pub fn reply_json_text(value: &RespValue) -> (r: String)
    ensures
        r@ == json_text(json_of(*value)),
{
    let j = value_to_json(value);
    render_json(&j)
}

// ---------------------------------------------------------------------------
// connections
// ---------------------------------------------------------------------------

/// The error of a connection id that is not connected.
pub fn missing_connection() -> (e: AppError)
    ensures
        e.message@ == "连接不存在，请先建立连接"@,
{
    AppError::from_str("连接不存在，请先建立连接")
}

/// A connection needs an id: the empty id is refused with
/// `连接 id 不能为空`.
pub fn check_conn_id(id: &str) -> (r: Result<(), AppError>)
    ensures
        id@.len() == 0 ==> (r matches Err(e) && e.message@ == "连接 id 不能为空"@),
        id@.len() > 0 ==> r is Ok,
{
    if id.is_empty() {
        Err(AppError::from_str("连接 id 不能为空"))
    } else {
        Ok(())
    }
}

/// The connect timeout of a pool: the configured one, at least one second.
pub fn connect_timeout_ms(configured: u64) -> (r: u64)
    ensures
        r == if configured < 1000 {
            1000
        } else {
            configured
        },
{
    if configured < 1000 {
        1000
    } else {
        configured
    }
}

/// How long setting a pool up may take: two seconds more than its connect
/// timeout.
pub fn init_timeout_ms(configured: u64) -> (r: u64)
    requires
        configured <= u64::MAX - 2000,
    ensures
        r == connect_timeout_ms_of(configured) + 2000,
{
    connect_timeout_ms(configured) + 2000
}

/// The connect timeout of a pool (see `connect_timeout_ms`).
pub open spec fn connect_timeout_ms_of(configured: u64) -> u64 {
    if configured < 1000 {
        1000
    } else {
        configured
    }
}

/// The number of connections of a pool: two for a main pool (one is kept
/// for subscriptions), one for a replica's.
pub fn pool_size(replica: bool) -> (r: usize)
    ensures
        r == if replica {
            1usize
        } else {
            2usize
        },
{
    if replica {
        1
    } else {
        2
    }
}

/// A new pool is usable only when `PING` answered `PONG`; otherwise it is
/// refused with `连接验证失败 (PING 无响应)`.
pub fn check_pong(pong: &str) -> (r: Result<(), AppError>)
    ensures
        pong@ == "PONG"@ ==> r is Ok,
        pong@ != "PONG"@ ==> (r matches Err(e) && e.message@ == "连接验证失败 (PING 无响应)"@),
{
    if crate::text::str_eq(pong, "PONG") {
        Ok(())
    } else {
        Err(AppError::from_str("连接验证失败 (PING 无响应)"))
    }
}

/// The pool that runs a command: the main pool for none, else replica `i`
/// of a master-slave connection with `n` replicas; refused with
/// `当前连接没有配置从库` when there are none and with `从库索引 i 无效`
/// when `i` is past them.
pub fn replica_choice(replica: Option<usize>, n: usize) -> (r: Result<Option<usize>, AppError>)
    ensures
        match replica {
            None => r == Ok::<Option<usize>, AppError>(None),
            Some(i) => if n == 0 {
                r matches Err(e) && e.message@ == "当前连接没有配置从库"@
            } else if i >= n {
                r matches Err(e) && e.message@ == "从库索引 "@ + decimal(i as nat) + " 无效"@
            } else {
                r == Ok::<Option<usize>, AppError>(Some(i))
            },
        },
{
    match replica {
        None => Ok(None),
        Some(i) => {
            if n == 0 {
                Err(AppError::from_str("当前连接没有配置从库"))
            } else if i >= n {
                let mut m = "从库索引 ".to_owned();
                push_u64(&mut m, i as u64);
                push_str(&mut m, " 无效");
                Err(AppError::new(m))
            } else {
                Ok(Some(i))
            }
        },
    }
}

/// A connection as the user interface lists it: its id, name and mode, the
/// state of its status code, its error and when it connected.
pub fn conn_status_info(config: &ConnConfig, code: u8, error: Option<String>, connected_at: u64) -> (r:
    ConnStatusInfo)
    ensures
        r.id@ == config.id@,
        r.name@ == config.name@,
        r.mode == config.mode,
        r.status == status_of_code(code),
        r.error == error,
        r.nodes@.len() == 0,
        r.databases is None,
        r.connected_at == Some(connected_at),
{
    ConnStatusInfo {
        id: crate::text::copy_string(&config.id),
        name: crate::text::copy_string(&config.name),
        mode: config.mode,
        status: status_from_code(code),
        error,
        nodes: Vec::new(),
        databases: None,
        connected_at: Some(connected_at),
    }
}

// ---------------------------------------------------------------------------
// cluster scans
// ---------------------------------------------------------------------------

/// `a` comes before `b` in the order of `String` (character by character,
/// a prefix first).
pub open spec fn text_less(a: Seq<char>, b: Seq<char>) -> bool
    decreases a.len(),
{
    if a.len() == 0 {
        b.len() > 0
    } else if b.len() == 0 {
        false
    } else if a[0] != b[0] {
        (a[0] as u32) < (b[0] as u32)
    } else {
        text_less(a.skip(1), b.skip(1))
    }
}

/// Whether `a` comes before `b` (see `text_less`).
pub fn text_lt(a: &str, b: &str) -> (r: bool)
    ensures
        r == text_less(a@, b@),
{
    let av = crate::text::chars_of(a);
    let bv = crate::text::chars_of(b);
    let mut i: usize = 0;
    assert(av@.skip(0) =~= av@);
    assert(bv@.skip(0) =~= bv@);
    while i < av.len() && i < bv.len()
        invariant
            i <= av@.len(),
            i <= bv@.len(),
            text_less(a@, b@) == text_less(av@.skip(i as int), bv@.skip(i as int)),
            av@ == a@,
            bv@ == b@,
        decreases av.len() - i,
    {
        assert(av@.skip(i as int)[0] == av@[i as int]);
        assert(bv@.skip(i as int)[0] == bv@[i as int]);
        if av[i] != bv[i] {
            return (av[i] as u32) < (bv[i] as u32);
        }
        proof {
            assert(av@.skip(i as int).skip(1) =~= av@.skip(i + 1));
            assert(bv@.skip(i as int).skip(1) =~= bv@.skip(i + 1));
        }
        i = i + 1;
    }
    i == av.len() && i < bv.len()
}

/// The cursor of a merged cluster scan after one more node answered
/// `next`: the larger of the two, a node that finished (`0`) leaving it.
pub open spec fn merge_cursor_of(max: Seq<char>, next: Seq<char>) -> Seq<char> {
    if next != "0"@ && text_less(max, next) {
        next
    } else {
        max
    }
}

/// The cursor that a cluster scan goes on from: `0` to start with, merged
/// with each node's cursor in turn (see `merge_cursor_of`).
pub open spec fn cluster_cursor_of(cursors: Seq<Seq<char>>) -> Seq<char>
    decreases cursors.len(),
{
    if cursors.len() == 0 {
        "0"@
    } else {
        merge_cursor_of(cluster_cursor_of(cursors.drop_last()), cursors.last())
    }
}

/// The keys of all pages, in order.
pub open spec fn all_keys(pages: Seq<(String, Vec<String>)>) -> Seq<Seq<char>>
    decreases pages.len(),
{
    if pages.len() == 0 {
        Seq::empty()
    } else {
        all_keys(pages.drop_last()) + pages.last().1@.map_values(|k: String| k@)
    }
}

/// A cluster scan needs a node to ask: none is refused with
/// `集群中没有可用节点`.
pub fn check_cluster_nodes(n: usize) -> (r: Result<(), AppError>)
    ensures
        n == 0 ==> (r matches Err(e) && e.message@ == "集群中没有可用节点"@),
        n > 0 ==> r is Ok,
{
    if n == 0 {
        Err(AppError::from_str("集群中没有可用节点"))
    } else {
        Ok(())
    }
}

/// Merges the pages that the nodes of a cluster gave for one scan step: the
/// cursor of `cluster_cursor_of`, and all keys in node order.
pub fn merge_cluster_pages(pages: Vec<(String, Vec<String>)>) -> (r: (String, Vec<String>))
    ensures
        r.0@ == cluster_cursor_of(pages@.map_values(|p: (String, Vec<String>)| p.0@)),
        r.1@.map_values(|k: String| k@) == all_keys(pages@),
{
    let ghost cs = pages@.map_values(|p: (String, Vec<String>)| p.0@);
    let mut max = "0".to_owned();
    let mut keys: Vec<String> = Vec::new();
    let mut rest = pages;
    let ghost all = rest@;
    let total = rest.len();
    assert(all.len() == total);
    let mut i: usize = 0;
    while rest.len() > 0
        invariant
            i + rest@.len() == all.len(),
            all.len() <= usize::MAX,
            rest@ == all.skip(i as int),
            cs == all.map_values(|p: (String, Vec<String>)| p.0@),
            max@ == cluster_cursor_of(cs.take(i as int)),
            keys@.map_values(|k: String| k@) == all_keys(all.take(i as int)),
        decreases rest.len(),
    {
        let (cursor, mut page) = rest.remove(0);
        assert(all[i as int] == (cursor, page));
        proof {
            assert(cs.take(i + 1).drop_last() =~= cs.take(i as int));
            assert(cs.take(i + 1).last() == cursor@);
            assert(all.take(i + 1).drop_last() =~= all.take(i as int));
            assert(all.take(i + 1).last() == (cursor, page));
        }
        if !crate::text::str_eq(cursor.as_str(), "0") && text_lt(max.as_str(), cursor.as_str()) {
            max = cursor;
        }
        let ghost before = keys@.map_values(|k: String| k@);
        let ghost added = page@.map_values(|k: String| k@);
        keys.append(&mut page);
        assert(keys@.map_values(|k: String| k@) =~= before + added);
        assert(rest@ =~= all.skip(i + 1));
        i = i + 1;
    }
    assert(cs.take(i as int) =~= cs);
    assert(all.take(i as int) =~= all);
    (max, keys)
}

/// The error of a cluster node whose scan failed.
pub fn node_scan_error(server: &str, reason: &str) -> (e: AppError)
    ensures
        e.message@ == "节点 "@ + server@ + " 扫描失败: "@ + reason@,
{
    let mut m = "节点 ".to_owned();
    push_str(&mut m, server);
    push_str(&mut m, " 扫描失败: ");
    push_str(&mut m, reason);
    AppError::new(m)
}

} // verus!
