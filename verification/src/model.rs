//! The data model: connection configurations, connection states and the
//! binary-safe text form of stored values.
use vstd::prelude::*;
use vstd::utf8::*;

use crate::encoding::{base64_standard, base64_standard_decode, base64_standard_decoding};
use crate::error::AppError;
use crate::text::{decimal, decimal_int, push_i64, push_str, push_u64};

pub use crate::encoding::base64_encode;

verus! {

/// A node address (`host:port`).
#[derive(Debug, Clone)]
pub struct NodeSpec {
    pub host: String,
    pub port: u16,
}

/// How a connection reaches its servers.
#[derive(Debug, Clone, Copy, PartialEq, Eq, Structural)]
pub enum ConnMode {
    /// One server.
    Single,
    /// A master with replicas that can serve reads.
    MasterSlave,
    /// Servers found through Sentinel.
    Sentinel,
    /// A Redis Cluster.
    Cluster,
    /// A Memcached server.
    Memcached,
}

/// A saved connection.
#[derive(Debug, Clone)]
pub struct ConnConfig {
    pub id: String,
    pub name: String,
    pub mode: ConnMode,
    pub host: String,
    pub port: u16,
    pub username: Option<String>,
    pub password: Option<String>,
    pub database: Option<i64>,
    /// Further nodes: the replicas (master-slave), the other sentinels
    /// (sentinel), or further seed nodes (cluster).
    pub nodes: Vec<NodeSpec>,
    /// The Sentinel master name.
    pub service_name: Option<String>,
    pub tls: bool,
    /// Connect timeout in milliseconds.
    pub connect_timeout_ms: u64,
}

/// The state of a connection.
#[derive(Debug, Clone, Copy, PartialEq, Eq, Structural)]
pub enum ConnStatus {
    Disconnected,
    Connecting,
    Connected,
    Error,
}

/// A connection as the user interface lists it.
#[derive(Debug, Clone)]
pub struct ConnStatusInfo {
    pub id: String,
    pub name: String,
    pub mode: ConnMode,
    pub status: ConnStatus,
    pub error: Option<String>,
    /// The roles of the nodes (master-slave).
    pub nodes: Vec<NodeStatus>,
    /// The databases (single, master-slave, sentinel).
    pub databases: Option<Vec<i64>>,
    pub connected_at: Option<u64>,
}

/// A node of a topology.
#[derive(Debug, Clone)]
pub struct NodeStatus {
    pub host: String,
    pub port: u16,
    /// `master`, `replica` or `sentinel`.
    pub role: String,
    /// `up`, `down`, or the state that the server reports.
    pub status: String,
    /// Further information, such as the replication offset.
    pub extra: Option<String>,
}

/// A stored value in text form: the UTF-8 text itself, or the Base64 text
/// of bytes that are not UTF-8.
#[derive(Debug, Clone)]
pub struct EncodedValue {
    /// `"utf8"` or `"base64"`.
    pub encoding: String,
    pub value: String,
}

/// The outcome of importing connections.
#[derive(Debug, Clone, Copy, PartialEq, Eq, Structural)]
pub struct ImportResult {
    pub imported: usize,
    pub duplicated: usize,
}

/// `host:port`.
pub open spec fn node_text(n: NodeSpec) -> Seq<char> {
    n.host@ + ":"@ + decimal(n.port as nat)
}

/// `,host:port` for each node, in order.
pub open spec fn nodes_text(ns: Seq<NodeSpec>) -> Seq<char>
    decreases ns.len(),
{
    if ns.len() == 0 {
        Seq::empty()
    } else {
        nodes_text(ns.drop_last()) + ","@ + node_text(ns.last())
    }
}

/// The URL scheme that a display URL starts with.
pub open spec fn display_scheme(mode: ConnMode, tls: bool) -> Seq<char> {
    match mode {
        ConnMode::Cluster => if tls {
            "rediss-cluster"@
        } else {
            "redis-cluster"@
        },
        ConnMode::Sentinel => if tls {
            "rediss-sentinel"@
        } else {
            "redis-sentinel"@
        },
        ConnMode::Memcached => "memcached"@,
        _ => if tls {
            "rediss"@
        } else {
            "redis"@
        },
    }
}

/// `/db`, when a database is set.
pub open spec fn db_text(db: Option<i64>) -> Seq<char> {
    match db {
        Some(d) => "/"@ + decimal_int(d as int),
        None => Seq::empty(),
    }
}

/// ` (sentinel: name)` for a sentinel connection with a master name.
pub open spec fn sentinel_text(c: ConnConfig) -> Seq<char> {
    if c.mode == ConnMode::Sentinel && c.service_name is Some {
        " (sentinel: "@ + c.service_name->0@ + ")"@
    } else {
        Seq::empty()
    }
}

/// The URL shown for a connection: credentials masked as `***@`, the
/// password never written.
pub open spec fn display_url_of(c: ConnConfig) -> Seq<char> {
    let auth = if c.mode != ConnMode::Memcached && (c.username is Some || c.password is Some) {
        "***@"@
    } else {
        Seq::empty()
    };
    let base = display_scheme(c.mode, c.tls) + "://"@ + auth + c.host@ + ":"@ + decimal(
        c.port as nat,
    );
    if c.mode == ConnMode::Memcached {
        base
    } else {
        base + db_text(c.database) + nodes_text(c.nodes@) + sentinel_text(c)
    }
}

impl NodeSpec {
    /// `host:port`, as the node is displayed.
    pub fn to_text(&self) -> (r: String)
        ensures
            r@ == node_text(*self),
    {
        let mut r = self.host.clone();
        push_str(&mut r, ":");
        push_u64(&mut r, self.port as u64);
        r
    }
}

/// Appends `,host:port` for each node.
fn push_nodes(s: &mut String, nodes: &Vec<NodeSpec>)
    ensures
        final(s)@ == old(s)@ + nodes_text(nodes@),
{
    let ghost s0 = s@;
    let mut i: usize = 0;
    while i < nodes.len()
        invariant
            i <= nodes.len(),
            s@ == s0 + nodes_text(nodes@.take(i as int)),
        decreases nodes.len() - i,
    {
        push_str(s, ",");
        let t = nodes[i].to_text();
        push_str(s, t.as_str());
        i = i + 1;
        assert(nodes@.take(i as int).drop_last() =~= nodes@.take(i - 1));
    }
    assert(nodes@.take(nodes@.len() as int) =~= nodes@);
}

impl Default for ConnConfig {
    /// A single local server on the default port, database 0, a 10 s
    /// connect timeout.
    fn default() -> (c: Self)
        ensures
            c.id@ == Seq::<char>::empty(),
            c.name@ == Seq::<char>::empty(),
            c.mode == ConnMode::Single,
            c.host@ == "127.0.0.1"@,
            c.port == 6379,
            c.username is None,
            c.password is None,
            c.database == Some(0i64),
            c.nodes@.len() == 0,
            c.service_name is None,
            !c.tls,
            c.connect_timeout_ms == 10_000,
    {
        ConnConfig {
            id: String::new(),
            name: String::new(),
            mode: ConnMode::Single,
            host: "127.0.0.1".to_owned(),
            port: 6379,
            username: None,
            password: None,
            database: Some(0),
            nodes: Vec::new(),
            service_name: None,
            tls: false,
            connect_timeout_ms: 10_000,
        }
    }
}

impl ConnConfig {
    /// The URL shown for this connection, with the credentials masked.
    pub fn display_url(&self) -> (r: String)
        ensures
            r@ == display_url_of(*self),
    {
        let scheme = match (self.mode, self.tls) {
            (ConnMode::Cluster, true) => "rediss-cluster",
            (ConnMode::Cluster, false) => "redis-cluster",
            (ConnMode::Sentinel, true) => "rediss-sentinel",
            (ConnMode::Sentinel, false) => "redis-sentinel",
            (ConnMode::Memcached, _) => "memcached",
            (_, true) => "rediss",
            (_, false) => "redis",
        };
        let mut url = scheme.to_owned();
        push_str(&mut url, "://");
        if self.mode != ConnMode::Memcached {
            if self.username.is_some() || self.password.is_some() {
                push_str(&mut url, "***@");
            }
        }
        push_str(&mut url, self.host.as_str());
        push_str(&mut url, ":");
        push_u64(&mut url, self.port as u64);
        if self.mode != ConnMode::Memcached {
            if let Some(db) = self.database {
                push_str(&mut url, "/");
                push_i64(&mut url, db);
            }
            push_nodes(&mut url, &self.nodes);
            if self.mode == ConnMode::Sentinel {
                if let Some(sn) = &self.service_name {
                    push_str(&mut url, " (sentinel: ");
                    push_str(&mut url, sn.as_str());
                    push_str(&mut url, ")");
                }
            }
        }
        url
    }
}

/// The text form of `bytes`: the UTF-8 text when they are valid UTF-8,
/// their standard Base64 text otherwise.
pub open spec fn encoded_value_of(bytes: Seq<u8>) -> (Seq<char>, Seq<char>) {
    if valid_utf8(bytes) {
        ("utf8"@, decode_utf8(bytes))
    } else {
        ("base64"@, base64_standard(bytes))
    }
}

impl EncodedValue {
    /// The text form of `bytes` (binary safe).
    pub fn from_bytes(bytes: &[u8]) -> (r: EncodedValue)
        ensures
            (r.encoding@, r.value@) == encoded_value_of(bytes@),
            r.encoding@ == "base64"@ ==> base64_standard_decoding(r.value@) == Some(bytes@),
    {
        proof {
            crate::encoding::lemma_base64_round_trip(bytes@);
            reveal_strlit("utf8");
            reveal_strlit("base64");
            assert("utf8"@[0] != "base64"@[0]);
            assert("utf8"@ != "base64"@);
        }
        match crate::encoding::utf8_to_string(bytes) {
            Some(s) => EncodedValue { encoding: "utf8".to_owned(), value: s },
            None => EncodedValue {
                encoding: "base64".to_owned(),
                value: base64_encode(bytes),
            },
        }
    }

    /// A value that is text already.
    pub fn from_string(s: String) -> (r: EncodedValue)
        ensures
            r.encoding@ == "utf8"@,
            r.value@ == s@,
    {
        EncodedValue { encoding: "utf8".to_owned(), value: s }
    }
}

/// The message of a failed Base64 decoding, before the crate's own text.
pub open spec fn base64_error_prefix() -> Seq<char> {
    "Base64 解码失败: "@
}

/// Decodes standard Base64 text; a refused text gives an error whose
/// message starts with `Base64 解码失败: `.
pub fn base64_decode(s: &str) -> (r: Result<Vec<u8>, AppError>)
    ensures
        match r {
            Ok(v) => base64_standard_decoding(s@) == Some(v@),
            Err(e) => base64_standard_decoding(s@) is None && e.message@.len()
                >= base64_error_prefix().len() && e.message@.take(
                base64_error_prefix().len() as int,
            ) == base64_error_prefix(),
        },
{
    match base64_standard_decode(s) {
        Ok(v) => Ok(v),
        Err(text) => {
            let mut m = "Base64 解码失败: ".to_owned();
            let ghost p = m@;
            push_str(&mut m, text.as_str());
            assert(m@.take(p.len() as int) =~= p);
            Err(AppError::new(m))
        },
    }
}

} // verus!
