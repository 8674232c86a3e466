//! Proxy nodes: the records every subscription format is parsed into.
use std::hash::{Hash, Hasher};
use vstd::prelude::*;
use crate::json::{json_to_text, spec_json_text, JsonValue, JsonView};
use crate::text::{chars_eq, chars_of, string_from_str};

verus! {

#[derive(Debug, Clone, Copy, PartialEq, Eq, Hash, Structural)]
pub enum ProxyProtocol {
    Ss,
    Vmess,
    Vless,
    Trojan,
    Hysteria2,
    Tuic,
    AnyTls,
}

#[derive(Debug, Clone, Copy, PartialEq, Eq, Hash, Structural)]
pub enum ProxyTransport {
    Tcp,
    Ws,
    Grpc,
    H2,
    Quic,
}

#[derive(Debug, PartialEq)]
pub struct TlsConfig {
    pub enabled: bool,
    pub server_name: Option<String>,
}

pub struct TlsView {
    pub enabled: bool,
    pub server_name: Option<Seq<char>>,
}

pub open spec fn opt_view(s: Option<String>) -> Option<Seq<char>> {
    match s {
        Some(x) => Some(x@),
        None => None,
    }
}

impl View for TlsConfig {
    type V = TlsView;

    open spec fn view(&self) -> TlsView {
        TlsView { enabled: self.enabled, server_name: opt_view(self.server_name) }
    }
}

/// Protocol-specific node fields, keyed by name (a `BTreeMap<String, Value>` in use):
/// inserting a key replaces its earlier value.
#[derive(Debug)]
pub struct NodeExtra {
    entries: Vec<(String, JsonValue)>,
}

/// The map an entry list denotes: later entries override earlier ones.
pub open spec fn entries_map(e: Seq<(String, JsonValue)>) -> Map<Seq<char>, JsonView>
    decreases e.len(),
{
    if e.len() == 0 {
        Map::empty()
    } else {
        entries_map(e.drop_last()).insert(e.last().0@, e.last().1@)
    }
}

impl View for NodeExtra {
    type V = Map<Seq<char>, JsonView>;

    closed spec fn view(&self) -> Map<Seq<char>, JsonView> {
        entries_map(self.entries@)
    }
}

proof fn lemma_entries_map_take(e: Seq<(String, JsonValue)>, key: Seq<char>, k: int)
    requires
        0 <= k <= e.len(),
        forall|j: int| k <= j < e.len() ==> (#[trigger] e[j]).0@ != key,
    ensures
        entries_map(e).contains_key(key) == entries_map(e.take(k)).contains_key(key),
        entries_map(e).contains_key(key) ==> entries_map(e)[key] == entries_map(e.take(k))[key],
    decreases e.len() - k,
{
    if k < e.len() {
        lemma_entries_map_take(e.drop_last(), key, k);
        assert(e.drop_last().take(k) =~= e.take(k));
    } else {
        assert(e.take(k) =~= e);
    }
}

impl NodeExtra {
    pub fn new() -> (r: NodeExtra)
        ensures
            r@ == Map::<Seq<char>, JsonView>::empty(),
    {
        NodeExtra { entries: Vec::new() }
    }

    /// `BTreeMap::insert`.
    pub fn insert(&mut self, key: String, value: JsonValue)
        ensures
            final(self)@ == old(self)@.insert(key@, value@),
    {
        let ghost before = self.entries@;
        self.entries.push((key, value));
        assert(self.entries@.drop_last() =~= before);
    }

    /// `BTreeMap::get`.
    pub fn get(&self, key: &str) -> (r: Option<&JsonValue>)
        ensures
            r matches Some(x) ==> self@.contains_key(key@) && self@[key@] == x@,
            r is None ==> !self@.contains_key(key@),
    {
        let kv = chars_of(key);
        let mut k: usize = self.entries.len();
        while k > 0
            invariant
                k <= self.entries@.len(),
                kv@ == key@,
                forall|j: int| k <= j < self.entries@.len() ==> (#[trigger] self.entries@[j]).0@ != key@,
            decreases k,
        {
            let ek = chars_of(self.entries[k - 1].0.as_str());
            if chars_eq(ek.as_slice(), kv.as_slice()) {
                proof {
                    lemma_entries_map_take(self.entries@, key@, k as int);
                    assert(self.entries@.take(k as int).drop_last() =~= self.entries@.take(k - 1));
                }
                return Some(&self.entries[k - 1].1);
            }
            k = k - 1;
        }
        proof {
            lemma_entries_map_take(self.entries@, key@, 0);
        }
        None
    }

    /// Whether `key` has a value (`BTreeMap::contains_key`).
    pub fn contains_key(&self, key: &str) -> (r: bool)
        ensures
            r == self@.contains_key(key@),
    {
        self.get(key).is_some()
    }
}

#[derive(Debug)]
pub struct ProxyNode {
    pub id: String,
    pub name: String,
    pub protocol: ProxyProtocol,
    pub server: String,
    pub port: u16,
    pub transport: ProxyTransport,
    pub tls: TlsConfig,
    pub extra: NodeExtra,
    pub source_id: String,
    pub tags: Vec<String>,
    pub region: Option<String>,
    pub updated_at: String,
}

pub struct NodeView {
    pub id: Seq<char>,
    pub name: Seq<char>,
    pub protocol: ProxyProtocol,
    pub server: Seq<char>,
    pub port: u16,
    pub transport: ProxyTransport,
    pub tls: TlsView,
    pub extra: Map<Seq<char>, JsonView>,
    pub source_id: Seq<char>,
    pub tags: Seq<Seq<char>>,
    pub region: Option<Seq<char>>,
    pub updated_at: Seq<char>,
}

impl View for ProxyNode {
    type V = NodeView;

    open spec fn view(&self) -> NodeView {
        NodeView {
            id: self.id@,
            name: self.name@,
            protocol: self.protocol,
            server: self.server@,
            port: self.port,
            transport: self.transport,
            tls: self.tls@,
            extra: self.extra@,
            source_id: self.source_id@,
            tags: self.tags@.map_values(|t: String| t@),
            region: opt_view(self.region),
            updated_at: self.updated_at@,
        }
    }
}

/// The position of a protocol among the variants of `ProxyProtocol`, which is
/// the discriminant its derived `Hash` feeds to a hasher.
pub open spec fn protocol_index(protocol: ProxyProtocol) -> isize {
    match protocol {
        ProxyProtocol::Ss => 0,
        ProxyProtocol::Vmess => 1,
        ProxyProtocol::Vless => 2,
        ProxyProtocol::Trojan => 3,
        ProxyProtocol::Hysteria2 => 4,
        ProxyProtocol::Tuic => 5,
        ProxyProtocol::AnyTls => 6,
    }
}

pub fn protocol_index_exec(protocol: ProxyProtocol) -> (r: isize)
    ensures
        r == protocol_index(protocol),
{
    match protocol {
        ProxyProtocol::Ss => 0,
        ProxyProtocol::Vmess => 1,
        ProxyProtocol::Vless => 2,
        ProxyProtocol::Trojan => 3,
        ProxyProtocol::Hysteria2 => 4,
        ProxyProtocol::Tuic => 5,
        ProxyProtocol::AnyTls => 6,
    }
}

/// What `std::hash::DefaultHasher` gives after hashing, in order, the source,
/// the protocol's discriminant, the server, the port and the name.
pub uninterp spec fn spec_identity_hash(source_id: Seq<char>, protocol: isize, server: Seq<char>, port: u16, name: Seq<char>) -> u64;

/// The same with the credential text hashed after the name.
pub uninterp spec fn spec_identity_hash_with(
    source_id: Seq<char>,
    protocol: isize,
    server: Seq<char>,
    port: u16,
    name: Seq<char>,
    credential: Seq<char>,
) -> u64;

/// Hashes the identity fields with `std::hash::DefaultHasher` (SipHash with
/// fixed keys) and returns `finish()`. The contract claims only that the hash
/// is a function of the fields.
#[verifier::external_body]
fn identity_hash(source_id: &str, protocol: isize, server: &str, port: u16, name: &str) -> (r: u64)
    ensures
        r == spec_identity_hash(source_id@, protocol, server@, port, name@),
{
    let mut hasher = std::collections::hash_map::DefaultHasher::new();
    source_id.hash(&mut hasher);
    protocol.hash(&mut hasher);
    server.hash(&mut hasher);
    port.hash(&mut hasher);
    name.hash(&mut hasher);
    hasher.finish()
}

/// As `identity_hash`, with the credential text hashed last.
#[verifier::external_body]
fn identity_hash_with(source_id: &str, protocol: isize, server: &str, port: u16, name: &str, credential: &str) -> (r: u64)
    ensures
        r == spec_identity_hash_with(source_id@, protocol, server@, port, name@, credential@),
{
    let mut hasher = std::collections::hash_map::DefaultHasher::new();
    source_id.hash(&mut hasher);
    protocol.hash(&mut hasher);
    server.hash(&mut hasher);
    port.hash(&mut hasher);
    name.hash(&mut hasher);
    credential.hash(&mut hasher);
    hasher.finish()
}

/// The lower-case hexadecimal digit of a value below 16.
pub open spec fn lower_hex_char(d: nat) -> char {
    if d < 10 {
        ((d + 48) as u8) as char
    } else {
        ((d + 87) as u8) as char
    }
}

/// The last `n` hexadecimal digits of `h`, zero-padded (`{:0n$x}` for values that fit).
pub open spec fn hex_digits(h: nat, n: nat) -> Seq<char>
    decreases n,
{
    if n == 0 {
        Seq::empty()
    } else {
        hex_digits(h / 16, (n - 1) as nat).push(lower_hex_char(h % 16))
    }
}

pub proof fn lemma_hex_digits_len(h: nat, n: nat)
    ensures
        hex_digits(h, n).len() == n,
    decreases n,
{
    if n > 0 {
        lemma_hex_digits_len(h / 16, (n - 1) as nat);
    }
}

fn hex_digits_exec(h: u64, n: usize) -> (r: Vec<char>)
    ensures
        r@ == hex_digits(h as nat, n as nat),
    decreases n,
{
    if n == 0 {
        Vec::new()
    } else {
        let mut v = hex_digits_exec(h / 16, n - 1);
        let d = (h % 16) as u8;
        let c = if d < 10 {
            (d + 48) as char
        } else {
            (d + 87) as char
        };
        v.push(c);
        v
    }
}

/// The identifier of a node: `node-` and the 16 lower-case hex digits of the
/// hash of its identity (the credential included when there is one).
pub open spec fn spec_node_id(
    source_id: Seq<char>,
    protocol: ProxyProtocol,
    server: Seq<char>,
    port: u16,
    name: Seq<char>,
    credential: Option<Seq<char>>,
) -> Seq<char> {
    let h = match credential {
        Some(c) => spec_identity_hash_with(source_id, protocol_index(protocol), server, port, name, c),
        None => spec_identity_hash(source_id, protocol_index(protocol), server, port, name),
    };
    "node-"@ + hex_digits(h as nat, 16)
}

/// Derives a node's identifier from its identity (see `spec_node_id`).
pub fn build_proxy_node_id(
    source_id: &str,
    protocol: ProxyProtocol,
    server: &str,
    port: u16,
    name: &str,
    credential: Option<&str>,
) -> (r: String)
    ensures
        r@ == spec_node_id(
            source_id@,
            protocol,
            server@,
            port,
            name@,
            match credential {
                Some(c) => Some(c@),
                None => None,
            },
        ),
        r@.len() == 21,
{
    let index = protocol_index_exec(protocol);
    let h = match credential {
        Some(c) => identity_hash_with(source_id, index, server, port, name, c),
        None => identity_hash(source_id, index, server, port, name),
    };
    let digits = hex_digits_exec(h, 16);
    proof {
        lemma_hex_digits_len(h as nat, 16);
        reveal_strlit("node-");
    }
    let mut s = string_from_str("node-");
    let t = crate::text::string_of(digits.as_slice());
    s.append(t.as_str());
    s
}

/// The credential a node identifier covers: `uuid`, else `password`, printed as JSON.
pub open spec fn node_credential(extra: Map<Seq<char>, JsonView>) -> Option<Seq<char>> {
    if extra.contains_key("uuid"@) {
        Some(spec_json_text(extra["uuid"@]))
    } else if extra.contains_key("password"@) {
        Some(spec_json_text(extra["password"@]))
    } else {
        None
    }
}

/// The node `build_proxy_node` assembles from its parts.
pub open spec fn spec_build_node(
    source_id: Seq<char>,
    name: Seq<char>,
    protocol: ProxyProtocol,
    server: Seq<char>,
    port: u16,
    transport: ProxyTransport,
    tls: TlsView,
    extra: Map<Seq<char>, JsonView>,
    updated_at: Seq<char>,
) -> NodeView {
    NodeView {
        id: spec_node_id(source_id, protocol, server, port, name, node_credential(extra)),
        name,
        protocol,
        server,
        port,
        transport,
        tls,
        extra,
        source_id,
        tags: Seq::empty(),
        region: None,
        updated_at,
    }
}

/// Assembles a node: no tags, no region, and an identifier derived from its identity.
pub fn build_proxy_node(
    source_id: &str,
    name: String,
    protocol: ProxyProtocol,
    server: String,
    port: u16,
    transport: ProxyTransport,
    tls: TlsConfig,
    extra: NodeExtra,
    updated_at: &str,
) -> (r: ProxyNode)
    ensures
        r@ == spec_build_node(
            source_id@,
            name@,
            protocol,
            server@,
            port,
            transport,
            tls@,
            extra@,
            updated_at@,
        ),
{
    let credential: Option<String> = match extra.get("uuid") {
        Some(v) => Some(json_to_text(v)),
        None => match extra.get("password") {
            Some(v) => Some(json_to_text(v)),
            None => None,
        },
    };
    let id = match &credential {
        Some(c) => build_proxy_node_id(
            source_id,
            protocol,
            server.as_str(),
            port,
            name.as_str(),
            Some(c.as_str()),
        ),
        None => build_proxy_node_id(source_id, protocol, server.as_str(), port, name.as_str(), None),
    };
    let tags: Vec<String> = Vec::new();
    let r = ProxyNode {
        id,
        name,
        protocol,
        server,
        port,
        transport,
        tls,
        extra,
        source_id: string_from_str(source_id),
        tags,
        region: None,
        updated_at: string_from_str(updated_at),
    };
    assert(r@.tags =~= Seq::<Seq<char>>::empty());
    assert(r@.id == spec_node_id(source_id@, protocol, r@.server, port, r@.name, node_credential(r@.extra)));
    assert(r@.tls == tls@);
    r
}

} // verus!
