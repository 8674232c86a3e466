//! Clash configurations: proxies become nodes, and the rest of the document is
//! kept as a base configuration.
use vstd::prelude::*;
use crate::error::{parse_failure, CoreError};
use crate::json::{JsonValue, JsonView};
use crate::node::{build_proxy_node, spec_build_node, NodeExtra, NodeView, ProxyNode, ProxyProtocol, ProxyTransport, TlsConfig, TlsView};
use crate::singbox::{first_missing, has_required_fields, missing_field_message, required_fields};
use crate::subscription::nodes_view;
use crate::text::{chars_eq_str, chars_of, lower, lower_chars, string_from_str, string_of, trim, trim_chars};
use crate::uri::{concat, insert_optional_bool, insert_optional_u64, map_transport, opt_str_view, put_bool, put_list, put_str, put_u64, spec_map_transport, string_array, strings_view};
use crate::yaml::{
    lemma_yaml_entry_views, parse_yaml, spec_yaml_parse, spec_yaml_text, tags_nonempty, y_as_map, y_as_str, yaml_entry_views,
    yaml_map_get, yaml_to_text, ymap_get, YamlValue, YamlView,
};

verus! {

/// The `ws-opts` of a Clash proxy.
#[derive(Debug)]
pub struct ClashWsOptions {
    pub path: Option<String>,
    /// Header names and values, names distinct.
    pub headers: Option<Vec<(String, String)>>,
}

/// The `grpc-opts` of a Clash proxy.
#[derive(Debug)]
pub struct ClashGrpcOptions {
    pub grpc_service_name: Option<String>,
}

/// The `h2-opts` of a Clash proxy.
#[derive(Debug)]
pub struct ClashH2Options {
    pub host: Option<Vec<String>>,
    pub path: Option<String>,
}

/// One entry of a Clash `proxies` list, as declared in the document.
#[derive(Debug)]
pub struct ClashProxy {
    pub name: String,
    pub proxy_type: String,
    pub server: String,
    pub port: u16,
    pub cipher: Option<String>,
    pub password: Option<String>,
    pub uuid: Option<String>,
    pub alter_id: Option<u64>,
    pub tls: Option<bool>,
    pub sni: Option<String>,
    pub servername: Option<String>,
    pub network: Option<String>,
    pub flow: Option<String>,
    pub skip_cert_verify: Option<bool>,
    pub client_fingerprint: Option<String>,
    pub ws_opts: Option<ClashWsOptions>,
    pub grpc_opts: Option<ClashGrpcOptions>,
    pub h2_opts: Option<ClashH2Options>,
    pub alpn: Option<Vec<String>>,
    pub obfs: Option<String>,
    pub obfs_password: Option<String>,
    pub congestion_controller: Option<String>,
    pub udp_relay_mode: Option<String>,
}

/// The protocol a Clash `type` names (trimmed, any case).
pub open spec fn clash_protocol(t: Seq<char>) -> Option<ProxyProtocol> {
    let k = lower(trim(t));
    if k == "ss"@ {
        Some(ProxyProtocol::Ss)
    } else if k == "vmess"@ {
        Some(ProxyProtocol::Vmess)
    } else if k == "vless"@ {
        Some(ProxyProtocol::Vless)
    } else if k == "trojan"@ {
        Some(ProxyProtocol::Trojan)
    } else if k == "hysteria2"@ {
        Some(ProxyProtocol::Hysteria2)
    } else if k == "tuic"@ {
        Some(ProxyProtocol::Tuic)
    } else {
        None
    }
}

/// A value trimmed, unless it is then empty.
pub open spec fn trimmed(v: Option<Seq<char>>) -> Option<Seq<char>> {
    match v {
        Some(s) => if trim(s).len() > 0 {
            Some(trim(s))
        } else {
            None
        },
        None => None,
    }
}

/// The trimmed non-empty values of a list.
pub open spec fn trimmed_list(vals: Seq<Seq<char>>) -> Seq<Seq<char>>
    decreases vals.len(),
{
    if vals.len() == 0 {
        Seq::empty()
    } else {
        let rest = trimmed_list(vals.drop_last());
        if trim(vals.last()).len() > 0 {
            rest.push(trim(vals.last()))
        } else {
            rest
        }
    }
}

pub open spec fn opt_trimmed_list(v: Option<Vec<String>>) -> Option<Seq<Seq<char>>> {
    match v {
        Some(vals) => Some(trimmed_list(strings_view(vals@))),
        None => None,
    }
}

/// The value of the first header named `name`.
pub open spec fn header_get(headers: Seq<(String, String)>, name: Seq<char>) -> Option<Seq<char>>
    decreases headers.len(),
{
    if headers.len() == 0 {
        None
    } else if headers[0].0@ == name {
        Some(headers[0].1@)
    } else {
        header_get(headers.drop_first(), name)
    }
}

/// TLS is on by default for every protocol but shadowsocks.
pub open spec fn clash_tls_default(p: ProxyProtocol) -> bool {
    p != ProxyProtocol::Ss
}

pub open spec fn clash_transport(p: ProxyProtocol, network: Option<Seq<char>>) -> ProxyTransport {
    if p == ProxyProtocol::Hysteria2 || p == ProxyProtocol::Tuic {
        ProxyTransport::Quic
    } else {
        spec_map_transport(trimmed(network))
    }
}

/// The protocol fields of a Clash proxy.
pub open spec fn clash_extra(x: ClashProxy) -> Map<Seq<char>, JsonView> {
    let m = Map::<Seq<char>, JsonView>::empty();
    let m = put_str(m, "cipher"@, trimmed(opt_str_view(x.cipher)));
    let m = put_str(m, "password"@, trimmed(opt_str_view(x.password)));
    let m = put_str(m, "uuid"@, trimmed(opt_str_view(x.uuid)));
    let m = put_u64(m, "alter_id"@, x.alter_id);
    let m = put_str(m, "flow"@, trimmed(opt_str_view(x.flow)));
    let m = put_bool(m, "skip_cert_verify"@, x.skip_cert_verify);
    let m = put_str(m, "client_fingerprint"@, trimmed(opt_str_view(x.client_fingerprint)));
    let m = put_list(m, "alpn"@, opt_trimmed_list(x.alpn));
    let m = put_str(m, "obfs"@, trimmed(opt_str_view(x.obfs)));
    let m = put_str(m, "obfs_password"@, trimmed(opt_str_view(x.obfs_password)));
    let m = put_str(m, "congestion_control"@, trimmed(opt_str_view(x.congestion_controller)));
    let m = put_str(m, "udp_relay_mode"@, trimmed(opt_str_view(x.udp_relay_mode)));
    let m = match x.ws_opts {
        Some(ws) => {
            let m = put_str(m, "path"@, trimmed(opt_str_view(ws.path)));
            match ws.headers {
                Some(h) => put_str(
                    m,
                    "host"@,
                    trimmed(
                        match header_get(h@, "Host"@) {
                            Some(v) => Some(v),
                            None => header_get(h@, "host"@),
                        },
                    ),
                ),
                None => m,
            }
        },
        None => m,
    };
    let m = match x.grpc_opts {
        Some(g) => put_str(m, "grpc_service_name"@, trimmed(opt_str_view(g.grpc_service_name))),
        None => m,
    };
    match x.h2_opts {
        Some(h2) => put_list(put_str(m, "path"@, trimmed(opt_str_view(h2.path))), "host"@, opt_trimmed_list(h2.host)),
        None => m,
    }
}

/// The node a Clash proxy denotes, when its type is supported, its name and
/// server are not blank and it has the fields its protocol needs.
pub open spec fn spec_clash_node(x: ClashProxy, source_id: Seq<char>, updated_at: Seq<char>) -> Option<NodeView> {
    match clash_protocol(x.proxy_type@) {
        None => None,
        Some(p) => if trim(x.name@).len() == 0 || trim(x.server@).len() == 0 || !has_required_fields(p, clash_extra(x)) {
            None
        } else {
            Some(
                spec_build_node(
                    source_id,
                    trim(x.name@),
                    p,
                    trim(x.server@),
                    x.port,
                    clash_transport(p, opt_str_view(x.network)),
                    TlsView {
                        enabled: match x.tls {
                            Some(b) => b,
                            None => clash_tls_default(p),
                        },
                        server_name: match x.servername {
                            Some(s) => Some(s@),
                            None => opt_str_view(x.sni),
                        },
                    },
                    clash_extra(x),
                    updated_at,
                ),
            )
        },
    }
}

fn clash_protocol_exec(t: &str) -> (r: Option<ProxyProtocol>)
    ensures
        r == clash_protocol(t@),
{
    let c = chars_of(t);
    let tr = trim_chars(c.as_slice());
    let k = lower_chars(tr.as_slice());
    let s = k.as_slice();
    if chars_eq_str(s, "ss") {
        Some(ProxyProtocol::Ss)
    } else if chars_eq_str(s, "vmess") {
        Some(ProxyProtocol::Vmess)
    } else if chars_eq_str(s, "vless") {
        Some(ProxyProtocol::Vless)
    } else if chars_eq_str(s, "trojan") {
        Some(ProxyProtocol::Trojan)
    } else if chars_eq_str(s, "hysteria2") {
        Some(ProxyProtocol::Hysteria2)
    } else if chars_eq_str(s, "tuic") {
        Some(ProxyProtocol::Tuic)
    } else {
        None
    }
}

fn trimmed_exec(v: &Option<String>) -> (r: Option<String>)
    ensures
        opt_str_view(r) == trimmed(opt_str_view(*v)),
{
    match v {
        Some(s) => {
            let c = chars_of(s.as_str());
            let t = trim_chars(c.as_slice());
            if t.len() > 0 {
                Some(string_of(t.as_slice()))
            } else {
                None
            }
        },
        None => None,
    }
}

fn trimmed_list_exec(vals: &Vec<String>) -> (r: Vec<String>)
    ensures
        strings_view(r@) == trimmed_list(strings_view(vals@)),
{
    let ghost sv = strings_view(vals@);
    let mut out: Vec<String> = Vec::new();
    let mut i: usize = 0;
    while i < vals.len()
        invariant
            i <= vals@.len(),
            sv == strings_view(vals@),
            strings_view(out@) == trimmed_list(sv.take(i as int)),
        decreases vals.len() - i,
    {
        proof {
            assert(sv.take(i + 1).drop_last() =~= sv.take(i as int));
            assert(sv.take(i + 1).last() == vals@[i as int]@);
        }
        let c = chars_of(vals[i].as_str());
        let t = trim_chars(c.as_slice());
        if t.len() > 0 {
            let ghost before = out@;
            out.push(string_of(t.as_slice()));
            assert(strings_view(out@) =~= strings_view(before).push(t@));
        }
        i = i + 1;
    }
    assert(sv.take(sv.len() as int) =~= sv);
    out
}

fn put_trimmed(extra: &mut NodeExtra, key: &str, value: &Option<String>)
    ensures
        final(extra)@ == put_str(old(extra)@, key@, trimmed(opt_str_view(*value))),
{
    if let Some(v) = trimmed_exec(value) {
        extra.insert(string_from_str(key), JsonValue::String(v));
    }
}

fn put_trimmed_list(extra: &mut NodeExtra, key: &str, values: &Option<Vec<String>>)
    ensures
        final(extra)@ == put_list(
            old(extra)@,
            key@,
            match values {
                Some(v) => Some(trimmed_list(strings_view(v@))),
                None => None,
            },
        ),
{
    if let Some(v) = values {
        let t = trimmed_list_exec(v);
        if t.len() > 0 {
            extra.insert(string_from_str(key), string_array(t));
        }
    }
}

fn header_get_exec(headers: &Vec<(String, String)>, name: &str) -> (r: Option<String>)
    ensures
        opt_str_view(r) == header_get(headers@, name@),
{
    let mut i: usize = 0;
    assert(headers@.skip(0) =~= headers@);
    while i < headers.len()
        invariant
            i <= headers@.len(),
            header_get(headers@, name@) == header_get(headers@.skip(i as int), name@),
        decreases headers.len() - i,
    {
        assert(headers@.skip(i as int)[0] == headers@[i as int]);
        assert(headers@.skip(i as int).drop_first() =~= headers@.skip(i + 1));
        let c = chars_of(headers[i].0.as_str());
        if chars_eq_str(c.as_slice(), name) {
            return Some(headers[i].1.clone());
        }
        i = i + 1;
    }
    None
}

fn clash_extra_exec(x: &ClashProxy) -> (r: NodeExtra)
    ensures
        r@ == clash_extra(*x),
{
    let mut extra = NodeExtra::new();
    put_trimmed(&mut extra, "cipher", &x.cipher);
    put_trimmed(&mut extra, "password", &x.password);
    put_trimmed(&mut extra, "uuid", &x.uuid);
    insert_optional_u64(&mut extra, "alter_id", x.alter_id);
    put_trimmed(&mut extra, "flow", &x.flow);
    insert_optional_bool(&mut extra, "skip_cert_verify", x.skip_cert_verify);
    put_trimmed(&mut extra, "client_fingerprint", &x.client_fingerprint);
    put_trimmed_list(&mut extra, "alpn", &x.alpn);
    put_trimmed(&mut extra, "obfs", &x.obfs);
    put_trimmed(&mut extra, "obfs_password", &x.obfs_password);
    put_trimmed(&mut extra, "congestion_control", &x.congestion_controller);
    put_trimmed(&mut extra, "udp_relay_mode", &x.udp_relay_mode);
    if let Some(ws) = &x.ws_opts {
        put_trimmed(&mut extra, "path", &ws.path);
        if let Some(h) = &ws.headers {
            let host = match header_get_exec(h, "Host") {
                Some(v) => Some(v),
                None => header_get_exec(h, "host"),
            };
            put_trimmed(&mut extra, "host", &host);
        }
    }
    if let Some(g) = &x.grpc_opts {
        put_trimmed(&mut extra, "grpc_service_name", &g.grpc_service_name);
    }
    if let Some(h2) = &x.h2_opts {
        put_trimmed(&mut extra, "path", &h2.path);
        put_trimmed_list(&mut extra, "host", &h2.host);
    }
    extra
}

fn clash_missing_field(field: &str) -> (e: CoreError)
    ensures
        e matches CoreError::SubscriptionParse(m) && m@ == "Clash 节点缺少必要字段："@ + field@,
{
    CoreError::SubscriptionParse(concat("Clash 节点缺少必要字段：", field))
}

/// A trimmed field that must not be blank.
pub fn require_non_empty(value: String, field: &str) -> (r: Result<String, CoreError>)
    ensures
        r matches Ok(s) ==> s@ == trim(value@) && s@.len() > 0,
        r is Err <==> trim(value@).len() == 0,
        r matches Err(e) ==> (e matches CoreError::SubscriptionParse(m) && m@ == "Clash 节点缺少必要字段："@ + field@),
{
    let c = chars_of(value.as_str());
    let t = trim_chars(c.as_slice());
    if t.len() == 0 {
        Err(clash_missing_field(field))
    } else {
        Ok(string_of(t.as_slice()))
    }
}

/// The message for a Clash proxy that is refused: an unsupported type, a
/// blank name or server, or the first field its protocol needs that is missing.
pub open spec fn spec_clash_error(x: ClashProxy) -> Seq<char> {
    let prefix = "Clash 节点缺少必要字段："@;
    match clash_protocol(x.proxy_type@) {
        None => "不支持的 Clash 节点类型："@ + x.proxy_type@,
        Some(p) => if trim(x.name@).len() == 0 {
            prefix + "name"@
        } else if trim(x.server@).len() == 0 {
            prefix + "server"@
        } else {
            missing_field_message(prefix, required_fields(p), clash_extra(x), trim(x.name@))
        },
    }
}

/// Turns a Clash proxy into a node.
pub fn parse_clash_proxy(proxy: &ClashProxy, source_id: &str, updated_at: &str) -> (r: Result<ProxyNode, CoreError>)
    ensures
        r matches Ok(n) ==> spec_clash_node(*proxy, source_id@, updated_at@) == Some(n@),
        r is Err ==> spec_clash_node(*proxy, source_id@, updated_at@) is None,
        r matches Err(e) ==> parse_failure(e, spec_clash_error(*proxy)),
{
    let protocol = match clash_protocol_exec(proxy.proxy_type.as_str()) {
        Some(p) => p,
        None => return Err(CoreError::SubscriptionParse(concat("不支持的 Clash 节点类型：", proxy.proxy_type.as_str()))),
    };
    let extra = clash_extra_exec(proxy);
    let name = match require_non_empty(proxy.name.clone(), "name") {
        Ok(n) => n,
        Err(e) => return Err(e),
    };
    let server = match require_non_empty(proxy.server.clone(), "server") {
        Ok(s) => s,
        Err(e) => return Err(e),
    };
    let transport = if protocol == ProxyProtocol::Hysteria2 || protocol == ProxyProtocol::Tuic {
        ProxyTransport::Quic
    } else {
        let network = trimmed_exec(&proxy.network);
        match network {
            Some(n) => map_transport(Some(n.as_str())),
            None => map_transport(None),
        }
    };
    let tls = TlsConfig {
        enabled: match proxy.tls {
            Some(b) => b,
            None => protocol != ProxyProtocol::Ss,
        },
        server_name: match &proxy.servername {
            Some(s) => Some(s.clone()),
            None => match &proxy.sni {
                Some(s) => Some(s.clone()),
                None => None,
            },
        },
    };
    let keys: Vec<&'static str> = match protocol {
        ProxyProtocol::Ss => vec!["cipher", "password"],
        ProxyProtocol::Vmess | ProxyProtocol::Vless => vec!["uuid"],
        ProxyProtocol::Tuic => vec!["uuid", "password"],
        _ => vec!["password"],
    };
    assert(keys@.map_values(|k: &str| k@) =~= required_fields(protocol));
    let ghost fields = required_fields(protocol);
    assert(fields.skip(0) =~= fields);
    let mut i: usize = 0;
    while i < keys.len()
        invariant
            i <= keys@.len(),
            extra@ == clash_extra(*proxy),
            clash_protocol(proxy.proxy_type@) == Some(protocol),
            fields == required_fields(protocol),
            keys@.map_values(|k: &str| k@) == required_fields(protocol),
            forall|j: int| 0 <= j < i ==> extra@.contains_key(#[trigger] required_fields(protocol)[j]),
            first_missing(fields, extra@) == first_missing(fields.skip(i as int), extra@),
            name@ == trim(proxy.name@),
            trim(proxy.name@).len() > 0,
            trim(proxy.server@).len() > 0,
        decreases keys.len() - i,
    {
        assert(required_fields(protocol)[i as int] == keys@[i as int]@);
        assert(fields.skip(i as int)[0] == fields[i as int]);
        assert(fields.skip(i as int).drop_first() =~= fields.skip(i + 1));
        if !extra.contains_key(keys[i]) {
            assert(!extra@.contains_key(required_fields(protocol)[i as int]));
            assert(!has_required_fields(protocol, clash_extra(*proxy)));
            let head = concat("Clash 节点缺少必要字段：", keys[i]);
            let with_name = concat(head.as_str(), " (");
            let with_name = concat(with_name.as_str(), name.as_str());
            return Err(CoreError::SubscriptionParse(concat(with_name.as_str(), ")")));
        }
        i = i + 1;
    }
    Ok(build_proxy_node(source_id, name, protocol, server, proxy.port, transport, tls, extra, updated_at))
}

/// The nodes of decoded Clash proxies, in order; entries that failed to decode
/// (`Err`) or to convert are skipped.
pub open spec fn clash_nodes(items: Seq<Result<ClashProxy, String>>, source_id: Seq<char>, updated_at: Seq<char>) -> Seq<NodeView>
    decreases items.len(),
{
    if items.len() == 0 {
        Seq::empty()
    } else {
        let rest = clash_nodes(items.drop_last(), source_id, updated_at);
        match items.last() {
            Ok(x) => match spec_clash_node(x, source_id, updated_at) {
                Some(n) => rest.push(n),
                None => rest,
            },
            Err(_) => rest,
        }
    }
}

/// Converts decoded Clash proxies into nodes stamped `updated_at`.
pub fn parse_clash_nodes(items: &Vec<Result<ClashProxy, String>>, source_id: &str, updated_at: &str) -> (r: Vec<ProxyNode>)
    ensures
        nodes_view(r@) == clash_nodes(items@, source_id@, updated_at@),
{
    let mut nodes: Vec<ProxyNode> = Vec::new();
    let mut i: usize = 0;
    while i < items.len()
        invariant
            i <= items@.len(),
            nodes_view(nodes@) == clash_nodes(items@.take(i as int), source_id@, updated_at@),
        decreases items.len() - i,
    {
        proof {
            assert(items@.take(i + 1).drop_last() =~= items@.take(i as int));
            assert(items@.take(i + 1).last() == items@[i as int]);
        }
        match &items[i] {
            Ok(proxy) => {
                match parse_clash_proxy(proxy, source_id, updated_at) {
                    Ok(node) => {
                        let ghost before = nodes@;
                        nodes.push(node);
                        assert(nodes_view(nodes@) =~= nodes_view(before).push(node@));
                    },
                    Err(_) => {},
                }
            },
            Err(_) => {},
        }
        i = i + 1;
    }
    assert(items@.take(items@.len() as int) =~= items@);
    nodes
}

// ---------------------------------------------------------------------------
// The document
// ---------------------------------------------------------------------------

/// The top-level keys that make a mapping a Clash document.
pub open spec fn spec_looks_like_clash(entries: Seq<(YamlView, YamlView)>) -> bool {
    ymap_get(entries, "proxies"@) is Some || ymap_get(entries, "proxy-groups"@) is Some || ymap_get(
        entries,
        "rules"@,
    ) is Some
}

/// The top-level mapping of a Clash document.
pub open spec fn spec_clash_root(payload: Seq<char>) -> Option<Seq<(YamlView, YamlView)>> {
    match spec_yaml_parse(payload) {
        Some(root) => match y_as_map(root) {
            Some(m) => if spec_looks_like_clash(m) {
                Some(m)
            } else {
                None
            },
            None => None,
        },
        None => None,
    }
}

pub fn looks_like_clash_payload(entries: &Vec<(YamlValue, YamlValue)>) -> (r: bool)
    ensures
        r == spec_looks_like_clash(yaml_entry_views(entries@)),
{
    yaml_map_get(entries, "proxies").is_some() || yaml_map_get(entries, "proxy-groups").is_some() || yaml_map_get(
        entries,
        "rules",
    ).is_some()
}

/// Reads a payload as a Clash document: a value whose mapping names proxies,
/// proxy groups or rules.
pub fn parse_clash_root(payload: &str) -> (r: Option<YamlValue>)
    ensures
        r matches Some(v) ==> spec_clash_root(payload@) is Some && y_as_map(v@) == spec_clash_root(payload@)
            && tags_nonempty(v@),
        r is None ==> spec_clash_root(payload@) is None,
{
    let root = match parse_yaml(payload) {
        Some(v) => v,
        None => return None,
    };
    let looks = match root.as_mapping() {
        Some(entries) => looks_like_clash_payload(entries),
        None => false,
    };
    if looks {
        Some(root)
    } else {
        None
    }
}

proof fn lemma_untagged_tags(v: YamlView)
    requires
        tags_nonempty(v),
    ensures
        tags_nonempty(crate::yaml::untag(v)),
    decreases v,
{
    if let YamlView::Tagged(_, inner) = v {
        lemma_untagged_tags(*inner);
    }
}

/// The keys left out of the base configuration.
pub open spec fn node_section_key(k: YamlView) -> bool {
    match y_as_str(k) {
        Some(s) => trim(s) == "proxies"@ || trim(s) == "proxy-groups"@ || trim(s) == "rules"@,
        None => false,
    }
}

/// The entries of the document other than its proxies, groups and rules.
pub open spec fn base_entries(entries: Seq<(YamlView, YamlView)>) -> Seq<(YamlView, YamlView)>
    decreases entries.len(),
{
    if entries.len() == 0 {
        Seq::empty()
    } else {
        let rest = base_entries(entries.drop_last());
        if node_section_key(entries.last().0) {
            rest
        } else {
            rest.push(entries.last())
        }
    }
}

/// The message for a base configuration that cannot be printed.
pub open spec fn spec_base_config_error(entries: Seq<(YamlView, YamlView)>) -> Seq<char> {
    "序列化 Clash 母版基础配置失败："@ + crate::yaml::spec_yaml_error(YamlView::Dict(base_entries(entries)))
}

/// The base configuration: the other entries printed as YAML; `Some(None)`
/// when there are none, `None` when printing fails.
pub open spec fn spec_base_config(entries: Seq<(YamlView, YamlView)>) -> Option<Option<Seq<char>>> {
    let b = base_entries(entries);
    if b.len() == 0 {
        Some(None)
    } else {
        match spec_yaml_text(YamlView::Dict(b)) {
            Some(t) => Some(Some(t)),
            None => None,
        }
    }
}

fn is_node_section_key(k: &YamlValue) -> (r: bool)
    ensures
        r == node_section_key(k@),
{
    match k.as_str() {
        Some(s) => {
            let c = chars_of(s.as_str());
            let t = trim_chars(c.as_slice());
            chars_eq_str(t.as_slice(), "proxies") || chars_eq_str(t.as_slice(), "proxy-groups") || chars_eq_str(
                t.as_slice(),
                "rules",
            )
        },
        None => false,
    }
}

/// Prints the entries of a Clash document other than its proxies, proxy
/// groups and rules, which a generated configuration is built on.
pub fn build_base_config_yaml(entries: &Vec<(YamlValue, YamlValue)>) -> (r: Result<Option<String>, CoreError>)
    requires
        crate::yaml::tags_entries(yaml_entry_views(entries@)),
    ensures
        match r {
            Ok(Some(t)) => spec_base_config(yaml_entry_views(entries@)) == Some(Some(t@)),
            Ok(None) => spec_base_config(yaml_entry_views(entries@)) == Some(None::<Seq<char>>),
            Err(e) => spec_base_config(yaml_entry_views(entries@)) is None && (e matches CoreError::ConfigInvalid(m)
                && m@ == spec_base_config_error(yaml_entry_views(entries@))),
        },
{
    proof {
        lemma_yaml_entry_views(entries@);
    }
    let ghost ev = yaml_entry_views(entries@);
    let mut base: Vec<(YamlValue, YamlValue)> = Vec::new();
    let mut i: usize = 0;
    while i < entries.len()
        invariant
            i <= entries@.len(),
            ev == yaml_entry_views(entries@),
            ev.len() == entries@.len(),
            forall|k: int| 0 <= k < entries@.len() ==> #[trigger] ev[k] == (entries@[k].0@, entries@[k].1@),
            crate::yaml::tags_entries(ev),
            yaml_entry_views(base@) == base_entries(ev.take(i as int)),
        decreases entries.len() - i,
    {
        proof {
            assert(ev.take(i + 1).drop_last() =~= ev.take(i as int));
            assert(ev.take(i + 1).last() == ev[i as int]);
        }
        if !is_node_section_key(&entries[i].0) {
            let k = crate::yaml::copy_yaml(&entries[i].0);
            let v = crate::yaml::copy_yaml(&entries[i].1);
            let ghost before = base@;
            base.push((k, v));
            assert(base@.drop_last() =~= before);
        }
        i = i + 1;
    }
    assert(ev.take(ev.len() as int) =~= ev);
    proof {
        lemma_yaml_entry_views(base@);
    }
    if base.len() == 0 {
        return Ok(None);
    }
    let doc = YamlValue::Mapping(base);
    proof {
        lemma_base_tags(ev);
    }
    match yaml_to_text(&doc) {
        Ok(t) => Ok(Some(t)),
        Err(message) => Err(CoreError::ConfigInvalid(concat("序列化 Clash 母版基础配置失败：", message.as_str()))),
    }
}

proof fn lemma_base_tags(ev: Seq<(YamlView, YamlView)>)
    requires
        crate::yaml::tags_entries(ev),
    ensures
        crate::yaml::tags_entries(base_entries(ev)),
    decreases ev.len(),
{
    if ev.len() > 0 {
        lemma_base_tags(ev.drop_last());
        let b = base_entries(ev);
        if !node_section_key(ev.last().0) {
            assert(b.drop_last() =~= base_entries(ev.drop_last()));
        }
    }
}

/// The `proxies` list of a Clash document.
pub fn clash_proxies(root: &YamlValue) -> (r: Option<&Vec<YamlValue>>)
    ensures
        r matches Some(items) ==> y_as_map(root@) matches Some(m) && ymap_get(m, "proxies"@) matches Some(p)
            && crate::yaml::y_as_list(p) == Some(crate::yaml::yaml_views(items@)),
        r is None ==> !(y_as_map(root@) matches Some(m) && ymap_get(m, "proxies"@) matches Some(p)
            && crate::yaml::y_as_list(p) is Some),
{
    match root.as_mapping() {
        Some(entries) => match yaml_map_get(entries, "proxies") {
            Some(p) => p.as_sequence(),
            None => None,
        },
        None => None,
    }
}

/// The base configuration of a Clash document (see `build_base_config_yaml`);
/// `Ok(None)` when the document is not a mapping.
pub fn clash_base_config(root: &YamlValue) -> (r: Result<Option<String>, CoreError>)
    requires
        tags_nonempty(root@),
    ensures
        match y_as_map(root@) {
            Some(m) => match r {
                Ok(Some(t)) => spec_base_config(m) == Some(Some(t@)),
                Ok(None) => spec_base_config(m) == Some(None::<Seq<char>>),
                Err(e) => spec_base_config(m) is None && (e matches CoreError::ConfigInvalid(msg)
                    && msg@ == spec_base_config_error(m)),
            },
            None => r matches Ok(None),
        },
{
    proof {
        lemma_untagged_tags(root@);
    }
    match root.as_mapping() {
        Some(entries) => build_base_config_yaml(entries),
        None => Ok(None),
    }
}

/// The nodes and base configuration of a Clash payload.
#[derive(Debug)]
pub struct ParsedClashPayload {
    pub nodes: Vec<ProxyNode>,
    pub base_config_yaml: Option<String>,
}

} // verus!
