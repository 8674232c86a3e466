//! sing-box configurations: proxy outbounds become nodes.
use vstd::prelude::*;
use crate::clock::now_rfc3339;
use crate::error::{parse_failure, CoreError};
use crate::json::{json_views, lemma_json_views, parse_json, spec_json_parse, view_get, view_is_object, JsonValue, JsonView};
use crate::node::{build_proxy_node, spec_build_node, NodeExtra, NodeView, ProxyNode, ProxyProtocol, ProxyTransport, TlsConfig, TlsView};
use crate::subscription::nodes_view;
use crate::text::{chars_eq_str, chars_of, string_from_str, trim, trim_chars};
use crate::uri::{
    concat, insert_optional_bool, insert_optional_list, insert_optional_string, insert_optional_u64, opt_str_view,
    opt_strings_view, put_bool, put_list, put_str, put_u64, strings_view,
};
use crate::vmess::{
    get_bool, get_text, get_u64, member_text, opt_bool, opt_u64, or_else, value_text, value_to_string,
};

verus! {

/// `Option<&Value>` taken by its view.
pub open spec fn jopt(v: Option<&JsonValue>) -> Option<JsonView> {
    match v {
        Some(x) => Some(x@),
        None => None,
    }
}

/// The texts (see `value_text`) of the items of a list.
pub open spec fn texts_of(items: Seq<JsonView>) -> Seq<Seq<char>>
    decreases items.len(),
{
    if items.len() == 0 {
        Seq::empty()
    } else {
        let rest = texts_of(items.drop_last());
        match value_text(items.last()) {
            Some(t) => rest.push(t),
            None => rest,
        }
    }
}

/// A value read as a non-empty list of texts: one text, or the texts of a list.
pub open spec fn sb_list(v: JsonView) -> Option<Seq<Seq<char>>> {
    match value_text(v) {
        Some(s) => Some(seq![s]),
        None => match v {
            JsonView::Array(items) => if texts_of(items).len() > 0 {
                Some(texts_of(items))
            } else {
                None
            },
            _ => None,
        },
    }
}

pub open spec fn sb_list_opt(v: Option<JsonView>) -> Option<Seq<Seq<char>>> {
    match v {
        Some(x) => sb_list(x),
        None => None,
    }
}

/// The protocol an outbound `type` names; `None` for groups and unknown types.
pub open spec fn sb_protocol(t: Seq<char>) -> Option<ProxyProtocol> {
    if t == "shadowsocks"@ {
        Some(ProxyProtocol::Ss)
    } else if t == "vmess"@ {
        Some(ProxyProtocol::Vmess)
    } else if t == "vless"@ {
        Some(ProxyProtocol::Vless)
    } else if t == "trojan"@ {
        Some(ProxyProtocol::Trojan)
    } else if t == "hysteria2"@ {
        Some(ProxyProtocol::Hysteria2)
    } else if t == "tuic"@ {
        Some(ProxyProtocol::Tuic)
    } else if t == "anytls"@ {
        Some(ProxyProtocol::AnyTls)
    } else {
        None
    }
}

/// The transport: QUIC for hysteria2 and TUIC, else the `type` of the
/// `transport` object (`http` is HTTP/2), TCP by default.
pub open spec fn sb_transport(protocol: ProxyProtocol, transport: Option<JsonView>) -> ProxyTransport {
    if protocol == ProxyProtocol::Hysteria2 || protocol == ProxyProtocol::Tuic {
        ProxyTransport::Quic
    } else {
        match transport {
            Some(t) => match view_get(t, "type"@) {
                Some(JsonView::Str(s)) => {
                    let k = trim(s);
                    if k == "ws"@ {
                        ProxyTransport::Ws
                    } else if k == "grpc"@ {
                        ProxyTransport::Grpc
                    } else if k == "http"@ {
                        ProxyTransport::H2
                    } else if k == "quic"@ {
                        ProxyTransport::Quic
                    } else {
                        ProxyTransport::Tcp
                    }
                },
                _ => ProxyTransport::Tcp,
            },
            None => ProxyTransport::Tcp,
        }
    }
}

/// TLS from the `tls` object: on unless `enabled` says otherwise; off without the object.
pub open spec fn sb_tls(tls: Option<JsonView>) -> TlsView {
    match tls {
        Some(t) => if view_is_object(t) {
            TlsView {
                enabled: match opt_bool(view_get(t, "enabled"@)) {
                    Some(b) => b,
                    None => true,
                },
                server_name: member_text(t, "server_name"@),
            }
        } else {
            TlsView { enabled: false, server_name: None }
        },
        None => TlsView { enabled: false, server_name: None },
    }
}

/// The protocol-specific fields.
pub open spec fn sb_protocol_extra(o: JsonView, protocol: ProxyProtocol) -> Map<Seq<char>, JsonView> {
    let m = Map::<Seq<char>, JsonView>::empty();
    match protocol {
        ProxyProtocol::Ss => put_str(put_str(m, "cipher"@, member_text(o, "method"@)), "password"@, member_text(o, "password"@)),
        ProxyProtocol::Vmess => put_u64(
            put_str(
                put_str(m, "uuid"@, member_text(o, "uuid"@)),
                "cipher"@,
                or_else(member_text(o, "security"@), Some("auto"@)),
            ),
            "alter_id"@,
            opt_u64(view_get(o, "alter_id"@)),
        ),
        ProxyProtocol::Vless => put_str(put_str(m, "uuid"@, member_text(o, "uuid"@)), "flow"@, member_text(o, "flow"@)),
        ProxyProtocol::Trojan => put_str(m, "password"@, member_text(o, "password"@)),
        ProxyProtocol::Hysteria2 => {
            let m = put_str(m, "password"@, member_text(o, "password"@));
            match view_get(o, "obfs"@) {
                Some(ob) => if view_is_object(ob) {
                    put_str(put_str(m, "obfs"@, member_text(ob, "type"@)), "obfs_password"@, member_text(ob, "password"@))
                } else {
                    m
                },
                None => m,
            }
        },
        ProxyProtocol::Tuic => put_str(
            put_str(
                put_str(put_str(m, "uuid"@, member_text(o, "uuid"@)), "password"@, member_text(o, "password"@)),
                "congestion_control"@,
                member_text(o, "congestion_control"@),
            ),
            "udp_relay_mode"@,
            member_text(o, "udp_relay_mode"@),
        ),
        ProxyProtocol::AnyTls => put_str(m, "password"@, member_text(o, "password"@)),
    }
}

/// The fields of the `transport` object.
pub open spec fn sb_transport_extra(m: Map<Seq<char>, JsonView>, tr: JsonView, transport: ProxyTransport) -> Map<
    Seq<char>,
    JsonView,
> {
    let m = put_str(m, "path"@, member_text(tr, "path"@));
    let m = put_str(m, "service_name"@, member_text(tr, "service_name"@));
    let m = put_u64(m, "max_early_data"@, opt_u64(view_get(tr, "max_early_data"@)));
    let m = put_str(m, "early_data_header_name"@, member_text(tr, "early_data_header_name"@));
    let m = match view_get(tr, "headers"@) {
        Some(h) => if view_is_object(h) {
            put_str(m, "host"@, member_text(h, "Host"@))
        } else {
            m
        },
        None => m,
    };
    match view_get(tr, "host"@) {
        Some(host) => if transport == ProxyTransport::Ws {
            put_str(m, "host"@, value_text(host))
        } else if transport == ProxyTransport::H2 {
            put_list(m, "host"@, sb_list(host))
        } else {
            m
        },
        None => m,
    }
}

/// Every protocol-specific field of an outbound.
pub open spec fn sb_extra(o: JsonView, protocol: ProxyProtocol, transport: ProxyTransport) -> Map<Seq<char>, JsonView> {
    let m = sb_protocol_extra(o, protocol);
    let m = match view_get(o, "transport"@) {
        Some(tr) => if view_is_object(tr) {
            sb_transport_extra(m, tr, transport)
        } else {
            m
        },
        None => m,
    };
    match view_get(o, "tls"@) {
        Some(t) => if view_is_object(t) {
            put_list(put_bool(m, "skip_cert_verify"@, opt_bool(view_get(t, "insecure"@))), "alpn"@, sb_list_opt(view_get(t, "alpn"@)))
        } else {
            m
        },
        None => m,
    }
}

/// The fields a node of the protocol cannot do without.
pub open spec fn required_fields(protocol: ProxyProtocol) -> Seq<Seq<char>> {
    match protocol {
        ProxyProtocol::Ss => seq!["cipher"@, "password"@],
        ProxyProtocol::Vmess => seq!["uuid"@],
        ProxyProtocol::Vless => seq!["uuid"@],
        ProxyProtocol::Trojan => seq!["password"@],
        ProxyProtocol::Hysteria2 => seq!["password"@],
        ProxyProtocol::Tuic => seq!["uuid"@, "password"@],
        ProxyProtocol::AnyTls => seq!["password"@],
    }
}

pub open spec fn has_required_fields(protocol: ProxyProtocol, extra: Map<Seq<char>, JsonView>) -> bool {
    forall|i: int| 0 <= i < required_fields(protocol).len() ==> extra.contains_key(#[trigger] required_fields(protocol)[i])
}

/// The first of `fields` that `extra` lacks.
pub open spec fn first_missing(fields: Seq<Seq<char>>, extra: Map<Seq<char>, JsonView>) -> Option<Seq<char>>
    decreases fields.len(),
{
    if fields.len() == 0 {
        None
    } else if !extra.contains_key(fields[0]) {
        Some(fields[0])
    } else {
        first_missing(fields.drop_first(), extra)
    }
}

/// `{prefix}{field} ({name})` for the first of `fields` that `extra` lacks.
pub open spec fn missing_field_message(
    prefix: Seq<char>,
    fields: Seq<Seq<char>>,
    extra: Map<Seq<char>, JsonView>,
    name: Seq<char>,
) -> Seq<char> {
    match first_missing(fields, extra) {
        Some(f) => prefix + f + " ("@ + name + ")"@,
        None => Seq::empty(),
    }
}

/// The `server_port` member, at most 65535.
pub open spec fn sb_port(o: JsonView) -> Option<u16> {
    match opt_u64(view_get(o, "server_port"@)) {
        Some(u) => if u <= 65535 {
            Some(u as u16)
        } else {
            None
        },
        None => None,
    }
}

/// What an outbound yields: `None` when it is malformed (an error),
/// `Some(None)` for groups and unknown types, `Some(Some(node))` for a proxy.
pub open spec fn spec_singbox_node(o: JsonView, source_id: Seq<char>, updated_at: Seq<char>) -> Option<Option<NodeView>> {
    if !view_is_object(o) {
        None
    } else {
        match member_text(o, "type"@) {
            None => None,
            Some(t) => match sb_protocol(t) {
                None => Some(None),
                Some(p) => match (member_text(o, "tag"@), member_text(o, "server"@), sb_port(o)) {
                    (Some(name), Some(server), Some(port)) => {
                        let transport = sb_transport(p, view_get(o, "transport"@));
                        let extra = sb_extra(o, p, transport);
                        if has_required_fields(p, extra) {
                            Some(
                                Some(
                                    spec_build_node(
                                        source_id,
                                        name,
                                        p,
                                        server,
                                        port,
                                        transport,
                                        sb_tls(view_get(o, "tls"@)),
                                        extra,
                                        updated_at,
                                    ),
                                ),
                            )
                        } else {
                            None
                        }
                    },
                    _ => None,
                },
            },
        }
    }
}

// ---------------------------------------------------------------------------
// Executable parts
// ---------------------------------------------------------------------------

fn texts_exec(items: &Vec<JsonValue>) -> (r: Vec<String>)
    ensures
        strings_view(r@) == texts_of(json_views(items@)),
{
    proof {
        lemma_json_views(items@);
    }
    let ghost iv = json_views(items@);
    let mut out: Vec<String> = Vec::new();
    let mut i: usize = 0;
    while i < items.len()
        invariant
            i <= items@.len(),
            iv == json_views(items@),
            iv.len() == items@.len(),
            forall|k: int| 0 <= k < items@.len() ==> #[trigger] iv[k] == items@[k]@,
            strings_view(out@) == texts_of(iv.take(i as int)),
        decreases items.len() - i,
    {
        proof {
            assert(iv.take(i + 1).drop_last() =~= iv.take(i as int));
        }
        match value_to_string(&items[i]) {
            Some(t) => {
                let ghost before = out@;
                out.push(t);
                assert(strings_view(out@) =~= strings_view(before).push(out@.last()@));
            },
            None => {},
        }
        i = i + 1;
    }
    assert(iv.take(iv.len() as int) =~= iv);
    out
}

fn sb_list_exec(v: &JsonValue) -> (r: Option<Vec<String>>)
    ensures
        opt_strings_view(r) == sb_list(v@),
{
    match value_to_string(v) {
        Some(s) => {
            let mut out: Vec<String> = Vec::new();
            out.push(s);
            assert(strings_view(out@) =~= seq![out@[0]@]);
            Some(out)
        },
        None => match v {
            JsonValue::Array(items) => {
                let texts = texts_exec(items);
                if texts.len() > 0 {
                    Some(texts)
                } else {
                    None
                }
            },
            _ => None,
        },
    }
}

fn sb_list_member(v: &JsonValue, key: &str) -> (r: Option<Vec<String>>)
    ensures
        opt_strings_view(r) == sb_list_opt(view_get(v@, key@)),
{
    match v.get(key) {
        Some(x) => sb_list_exec(x),
        None => None,
    }
}

fn sb_protocol_exec(t: &str) -> (r: Option<ProxyProtocol>)
    ensures
        r == sb_protocol(t@),
{
    let c = chars_of(t);
    let s = c.as_slice();
    if chars_eq_str(s, "shadowsocks") {
        Some(ProxyProtocol::Ss)
    } else if chars_eq_str(s, "vmess") {
        Some(ProxyProtocol::Vmess)
    } else if chars_eq_str(s, "vless") {
        Some(ProxyProtocol::Vless)
    } else if chars_eq_str(s, "trojan") {
        Some(ProxyProtocol::Trojan)
    } else if chars_eq_str(s, "hysteria2") {
        Some(ProxyProtocol::Hysteria2)
    } else if chars_eq_str(s, "tuic") {
        Some(ProxyProtocol::Tuic)
    } else if chars_eq_str(s, "anytls") {
        Some(ProxyProtocol::AnyTls)
    } else {
        None
    }
}

/// The transport an outbound uses.
pub fn resolve_transport(protocol: ProxyProtocol, transport: Option<&JsonValue>) -> (r: ProxyTransport)
    ensures
        r == sb_transport(protocol, jopt(transport)),
{
    if protocol == ProxyProtocol::Hysteria2 || protocol == ProxyProtocol::Tuic {
        return ProxyTransport::Quic;
    }
    let t = match transport {
        Some(t) => t,
        None => return ProxyTransport::Tcp,
    };
    match t.get("type") {
        Some(JsonValue::String(s)) => {
            let c = chars_of(s.as_str());
            let k = trim_chars(c.as_slice());
            if chars_eq_str(k.as_slice(), "ws") {
                ProxyTransport::Ws
            } else if chars_eq_str(k.as_slice(), "grpc") {
                ProxyTransport::Grpc
            } else if chars_eq_str(k.as_slice(), "http") {
                ProxyTransport::H2
            } else if chars_eq_str(k.as_slice(), "quic") {
                ProxyTransport::Quic
            } else {
                ProxyTransport::Tcp
            }
        },
        _ => ProxyTransport::Tcp,
    }
}

/// The TLS settings of an outbound.
pub fn parse_singbox_tls(tls: Option<&JsonValue>) -> (r: TlsConfig)
    ensures
        r@ == sb_tls(jopt(tls)),
{
    match tls {
        Some(t) => if t.is_object() {
            TlsConfig {
                enabled: match get_bool(t, "enabled") {
                    Some(b) => b,
                    None => true,
                },
                server_name: get_text(t, "server_name"),
            }
        } else {
            TlsConfig { enabled: false, server_name: None }
        },
        None => TlsConfig { enabled: false, server_name: None },
    }
}

fn insert_protocol_fields(extra: &mut NodeExtra, o: &JsonValue, protocol: ProxyProtocol)
    requires
        old(extra)@ == Map::<Seq<char>, JsonView>::empty(),
    ensures
        final(extra)@ == sb_protocol_extra(o@, protocol),
{
    match protocol {
        ProxyProtocol::Ss => {
            insert_optional_string(extra, "cipher", get_text(o, "method"));
            insert_optional_string(extra, "password", get_text(o, "password"));
        },
        ProxyProtocol::Vmess => {
            insert_optional_string(extra, "uuid", get_text(o, "uuid"));
            let cipher = match get_text(o, "security") {
                Some(c) => c,
                None => string_from_str("auto"),
            };
            insert_optional_string(extra, "cipher", Some(cipher));
            insert_optional_u64(extra, "alter_id", get_u64(o, "alter_id"));
        },
        ProxyProtocol::Vless => {
            insert_optional_string(extra, "uuid", get_text(o, "uuid"));
            insert_optional_string(extra, "flow", get_text(o, "flow"));
        },
        ProxyProtocol::Trojan => {
            insert_optional_string(extra, "password", get_text(o, "password"));
        },
        ProxyProtocol::Hysteria2 => {
            insert_optional_string(extra, "password", get_text(o, "password"));
            match o.get("obfs") {
                Some(ob) => if ob.is_object() {
                    insert_optional_string(extra, "obfs", get_text(ob, "type"));
                    insert_optional_string(extra, "obfs_password", get_text(ob, "password"));
                },
                None => {},
            }
        },
        ProxyProtocol::Tuic => {
            insert_optional_string(extra, "uuid", get_text(o, "uuid"));
            insert_optional_string(extra, "password", get_text(o, "password"));
            insert_optional_string(extra, "congestion_control", get_text(o, "congestion_control"));
            insert_optional_string(extra, "udp_relay_mode", get_text(o, "udp_relay_mode"));
        },
        ProxyProtocol::AnyTls => {
            insert_optional_string(extra, "password", get_text(o, "password"));
        },
    }
}

fn insert_transport_fields(extra: &mut NodeExtra, tr: &JsonValue, transport: ProxyTransport)
    ensures
        final(extra)@ == sb_transport_extra(old(extra)@, tr@, transport),
{
    insert_optional_string(extra, "path", get_text(tr, "path"));
    insert_optional_string(extra, "service_name", get_text(tr, "service_name"));
    insert_optional_u64(extra, "max_early_data", get_u64(tr, "max_early_data"));
    insert_optional_string(extra, "early_data_header_name", get_text(tr, "early_data_header_name"));
    match tr.get("headers") {
        Some(h) => if h.is_object() {
            insert_optional_string(extra, "host", get_text(h, "Host"));
        },
        None => {},
    }
    match tr.get("host") {
        Some(host) => match transport {
            ProxyTransport::Ws => insert_optional_string(extra, "host", value_to_string(host)),
            ProxyTransport::H2 => insert_optional_list(extra, "host", sb_list_exec(host)),
            _ => {},
        },
        None => {},
    }
}

fn sb_extra_exec(o: &JsonValue, protocol: ProxyProtocol, transport: ProxyTransport) -> (r: NodeExtra)
    ensures
        r@ == sb_extra(o@, protocol, transport),
{
    let mut extra = NodeExtra::new();
    insert_protocol_fields(&mut extra, o, protocol);
    match o.get("transport") {
        Some(tr) => if tr.is_object() {
            insert_transport_fields(&mut extra, tr, transport);
        },
        None => {},
    }
    match o.get("tls") {
        Some(t) => if t.is_object() {
            insert_optional_bool(&mut extra, "skip_cert_verify", get_bool(t, "insecure"));
            insert_optional_list(&mut extra, "alpn", sb_list_member(t, "alpn"));
        },
        None => {},
    }
    extra
}

fn required_keys(protocol: ProxyProtocol) -> (r: Vec<&'static str>)
    ensures
        r@.len() == required_fields(protocol).len(),
        forall|i: int| 0 <= i < r@.len() ==> (#[trigger] r@[i])@ == required_fields(protocol)[i],
{
    let mut v: Vec<&'static str> = Vec::new();
    match protocol {
        ProxyProtocol::Ss => {
            v.push("cipher");
            v.push("password");
        },
        ProxyProtocol::Vmess | ProxyProtocol::Vless => {
            v.push("uuid");
        },
        ProxyProtocol::Tuic => {
            v.push("uuid");
            v.push("password");
        },
        _ => {
            v.push("password");
        },
    }
    v
}

/// Checks that the node has the fields its protocol needs; the error names the
/// first missing one and the node.
pub fn validate_required_fields(protocol: ProxyProtocol, extra: &NodeExtra, node_name: &str) -> (r: Result<(), CoreError>)
    ensures
        r is Ok <==> has_required_fields(protocol, extra@),
        r matches Err(e) ==> parse_failure(
            e,
            missing_field_message("sing-box 节点缺少必要字段："@, required_fields(protocol), extra@, node_name@),
        ),
{
    let keys = required_keys(protocol);
    let ghost fields = required_fields(protocol);
    let mut i: usize = 0;
    assert(fields.skip(0) =~= fields);
    while i < keys.len()
        invariant
            i <= keys@.len(),
            fields == required_fields(protocol),
            keys@.len() == fields.len(),
            forall|j: int| 0 <= j < keys@.len() ==> (#[trigger] keys@[j])@ == fields[j],
            forall|j: int| 0 <= j < i ==> extra@.contains_key(#[trigger] fields[j]),
            first_missing(fields, extra@) == first_missing(fields.skip(i as int), extra@),
        decreases keys.len() - i,
    {
        let key = keys[i];
        assert(keys@[i as int]@ == fields[i as int]);
        assert(fields.skip(i as int)[0] == fields[i as int]);
        assert(fields.skip(i as int).drop_first() =~= fields.skip(i + 1));
        if !extra.contains_key(key) {
            let head = concat("sing-box 节点缺少必要字段：", key);
            let with_name = concat(head.as_str(), " (");
            let with_name = concat(with_name.as_str(), node_name);
            return Err(CoreError::SubscriptionParse(concat(with_name.as_str(), ")")));
        }
        i = i + 1;
    }
    Ok(())
}

fn missing_field(field: &str) -> (e: CoreError)
    ensures
        parse_failure(e, "sing-box 节点缺少必要字段："@ + field@),
{
    CoreError::SubscriptionParse(concat("sing-box 节点缺少必要字段：", field))
}

/// The message for an outbound that is refused.
pub open spec fn spec_singbox_error(o: JsonView) -> Seq<char> {
    let prefix = "sing-box 节点缺少必要字段："@;
    if !view_is_object(o) {
        "sing-box outbound 结构非法"@
    } else {
        match member_text(o, "type"@) {
            None => prefix + "type"@,
            Some(t) => match sb_protocol(t) {
                None => Seq::empty(),
                Some(p) => match (member_text(o, "tag"@), member_text(o, "server"@), sb_port(o)) {
                    (None, _, _) => prefix + "tag"@,
                    (Some(_), None, _) => prefix + "server"@,
                    (Some(_), Some(_), None) => prefix + "server_port"@,
                    (Some(name), Some(_), Some(_)) => missing_field_message(
                        prefix,
                        required_fields(p),
                        sb_extra(o, p, sb_transport(p, view_get(o, "transport"@))),
                        name,
                    ),
                },
            },
        }
    }
}

/// Parses one outbound: `Ok(None)` for groups and unsupported types.
pub fn parse_singbox_node(outbound: &JsonValue, source_id: &str, updated_at: &str) -> (r: Result<Option<ProxyNode>, CoreError>)
    ensures
        r matches Ok(Some(n)) ==> spec_singbox_node(outbound@, source_id@, updated_at@) == Some(Some(n@)),
        r matches Ok(None) ==> spec_singbox_node(outbound@, source_id@, updated_at@) == Some(None::<NodeView>),
        r is Err ==> spec_singbox_node(outbound@, source_id@, updated_at@) is None,
        r matches Err(e) ==> parse_failure(e, spec_singbox_error(outbound@)),
{
    let o = outbound;
    if !o.is_object() {
        return Err(CoreError::SubscriptionParse(string_from_str("sing-box outbound 结构非法")));
    }
    let outbound_type = match get_text(o, "type") {
        Some(t) => t,
        None => return Err(missing_field("type")),
    };
    let protocol = match sb_protocol_exec(outbound_type.as_str()) {
        Some(p) => p,
        None => return Ok(None),
    };
    let name = match get_text(o, "tag") {
        Some(t) => t,
        None => return Err(missing_field("tag")),
    };
    let server = match get_text(o, "server") {
        Some(t) => t,
        None => return Err(missing_field("server")),
    };
    let port: u16 = match get_u64(o, "server_port") {
        Some(u) => if u <= 65535 {
            u as u16
        } else {
            return Err(missing_field("server_port"));
        },
        None => return Err(missing_field("server_port")),
    };
    let tls = parse_singbox_tls(o.get("tls"));
    let transport = resolve_transport(protocol, o.get("transport"));
    let extra = sb_extra_exec(o, protocol, transport);
    match validate_required_fields(protocol, &extra, name.as_str()) {
        Ok(()) => {},
        Err(e) => return Err(e),
    }
    Ok(Some(build_proxy_node(source_id, name, protocol, server, port, transport, tls, extra, updated_at)))
}

// ---------------------------------------------------------------------------
// Whole configurations
// ---------------------------------------------------------------------------

/// A `selector` or `urltest` group outbound.
pub open spec fn sb_is_group(o: JsonView) -> bool {
    match view_get(o, "type"@) {
        Some(JsonView::Str(s)) => trim(s) == "selector"@ || trim(s) == "urltest"@,
        _ => false,
    }
}

/// The nodes of the outbounds and whether any outbound was recognised (a group
/// or a proxy); `None` when an outbound is malformed.
pub open spec fn sb_fold(items: Seq<JsonView>, source_id: Seq<char>, updated_at: Seq<char>) -> Option<(Seq<NodeView>, bool)>
    decreases items.len(),
{
    if items.len() == 0 {
        Some((Seq::empty(), false))
    } else {
        match sb_fold(items.drop_last(), source_id, updated_at) {
            None => None,
            Some((nodes, recognized)) => {
                let o = items.last();
                if sb_is_group(o) {
                    Some((nodes, true))
                } else {
                    match spec_singbox_node(o, source_id, updated_at) {
                        None => None,
                        Some(None) => Some((nodes, recognized)),
                        Some(Some(n)) => Some((nodes.push(n), true)),
                    }
                }
            },
        }
    }
}

/// The message of the first outbound that fails the fold.
pub open spec fn sb_fold_error(items: Seq<JsonView>, source_id: Seq<char>, updated_at: Seq<char>) -> Seq<char>
    decreases items.len(),
{
    if items.len() == 0 {
        Seq::empty()
    } else if sb_fold(items.drop_last(), source_id, updated_at) is None {
        sb_fold_error(items.drop_last(), source_id, updated_at)
    } else {
        spec_singbox_error(items.last())
    }
}

/// The outbounds of a sing-box document, if it is one.
pub open spec fn sb_outbounds(payload: Seq<char>) -> Option<Seq<JsonView>> {
    match spec_json_parse(payload) {
        Some(root) => match view_get(root, "outbounds"@) {
            Some(JsonView::Array(items)) => Some(items),
            _ => None,
        },
        None => None,
    }
}

pub fn is_singbox_group_outbound(outbound: &JsonValue) -> (r: bool)
    ensures
        r == sb_is_group(outbound@),
{
    match outbound.get("type") {
        Some(JsonValue::String(s)) => {
            let c = chars_of(s.as_str());
            let t = trim_chars(c.as_slice());
            chars_eq_str(t.as_slice(), "selector") || chars_eq_str(t.as_slice(), "urltest")
        },
        _ => false,
    }
}

/// Parses outbounds into nodes stamped `updated_at`: `Ok(None)` when no
/// outbound is recognised; a malformed outbound fails the whole list.
pub fn parse_singbox_outbounds_at(outbounds: &Vec<JsonValue>, source_id: &str, updated_at: &str) -> (r: Result<Option<Vec<ProxyNode>>, CoreError>)
    ensures
        r matches Ok(Some(v)) ==> sb_fold(json_views(outbounds@), source_id@, updated_at@) == Some((nodes_view(v@), true)),
        r matches Ok(None) ==> sb_fold(json_views(outbounds@), source_id@, updated_at@) matches Some((_, false)),
        r is Err ==> sb_fold(json_views(outbounds@), source_id@, updated_at@) is None,
        r matches Err(e) ==> parse_failure(e, sb_fold_error(json_views(outbounds@), source_id@, updated_at@)),
{
    proof {
        lemma_json_views(outbounds@);
    }
    let ghost iv = json_views(outbounds@);
    let mut nodes: Vec<ProxyNode> = Vec::new();
    let mut recognized = false;
    let mut i: usize = 0;
    while i < outbounds.len()
        invariant
            i <= outbounds@.len(),
            iv == json_views(outbounds@),
            iv.len() == outbounds@.len(),
            forall|k: int| 0 <= k < outbounds@.len() ==> #[trigger] iv[k] == outbounds@[k]@,
            sb_fold(iv.take(i as int), source_id@, updated_at@) == Some((nodes_view(nodes@), recognized)),
        decreases outbounds.len() - i,
    {
        proof {
            assert(iv.take(i + 1).drop_last() =~= iv.take(i as int));
            assert(iv.take(i + 1).last() == outbounds@[i as int]@);
        }
        let outbound = &outbounds[i];
        if is_singbox_group_outbound(outbound) {
            recognized = true;
        } else {
            match parse_singbox_node(outbound, source_id, updated_at) {
                Ok(Some(node)) => {
                    let ghost before = nodes@;
                    nodes.push(node);
                    assert(nodes_view(nodes@) =~= nodes_view(before).push(node@));
                    recognized = true;
                },
                Ok(None) => {},
                Err(e) => {
                    proof {
                        assert(sb_fold_error(iv.take(i + 1), source_id@, updated_at@) == spec_singbox_error(iv[i as int]));
                        lemma_fold_stays_failed(iv, i + 1, iv.len() as int, source_id@, updated_at@);
                        assert(iv.take(iv.len() as int) =~= iv);
                    }
                    return Err(e);
                },
            }
        }
        i = i + 1;
    }
    assert(iv.take(iv.len() as int) =~= iv);
    if recognized {
        Ok(Some(nodes))
    } else {
        Ok(None)
    }
}

proof fn lemma_fold_stays_failed(iv: Seq<JsonView>, i: int, j: int, source_id: Seq<char>, updated_at: Seq<char>)
    requires
        0 <= i <= j <= iv.len(),
        sb_fold(iv.take(i), source_id, updated_at) is None,
    ensures
        sb_fold(iv.take(j), source_id, updated_at) is None,
        sb_fold_error(iv.take(j), source_id, updated_at) == sb_fold_error(iv.take(i), source_id, updated_at),
    decreases j - i,
{
    if j > i {
        lemma_fold_stays_failed(iv, i, j - 1, source_id, updated_at);
        assert(iv.take(j).drop_last() =~= iv.take(j - 1));
    }
}

/// The nodes of a sing-box payload.
pub struct ParsedSingboxPayload {
    pub nodes: Vec<ProxyNode>,
}

/// Reads a payload as a sing-box configuration: `Ok(None)` when it is not one
/// (no `outbounds` list, or nothing recognisable in it); the nodes are stamped
/// with the current time.
pub fn parse_singbox_payload(source_id: &str, payload: &str) -> (r: Result<Option<ParsedSingboxPayload>, CoreError>)
    ensures
        sb_outbounds(payload@) is None ==> r matches Ok(None),
        r matches Ok(Some(p)) ==> exists|t: Seq<char>| crate::clock::rfc3339_utc_text(t) && #[trigger] sb_fold(sb_outbounds(payload@).unwrap(), source_id@, t) == Some((nodes_view(p.nodes@), true)),
        r matches Ok(None) ==> sb_outbounds(payload@) is None || exists|t: Seq<char>| crate::clock::rfc3339_utc_text(t) && #[trigger] sb_fold(sb_outbounds(payload@).unwrap(), source_id@, t) matches Some((_, false)),
        r matches Err(e) ==> e is SubscriptionParse || e is TimeFormat,
        r matches Err(e) ==> (e is SubscriptionParse ==> exists|t: Seq<char>|
            crate::clock::rfc3339_utc_text(t) && #[trigger] sb_fold(sb_outbounds(payload@).unwrap(), source_id@, t) is None && parse_failure(
                e,
                sb_fold_error(sb_outbounds(payload@).unwrap(), source_id@, t),
            )),
{
    let root = match parse_json(payload) {
        Ok(v) => v,
        Err(_) => return Ok(None),
    };
    let outbounds = match root.get("outbounds") {
        Some(JsonValue::Array(items)) => items,
        _ => return Ok(None),
    };
    let updated_at = match now_rfc3339() {
        Ok(t) => t,
        Err(e) => return Err(e),
    };
    match parse_singbox_outbounds_at(outbounds, source_id, updated_at.as_str()) {
        Ok(Some(nodes)) => {
            assert(sb_fold(sb_outbounds(payload@).unwrap(), source_id@, updated_at@) == Some((nodes_view(nodes@), true)));
            Ok(Some(ParsedSingboxPayload { nodes }))
        },
        Ok(None) => {
            assert(sb_fold(sb_outbounds(payload@).unwrap(), source_id@, updated_at@) matches Some((_, false)));
            Ok(None)
        },
        Err(e) => {
            assert(sb_fold(sb_outbounds(payload@).unwrap(), source_id@, updated_at@) is None);
            Err(e)
        },
    }
}


// ---------------------------------------------------------------------------
// Laws
// ---------------------------------------------------------------------------

/// The protocol an outbound `type` names, for the proxy types sing-box lists.
pub open spec fn listed_type_protocol(t: Seq<char>, p: ProxyProtocol) -> bool {
    ||| t == "shadowsocks"@ && p == ProxyProtocol::Ss
    ||| t == "vmess"@ && p == ProxyProtocol::Vmess
    ||| t == "vless"@ && p == ProxyProtocol::Vless
    ||| t == "trojan"@ && p == ProxyProtocol::Trojan
    ||| t == "hysteria2"@ && p == ProxyProtocol::Hysteria2
    ||| t == "tuic"@ && p == ProxyProtocol::Tuic
    ||| t == "anytls"@ && p == ProxyProtocol::AnyTls
}

/// An outbound object whose `type` is one of the listed proxy types is never
/// skipped: it yields a node or an error, and a node carries the protocol the
/// type names. An outbound that is skipped without an error has some other
/// type (a group or an unknown one).
pub proof fn lemma_singbox_type_names_the_protocol(
    o: JsonView,
    t: Seq<char>,
    p: ProxyProtocol,
    source_id: Seq<char>,
    updated_at: Seq<char>,
)
    requires
        view_is_object(o),
        member_text(o, "type"@) == Some(t),
    ensures
        listed_type_protocol(t, p) ==> spec_singbox_node(o, source_id, updated_at) != Some(None::<NodeView>),
        listed_type_protocol(t, p) ==> (spec_singbox_node(o, source_id, updated_at) matches Some(Some(n))
            ==> n.protocol == p),
        spec_singbox_node(o, source_id, updated_at) == Some(None::<NodeView>) ==> forall|q: ProxyProtocol|
            !#[trigger] listed_type_protocol(t, q),
{
    reveal_strlit("shadowsocks");
    reveal_strlit("vmess");
    reveal_strlit("vless");
    reveal_strlit("trojan");
    reveal_strlit("hysteria2");
    reveal_strlit("tuic");
    reveal_strlit("anytls");
    assert("shadowsocks"@.len() == 11 && "vmess"@.len() == 5 && "vless"@.len() == 5 && "trojan"@.len() == 6);
    assert("hysteria2"@.len() == 9 && "tuic"@.len() == 4 && "anytls"@.len() == 6);
    assert("vmess"@[1] != "vless"@[1]);
    assert("trojan"@[0] != "anytls"@[0]);
}

/// A `shadowsocks` outbound with a tag, a server, a port within `u16`, a
/// method and a password (and no transport or TLS object) yields a shadowsocks
/// node with that name, server and port, whose cipher is the method and whose
/// password is the password.
pub proof fn lemma_shadowsocks_outbound(
    o: JsonView,
    tag: Seq<char>,
    server: Seq<char>,
    port: u64,
    method: Seq<char>,
    password: Seq<char>,
    source_id: Seq<char>,
    updated_at: Seq<char>,
)
    requires
        view_is_object(o),
        member_text(o, "type"@) == Some("shadowsocks"@),
        member_text(o, "tag"@) == Some(tag),
        member_text(o, "server"@) == Some(server),
        opt_u64(view_get(o, "server_port"@)) == Some(port),
        port <= 65535,
        member_text(o, "method"@) == Some(method),
        member_text(o, "password"@) == Some(password),
        view_get(o, "transport"@) is None,
        view_get(o, "tls"@) is None,
    ensures
        spec_singbox_node(o, source_id, updated_at) matches Some(Some(n)) && n.protocol == ProxyProtocol::Ss
            && n.name == tag && n.server == server && n.port == port && n.extra["cipher"@] == JsonView::Str(method)
            && n.extra["password"@] == JsonView::Str(password) && n.source_id == source_id,
{
    reveal_strlit("shadowsocks");
    reveal_strlit("cipher");
    reveal_strlit("password");
    assert(sb_protocol("shadowsocks"@) == Some(ProxyProtocol::Ss));
    assert(sb_port(o) == Some(port as u16));
    assert("cipher"@ != "password"@) by {
        assert("cipher"@.len() != "password"@.len());
    }
    let extra = sb_extra(o, ProxyProtocol::Ss, sb_transport(ProxyProtocol::Ss, view_get(o, "transport"@)));
    assert(extra == Map::<Seq<char>, JsonView>::empty().insert("cipher"@, JsonView::Str(method)).insert(
        "password"@,
        JsonView::Str(password),
    ));
    assert(extra.contains_key("cipher"@) && extra.contains_key("password"@));
    assert(has_required_fields(ProxyProtocol::Ss, extra)) by {
        assert(required_fields(ProxyProtocol::Ss) =~= seq!["cipher"@, "password"@]);
    }
}

} // verus!
