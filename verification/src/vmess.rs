//! `vmess://` URIs: Base64 of a JSON object describing the node.
use vstd::prelude::*;
use vstd::utf8::{decode_utf8, valid_utf8};
use crate::codec::{base64_decode, spec_base64_decode, utf8_decode, Base64Alphabet};
use crate::error::{parse_failure, CoreError};
use crate::json::{
    json_views, lemma_json_views, number_text, number_to_string, number_view, opt_get, parse_json,
    spec_json_error, spec_json_parse, view_as_str, view_as_u64, view_get, JsonNumber, JsonValue, JsonView, NumberView,
};
use crate::node::{build_proxy_node, spec_build_node, NodeExtra, NodeView, ProxyNode, ProxyProtocol, ProxyTransport, TlsConfig, TlsView};
use crate::text::{
    chars_eq_str, chars_of, lower, lower_chars, parse_unsigned, parse_unsigned_exec, slice_range, string_from_str,
    string_of, trim, trim_chars,
};
use crate::uri::{
    concat, decode_percent_encoded, insert_hosts, insert_optional_bool, insert_optional_list, insert_optional_string,
    insert_optional_u64, opt_str_view, opt_strings_view, put_bool, put_hosts, put_list, put_str, put_u64,
    spec_decode_percent, spec_parse_flag, spec_split_csv, split_csv_values, strings_view,
};

verus! {

// ---------------------------------------------------------------------------
// Base64 text
// ---------------------------------------------------------------------------

/// The text one Base64 engine decodes, if the bytes are UTF-8.
pub open spec fn b64_text(alphabet: Base64Alphabet, raw: Seq<char>) -> Option<Seq<char>> {
    match spec_base64_decode(alphabet, raw) {
        Some(b) => if valid_utf8(b) {
            Some(decode_utf8(b))
        } else {
            None
        },
        None => None,
    }
}

/// The first UTF-8 text that the standard, unpadded, URL-safe or unpadded
/// URL-safe Base64 engine decodes from `raw`.
pub open spec fn spec_try_decode_base64(raw: Seq<char>) -> Option<Seq<char>> {
    match b64_text(Base64Alphabet::Standard, raw) {
        Some(t) => Some(t),
        None => match b64_text(Base64Alphabet::StandardNoPad, raw) {
            Some(t) => Some(t),
            None => match b64_text(Base64Alphabet::UrlSafe, raw) {
                Some(t) => Some(t),
                None => b64_text(Base64Alphabet::UrlSafeNoPad, raw),
            },
        },
    }
}

fn b64_text_exec(alphabet: Base64Alphabet, raw: &str) -> (r: Option<String>)
    ensures
        opt_str_view(r) == b64_text(alphabet, raw@),
{
    match base64_decode(alphabet, raw) {
        Some(bytes) => match utf8_decode(bytes) {
            Ok(text) => Some(text),
            Err(_) => None,
        },
        None => None,
    }
}

/// Decodes Base64 text with the first engine that yields UTF-8.
pub fn try_decode_base64_text(raw: &str) -> (r: Option<String>)
    ensures
        opt_str_view(r) == spec_try_decode_base64(raw@),
{
    if let Some(t) = b64_text_exec(Base64Alphabet::Standard, raw) {
        return Some(t);
    }
    if let Some(t) = b64_text_exec(Base64Alphabet::StandardNoPad, raw) {
        return Some(t);
    }
    if let Some(t) = b64_text_exec(Base64Alphabet::UrlSafe, raw) {
        return Some(t);
    }
    b64_text_exec(Base64Alphabet::UrlSafeNoPad, raw)
}

// ---------------------------------------------------------------------------
// Loose reading of JSON members
// ---------------------------------------------------------------------------

/// A member read as text: a trimmed non-empty string, a number, or a boolean.
pub open spec fn value_text(v: JsonView) -> Option<Seq<char>> {
    match v {
        JsonView::Str(s) => if trim(s).len() > 0 {
            Some(trim(s))
        } else {
            None
        },
        JsonView::Number(n) => Some(number_text(n)),
        JsonView::Bool(b) => Some(if b { "true"@ } else { "false"@ }),
        _ => None,
    }
}

/// A member read as a `u64`: a non-negative integer or a decimal string.
pub open spec fn value_u64(v: JsonView) -> Option<u64> {
    match v {
        JsonView::Number(NumberView::PosInt(u)) => Some(u),
        JsonView::Str(s) => match parse_unsigned(trim(s), u64::MAX as int) {
            Some(x) => Some(x as u64),
            None => None,
        },
        _ => None,
    }
}

/// A member read as a flag: a boolean, a non-negative integer (non-zero is
/// true) or a flag word.
pub open spec fn value_bool(v: JsonView) -> Option<bool> {
    match v {
        JsonView::Bool(b) => Some(b),
        JsonView::Number(NumberView::PosInt(u)) => Some(u != 0),
        JsonView::Str(s) => spec_parse_flag(trim(s)),
        _ => None,
    }
}

/// The trimmed non-empty strings of a list.
pub open spec fn trimmed_strings(items: Seq<JsonView>) -> Seq<Seq<char>>
    decreases items.len(),
{
    if items.len() == 0 {
        Seq::empty()
    } else {
        let rest = trimmed_strings(items.drop_last());
        match items.last() {
            JsonView::Str(s) => if trim(s).len() > 0 {
                rest.push(trim(s))
            } else {
                rest
            },
            _ => rest,
        }
    }
}

/// A member read as a non-empty list of strings.
pub open spec fn value_string_list(v: JsonView) -> Option<Seq<Seq<char>>> {
    match v {
        JsonView::Array(items) => if trimmed_strings(items).len() > 0 {
            Some(trimmed_strings(items))
        } else {
            None
        },
        _ => None,
    }
}

/// The comma-separated hosts of every string of a list.
pub open spec fn hosts_of_items(items: Seq<JsonView>) -> Seq<Seq<char>>
    decreases items.len(),
{
    if items.len() == 0 {
        Seq::empty()
    } else {
        hosts_of_items(items.drop_last()) + match items.last() {
            JsonView::Str(s) => spec_split_csv(s),
            _ => Seq::empty(),
        }
    }
}

/// Hosts given as a comma-separated string or a list of such strings.
pub open spec fn hosts_from_value(v: JsonView) -> Seq<Seq<char>> {
    match v {
        JsonView::Str(s) => spec_split_csv(s),
        JsonView::Array(items) => hosts_of_items(items),
        _ => Seq::empty(),
    }
}

pub open spec fn opt_and_then_text(v: Option<JsonView>) -> Option<Seq<char>> {
    match v {
        Some(x) => value_text(x),
        None => None,
    }
}

pub fn value_to_string(v: &JsonValue) -> (r: Option<String>)
    ensures
        opt_str_view(r) == value_text(v@),
{
    match v {
        JsonValue::String(s) => {
            let c = chars_of(s.as_str());
            let t = trim_chars(c.as_slice());
            if t.len() > 0 {
                Some(string_of(t.as_slice()))
            } else {
                None
            }
        },
        JsonValue::Number(n) => Some(number_to_string(n)),
        JsonValue::Bool(b) => Some(string_from_str(if *b { "true" } else { "false" })),
        _ => None,
    }
}

pub fn value_to_u64(v: &JsonValue) -> (r: Option<u64>)
    ensures
        r == value_u64(v@),
{
    match v {
        JsonValue::Number(JsonNumber::PosInt(u)) => Some(*u),
        JsonValue::String(s) => {
            let c = chars_of(s.as_str());
            let t = trim_chars(c.as_slice());
            parse_unsigned_exec(t.as_slice(), u64::MAX)
        },
        _ => None,
    }
}

pub fn value_to_bool(v: &JsonValue) -> (r: Option<bool>)
    ensures
        r == value_bool(v@),
{
    match v {
        JsonValue::Bool(b) => Some(*b),
        JsonValue::Number(JsonNumber::PosInt(u)) => Some(*u != 0),
        JsonValue::String(s) => {
            let c = chars_of(s.as_str());
            let t = trim_chars(c.as_slice());
            let ts = string_of(t.as_slice());
            crate::uri::parse_flag(ts.as_str())
        },
        _ => None,
    }
}

fn trimmed_strings_exec(items: &Vec<JsonValue>) -> (r: Vec<String>)
    ensures
        strings_view(r@) == trimmed_strings(json_views(items@)),
{
    proof {
        lemma_json_views(items@);
    }
    let ghost iv = json_views(items@);
    let mut out: Vec<String> = Vec::new();
    let mut i: usize = 0;
    while i < items.len()
        invariant
            i <= items@.len(),
            iv == json_views(items@),
            iv.len() == items@.len(),
            forall|k: int| 0 <= k < items@.len() ==> #[trigger] iv[k] == items@[k]@,
            strings_view(out@) == trimmed_strings(iv.take(i as int)),
        decreases items.len() - i,
    {
        proof {
            assert(iv.take(i + 1).drop_last() =~= iv.take(i as int));
        }
        match &items[i] {
            JsonValue::String(s) => {
                let c = chars_of(s.as_str());
                let t = trim_chars(c.as_slice());
                if t.len() > 0 {
                    let ghost before = out@;
                    out.push(string_of(t.as_slice()));
                    assert(strings_view(out@) =~= strings_view(before).push(t@));
                }
            },
            _ => {},
        }
        i = i + 1;
    }
    assert(iv.take(iv.len() as int) =~= iv);
    out
}

pub fn value_to_string_list(v: &JsonValue) -> (r: Option<Vec<String>>)
    ensures
        opt_strings_view(r) == value_string_list(v@),
{
    match v {
        JsonValue::Array(items) => {
            let values = trimmed_strings_exec(items);
            if values.len() > 0 {
                Some(values)
            } else {
                None
            }
        },
        _ => None,
    }
}

pub fn hosts_from_value_exec(v: &JsonValue) -> (r: Vec<String>)
    ensures
        strings_view(r@) == hosts_from_value(v@),
{
    match v {
        JsonValue::String(s) => split_csv_values(s.as_str()),
        JsonValue::Array(items) => {
            proof {
                lemma_json_views(items@);
            }
            let ghost iv = json_views(items@);
            let mut out: Vec<String> = Vec::new();
            let mut i: usize = 0;
            while i < items.len()
                invariant
                    i <= items@.len(),
                    iv == json_views(items@),
                    iv.len() == items@.len(),
                    forall|k: int| 0 <= k < items@.len() ==> #[trigger] iv[k] == items@[k]@,
                    strings_view(out@) == hosts_of_items(iv.take(i as int)),
                decreases items.len() - i,
            {
                proof {
                    assert(iv.take(i + 1).drop_last() =~= iv.take(i as int));
                }
                match &items[i] {
                    JsonValue::String(s) => {
                        let parts = split_csv_values(s.as_str());
                        let ghost before = out@;
                        let mut j: usize = 0;
                        while j < parts.len()
                            invariant
                                j <= parts@.len(),
                                strings_view(out@) == strings_view(before) + strings_view(parts@).take(j as int),
                            decreases parts.len() - j,
                        {
                            let ghost prev = out@;
                            let piece = parts[j].clone();
                            out.push(piece);
                            proof {
                                assert(strings_view(out@) =~= strings_view(prev).push(parts@[j as int]@));
                                assert(strings_view(parts@).take(j + 1) =~= strings_view(parts@).take(j as int).push(parts@[j as int]@));
                            }
                            j = j + 1;
                            assert(strings_view(out@) =~= strings_view(before) + strings_view(parts@).take(j as int));
                        }
                        assert(strings_view(parts@).take(parts@.len() as int) =~= strings_view(parts@));
                    },
                    _ => {
                        assert(strings_view(out@) =~= strings_view(out@) + Seq::<Seq<char>>::empty());
                    },
                }
                i = i + 1;
            }
            assert(iv.take(iv.len() as int) =~= iv);
            out
        },
        _ => {
            let out: Vec<String> = Vec::new();
            assert(strings_view(out@) =~= Seq::<Seq<char>>::empty());
            out
        },
    }
}

// ---------------------------------------------------------------------------
// vmess://
// ---------------------------------------------------------------------------

/// The transport a vmess `net` member names.
pub open spec fn vmess_transport(net: Option<Seq<char>>) -> ProxyTransport {
    match net {
        Some(v) => if v == "ws"@ {
            ProxyTransport::Ws
        } else if v == "grpc"@ {
            ProxyTransport::Grpc
        } else if v == "h2"@ {
            ProxyTransport::H2
        } else if v == "quic"@ {
            ProxyTransport::Quic
        } else {
            ProxyTransport::Tcp
        },
        None => ProxyTransport::Tcp,
    }
}

pub open spec fn member_str(p: JsonView, key: Seq<char>) -> Option<Seq<char>> {
    match view_get(p, key) {
        Some(v) => view_as_str(v),
        None => None,
    }
}

pub open spec fn member_text(p: JsonView, key: Seq<char>) -> Option<Seq<char>> {
    opt_and_then_text(view_get(p, key))
}

pub open spec fn or_else(a: Option<Seq<char>>, b: Option<Seq<char>>) -> Option<Seq<char>> {
    match a {
        Some(x) => Some(x),
        None => b,
    }
}

/// The port member: an integer or a decimal string, at most 65535.
pub open spec fn vmess_port(p: JsonView) -> Option<u16> {
    match view_get(p, "port"@) {
        Some(v) => match view_as_u64(v) {
            Some(u) => if u <= 65535 {
                Some(u as u16)
            } else {
                None
            },
            None => match view_as_str(v) {
                Some(s) => match parse_unsigned(s, 65535) {
                    Some(x) => Some(x as u16),
                    None => None,
                },
                None => None,
            },
        },
        None => None,
    }
}

/// The first host, unless the transport is HTTP/2.
pub open spec fn first_host(host: Option<JsonView>, transport: ProxyTransport) -> Option<Seq<char>> {
    if transport == ProxyTransport::H2 {
        None
    } else {
        match host {
            Some(v) => if hosts_from_value(v).len() > 0 {
                Some(hosts_from_value(v)[0])
            } else {
                None
            },
            None => None,
        }
    }
}

pub open spec fn vmess_alpn(p: JsonView) -> Option<Seq<Seq<char>>> {
    match member_text(p, "alpn"@) {
        Some(t) => Some(spec_split_csv(t)),
        None => match view_get(p, "alpn"@) {
            Some(v) => value_string_list(v),
            None => None,
        },
    }
}

pub open spec fn opt_u64(v: Option<JsonView>) -> Option<u64> {
    match v {
        Some(x) => value_u64(x),
        None => None,
    }
}

pub open spec fn opt_bool(v: Option<JsonView>) -> Option<bool> {
    match v {
        Some(x) => value_bool(x),
        None => None,
    }
}

pub open spec fn vmess_extra(p: JsonView, transport: ProxyTransport) -> Map<Seq<char>, JsonView> {
    let m = put_str(Map::empty(), "uuid"@, member_text(p, "id"@));
    let m = put_str(m, "path"@, member_text(p, "path"@));
    let m = put_str(m, "flow"@, member_text(p, "flow"@));
    let m = put_str(m, "service_name"@, or_else(member_text(p, "serviceName"@), member_text(p, "service_name"@)));
    let m = put_str(m, "grpc_service_name"@, member_text(p, "grpc_service_name"@));
    let m = put_str(m, "client_fingerprint"@, member_text(p, "fp"@));
    let m = put_str(m, "security"@, member_text(p, "security"@));
    let m = put_str(m, "cipher"@, or_else(member_text(p, "scy"@), member_text(p, "cipher"@)));
    let m = put_u64(m, "alter_id"@, opt_u64(view_get(p, "aid"@)));
    let m = put_bool(
        m,
        "skip_cert_verify"@,
        match opt_bool(view_get(p, "allowInsecure"@)) {
            Some(b) => Some(b),
            None => opt_bool(view_get(p, "allow_insecure"@)),
        },
    );
    let m = put_list(m, "alpn"@, vmess_alpn(p));
    match view_get(p, "host"@) {
        Some(h) => put_hosts(m, hosts_from_value(h), transport),
        None => m,
    }
}

/// TLS is on for `tls` or `reality`.
pub open spec fn vmess_tls_on(tls: Option<Seq<char>>) -> bool {
    match tls {
        Some(t) => t == "tls"@ || t == "reality"@,
        None => false,
    }
}

/// The node a decoded vmess JSON object denotes, when it names a server and a port.
pub open spec fn spec_vmess_payload(p: JsonView, source_id: Seq<char>, updated_at: Seq<char>) -> Option<NodeView> {
    match (member_str(p, "add"@), vmess_port(p)) {
        (Some(server), Some(port)) => {
            let transport = vmess_transport(member_str(p, "net"@));
            Some(spec_build_node(
                source_id,
                spec_decode_percent(
                    match member_str(p, "ps"@) {
                        Some(ps) => ps,
                        None => "vmess"@,
                    },
                ),
                ProxyProtocol::Vmess,
                server,
                port,
                transport,
                TlsView {
                    enabled: vmess_tls_on(member_text(p, "tls"@)),
                    server_name: or_else(member_text(p, "sni"@), first_host(view_get(p, "host"@), transport)),
                },
                vmess_extra(p, transport),
                updated_at,
            ))
        },
        _ => None,
    }
}

/// The node a `vmess://` line denotes: the rest of the line, trimmed, is Base64
/// of a JSON document.
pub open spec fn spec_parse_vmess(line: Seq<char>, source_id: Seq<char>, updated_at: Seq<char>) -> Option<NodeView> {
    match spec_try_decode_base64(trim(line.skip(8))) {
        Some(text) => match spec_json_parse(text) {
            Some(p) => spec_vmess_payload(p, source_id, updated_at),
            None => None,
        },
        None => None,
    }
}

/// The message for a vmess JSON object that denotes no node.
pub open spec fn spec_vmess_payload_error(p: JsonView) -> Seq<char> {
    if member_str(p, "add"@) is None {
        "vmess 缺少 add"@
    } else {
        "vmess 缺少有效 port"@
    }
}

/// The message `parse_vmess_uri` gives for a line it refuses.
pub open spec fn spec_vmess_error(line: Seq<char>) -> Seq<char> {
    match spec_try_decode_base64(trim(line.skip(8))) {
        Some(text) => match spec_json_parse(text) {
            Some(p) => spec_vmess_payload_error(p),
            None => "vmess JSON 非法："@ + spec_json_error(text),
        },
        None => "vmess URI Base64 解码失败"@,
    }
}

fn vmess_error(message: &str) -> (e: CoreError)
    ensures
        parse_failure(e, message@),
{
    CoreError::SubscriptionParse(string_from_str(message))
}

pub(crate) fn get_text(p: &JsonValue, key: &str) -> (r: Option<String>)
    ensures
        opt_str_view(r) == member_text(p@, key@),
{
    match p.get(key) {
        Some(v) => value_to_string(v),
        None => None,
    }
}

fn get_str(p: &JsonValue, key: &str) -> (r: Option<String>)
    ensures
        opt_str_view(r) == member_str(p@, key@),
{
    match p.get(key) {
        Some(v) => match v.as_str() {
            Some(s) => Some(s.clone()),
            None => None,
        },
        None => None,
    }
}

fn text_or(a: Option<String>, b: Option<String>) -> (r: Option<String>)
    ensures
        opt_str_view(r) == or_else(opt_str_view(a), opt_str_view(b)),
{
    match a {
        Some(x) => Some(x),
        None => b,
    }
}

fn vmess_port_exec(p: &JsonValue) -> (r: Option<u16>)
    ensures
        r == vmess_port(p@),
{
    match p.get("port") {
        Some(v) => match v.as_u64() {
            Some(u) => if u <= 65535 {
                Some(u as u16)
            } else {
                None
            },
            None => match v.as_str() {
                Some(s) => {
                    let c = chars_of(s.as_str());
                    match parse_unsigned_exec(c.as_slice(), 65535) {
                        Some(x) => Some(x as u16),
                        None => None,
                    }
                },
                None => None,
            },
        },
        None => None,
    }
}

fn vmess_transport_exec(net: &Option<String>) -> (r: ProxyTransport)
    ensures
        r == vmess_transport(opt_str_view(*net)),
{
    match net {
        Some(v) => {
            let c = chars_of(v.as_str());
            if chars_eq_str(c.as_slice(), "ws") {
                ProxyTransport::Ws
            } else if chars_eq_str(c.as_slice(), "grpc") {
                ProxyTransport::Grpc
            } else if chars_eq_str(c.as_slice(), "h2") {
                ProxyTransport::H2
            } else if chars_eq_str(c.as_slice(), "quic") {
                ProxyTransport::Quic
            } else {
                ProxyTransport::Tcp
            }
        },
        None => ProxyTransport::Tcp,
    }
}

fn first_host_exec(host: Option<&JsonValue>, transport: ProxyTransport) -> (r: Option<String>)
    ensures
        opt_str_view(r) == first_host(
            match host {
                Some(h) => Some(h@),
                None => None,
            },
            transport,
        ),
{
    if transport == ProxyTransport::H2 {
        return None;
    }
    match host {
        Some(v) => {
            let hosts = hosts_from_value_exec(v);
            if hosts.len() > 0 {
                Some(hosts[0].clone())
            } else {
                None
            }
        },
        None => None,
    }
}

pub(crate) fn get_u64(p: &JsonValue, key: &str) -> (r: Option<u64>)
    ensures
        r == opt_u64(view_get(p@, key@)),
{
    match p.get(key) {
        Some(v) => value_to_u64(v),
        None => None,
    }
}

pub(crate) fn get_bool(p: &JsonValue, key: &str) -> (r: Option<bool>)
    ensures
        r == opt_bool(view_get(p@, key@)),
{
    match p.get(key) {
        Some(v) => value_to_bool(v),
        None => None,
    }
}

fn vmess_alpn_exec(p: &JsonValue) -> (r: Option<Vec<String>>)
    ensures
        opt_strings_view(r) == vmess_alpn(p@),
{
    match get_text(p, "alpn") {
        Some(t) => Some(split_csv_values(t.as_str())),
        None => match p.get("alpn") {
            Some(v) => value_to_string_list(v),
            None => None,
        },
    }
}

fn is_vmess_tls(tls: &Option<String>) -> (r: bool)
    ensures
        r == vmess_tls_on(opt_str_view(*tls)),
{
    match tls {
        Some(t) => {
            let c = chars_of(t.as_str());
            chars_eq_str(c.as_slice(), "tls") || chars_eq_str(c.as_slice(), "reality")
        },
        None => false,
    }
}

/// The node a decoded vmess JSON object denotes.
pub fn vmess_node_from_payload(
    payload: &JsonValue,
    source_id: &str,
    updated_at: &str,
) -> (r: Result<ProxyNode, CoreError>)
    ensures
        r matches Ok(n) ==> spec_vmess_payload(payload@, source_id@, updated_at@) == Some(n@),
        r is Err ==> spec_vmess_payload(payload@, source_id@, updated_at@) is None,
        r matches Err(e) ==> parse_failure(e, spec_vmess_payload_error(payload@)),
{
    let p = payload;
    let server = match get_str(p, "add") {
        Some(s) => s,
        None => return Err(vmess_error("vmess 缺少 add")),
    };
    let port = match vmess_port_exec(p) {
        Some(x) => x,
        None => return Err(vmess_error("vmess 缺少有效 port")),
    };
    let name = match get_str(p, "ps") {
        Some(ps) => decode_percent_encoded(ps.as_str()),
        None => decode_percent_encoded("vmess"),
    };
    let net = get_str(p, "net");
    let transport = vmess_transport_exec(&net);
    let tls_text = get_text(p, "tls");
    let tls_enabled = is_vmess_tls(&tls_text);
    let server_name = text_or(get_text(p, "sni"), first_host_exec(p.get("host"), transport));

    let mut extra = NodeExtra::new();
    insert_optional_string(&mut extra, "uuid", get_text(p, "id"));
    insert_optional_string(&mut extra, "path", get_text(p, "path"));
    insert_optional_string(&mut extra, "flow", get_text(p, "flow"));
    insert_optional_string(&mut extra, "service_name", text_or(get_text(p, "serviceName"), get_text(p, "service_name")));
    insert_optional_string(&mut extra, "grpc_service_name", get_text(p, "grpc_service_name"));
    insert_optional_string(&mut extra, "client_fingerprint", get_text(p, "fp"));
    insert_optional_string(&mut extra, "security", get_text(p, "security"));
    insert_optional_string(&mut extra, "cipher", text_or(get_text(p, "scy"), get_text(p, "cipher")));
    let aid = match p.get("aid") {
        Some(v) => value_to_u64(v),
        None => None,
    };
    insert_optional_u64(&mut extra, "alter_id", aid);
    let insecure = match get_bool(p, "allowInsecure") {
        Some(b) => Some(b),
        None => get_bool(p, "allow_insecure"),
    };
    insert_optional_bool(&mut extra, "skip_cert_verify", insecure);
    insert_optional_list(&mut extra, "alpn", vmess_alpn_exec(p));
    match p.get("host") {
        Some(h) => {
            let hosts = hosts_from_value_exec(h);
            insert_hosts(&mut extra, hosts, transport);
        },
        None => {},
    }

    let tls = TlsConfig { enabled: tls_enabled, server_name };
    Ok(build_proxy_node(source_id, name, ProxyProtocol::Vmess, server, port, transport, tls, extra, updated_at))
}

/// Parses a `vmess://` line.
pub fn parse_vmess_uri(line: &str, source_id: &str, updated_at: &str) -> (r: Result<ProxyNode, CoreError>)
    requires
        line@.len() >= 8,
        line@.take(8) == "vmess://"@,
    ensures
        r matches Ok(n) ==> spec_parse_vmess(line@, source_id@, updated_at@) == Some(n@),
        r is Err ==> spec_parse_vmess(line@, source_id@, updated_at@) is None,
        r matches Err(e) ==> parse_failure(e, spec_vmess_error(line@)),
{
    let c = chars_of(line);
    let n = c.len();
    let rest = slice_range(c.as_slice(), 8, n);
    assert(rest@ =~= line@.skip(8));
    let raw = trim_chars(rest.as_slice());
    let raw_text = string_of(raw.as_slice());
    let decoded = match try_decode_base64_text(raw_text.as_str()) {
        Some(d) => d,
        None => return Err(vmess_error("vmess URI Base64 解码失败")),
    };
    let payload = match parse_json(decoded.as_str()) {
        Ok(p) => p,
        Err(m) => return Err(CoreError::SubscriptionParse(concat("vmess JSON 非法：", m.as_str()))),
    };
    vmess_node_from_payload(&payload, source_id, updated_at)
}


// ---------------------------------------------------------------------------
// Laws
// ---------------------------------------------------------------------------

/// The `net` member of a vmess object names the node's transport: `ws`,
/// `grpc`, `h2` and `quic` give WebSocket, gRPC, HTTP/2 and QUIC; any other
/// text, or none, gives TCP. A payload with an address and a valid port always
/// yields a node.
pub proof fn lemma_vmess_net_names_the_transport(p: JsonView, source_id: Seq<char>, updated_at: Seq<char>)
    requires
        member_str(p, "add"@) is Some,
        vmess_port(p) is Some,
    ensures
        spec_vmess_payload(p, source_id, updated_at) is Some,
        member_str(p, "net"@) == Some("ws"@) ==> spec_vmess_payload(p, source_id, updated_at)->0.transport
            == ProxyTransport::Ws,
        member_str(p, "net"@) == Some("grpc"@) ==> spec_vmess_payload(p, source_id, updated_at)->0.transport
            == ProxyTransport::Grpc,
        member_str(p, "net"@) == Some("h2"@) ==> spec_vmess_payload(p, source_id, updated_at)->0.transport
            == ProxyTransport::H2,
        member_str(p, "net"@) == Some("quic"@) ==> spec_vmess_payload(p, source_id, updated_at)->0.transport
            == ProxyTransport::Quic,
        (member_str(p, "net"@) matches Some(v) && v != "ws"@ && v != "grpc"@ && v != "h2"@ && v != "quic"@)
            ==> spec_vmess_payload(p, source_id, updated_at)->0.transport == ProxyTransport::Tcp,
        member_str(p, "net"@) is None ==> spec_vmess_payload(p, source_id, updated_at)->0.transport
            == ProxyTransport::Tcp,
        spec_vmess_payload(p, source_id, updated_at)->0.server == member_str(p, "add"@)->0,
        spec_vmess_payload(p, source_id, updated_at)->0.port == vmess_port(p)->0,
        spec_vmess_payload(p, source_id, updated_at)->0.protocol == ProxyProtocol::Vmess,
{
    reveal_strlit("ws");
    reveal_strlit("grpc");
    reveal_strlit("h2");
    reveal_strlit("quic");
    assert("grpc"@.len() != "ws"@.len());
    assert("h2"@[0] != "ws"@[0]);
    assert("h2"@.len() != "grpc"@.len());
    assert("quic"@.len() != "ws"@.len() && "quic"@[0] != "grpc"@[0] && "quic"@.len() != "h2"@.len());
}

/// The same for a whole `vmess://` line: when its Base64 decodes to JSON with
/// an address, a valid port and `net` set to `grpc` (or `ws`, `h2`, `quic`),
/// the node's transport is gRPC (or WebSocket, HTTP/2, QUIC).
pub proof fn lemma_vmess_line_transport(line: Seq<char>, text: Seq<char>, p: JsonView, source_id: Seq<char>, updated_at: Seq<char>)
    requires
        spec_try_decode_base64(trim(line.skip(8))) == Some(text),
        spec_json_parse(text) == Some(p),
        member_str(p, "add"@) is Some,
        vmess_port(p) is Some,
    ensures
        spec_parse_vmess(line, source_id, updated_at) is Some,
        member_str(p, "net"@) == Some("grpc"@) ==> spec_parse_vmess(line, source_id, updated_at)->0.transport
            == ProxyTransport::Grpc,
        member_str(p, "net"@) == Some("ws"@) ==> spec_parse_vmess(line, source_id, updated_at)->0.transport
            == ProxyTransport::Ws,
        member_str(p, "net"@) == Some("h2"@) ==> spec_parse_vmess(line, source_id, updated_at)->0.transport
            == ProxyTransport::H2,
        member_str(p, "net"@) == Some("quic"@) ==> spec_parse_vmess(line, source_id, updated_at)->0.transport
            == ProxyTransport::Quic,
{
    lemma_vmess_net_names_the_transport(p, source_id, updated_at);
}

} // verus!
