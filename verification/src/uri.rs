//! Pieces shared by the proxy URI parsers: percent-decoding, `host:port`,
//! fragments, query parameters and the optional node fields they fill.
use vstd::prelude::*;
use vstd::utf8::{decode_utf8, encode_utf8, encode_utf8_decode_utf8, encode_utf8_valid_utf8, valid_utf8};
use crate::codec::{pairs_view, spec_utf8_lossy, utf8_lossy};
use crate::error::{parse_failure, CoreError};
use crate::json::{json_views, lemma_json_views, JsonNumber, JsonValue, JsonView, NumberView};
use crate::node::{NodeExtra, ProxyTransport};
use crate::text::{
    chars_eq_str, chars_of, eq_ignore_case, eq_ignore_case_exec, int_error_text, int_error_text_exec,
    lemma_split_char_nonempty, lower,
    lower_chars, parse_unsigned, parse_unsigned_exec, rsplit_once, rsplit_once_exec, split_char,
    split_char_exec, split_once, split_once_exec, string_of, trim, trim_chars,
};

verus! {

// ---------------------------------------------------------------------------
// Percent-decoding
// ---------------------------------------------------------------------------

pub open spec fn is_hex_byte(b: u8) -> bool {
    (48 <= b <= 57) || (97 <= b <= 102) || (65 <= b <= 70)
}

/// The value of a hexadecimal digit; 0 for any other byte.
pub open spec fn hex_val(b: u8) -> int {
    if 48 <= b <= 57 {
        b - 48
    } else if 97 <= b <= 102 {
        b - 87
    } else if 65 <= b <= 70 {
        b - 55
    } else {
        0
    }
}

pub fn hex_value(byte: u8) -> (r: u8)
    ensures
        r == hex_val(byte),
{
    if 48 <= byte && byte <= 57 {
        byte - 48
    } else if 97 <= byte && byte <= 102 {
        byte - 87
    } else if 65 <= byte && byte <= 70 {
        byte - 55
    } else {
        0
    }
}

/// Replaces each `%` followed by two hexadecimal digits with the byte they
/// denote; every other byte is kept.
pub open spec fn percent_decode_bytes(b: Seq<u8>) -> Seq<u8>
    decreases b.len(),
{
    if b.len() == 0 {
        Seq::empty()
    } else if b[0] == 37 && b.len() > 2 && is_hex_byte(b[1]) && is_hex_byte(b[2]) {
        seq![(hex_val(b[1]) * 16 + hex_val(b[2])) as u8] + percent_decode_bytes(b.skip(3))
    } else {
        seq![b[0]] + percent_decode_bytes(b.skip(1))
    }
}

/// The text `decode_percent_encoded` gives: the percent-decoded UTF-8 bytes,
/// read lossily.
pub open spec fn spec_decode_percent(raw: Seq<char>) -> Seq<char> {
    let b = percent_decode_bytes(encode_utf8(raw));
    if valid_utf8(b) {
        decode_utf8(b)
    } else {
        spec_utf8_lossy(b)
    }
}

proof fn lemma_no_percent(b: Seq<u8>)
    requires
        forall|i: int| 0 <= i < b.len() ==> b[i] != 37,
    ensures
        percent_decode_bytes(b) == b,
    decreases b.len(),
{
    if b.len() > 0 {
        lemma_no_percent(b.skip(1));
        assert(seq![b[0]] + b.skip(1) =~= b);
    }
}

/// Percent-decodes `raw` (`%41` becomes `A`); malformed escapes stay as they are
/// and bytes that are not UTF-8 are read lossily.
pub fn decode_percent_encoded(raw: &str) -> (r: String)
    ensures
        r@ == spec_decode_percent(raw@),
{
    let bytes = raw.as_bytes();
    let n = bytes.len();
    let mut k: usize = 0;
    let mut has_percent = false;
    while k < n
        invariant
            n == bytes@.len(),
            k <= n,
            !has_percent ==> forall|i: int| 0 <= i < k ==> bytes@[i] != 37,
        decreases n - k,
    {
        if bytes[k] == 37 {
            has_percent = true;
        }
        k = k + 1;
    }
    if !has_percent {
        proof {
            lemma_no_percent(bytes@);
            encode_utf8_valid_utf8(raw@);
            encode_utf8_decode_utf8(raw@);
        }
        return raw.to_owned();
    }
    let mut decoded: Vec<u8> = Vec::new();
    let mut index: usize = 0;
    assert(bytes@.skip(0) =~= bytes@);
    assert(decoded@ + percent_decode_bytes(bytes@) =~= percent_decode_bytes(bytes@));
    while index < n
        invariant
            n == bytes@.len(),
            index <= n,
            decoded@ + percent_decode_bytes(bytes@.skip(index as int)) == percent_decode_bytes(
                bytes@,
            ),
        decreases n - index,
    {
        let ghost rest = bytes@.skip(index as int);
        if bytes[index] == 37 && n - index > 2 {
            let hi = bytes[index + 1];
            let lo = bytes[index + 2];
            let hi_ok = (48 <= hi && hi <= 57) || (97 <= hi && hi <= 102) || (65 <= hi && hi <= 70);
            let lo_ok = (48 <= lo && lo <= 57) || (97 <= lo && lo <= 102) || (65 <= lo && lo <= 70);
            if hi_ok && lo_ok {
                let value = hex_value(hi) * 16 + hex_value(lo);
                proof {
                    assert(rest[1] == hi && rest[2] == lo);
                    assert(rest.skip(3) =~= bytes@.skip(index + 3));
                }
                decoded.push(value);
                index = index + 3;
                continue;
            }
        }
        proof {
            assert(rest.skip(1) =~= bytes@.skip(index + 1));
        }
        decoded.push(bytes[index]);
        index = index + 1;
    }
    assert(bytes@.skip(n as int) =~= Seq::<u8>::empty());
    assert(decoded@ =~= percent_decode_bytes(bytes@));
    utf8_lossy(decoded.as_slice())
}

// ---------------------------------------------------------------------------
// Fragments and `host:port`
// ---------------------------------------------------------------------------

/// `(value, fragment)` around the first `#`; the fragment is percent-decoded.
pub open spec fn spec_split_fragment(raw: Seq<char>) -> (Seq<char>, Option<Seq<char>>) {
    match split_once(raw, '#') {
        Some((value, fragment)) => (value, Some(spec_decode_percent(fragment))),
        None => (raw, None),
    }
}

pub fn split_fragment(raw: &str) -> (r: (String, Option<String>))
    ensures
        r.0@ == spec_split_fragment(raw@).0,
        r.1 matches Some(f) ==> spec_split_fragment(raw@).1 == Some(f@),
        r.1 is None ==> spec_split_fragment(raw@).1 is None,
{
    let chars = chars_of(raw);
    match split_once_exec(chars.as_slice(), '#') {
        Some((value, fragment)) => {
            let fragment_text = string_of(fragment.as_slice());
            (string_of(value.as_slice()), Some(decode_percent_encoded(fragment_text.as_str())))
        },
        None => (raw.to_owned(), None),
    }
}

/// `host` and port of `host:port` or `[v6-host]:port`, the port being a `u16`.
pub open spec fn spec_host_port(raw: Seq<char>) -> Option<(Seq<char>, u16)> {
    if raw.len() > 0 && raw[0] == '[' {
        match split_once(raw.drop_first(), ']') {
            Some((host, rem)) => if rem.len() > 0 && rem[0] == ':' {
                match parse_unsigned(rem.drop_first(), 65535) {
                    Some(p) => Some((host, p as u16)),
                    None => None,
                }
            } else {
                None
            },
            None => None,
        }
    } else {
        match rsplit_once(raw, ':') {
            Some((host, port)) => match parse_unsigned(port, 65535) {
                Some(p) => Some((host, p as u16)),
                None => None,
            },
            None => None,
        }
    }
}

/// Joins two texts.
pub fn concat(a: &str, b: &str) -> (r: String)
    ensures
        r@ == a@ + b@,
{
    let mut s = a.to_owned();
    s.append(b);
    s
}

/// The message `parse_host_port` gives for a text it refuses.
pub open spec fn spec_host_port_error(raw: Seq<char>) -> Seq<char> {
    if raw.len() > 0 && raw[0] == '[' {
        match split_once(raw.drop_first(), ']') {
            Some((_, rem)) => if rem.len() > 0 && rem[0] == ':' {
                "端口非法："@ + int_error_text(rem.drop_first(), 65535)
            } else {
                "端口缺失："@ + raw
            },
            None => "host 非法："@ + raw,
        }
    } else {
        match rsplit_once(raw, ':') {
            Some((_, port)) => "端口非法："@ + int_error_text(port, 65535),
            None => "host:port 解析失败："@ + raw,
        }
    }
}

fn parse_error(prefix: &str, detail: &str) -> (e: CoreError)
    ensures
        parse_failure(e, prefix@ + detail@),
{
    CoreError::SubscriptionParse(concat(prefix, detail))
}

/// Splits `host:port` (or `[v6-host]:port`); the port must be a `u16`.
pub fn parse_host_port(raw: &str) -> (r: Result<(String, u16), CoreError>)
    ensures
        r matches Ok(hp) ==> spec_host_port(raw@) == Some((hp.0@, hp.1)),
        r is Err ==> spec_host_port(raw@) is None,
        r matches Err(e) ==> parse_failure(e, spec_host_port_error(raw@)),
{
    let chars = chars_of(raw);
    if chars.len() > 0 && chars[0] == '[' {
        let n = chars.len();
        let stripped = crate::text::slice_range(chars.as_slice(), 1, n);
        assert(stripped@ =~= raw@.drop_first());
        let (host, remainder) = match split_once_exec(stripped.as_slice(), ']') {
            Some(p) => p,
            None => return Err(parse_error("host 非法：", raw)),
        };
        if remainder.len() == 0 || remainder[0] != ':' {
            return Err(parse_error("端口缺失：", raw));
        }
        let m = remainder.len();
        let port_text = crate::text::slice_range(remainder.as_slice(), 1, m);
        assert(port_text@ =~= remainder@.drop_first());
        match parse_unsigned_exec(port_text.as_slice(), 65535) {
            Some(p) => Ok((string_of(host.as_slice()), p as u16)),
            None => {
                let detail = int_error_text_exec(port_text.as_slice(), 65535);
                Err(parse_error("端口非法：", detail.as_str()))
            },
        }
    } else {
        let (host, port_text) = match rsplit_once_exec(chars.as_slice(), ':') {
            Some(p) => p,
            None => return Err(parse_error("host:port 解析失败：", raw)),
        };
        match parse_unsigned_exec(port_text.as_slice(), 65535) {
            Some(p) => Ok((string_of(host.as_slice()), p as u16)),
            None => {
                let detail = int_error_text_exec(port_text.as_slice(), 65535);
                Err(parse_error("端口非法：", detail.as_str()))
            },
        }
    }
}

/// The transport a `type`/`network` value names; anything else is TCP.
pub open spec fn spec_map_transport(raw: Option<Seq<char>>) -> ProxyTransport {
    match raw {
        Some(v) => if v == "ws"@ {
            ProxyTransport::Ws
        } else if v == "grpc"@ {
            ProxyTransport::Grpc
        } else if v == "h2"@ {
            ProxyTransport::H2
        } else if v == "quic"@ {
            ProxyTransport::Quic
        } else {
            ProxyTransport::Tcp
        },
        None => ProxyTransport::Tcp,
    }
}

pub fn map_transport(raw: Option<&str>) -> (r: ProxyTransport)
    ensures
        r == spec_map_transport(
            match raw {
                Some(v) => Some(v@),
                None => None,
            },
        ),
{
    match raw {
        Some(v) => {
            let c = chars_of(v);
            if chars_eq_str(c.as_slice(), "ws") {
                ProxyTransport::Ws
            } else if chars_eq_str(c.as_slice(), "grpc") {
                ProxyTransport::Grpc
            } else if chars_eq_str(c.as_slice(), "h2") {
                ProxyTransport::H2
            } else if chars_eq_str(c.as_slice(), "quic") {
                ProxyTransport::Quic
            } else {
                ProxyTransport::Tcp
            }
        },
        None => ProxyTransport::Tcp,
    }
}

// ---------------------------------------------------------------------------
// Query parameters
// ---------------------------------------------------------------------------

/// `k` equals one of `keys`, ignoring ASCII case.
pub open spec fn key_in(k: Seq<char>, keys: Seq<&str>) -> bool
    decreases keys.len(),
{
    keys.len() > 0 && (eq_ignore_case(k, keys[0]@) || key_in(k, keys.drop_first()))
}

/// The value of the first pair whose key is one of `keys`.
pub open spec fn first_match(pairs: Seq<(Seq<char>, Seq<char>)>, keys: Seq<&str>) -> Option<Seq<char>>
    decreases pairs.len(),
{
    if pairs.len() == 0 {
        None
    } else if key_in(pairs[0].0, keys) {
        Some(pairs[0].1)
    } else {
        first_match(pairs.drop_first(), keys)
    }
}

/// The trimmed value of the first pair whose key is one of `keys`, if not empty.
pub open spec fn spec_query_value(pairs: Seq<(Seq<char>, Seq<char>)>, keys: Seq<&str>) -> Option<
    Seq<char>,
> {
    match first_match(pairs, keys) {
        Some(v) => if trim(v).len() > 0 {
            Some(trim(v))
        } else {
            None
        },
        None => None,
    }
}

/// The flag a text denotes: `1`/`true`/`yes` and `0`/`false`/`no`, any case.
pub open spec fn spec_parse_flag(v: Seq<char>) -> Option<bool> {
    let l = lower(v);
    if l == "1"@ || l == "true"@ || l == "yes"@ {
        Some(true)
    } else if l == "0"@ || l == "false"@ || l == "no"@ {
        Some(false)
    } else {
        None
    }
}

pub open spec fn spec_query_bool(pairs: Seq<(Seq<char>, Seq<char>)>, keys: Seq<&str>) -> Option<bool> {
    match spec_query_value(pairs, keys) {
        Some(v) => spec_parse_flag(v),
        None => None,
    }
}

fn key_in_exec(k: &[char], keys: &[&str]) -> (r: bool)
    ensures
        r == key_in(k@, keys@),
{
    let mut j: usize = 0;
    assert(keys@.skip(0) =~= keys@);
    while j < keys.len()
        invariant
            j <= keys@.len(),
            key_in(k@, keys@) == key_in(k@, keys@.skip(j as int)),
        decreases keys.len() - j,
    {
        proof {
            assert(keys@.skip(j as int).drop_first() =~= keys@.skip(j + 1));
        }
        let kc = chars_of(keys[j]);
        if eq_ignore_case_exec(k, kc.as_slice()) {
            return true;
        }
        j = j + 1;
    }
    false
}

/// The trimmed value of the first query parameter named by `keys` (any ASCII case),
/// unless it is empty.
pub fn query_value(pairs: &[(String, String)], keys: &[&str]) -> (r: Option<String>)
    ensures
        r matches Some(v) ==> spec_query_value(pairs_view(pairs@), keys@) == Some(v@),
        r is None ==> spec_query_value(pairs_view(pairs@), keys@) is None,
{
    let ghost pv = pairs_view(pairs@);
    let mut i: usize = 0;
    assert(pv.skip(0) =~= pv);
    while i < pairs.len()
        invariant
            i <= pairs@.len(),
            pv == pairs_view(pairs@),
            first_match(pv, keys@) == first_match(pv.skip(i as int), keys@),
        decreases pairs.len() - i,
    {
        proof {
            assert(pv.skip(i as int).drop_first() =~= pv.skip(i + 1));
            assert(pv.skip(i as int)[0] == (pairs@[i as int].0@, pairs@[i as int].1@));
        }
        let k = chars_of(pairs[i].0.as_str());
        if key_in_exec(k.as_slice(), keys) {
            let v = chars_of(pairs[i].1.as_str());
            let t = trim_chars(v.as_slice());
            if t.len() > 0 {
                return Some(string_of(t.as_slice()));
            } else {
                return None;
            }
        }
        i = i + 1;
    }
    None
}

pub fn parse_flag(v: &str) -> (r: Option<bool>)
    ensures
        r == spec_parse_flag(v@),
{
    let c = chars_of(v);
    let l = lower_chars(c.as_slice());
    if chars_eq_str(l.as_slice(), "1") || chars_eq_str(l.as_slice(), "true") || chars_eq_str(
        l.as_slice(),
        "yes",
    ) {
        Some(true)
    } else if chars_eq_str(l.as_slice(), "0") || chars_eq_str(l.as_slice(), "false")
        || chars_eq_str(l.as_slice(), "no") {
        Some(false)
    } else {
        None
    }
}

/// The flag of the first query parameter named by `keys`.
pub fn query_bool(pairs: &[(String, String)], keys: &[&str]) -> (r: Option<bool>)
    ensures
        r == spec_query_bool(pairs_view(pairs@), keys@),
{
    match query_value(pairs, keys) {
        Some(v) => parse_flag(v.as_str()),
        None => None,
    }
}

// ---------------------------------------------------------------------------
// Comma-separated values
// ---------------------------------------------------------------------------

/// The trimmed, non-empty pieces.
pub open spec fn nonempty_trimmed(pieces: Seq<Seq<char>>) -> Seq<Seq<char>>
    decreases pieces.len(),
{
    if pieces.len() == 0 {
        Seq::empty()
    } else {
        let rest = nonempty_trimmed(pieces.drop_last());
        if trim(pieces.last()).len() > 0 {
            rest.push(trim(pieces.last()))
        } else {
            rest
        }
    }
}

/// The trimmed, non-empty pieces between commas.
pub open spec fn spec_split_csv(raw: Seq<char>) -> Seq<Seq<char>> {
    nonempty_trimmed(split_char(raw, ','))
}

pub open spec fn strings_view(v: Seq<String>) -> Seq<Seq<char>> {
    v.map_values(|s: String| s@)
}

pub fn split_csv_values(raw: &str) -> (r: Vec<String>)
    ensures
        strings_view(r@) == spec_split_csv(raw@),
{
    let c = chars_of(raw);
    let pieces = split_char_exec(c.as_slice(), ',');
    let ghost sp = split_char(raw@, ',');
    let mut out: Vec<String> = Vec::new();
    let mut i: usize = 0;
    while i < pieces.len()
        invariant
            i <= pieces@.len(),
            pieces@.len() == sp.len(),
            forall|k: int| 0 <= k < pieces@.len() ==> #[trigger] pieces@[k]@ == sp[k],
            strings_view(out@) == nonempty_trimmed(sp.take(i as int)),
        decreases pieces.len() - i,
    {
        proof {
            assert(sp.take(i + 1).drop_last() =~= sp.take(i as int));
        }
        let t = trim_chars(pieces[i].as_slice());
        if t.len() > 0 {
            let ghost before = out@;
            out.push(string_of(t.as_slice()));
            assert(strings_view(out@) =~= strings_view(before).push(t@));
        }
        i = i + 1;
    }
    assert(sp.take(sp.len() as int) =~= sp);
    out
}

// ---------------------------------------------------------------------------
// Optional node fields
// ---------------------------------------------------------------------------

/// A JSON array of strings.
pub open spec fn json_str_array(vals: Seq<Seq<char>>) -> JsonView {
    JsonView::Array(vals.map_values(|s: Seq<char>| JsonView::Str(s)))
}

pub fn string_array(values: Vec<String>) -> (r: JsonValue)
    ensures
        r@ == json_str_array(strings_view(values@)),
{
    let mut out: Vec<JsonValue> = Vec::new();
    let mut i: usize = 0;
    while i < values.len()
        invariant
            i <= values@.len(),
            out@.len() == i,
            forall|k: int| 0 <= k < i ==> (#[trigger] out@[k])@ == JsonView::Str(values@[k]@),
        decreases values.len() - i,
    {
        out.push(JsonValue::String(values[i].clone()));
        i = i + 1;
    }
    proof {
        lemma_json_views(out@);
        assert(json_views(out@) =~= strings_view(values@).map_values(
            |s: Seq<char>| JsonView::Str(s),
        ));
    }
    JsonValue::Array(out)
}

/// `extra` with `key` set to the string `v`, if there is one.
pub open spec fn put_str(m: Map<Seq<char>, JsonView>, key: Seq<char>, v: Option<Seq<char>>) -> Map<
    Seq<char>,
    JsonView,
> {
    match v {
        Some(s) => m.insert(key, JsonView::Str(s)),
        None => m,
    }
}

pub open spec fn put_bool(m: Map<Seq<char>, JsonView>, key: Seq<char>, v: Option<bool>) -> Map<
    Seq<char>,
    JsonView,
> {
    match v {
        Some(b) => m.insert(key, JsonView::Bool(b)),
        None => m,
    }
}

pub open spec fn put_u64(m: Map<Seq<char>, JsonView>, key: Seq<char>, v: Option<u64>) -> Map<
    Seq<char>,
    JsonView,
> {
    match v {
        Some(u) => m.insert(key, JsonView::Number(NumberView::PosInt(u))),
        None => m,
    }
}

/// `extra` with `key` set to the list `v`, if there is one and it is not empty.
pub open spec fn put_list(m: Map<Seq<char>, JsonView>, key: Seq<char>, v: Option<Seq<Seq<char>>>) -> Map<
    Seq<char>,
    JsonView,
> {
    match v {
        Some(vals) => if vals.len() > 0 {
            m.insert(key, json_str_array(vals))
        } else {
            m
        },
        None => m,
    }
}

pub open spec fn opt_str_view(v: Option<String>) -> Option<Seq<char>> {
    match v {
        Some(s) => Some(s@),
        None => None,
    }
}

pub fn insert_optional_string(extra: &mut NodeExtra, key: &str, value: Option<String>)
    ensures
        final(extra)@ == put_str(old(extra)@, key@, opt_str_view(value)),
{
    if let Some(v) = value {
        extra.insert(key.to_owned(), JsonValue::String(v));
    }
}

pub fn insert_optional_bool(extra: &mut NodeExtra, key: &str, value: Option<bool>)
    ensures
        final(extra)@ == put_bool(old(extra)@, key@, value),
{
    if let Some(v) = value {
        extra.insert(key.to_owned(), JsonValue::Bool(v));
    }
}

pub fn insert_optional_u64(extra: &mut NodeExtra, key: &str, value: Option<u64>)
    ensures
        final(extra)@ == put_u64(old(extra)@, key@, value),
{
    if let Some(v) = value {
        extra.insert(key.to_owned(), JsonValue::Number(JsonNumber::PosInt(v)));
    }
}

pub open spec fn opt_strings_view(v: Option<Vec<String>>) -> Option<Seq<Seq<char>>> {
    match v {
        Some(s) => Some(strings_view(s@)),
        None => None,
    }
}

/// Sets `key` to the list, if there is one and it is not empty.
pub fn insert_optional_list(extra: &mut NodeExtra, key: &str, values: Option<Vec<String>>)
    ensures
        final(extra)@ == put_list(old(extra)@, key@, opt_strings_view(values)),
{
    if let Some(v) = values {
        if v.len() > 0 {
            extra.insert(key.to_owned(), string_array(v));
        }
    }
}

/// Sets `alpn` to the comma-separated values of `value`.
pub fn insert_optional_alpn(extra: &mut NodeExtra, value: Option<String>)
    ensures
        final(extra)@ == put_list(
            old(extra)@,
            "alpn"@,
            match value {
                Some(v) => Some(spec_split_csv(v@)),
                None => None,
            },
        ),
{
    if let Some(v) = value {
        let values = split_csv_values(v.as_str());
        insert_optional_list(extra, "alpn", Some(values));
    }
}

/// The `host` field a transport carries: every host for HTTP/2, else the first.
pub open spec fn put_hosts(m: Map<Seq<char>, JsonView>, hosts: Seq<Seq<char>>, transport: ProxyTransport) -> Map<
    Seq<char>,
    JsonView,
> {
    if hosts.len() == 0 {
        m
    } else if transport == ProxyTransport::H2 {
        m.insert("host"@, json_str_array(hosts))
    } else {
        m.insert("host"@, JsonView::Str(hosts[0]))
    }
}

pub fn insert_hosts(extra: &mut NodeExtra, hosts: Vec<String>, transport: ProxyTransport)
    ensures
        final(extra)@ == put_hosts(old(extra)@, strings_view(hosts@), transport),
{
    if hosts.len() == 0 {
        return;
    }
    match transport {
        ProxyTransport::H2 => {
            extra.insert("host".to_owned(), string_array(hosts));
        },
        _ => {
            let first = hosts[0].clone();
            extra.insert("host".to_owned(), JsonValue::String(first));
        },
    }
}

/// Sets `host` from a comma-separated host list.
pub fn insert_transport_host(extra: &mut NodeExtra, host: Option<String>, transport: ProxyTransport)
    ensures
        final(extra)@ == match host {
            Some(h) => put_hosts(old(extra)@, spec_split_csv(h@), transport),
            None => old(extra)@,
        },
{
    if let Some(h) = host {
        let hosts = split_csv_values(h.as_str());
        insert_hosts(extra, hosts, transport);
    }
}

} // verus!
