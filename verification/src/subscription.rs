//! Subscription payloads: plain or Base64 URI lists, one proxy URI per line.
use vstd::prelude::*;
use crate::clock::now_rfc3339;
use crate::error::{parse_failure, CoreError};
use crate::json::{JsonValue, JsonView};
use crate::node::{build_proxy_node, spec_build_node, NodeExtra, NodeView, ProxyNode, ProxyProtocol, ProxyTransport, TlsConfig, TlsView};
use crate::text::{
    chars_of, contains_seq, contains_str, decimal, decimal_exec, find_char, has_prefix, is_ascii_ws, is_ascii_ws_exec,
    rsplit_once, rsplit_once_exec, slice_range, split_char, split_char_exec, split_once, split_once_exec,
    starts_with_str, string_from_str, string_of, trim, trim_chars,
};
use crate::uri::{concat, parse_host_port, spec_host_port, spec_host_port_error, spec_split_fragment, split_fragment};
use crate::url_parsers::{parse_trojan_uri, parse_vless_uri, spec_parse_trojan, spec_parse_vless, url_uri_error};
use crate::vmess::{parse_vmess_uri, spec_parse_vmess, spec_try_decode_base64, spec_vmess_error, try_decode_base64_text};

verus! {

// ---------------------------------------------------------------------------
// ss://
// ---------------------------------------------------------------------------

/// The part of `s` before the first `c` (all of `s` when there is none).
pub open spec fn before_char(s: Seq<char>, c: char) -> Seq<char> {
    match split_once(s, c) {
        Some((a, _)) => a,
        None => s,
    }
}

/// `credential@host:port`, split at the last `@`; when there is no `@`, the
/// whole part is Base64 of that text.
pub open spec fn ss_cred_host(s: Seq<char>) -> Option<(Seq<char>, Seq<char>)> {
    match rsplit_once(s, '@') {
        Some(p) => Some(p),
        None => match spec_try_decode_base64(s) {
            Some(d) => rsplit_once(d, '@'),
            None => None,
        },
    }
}

/// The name of an unnamed ss node: `ss-{server}:{port}`.
pub open spec fn ss_default_name(server: Seq<char>, port: u16) -> Seq<char> {
    "ss-"@ + server + ":"@ + decimal(port as nat)
}

pub open spec fn ss_extra(cipher: Seq<char>, password: Seq<char>) -> Map<Seq<char>, JsonView> {
    Map::<Seq<char>, JsonView>::empty().insert("cipher"@, JsonView::Str(cipher)).insert(
        "password"@,
        JsonView::Str(password),
    )
}

/// The node an `ss://` line denotes. The credential is `method:password`,
/// Base64-encoded or plain; the query is ignored; TLS is off.
pub open spec fn spec_parse_ss(line: Seq<char>, source_id: Seq<char>, updated_at: Seq<char>) -> Option<NodeView> {
    let (without_fragment, name) = spec_split_fragment(line.skip(5));
    match ss_cred_host(before_char(without_fragment, '?')) {
        Some((cred, host)) => {
            let credential = match spec_try_decode_base64(cred) {
                Some(t) => t,
                None => cred,
            };
            match split_once(credential, ':') {
                Some((cipher, password)) => match spec_host_port(host) {
                    Some((server, port)) => Some(
                        spec_build_node(
                            source_id,
                            match name {
                                Some(n) => n,
                                None => ss_default_name(server, port),
                            },
                            ProxyProtocol::Ss,
                            server,
                            port,
                            ProxyTransport::Tcp,
                            TlsView { enabled: false, server_name: None },
                            ss_extra(cipher, password),
                            updated_at,
                        ),
                    ),
                    None => None,
                },
                None => None,
            }
        },
        None => None,
    }
}

/// The message `parse_ss_uri` gives for a line it refuses.
pub open spec fn spec_ss_error(line: Seq<char>) -> Seq<char> {
    let (without_fragment, _) = spec_split_fragment(line.skip(5));
    let body = before_char(without_fragment, '?');
    match ss_cred_host(body) {
        Some((cred, host)) => {
            let credential = match spec_try_decode_base64(cred) {
                Some(t) => t,
                None => cred,
            };
            match split_once(credential, ':') {
                Some(_) => spec_host_port_error(host),
                None => "ss URI 凭证必须为 method:password"@,
            }
        },
        None => ss_cred_host_error(body),
    }
}

proof fn lemma_split_at_first(x: Seq<char>, c: char, y: Seq<char>)
    requires
        !x.contains(c),
    ensures
        split_once(x + seq![c] + y, c) == Some((x, y)),
        split_once(x, c) is None,
{
    let s = x + seq![c] + y;
    assert forall|j: int| 0 <= j < x.len() implies s[j] != c by {
        assert(s[j] == x[j]);
        if x[j] == c {
            assert(x.contains(c));
        }
    }
    crate::text::lemma_find_first_char(s, c, x.len() as int);
    assert(s.take(x.len() as int) =~= x);
    assert(s.skip(x.len() as int + 1) =~= y);
    assert forall|j: int| 0 <= j < x.len() implies x[j] != c by {
        if x[j] == c {
            assert(x.contains(c));
        }
    }
    crate::text::lemma_find_first_none(x, c);
}

/// The query of an `ss://` line plays no part in the node: for a line
/// `ss://{body}?{query}{fragment}` (the body holding no `?` or `#`, the query
/// no `#`, the fragment empty or starting with `#`), the node and the error
/// are those of `ss://{body}{fragment}`.
pub proof fn lemma_ss_query_is_ignored(
    body: Seq<char>,
    query: Seq<char>,
    fragment: Seq<char>,
    source_id: Seq<char>,
    updated_at: Seq<char>,
)
    requires
        !body.contains('?'),
        !body.contains('#'),
        !query.contains('#'),
        fragment.len() == 0 || fragment[0] == '#',
    ensures
        spec_parse_ss("ss://"@ + body + seq!['?'] + query + fragment, source_id, updated_at) == spec_parse_ss(
            "ss://"@ + body + fragment,
            source_id,
            updated_at,
        ),
        spec_ss_error("ss://"@ + body + seq!['?'] + query + fragment) == spec_ss_error("ss://"@ + body + fragment),
{
    reveal_strlit("ss://");
    let l1 = "ss://"@ + body + seq!['?'] + query + fragment;
    let l2 = "ss://"@ + body + fragment;
    let r1 = body + seq!['?'] + query + fragment;
    let r2 = body + fragment;
    assert(l1.skip(5) =~= r1);
    assert(l2.skip(5) =~= r2);
    let wq = body + seq!['?'] + query;
    assert(!wq.contains('#')) by {
        if wq.contains('#') {
            let j = choose|j: int| 0 <= j < wq.len() && wq[j] == '#';
            if j < body.len() {
                assert(body[j] == '#');
                assert(body.contains('#'));
            } else if j > body.len() {
                assert(query[j - body.len() - 1] == '#');
                assert(query.contains('#'));
            }
        }
    }
    if fragment.len() == 0 {
        assert(r1 =~= wq);
        assert(r2 =~= body);
        lemma_split_at_first(wq, '#', Seq::empty());
        lemma_split_at_first(body, '#', Seq::empty());
        assert(spec_split_fragment(r1) == (wq, None::<Seq<char>>));
        assert(spec_split_fragment(r2) == (body, None::<Seq<char>>));
    } else {
        let rest = fragment.drop_first();
        assert(fragment =~= seq!['#'] + rest);
        assert(r1 =~= wq + seq!['#'] + rest);
        assert(r2 =~= body + seq!['#'] + rest);
        lemma_split_at_first(wq, '#', rest);
        lemma_split_at_first(body, '#', rest);
    }
    lemma_split_at_first(body, '?', query);
    assert(before_char(wq, '?') == body);
    assert(before_char(body, '?') == body);
}

fn before_char_exec(s: &[char], c: char) -> (r: Vec<char>)
    ensures
        r@ == before_char(s@, c),
{
    match split_once_exec(s, c) {
        Some((a, _)) => a,
        None => slice_range(s, 0, s.len()),
    }
}

/// The message for an `ss://` body without a usable `credential@host:port`.
pub open spec fn ss_cred_host_error(s: Seq<char>) -> Seq<char> {
    match spec_try_decode_base64(s) {
        Some(_) => "ss URI 凭证无法解析"@,
        None => "ss URI 缺少 @server:port"@,
    }
}

fn ss_cred_host_exec(s: &[char]) -> (r: Result<(Vec<char>, Vec<char>), CoreError>)
    ensures
        r matches Ok(p) ==> ss_cred_host(s@) == Some((p.0@, p.1@)),
        r is Err ==> ss_cred_host(s@) is None,
        r matches Err(e) ==> parse_failure(e, ss_cred_host_error(s@)),
{
    match rsplit_once_exec(s, '@') {
        Some(p) => Ok(p),
        None => {
            let text = string_of(s);
            match try_decode_base64_text(text.as_str()) {
                Some(d) => {
                    let dc = chars_of(d.as_str());
                    match rsplit_once_exec(dc.as_slice(), '@') {
                        Some(p) => Ok(p),
                        None => Err(ss_error("ss URI 凭证无法解析")),
                    }
                },
                None => Err(ss_error("ss URI 缺少 @server:port")),
            }
        },
    }
}

fn ss_default_name_exec(server: &str, port: u16) -> (r: String)
    ensures
        r@ == ss_default_name(server@, port),
{
    let digits = decimal_exec(port as u64);
    let digits_text = string_of(digits.as_slice());
    let head = concat("ss-", server);
    let with_colon = concat(head.as_str(), ":");
    concat(with_colon.as_str(), digits_text.as_str())
}

fn ss_error(message: &str) -> (e: CoreError)
    ensures
        parse_failure(e, message@),
{
    CoreError::SubscriptionParse(string_from_str(message))
}

/// Parses an `ss://` line: `ss://base64(method:password)@host:port#name`,
/// `ss://method:password@host:port`, or `ss://base64(method:password@host:port)`.
pub fn parse_ss_uri(line: &str, source_id: &str, updated_at: &str) -> (r: Result<ProxyNode, CoreError>)
    requires
        line@.len() >= 5,
        line@.take(5) == "ss://"@,
    ensures
        r matches Ok(n) ==> spec_parse_ss(line@, source_id@, updated_at@) == Some(n@),
        r is Err ==> spec_parse_ss(line@, source_id@, updated_at@) is None,
        r matches Err(e) ==> parse_failure(e, spec_ss_error(line@)),
{
    let c = chars_of(line);
    let n = c.len();
    let rest = slice_range(c.as_slice(), 5, n);
    assert(rest@ =~= line@.skip(5));
    let rest_text = string_of(rest.as_slice());
    let (without_fragment, name) = split_fragment(rest_text.as_str());
    let wf = chars_of(without_fragment.as_str());
    let without_query = before_char_exec(wf.as_slice(), '?');
    let (cred, host) = match ss_cred_host_exec(without_query.as_slice()) {
        Ok(p) => p,
        Err(e) => return Err(e),
    };
    let cred_text = string_of(cred.as_slice());
    let credential = match try_decode_base64_text(cred_text.as_str()) {
        Some(t) => t,
        None => cred_text,
    };
    let cc = chars_of(credential.as_str());
    let (cipher, password) = match split_once_exec(cc.as_slice(), ':') {
        Some(p) => p,
        None => return Err(ss_error("ss URI 凭证必须为 method:password")),
    };
    let host_text = string_of(host.as_slice());
    let (server, port) = match parse_host_port(host_text.as_str()) {
        Ok(hp) => hp,
        Err(e) => return Err(e),
    };
    let mut extra = NodeExtra::new();
    extra.insert(string_from_str("cipher"), JsonValue::String(string_of(cipher.as_slice())));
    extra.insert(string_from_str("password"), JsonValue::String(string_of(password.as_slice())));
    let node_name = match name {
        Some(nm) => nm,
        None => ss_default_name_exec(server.as_str(), port),
    };
    assert(extra@ == ss_extra(cipher@, password@));
    let tls = TlsConfig { enabled: false, server_name: None };
    let node = build_proxy_node(
        source_id,
        node_name,
        ProxyProtocol::Ss,
        server,
        port,
        ProxyTransport::Tcp,
        tls,
        extra,
        updated_at,
    );
    Ok(node)
}

// ---------------------------------------------------------------------------
// Payload normalisation
// ---------------------------------------------------------------------------

/// The text names at least one of the four supported URI schemes.
pub open spec fn spec_looks_like_uri_list(p: Seq<char>) -> bool {
    contains_seq(p, "ss://"@) || contains_seq(p, "vmess://"@) || contains_seq(p, "vless://"@) || contains_seq(
        p,
        "trojan://"@,
    )
}

/// Whether the payload looks like a list of proxy URIs.
pub fn looks_like_uri_list(payload: &str) -> (r: bool)
    ensures
        r == spec_looks_like_uri_list(payload@),
{
    let c = chars_of(payload);
    contains_str(c.as_slice(), "ss://") || contains_str(c.as_slice(), "vmess://") || contains_str(
        c.as_slice(),
        "vless://",
    ) || contains_str(c.as_slice(), "trojan://")
}

/// `s` without its ASCII whitespace characters.
pub open spec fn strip_ascii_ws(s: Seq<char>) -> Seq<char>
    decreases s.len(),
{
    if s.len() == 0 {
        s
    } else if is_ascii_ws(s.last()) {
        strip_ascii_ws(s.drop_last())
    } else {
        strip_ascii_ws(s.drop_last()).push(s.last())
    }
}

/// The URI list a payload carries: the trimmed payload when it already names a
/// scheme; else, when the payload without its ASCII whitespace is Base64 of a
/// text naming a scheme, that text trimmed; else the trimmed payload.
pub open spec fn spec_normalize_payload(payload: Seq<char>) -> Seq<char> {
    let t = trim(payload);
    if t.len() == 0 {
        t
    } else if spec_looks_like_uri_list(t) {
        t
    } else {
        match spec_try_decode_base64(strip_ascii_ws(t)) {
            Some(d) => if spec_looks_like_uri_list(trim(d)) {
                trim(d)
            } else {
                t
            },
            None => t,
        }
    }
}

/// Normalising a normalised payload changes nothing.
pub proof fn lemma_normalize_idempotent(payload: Seq<char>)
    ensures
        spec_normalize_payload(spec_normalize_payload(payload)) == spec_normalize_payload(payload),
{
    let t = trim(payload);
    crate::text::lemma_trim_idempotent(payload);
    if t.len() > 0 && !spec_looks_like_uri_list(t) {
        if let Some(d) = spec_try_decode_base64(strip_ascii_ws(t)) {
            crate::text::lemma_trim_idempotent(d);
        }
    }
}

/// ASCII whitespace inside a Base64 payload (line breaks, spaces) does not
/// matter: two payloads that are not URI lists themselves and differ only in
/// such whitespace, whose whitespace-free form is Base64 of a text naming a
/// scheme, both normalise to that text trimmed.
pub proof fn lemma_base64_payload_ignores_ascii_whitespace(p1: Seq<char>, p2: Seq<char>, decoded: Seq<char>)
    requires
        strip_ascii_ws(trim(p1)) == strip_ascii_ws(trim(p2)),
        trim(p1).len() > 0,
        trim(p2).len() > 0,
        !spec_looks_like_uri_list(trim(p1)),
        !spec_looks_like_uri_list(trim(p2)),
        spec_try_decode_base64(strip_ascii_ws(trim(p1))) == Some(decoded),
        spec_looks_like_uri_list(trim(decoded)),
    ensures
        spec_normalize_payload(p1) == trim(decoded),
        spec_normalize_payload(p2) == trim(decoded),
        forall|source_id: Seq<char>, updated_at: Seq<char>|
            #[trigger] spec_parse_payload(source_id, p1, updated_at) == spec_parse_payload(source_id, p2, updated_at)
                && spec_parse_payload(source_id, p1, updated_at) == spec_parse_lines(
                split_char(trim(decoded), '\n'),
                source_id,
                updated_at,
            ),
{
}

proof fn lemma_strip_concat(x: Seq<char>, y: Seq<char>)
    ensures
        strip_ascii_ws(x + y) == strip_ascii_ws(x) + strip_ascii_ws(y),
    decreases y.len(),
{
    if y.len() == 0 {
        assert(x + y =~= x);
        assert(strip_ascii_ws(x) + strip_ascii_ws(y) =~= strip_ascii_ws(x));
    } else {
        lemma_strip_concat(x, y.drop_last());
        assert((x + y).drop_last() =~= x + y.drop_last());
        assert((x + y).last() == y.last());
        if !is_ascii_ws(y.last()) {
            assert(strip_ascii_ws(x) + strip_ascii_ws(y.drop_last()).push(y.last()) =~= (strip_ascii_ws(x)
                + strip_ascii_ws(y.drop_last())).push(y.last()));
        }
    }
}

proof fn lemma_strip_all_ws(w: Seq<char>)
    requires
        forall|i: int| 0 <= i < w.len() ==> is_ascii_ws(#[trigger] w[i]),
    ensures
        strip_ascii_ws(w) == Seq::<char>::empty(),
    decreases w.len(),
{
    if w.len() > 0 {
        assert forall|i: int| 0 <= i < w.drop_last().len() implies is_ascii_ws(#[trigger] w.drop_last()[i]) by {
            assert(w.drop_last()[i] == w[i]);
        }
        lemma_strip_all_ws(w.drop_last());
        assert(is_ascii_ws(w[w.len() - 1]));
    }
}

proof fn lemma_trim_keeps(s: Seq<char>)
    requires
        s.len() > 0,
        !crate::text::is_ws(s[0]),
        !crate::text::is_ws(s.last()),
    ensures
        trim(s) == s,
{
    assert(crate::text::trim_start(s) == s);
    assert(crate::text::trim_end(s) == s);
}

/// Line breaks or spaces put inside a Base64 payload do not change what it
/// normalises to: with ASCII whitespace `w` inserted between the two parts of
/// a payload `a + b` (which starts and ends with a visible character and is
/// Base64 of a text naming a scheme), both forms normalise to that text trimmed.
pub proof fn lemma_whitespace_inside_base64_payload(a: Seq<char>, w: Seq<char>, b: Seq<char>, decoded: Seq<char>)
    requires
        a.len() > 0,
        b.len() > 0,
        !crate::text::is_ws(a[0]),
        !crate::text::is_ws(b.last()),
        forall|i: int| 0 <= i < w.len() ==> is_ascii_ws(#[trigger] w[i]),
        !spec_looks_like_uri_list(a + w + b),
        !spec_looks_like_uri_list(a + b),
        spec_try_decode_base64(strip_ascii_ws(a + b)) == Some(decoded),
        spec_looks_like_uri_list(trim(decoded)),
    ensures
        spec_normalize_payload(a + w + b) == trim(decoded),
        spec_normalize_payload(a + b) == trim(decoded),
{
    let p1 = a + w + b;
    let p2 = a + b;
    assert(p1[0] == a[0] && p1.last() == b.last());
    assert(p2[0] == a[0] && p2.last() == b.last());
    lemma_trim_keeps(p1);
    lemma_trim_keeps(p2);
    lemma_strip_concat(a + w, b);
    lemma_strip_concat(a, w);
    lemma_strip_concat(a, b);
    lemma_strip_all_ws(w);
    assert(strip_ascii_ws(a) + Seq::<char>::empty() =~= strip_ascii_ws(a));
    lemma_base64_payload_ignores_ascii_whitespace(p1, p2, decoded);
}

fn strip_ascii_ws_exec(s: &[char]) -> (r: Vec<char>)
    ensures
        r@ == strip_ascii_ws(s@),
{
    let mut out: Vec<char> = Vec::new();
    let mut i: usize = 0;
    while i < s.len()
        invariant
            i <= s@.len(),
            out@ == strip_ascii_ws(s@.take(i as int)),
        decreases s.len() - i,
    {
        proof {
            assert(s@.take(i + 1).drop_last() =~= s@.take(i as int));
        }
        if !is_ascii_ws_exec(s[i]) {
            out.push(s[i]);
        }
        i = i + 1;
    }
    assert(s@.take(s@.len() as int) =~= s@);
    out
}

/// Normalises a subscription payload into a URI list (see `spec_normalize_payload`).
pub fn normalize_subscription_payload(payload: &str) -> (r: String)
    ensures
        r@ == spec_normalize_payload(payload@),
{
    let c = chars_of(payload);
    let t = trim_chars(c.as_slice());
    let trimmed = string_of(t.as_slice());
    if t.len() == 0 {
        return trimmed;
    }
    if looks_like_uri_list(trimmed.as_str()) {
        return trimmed;
    }
    let compact = strip_ascii_ws_exec(t.as_slice());
    let compact_text = string_of(compact.as_slice());
    if let Some(decoded) = try_decode_base64_text(compact_text.as_str()) {
        let dc = chars_of(decoded.as_str());
        let dt = trim_chars(dc.as_slice());
        let decoded_trimmed = string_of(dt.as_slice());
        if looks_like_uri_list(decoded_trimmed.as_str()) {
            return decoded_trimmed;
        }
    }
    trimmed
}

// ---------------------------------------------------------------------------
// Lines
// ---------------------------------------------------------------------------

/// The node a line denotes, chosen by its scheme; `None` for other schemes and
/// for lines that do not parse.
pub open spec fn spec_parse_line(line: Seq<char>, source_id: Seq<char>, updated_at: Seq<char>) -> Option<NodeView> {
    if has_prefix(line, "ss://"@) {
        spec_parse_ss(line, source_id, updated_at)
    } else if has_prefix(line, "vmess://"@) {
        spec_parse_vmess(line, source_id, updated_at)
    } else if has_prefix(line, "vless://"@) {
        spec_parse_vless(line, source_id, updated_at)
    } else if has_prefix(line, "trojan://"@) {
        spec_parse_trojan(line, source_id, updated_at)
    } else {
        None
    }
}

/// The message `parse_proxy_uri_line` gives for a line it refuses.
pub open spec fn spec_parse_line_error(line: Seq<char>) -> Seq<char> {
    if has_prefix(line, "ss://"@) {
        spec_ss_error(line)
    } else if has_prefix(line, "vmess://"@) {
        spec_vmess_error(line)
    } else if has_prefix(line, "vless://"@) {
        url_uri_error(line, "vless URI 非法："@, "vless URI 缺少 host"@, "vless URI 缺少端口"@)
    } else if has_prefix(line, "trojan://"@) {
        url_uri_error(line, "trojan URI 非法："@, "trojan URI 缺少 host"@, "trojan URI 缺少端口"@)
    } else {
        "不支持的 URI 协议："@ + line
    }
}

/// Parses one proxy URI line, dispatching on its scheme.
pub fn parse_proxy_uri_line(line: &str, source_id: &str, updated_at: &str) -> (r: Result<ProxyNode, CoreError>)
    ensures
        r matches Ok(n) ==> spec_parse_line(line@, source_id@, updated_at@) == Some(n@),
        r is Err ==> spec_parse_line(line@, source_id@, updated_at@) is None,
        r matches Err(e) ==> parse_failure(e, spec_parse_line_error(line@)),
{
    let c = chars_of(line);
    proof {
        reveal_strlit("ss://");
        reveal_strlit("vmess://");
    }
    if starts_with_str(c.as_slice(), "ss://") {
        return parse_ss_uri(line, source_id, updated_at);
    }
    if starts_with_str(c.as_slice(), "vmess://") {
        return parse_vmess_uri(line, source_id, updated_at);
    }
    if starts_with_str(c.as_slice(), "vless://") {
        return parse_vless_uri(line, source_id, updated_at);
    }
    if starts_with_str(c.as_slice(), "trojan://") {
        return parse_trojan_uri(line, source_id, updated_at);
    }
    Err(CoreError::SubscriptionParse(concat("不支持的 URI 协议：", line)))
}

/// The nodes of the lines, in order: each line is trimmed (which also drops a
/// `\r` before the `\n`); empty lines, `#` comments and lines that do not
/// parse are skipped.
pub open spec fn spec_parse_lines(lines: Seq<Seq<char>>, source_id: Seq<char>, updated_at: Seq<char>) -> Seq<NodeView>
    decreases lines.len(),
{
    if lines.len() == 0 {
        Seq::empty()
    } else {
        let rest = spec_parse_lines(lines.drop_last(), source_id, updated_at);
        let line = trim(lines.last());
        if line.len() == 0 || line[0] == '#' {
            rest
        } else {
            match spec_parse_line(line, source_id, updated_at) {
                Some(n) => rest.push(n),
                None => rest,
            }
        }
    }
}

/// A parsed line yields a node of the source, stamped with the parse time,
/// without tags or region.
pub proof fn lemma_parsed_line_is_stamped(line: Seq<char>, source_id: Seq<char>, updated_at: Seq<char>)
    ensures
        spec_parse_line(line, source_id, updated_at) matches Some(n) ==> n.source_id == source_id && n.updated_at
            == updated_at && n.tags.len() == 0 && n.region is None,
{
}

/// Lines are parsed independently: the nodes of two runs of lines are the
/// nodes of the first followed by those of the second.
pub proof fn lemma_parse_lines_concat(a: Seq<Seq<char>>, b: Seq<Seq<char>>, source_id: Seq<char>, updated_at: Seq<char>)
    ensures
        spec_parse_lines(a + b, source_id, updated_at) == spec_parse_lines(a, source_id, updated_at) + spec_parse_lines(
            b,
            source_id,
            updated_at,
        ),
    decreases b.len(),
{
    if b.len() == 0 {
        assert(a + b =~= a);
        assert(spec_parse_lines(a, source_id, updated_at) + Seq::<NodeView>::empty() =~= spec_parse_lines(
            a,
            source_id,
            updated_at,
        ));
    } else {
        lemma_parse_lines_concat(a, b.drop_last(), source_id, updated_at);
        assert((a + b).drop_last() =~= a + b.drop_last());
        assert((a + b).last() == b.last());
        let pa = spec_parse_lines(a, source_id, updated_at);
        let pb = spec_parse_lines(b.drop_last(), source_id, updated_at);
        let line = trim(b.last());
        if !(line.len() == 0 || line[0] == '#') {
            if let Some(n) = spec_parse_line(line, source_id, updated_at) {
                assert((pa + pb).push(n) =~= pa + pb.push(n));
            }
        }
    }
}

/// Every node of a parsed run of lines belongs to the source and carries the parse time.
pub proof fn lemma_parsed_lines_are_stamped(lines: Seq<Seq<char>>, source_id: Seq<char>, updated_at: Seq<char>)
    ensures
        forall|i: int|
            0 <= i < spec_parse_lines(lines, source_id, updated_at).len() ==> (#[trigger] spec_parse_lines(
                lines,
                source_id,
                updated_at,
            )[i]).source_id == source_id && spec_parse_lines(lines, source_id, updated_at)[i].updated_at == updated_at,
    decreases lines.len(),
{
    if lines.len() > 0 {
        lemma_parsed_lines_are_stamped(lines.drop_last(), source_id, updated_at);
        lemma_parsed_line_is_stamped(trim(lines.last()), source_id, updated_at);
    }
}

/// The nodes a subscription payload yields, every node stamped `updated_at`.
pub open spec fn spec_parse_payload(source_id: Seq<char>, payload: Seq<char>, updated_at: Seq<char>) -> Seq<NodeView> {
    spec_parse_lines(split_char(spec_normalize_payload(payload), '\n'), source_id, updated_at)
}

pub open spec fn nodes_view(v: Seq<ProxyNode>) -> Seq<NodeView> {
    v.map_values(|n: ProxyNode| n@)
}

/// Parses every line of a normalised payload, stamping the nodes with `updated_at`.
pub fn parse_payload_at(source_id: &str, payload: &str, updated_at: &str) -> (r: Vec<ProxyNode>)
    ensures
        nodes_view(r@) == spec_parse_payload(source_id@, payload@, updated_at@),
{
    let normalized = normalize_subscription_payload(payload);
    let c = chars_of(normalized.as_str());
    let lines = split_char_exec(c.as_slice(), '\n');
    let ghost sl = split_char(normalized@, '\n');
    let mut nodes: Vec<ProxyNode> = Vec::new();
    let mut i: usize = 0;
    while i < lines.len()
        invariant
            i <= lines@.len(),
            lines@.len() == sl.len(),
            forall|k: int| 0 <= k < lines@.len() ==> #[trigger] lines@[k]@ == sl[k],
            nodes_view(nodes@) == spec_parse_lines(sl.take(i as int), source_id@, updated_at@),
        decreases lines.len() - i,
    {
        proof {
            assert(sl.take(i + 1).drop_last() =~= sl.take(i as int));
            assert(sl.take(i + 1).last() == lines@[i as int]@);
        }
        let line = trim_chars(lines[i].as_slice());
        if line.len() > 0 && line[0] != '#' {
            let text = string_of(line.as_slice());
            match parse_proxy_uri_line(text.as_str(), source_id, updated_at) {
                Ok(node) => {
                    let ghost before = nodes@;
                    nodes.push(node);
                    assert(nodes_view(nodes@) =~= nodes_view(before).push(node@));
                },
                Err(_) => {},
            }
        }
        i = i + 1;
    }
    assert(sl.take(sl.len() as int) =~= sl);
    nodes
}

// ---------------------------------------------------------------------------
// Parsers
// ---------------------------------------------------------------------------

/// Turns a subscription payload into proxy nodes.
pub trait SubscriptionParser {
    fn parse(&self, source_id: &str, payload: &str) -> (r: Result<Vec<ProxyNode>, CoreError>);
}

/// The parser for plain or Base64-encoded lists of `ss://`, `vmess://`,
/// `vless://` and `trojan://` URIs.
#[derive(Debug, Default, Clone, Copy)]
pub struct UriListParser;

impl SubscriptionParser for UriListParser {
    /// Stamps every node with the current time; lines that do not parse are skipped.
    fn parse(&self, source_id: &str, payload: &str) -> (r: Result<Vec<ProxyNode>, CoreError>)
        ensures
            r matches Ok(v) ==> exists|t: Seq<char>|
                crate::clock::rfc3339_utc_text(t) && nodes_view(v@) == #[trigger] spec_parse_payload(source_id@, payload@, t),
            r matches Err(e) ==> e is TimeFormat,
    {
        let updated_at = match now_rfc3339() {
            Ok(t) => t,
            Err(e) => return Err(e),
        };
        let nodes = parse_payload_at(source_id, payload, updated_at.as_str());
        assert(nodes_view(nodes@) == spec_parse_payload(source_id@, payload@, updated_at@));
        Ok(nodes)
    }
}

} // verus!
