//! The request-level rules of the HTTP API: tokens, paths, host names, client
//! identification and the headers of exported profiles.
use vstd::prelude::*;
use vstd::utf8::encode_utf8;
use crate::text::{
    chars_eq_str, chars_of, decimal, has_prefix, is_ws, lower, lower_chars, slice_range, split_char, split_char_exec,
    split_once, split_once_exec, starts_with_str, string_from_str, string_of, trim, trim_chars,
};
use crate::uri::{concat, opt_str_view};

verus! {

// ---------------------------------------------------------------------------
// Tokens and paths
// ---------------------------------------------------------------------------

/// The token of an `Authorization: Bearer <token>` value: the trimmed value
/// must start with `Bearer `, and the rest, trimmed, must not be empty.
pub open spec fn spec_bearer_token(header_value: Seq<char>) -> Option<Seq<char>> {
    let t = trim(header_value);
    if has_prefix(t, "Bearer "@) && trim(t.skip(7)).len() > 0 {
        Some(trim(t.skip(7)))
    } else {
        None
    }
}

pub fn parse_bearer_token(header_value: &str) -> (r: Option<String>)
    ensures
        opt_str_view(r) == spec_bearer_token(header_value@),
{
    let c = chars_of(header_value);
    let t = trim_chars(c.as_slice());
    proof {
        reveal_strlit("Bearer ");
    }
    if !starts_with_str(t.as_slice(), "Bearer ") {
        return None;
    }
    let n = t.len();
    let rest = slice_range(t.as_slice(), 7, n);
    assert(rest@ =~= t@.skip(7));
    let token = trim_chars(rest.as_slice());
    if token.len() == 0 {
        None
    } else {
        Some(string_of(token.as_slice()))
    }
}

/// The name and value of a `name=value` pair (the value is empty without `=`).
pub open spec fn pair_name(pair: Seq<char>) -> Seq<char> {
    match split_once(pair, '=') {
        Some((n, _)) => n,
        None => pair,
    }
}

pub open spec fn pair_value(pair: Seq<char>) -> Seq<char> {
    match split_once(pair, '=') {
        Some((_, v)) => v,
        None => Seq::empty(),
    }
}

/// The first non-empty value of `key` among `&`-separated pairs.
pub open spec fn first_param(pairs: Seq<Seq<char>>, key: Seq<char>) -> Option<Seq<char>>
    decreases pairs.len(),
{
    if pairs.len() == 0 {
        None
    } else if pair_name(pairs[0]) == key && pair_value(pairs[0]).len() > 0 {
        Some(pair_value(pairs[0]))
    } else {
        first_param(pairs.drop_first(), key)
    }
}

pub open spec fn spec_query_param(query: Option<Seq<char>>, key: Seq<char>) -> Option<Seq<char>> {
    match query {
        Some(q) => first_param(split_char(q, '&'), key),
        None => None,
    }
}

/// The first non-empty value of `key` in a raw (undecoded) query string.
pub fn extract_query_param(query: Option<&str>, key: &str) -> (r: Option<String>)
    ensures
        opt_str_view(r) == spec_query_param(
            match query {
                Some(q) => Some(q@),
                None => None,
            },
            key@,
        ),
{
    let q = match query {
        Some(q) => q,
        None => return None,
    };
    let c = chars_of(q);
    let pairs = split_char_exec(c.as_slice(), '&');
    let ghost sp = split_char(q@, '&');
    let mut i: usize = 0;
    assert(sp.skip(0) =~= sp);
    while i < pairs.len()
        invariant
            i <= pairs@.len(),
            sp == split_char(q@, '&'),
            query matches Some(x) && x@ == q@,
            pairs@.len() == sp.len(),
            forall|k: int| 0 <= k < pairs@.len() ==> #[trigger] pairs@[k]@ == sp[k],
            first_param(sp, key@) == first_param(sp.skip(i as int), key@),
        decreases pairs.len() - i,
    {
        proof {
            assert(sp.skip(i as int)[0] == pairs@[i as int]@);
            assert(sp.skip(i as int).drop_first() =~= sp.skip(i + 1));
        }
        let pair = pairs[i].as_slice();
        let (name, value) = match split_once_exec(pair, '=') {
            Some((n, v)) => (n, v),
            None => {
                let whole = slice_range(pair, 0, pair.len());
                assert(whole@ =~= pair@);
                (whole, Vec::new())
            },
        };
        assert(pair_name(sp[i as int]) == name@ && pair_value(sp[i as int]) =~= value@);
        if chars_eq_str(name.as_slice(), key) && value.len() > 0 {
            assert(sp.skip(i as int).len() > 0);
            assert(first_param(sp.skip(i as int), key@) == Some(pair_value(sp[i as int])));
            return Some(string_of(value.as_slice()));
        }
        i = i + 1;
    }
    None
}

/// The profile id of a path `/api/profiles/{id}...`.
pub open spec fn spec_profile_id(path: Seq<char>) -> Option<Seq<char>> {
    let parts = split_char(path, '/');
    if parts.len() >= 4 && parts[1] == "api"@ && parts[2] == "profiles"@ && parts[3].len() > 0 {
        Some(parts[3])
    } else {
        None
    }
}

pub fn extract_profile_id_from_path(path: &str) -> (r: Option<String>)
    ensures
        opt_str_view(r) == spec_profile_id(path@),
{
    let c = chars_of(path);
    let parts = split_char_exec(c.as_slice(), '/');
    if parts.len() >= 4 && chars_eq_str(parts[1].as_slice(), "api") && chars_eq_str(parts[2].as_slice(), "profiles")
        && parts[3].len() > 0 {
        Some(string_of(parts[3].as_slice()))
    } else {
        None
    }
}

/// The export formats a profile can be read in.
pub open spec fn is_export_format(s: Seq<char>) -> bool {
    s == "raw"@ || s == "clash"@ || s == "sing-box"@ || s == "base64"@
}

/// `GET /api/profiles/{id}/{raw|clash|sing-box|base64}`.
pub open spec fn spec_profile_read(is_get: bool, path: Seq<char>) -> bool {
    is_get && match spec_profile_id(path) {
        Some(id) => {
            let prefix = "/api/profiles/"@ + id + "/"@;
            has_prefix(path, prefix) && is_export_format(path.skip(prefix.len() as int))
        },
        None => false,
    }
}

/// Whether a request reads a profile export (which a profile token may authorise).
pub fn is_profile_read_endpoint(is_get: bool, path: &str) -> (r: bool)
    ensures
        r == spec_profile_read(is_get, path@),
{
    if !is_get {
        return false;
    }
    let id = match extract_profile_id_from_path(path) {
        Some(id) => id,
        None => return false,
    };
    let head = concat("/api/profiles/", id.as_str());
    let prefix = concat(head.as_str(), "/");
    let c = chars_of(path);
    let p = chars_of(prefix.as_str());
    if !crate::text::starts_with(c.as_slice(), p.as_slice()) {
        return false;
    }
    let n = c.len();
    let rest = slice_range(c.as_slice(), p.len(), n);
    assert(rest@ =~= path@.skip(prefix@.len() as int));
    chars_eq_str(rest.as_slice(), "raw") || chars_eq_str(rest.as_slice(), "clash") || chars_eq_str(
        rest.as_slice(),
        "sing-box",
    ) || chars_eq_str(rest.as_slice(), "base64")
}

/// A `Host` header as compared: trimmed and ASCII lower-cased.
pub fn normalize_host(raw: &str) -> (r: String)
    ensures
        r@ == lower(trim(raw@)),
{
    let c = chars_of(raw);
    let t = trim_chars(c.as_slice());
    let l = lower_chars(t.as_slice());
    string_of(l.as_slice())
}

// ---------------------------------------------------------------------------
// Client identification
// ---------------------------------------------------------------------------

/// `s` without leading and trailing `c` (`str::trim_matches`).
pub open spec fn trim_start_char(s: Seq<char>, c: char) -> Seq<char>
    decreases s.len(),
{
    if s.len() > 0 && s[0] == c {
        trim_start_char(s.drop_first(), c)
    } else {
        s
    }
}

pub open spec fn trim_end_char(s: Seq<char>, c: char) -> Seq<char>
    decreases s.len(),
{
    if s.len() > 0 && s.last() == c {
        trim_end_char(s.drop_last(), c)
    } else {
        s
    }
}

pub open spec fn trim_matches(s: Seq<char>, c: char) -> Seq<char> {
    trim_end_char(trim_start_char(s, c), c)
}

pub fn trim_matches_exec(s: &[char], c: char) -> (r: Vec<char>)
    ensures
        r@ == trim_matches(s@, c),
{
    let n = s.len();
    let mut lo: usize = 0;
    assert(s@.subrange(0, n as int) =~= s@);
    while lo < n && s[lo] == c
        invariant
            lo <= n == s@.len(),
            trim_start_char(s@, c) == trim_start_char(s@.subrange(lo as int, n as int), c),
        decreases n - lo,
    {
        proof {
            assert(s@.subrange(lo as int, n as int).drop_first() =~= s@.subrange(lo + 1, n as int));
        }
        lo = lo + 1;
    }
    let mut hi: usize = n;
    proof {
        assert(s@.subrange(lo as int, n as int) == trim_start_char(s@, c));
    }
    while hi > lo && s[hi - 1] == c
        invariant
            lo <= hi <= n == s@.len(),
            trim_end_char(s@.subrange(lo as int, n as int), c) == trim_end_char(s@.subrange(lo as int, hi as int), c),
        decreases hi,
    {
        proof {
            assert(s@.subrange(lo as int, hi as int).drop_last() =~= s@.subrange(lo as int, hi - 1));
        }
        hi = hi - 1;
    }
    slice_range(s, lo, hi)
}

/// The address of one `Forwarded` element: `for=` followed by a value, quotes
/// and blanks around it removed.
pub open spec fn forwarded_segment(seg: Seq<char>) -> Option<Seq<char>> {
    let t = trim(seg);
    if has_prefix(t, "for="@) && trim(trim_matches(t.skip(4), '"')).len() > 0 {
        Some(trim(trim_matches(t.skip(4), '"')))
    } else {
        None
    }
}

/// The first `for=` address among `;`-separated segments.
pub open spec fn first_for(segs: Seq<Seq<char>>) -> Option<Seq<char>>
    decreases segs.len(),
{
    if segs.len() == 0 {
        None
    } else {
        match forwarded_segment(segs[0]) {
            Some(v) => Some(v),
            None => first_for(segs.drop_first()),
        }
    }
}

/// The first `for=` address among `,`-separated elements.
pub open spec fn first_forwarded(entries: Seq<Seq<char>>) -> Option<Seq<char>>
    decreases entries.len(),
{
    if entries.len() == 0 {
        None
    } else {
        match first_for(split_char(entries[0], ';')) {
            Some(v) => Some(v),
            None => first_forwarded(entries.drop_first()),
        }
    }
}

pub open spec fn spec_forwarded_for(raw: Seq<char>) -> Option<Seq<char>> {
    first_forwarded(split_char(raw, ','))
}

fn forwarded_segment_exec(seg: &[char]) -> (r: Option<Vec<char>>)
    ensures
        r matches Some(v) ==> forwarded_segment(seg@) == Some(v@),
        r is None ==> forwarded_segment(seg@) is None,
{
    let t = trim_chars(seg);
    if !starts_with_str(t.as_slice(), "for=") {
        return None;
    }
    proof {
        reveal_strlit("for=");
    }
    let n = t.len();
    let rest = slice_range(t.as_slice(), 4, n);
    assert(rest@ =~= t@.skip(4));
    let unquoted = trim_matches_exec(rest.as_slice(), '"');
    let v = trim_chars(unquoted.as_slice());
    if v.len() > 0 {
        Some(v)
    } else {
        None
    }
}

fn first_for_exec(entry: &[char]) -> (r: Option<Vec<char>>)
    ensures
        r matches Some(v) ==> first_for(split_char(entry@, ';')) == Some(v@),
        r is None ==> first_for(split_char(entry@, ';')) is None,
{
    let segs = split_char_exec(entry, ';');
    let ghost sp = split_char(entry@, ';');
    assert(sp.skip(0) =~= sp);
    let mut i: usize = 0;
    while i < segs.len()
        invariant
            i <= segs@.len(),
            sp == split_char(entry@, ';'),
            segs@.len() == sp.len(),
            forall|k: int| 0 <= k < segs@.len() ==> #[trigger] segs@[k]@ == sp[k],
            first_for(sp) == first_for(sp.skip(i as int)),
        decreases segs.len() - i,
    {
        proof {
            assert(sp.skip(i as int)[0] == segs@[i as int]@);
            assert(sp.skip(i as int).drop_first() =~= sp.skip(i + 1));
        }
        match forwarded_segment_exec(segs[i].as_slice()) {
            Some(v) => return Some(v),
            None => {},
        }
        i = i + 1;
    }
    None
}

/// The client address a `Forwarded` header names.
pub fn parse_forwarded_for(raw: &str) -> (r: Option<String>)
    ensures
        opt_str_view(r) == spec_forwarded_for(raw@),
{
    let c = chars_of(raw);
    let entries = split_char_exec(c.as_slice(), ',');
    let ghost sp = split_char(raw@, ',');
    assert(sp.skip(0) =~= sp);
    let mut i: usize = 0;
    while i < entries.len()
        invariant
            i <= entries@.len(),
            sp == split_char(raw@, ','),
            entries@.len() == sp.len(),
            forall|k: int| 0 <= k < entries@.len() ==> #[trigger] entries@[k]@ == sp[k],
            first_forwarded(sp) == first_forwarded(sp.skip(i as int)),
        decreases entries.len() - i,
    {
        proof {
            assert(sp.skip(i as int)[0] == entries@[i as int]@);
            assert(sp.skip(i as int).drop_first() =~= sp.skip(i + 1));
        }
        match first_for_exec(entries[i].as_slice()) {
            Some(v) => return Some(string_of(v.as_slice())),
            None => {},
        }
        i = i + 1;
    }
    None
}

/// A client identifier as used in keys: trimmed; `unknown` when empty; the IP
/// of a socket address (`socket_ip`, which the caller parses from the trimmed
/// text); else its first 128 characters.
pub open spec fn spec_source_value(raw: Seq<char>, socket_ip: Option<Seq<char>>) -> Seq<char> {
    let v = trim(raw);
    if v.len() == 0 {
        "unknown"@
    } else {
        match socket_ip {
            Some(ip) => ip,
            None => if v.len() <= 128 {
                v
            } else {
                v.take(128)
            },
        }
    }
}

pub fn normalize_source_value(raw: &str, socket_ip: Option<String>) -> (r: String)
    ensures
        r@ == spec_source_value(raw@, opt_str_view(socket_ip)),
{
    let c = chars_of(raw);
    let v = trim_chars(c.as_slice());
    if v.len() == 0 {
        return string_from_str("unknown");
    }
    match socket_ip {
        Some(ip) => ip,
        None => {
            if v.len() <= 128 {
                string_of(v.as_slice())
            } else {
                let head = slice_range(v.as_slice(), 0, 128);
                string_of(head.as_slice())
            }
        },
    }
}

/// Where a client identifier comes from, in order of preference, with the raw
/// text to normalise (see `normalize_source_value`).
#[derive(Debug, PartialEq)]
pub enum SourceKeyOrigin {
    /// The peer socket address, used as printed.
    Peer(String),
    /// `x-subforge-client-id`.
    Client(String),
    /// The first element of `x-forwarded-for`.
    ForwardedFor(String),
    /// `x-real-ip`.
    RealIp(String),
    /// The `for=` address of `Forwarded`.
    Forwarded(String),
    /// `User-Agent`.
    UserAgent(String),
    Unknown,
}

pub enum OriginView {
    Client(Seq<char>),
    ForwardedFor(Seq<char>),
    RealIp(Seq<char>),
    Forwarded(Seq<char>),
    Peer(Seq<char>),
    UserAgent(Seq<char>),
    Unknown,
}

impl View for SourceKeyOrigin {
    type V = OriginView;

    open spec fn view(&self) -> OriginView {
        match self {
            SourceKeyOrigin::Client(x) => OriginView::Client(x@),
            SourceKeyOrigin::ForwardedFor(x) => OriginView::ForwardedFor(x@),
            SourceKeyOrigin::RealIp(x) => OriginView::RealIp(x@),
            SourceKeyOrigin::Forwarded(x) => OriginView::Forwarded(x@),
            SourceKeyOrigin::Peer(x) => OriginView::Peer(x@),
            SourceKeyOrigin::UserAgent(x) => OriginView::UserAgent(x@),
            SourceKeyOrigin::Unknown => OriginView::Unknown,
        }
    }
}

pub open spec fn sview(v: Option<&str>) -> Option<Seq<char>> {
    match v {
        Some(s) => Some(s@),
        None => None,
    }
}

/// The first available origin: the peer of the connection, which headers
/// cannot spoof; else the client id, the first element of `x-forwarded-for`,
/// `x-real-ip`, a `Forwarded` address, the user agent.
pub open spec fn spec_pick_origin(
    client_id: Option<Seq<char>>,
    x_forwarded_for: Option<Seq<char>>,
    x_real_ip: Option<Seq<char>>,
    forwarded: Option<Seq<char>>,
    peer: Option<Seq<char>>,
    user_agent: Option<Seq<char>>,
) -> OriginView {
    match peer {
        Some(p) => OriginView::Peer(p),
        None => match client_id {
            Some(c) => OriginView::Client(c),
            None => match x_forwarded_for {
                Some(x) => OriginView::ForwardedFor(split_char(x, ',')[0]),
                None => match x_real_ip {
                    Some(x) => OriginView::RealIp(x),
                    None => match (match forwarded {
                        Some(f) => spec_forwarded_for(f),
                        None => None,
                    }) {
                        Some(v) => OriginView::Forwarded(v),
                        None => match user_agent {
                            Some(a) => OriginView::UserAgent(a),
                            None => OriginView::Unknown,
                        },
                    },
                },
            },
        },
    }
}

/// Picks the client identifier of a request from its headers and peer address.
pub fn pick_source_origin(
    client_id: Option<&str>,
    x_forwarded_for: Option<&str>,
    x_real_ip: Option<&str>,
    forwarded: Option<&str>,
    peer: Option<&str>,
    user_agent: Option<&str>,
) -> (r: SourceKeyOrigin)
    ensures
        r@ == spec_pick_origin(
            sview(client_id),
            sview(x_forwarded_for),
            sview(x_real_ip),
            sview(forwarded),
            sview(peer),
            sview(user_agent),
        ),
{
    if let Some(p) = peer {
        return SourceKeyOrigin::Peer(string_from_str(p));
    }
    if let Some(c) = client_id {
        return SourceKeyOrigin::Client(string_from_str(c));
    }
    if let Some(x) = x_forwarded_for {
        let c = chars_of(x);
        let pieces = split_char_exec(c.as_slice(), ',');
        proof {
            crate::text::lemma_split_char_nonempty(x@, ',');
        }
        return SourceKeyOrigin::ForwardedFor(string_of(pieces[0].as_slice()));
    }
    if let Some(x) = x_real_ip {
        return SourceKeyOrigin::RealIp(string_from_str(x));
    }
    if let Some(f) = forwarded {
        if let Some(v) = parse_forwarded_for(f) {
            return SourceKeyOrigin::Forwarded(v);
        }
    }
    if let Some(a) = user_agent {
        return SourceKeyOrigin::UserAgent(string_from_str(a));
    }
    SourceKeyOrigin::Unknown
}

/// The raw text of an origin that is normalised before use (all but the peer).
pub fn origin_raw_value(origin: &SourceKeyOrigin) -> (r: Option<&String>)
    ensures
        r matches Some(v) ==> match origin@ {
            OriginView::Client(x) => v@ == x,
            OriginView::ForwardedFor(x) => v@ == x,
            OriginView::RealIp(x) => v@ == x,
            OriginView::Forwarded(x) => v@ == x,
            OriginView::UserAgent(x) => v@ == x,
            _ => false,
        },
        r is None <==> (origin is Peer || origin is Unknown),
{
    match origin {
        SourceKeyOrigin::Client(x) => Some(x),
        SourceKeyOrigin::ForwardedFor(x) => Some(x),
        SourceKeyOrigin::RealIp(x) => Some(x),
        SourceKeyOrigin::Forwarded(x) => Some(x),
        SourceKeyOrigin::UserAgent(x) => Some(x),
        _ => None,
    }
}

/// The rate-limit and lockout key of a client: a prefix naming the origin and
/// the normalised identifier; `socket_ip` is the IP of the origin's raw text
/// when that text is a socket address.
pub open spec fn spec_source_key(origin: OriginView, socket_ip: Option<Seq<char>>) -> Seq<char> {
    match origin {
        OriginView::Client(x) => "client:"@ + spec_source_value(x, socket_ip),
        OriginView::ForwardedFor(x) => "xff:"@ + spec_source_value(x, socket_ip),
        OriginView::RealIp(x) => "xri:"@ + spec_source_value(x, socket_ip),
        OriginView::Forwarded(x) => "fwd:"@ + spec_source_value(x, socket_ip),
        OriginView::Peer(x) => "peer:"@ + x,
        OriginView::UserAgent(x) => "ua:"@ + spec_source_value(x, socket_ip),
        OriginView::Unknown => "unknown"@,
    }
}

pub fn source_key(origin: SourceKeyOrigin, socket_ip: Option<String>) -> (r: String)
    ensures
        r@ == spec_source_key(origin@, opt_str_view(socket_ip)),
{
    match origin {
        SourceKeyOrigin::Client(x) => {
            let v = normalize_source_value(x.as_str(), socket_ip);
            concat("client:", v.as_str())
        },
        SourceKeyOrigin::ForwardedFor(x) => {
            let v = normalize_source_value(x.as_str(), socket_ip);
            concat("xff:", v.as_str())
        },
        SourceKeyOrigin::RealIp(x) => {
            let v = normalize_source_value(x.as_str(), socket_ip);
            concat("xri:", v.as_str())
        },
        SourceKeyOrigin::Forwarded(x) => {
            let v = normalize_source_value(x.as_str(), socket_ip);
            concat("fwd:", v.as_str())
        },
        SourceKeyOrigin::Peer(x) => concat("peer:", x.as_str()),
        SourceKeyOrigin::UserAgent(x) => {
            let v = normalize_source_value(x.as_str(), socket_ip);
            concat("ua:", v.as_str())
        },
        SourceKeyOrigin::Unknown => string_from_str("unknown"),
    }
}

/// A request that comes with a peer address is keyed by that address alone:
/// no client id or forwarding header changes its rate-limit and lockout key.
pub proof fn lemma_peer_key_ignores_headers(
    peer: Seq<char>,
    client_id: (Option<Seq<char>>, Option<Seq<char>>),
    x_forwarded_for: (Option<Seq<char>>, Option<Seq<char>>),
    x_real_ip: (Option<Seq<char>>, Option<Seq<char>>),
    forwarded: (Option<Seq<char>>, Option<Seq<char>>),
    user_agent: (Option<Seq<char>>, Option<Seq<char>>),
    socket_ip: (Option<Seq<char>>, Option<Seq<char>>),
)
    ensures
        spec_source_key(
            spec_pick_origin(client_id.0, x_forwarded_for.0, x_real_ip.0, forwarded.0, Some(peer), user_agent.0),
            socket_ip.0,
        ) == spec_source_key(
            spec_pick_origin(client_id.1, x_forwarded_for.1, x_real_ip.1, forwarded.1, Some(peer), user_agent.1),
            socket_ip.1,
        ),
        spec_source_key(
            spec_pick_origin(client_id.0, x_forwarded_for.0, x_real_ip.0, forwarded.0, Some(peer), user_agent.0),
            socket_ip.0,
        ) == "peer:"@ + peer,
{
}

// ---------------------------------------------------------------------------
// Exported profiles
// ---------------------------------------------------------------------------

/// Characters kept in file names: ASCII letters and digits, `-`, `_`, `.`.
pub open spec fn filename_char(c: char) -> bool {
    ('a' <= c && c <= 'z') || ('A' <= c && c <= 'Z') || ('0' <= c && c <= '9') || c == '-' || c == '_' || c == '.'
}

/// Every other character replaced by `_`.
pub open spec fn filename_chars(s: Seq<char>) -> Seq<char> {
    s.map_values(|c: char| if filename_char(c) { c } else { '_' })
}

/// A name made safe for a file name, without leading or trailing `_`.
pub open spec fn spec_sanitize_filename(raw: Seq<char>) -> Seq<char> {
    trim_matches(filename_chars(raw), '_')
}

pub fn sanitize_filename_component(raw: &str) -> (r: String)
    ensures
        r@ == spec_sanitize_filename(raw@),
{
    let c = chars_of(raw);
    let mut mapped: Vec<char> = Vec::new();
    let mut i: usize = 0;
    while i < c.len()
        invariant
            i <= c@.len(),
            c@ == raw@,
            mapped@ =~= filename_chars(raw@).take(i as int),
        decreases c.len() - i,
    {
        let ch = c[i];
        let keep = ('a' <= ch && ch <= 'z') || ('A' <= ch && ch <= 'Z') || ('0' <= ch && ch <= '9') || ch == '-' || ch
            == '_' || ch == '.';
        mapped.push(if keep { ch } else { '_' });
        i = i + 1;
    }
    assert(filename_chars(raw@).take(c@.len() as int) =~= filename_chars(raw@));
    let t = trim_matches_exec(mapped.as_slice(), '_');
    string_of(t.as_slice())
}

/// `{stem}.{extension}`: the stem is the sanitised profile name, else the
/// sanitised id, else `profile`.
pub open spec fn spec_attachment_filename(profile_name: Seq<char>, profile_id: Seq<char>, extension: Seq<char>) -> Seq<char> {
    let stem = if spec_sanitize_filename(profile_name).len() > 0 {
        spec_sanitize_filename(profile_name)
    } else if spec_sanitize_filename(profile_id).len() > 0 {
        spec_sanitize_filename(profile_id)
    } else {
        "profile"@
    };
    stem + "."@ + extension
}

pub fn build_attachment_filename(profile_name: &str, profile_id: &str, extension: &str) -> (r: String)
    ensures
        r@ == spec_attachment_filename(profile_name@, profile_id@, extension@),
{
    let mut stem = sanitize_filename_component(profile_name);
    if stem.as_str().is_empty() {
        let fallback = sanitize_filename_component(profile_id);
        stem = if fallback.as_str().is_empty() {
            string_from_str("profile")
        } else {
            fallback
        };
    }
    let head = concat(stem.as_str(), ".");
    concat(head.as_str(), extension)
}

/// The hexadecimal digit of a nibble (`A` to `F` above 9).
pub open spec fn hex_digit(value: u8) -> char {
    if value <= 9 {
        ((48 + value) as u8) as char
    } else {
        ((65 + value - 10) as u8) as char
    }
}

/// The hexadecimal digit of a nibble; larger values continue the letters past
/// `F`, up to 200, beyond which the byte arithmetic would overflow.
pub fn nibble_to_hex(value: u8) -> (r: char)
    requires
        value <= 200,
    ensures
        r == hex_digit(value),
{
    if value <= 9 {
        (48u8 + value) as char
    } else {
        (65u8 + (value - 10)) as char
    }
}

/// A byte `HeaderValue` accepts: visible ASCII, space, tab, or any byte of a
/// multi-byte character.
pub open spec fn header_byte_ok(b: u8) -> bool {
    (b >= 32 && b != 127) || b == 9
}

pub open spec fn header_text_ok(s: Seq<char>) -> bool {
    forall|i: int| 0 <= i < encode_utf8(s).len() ==> header_byte_ok(#[trigger] encode_utf8(s)[i])
}

/// Calls `HeaderValue::from_str`: it accepts a text exactly when every byte of
/// its UTF-8 form is accepted; its error prints as `failed to parse header value`.
#[verifier::external_body]
pub(crate) fn header_value_check(text: &str) -> (r: Result<(), String>)
    ensures
        r is Ok <==> header_text_ok(text@),
        r matches Err(m) ==> m@ == "failed to parse header value"@,
{
    reqwest::header::HeaderValue::from_str(text).map(|_| ()).map_err(|e| e.to_string())
}

/// A character of a header name: an ASCII letter or digit, or one of ``!#$%&'*+-.^_`|~``.
pub open spec fn header_name_char(c: char) -> bool {
    ('a' <= c && c <= 'z') || ('A' <= c && c <= 'Z') || ('0' <= c && c <= '9') || c == '!' || c == '#' || c == '$'
        || c == '%' || c == '&' || c == '\'' || c == '*' || c == '+' || c == '-' || c == '.' || c == '^' || c == '_'
        || c == '`' || c == '|' || c == '~'
}

/// A text `HeaderName` accepts: 1 to 65535 header-name characters.
pub open spec fn header_name_ok(s: Seq<char>) -> bool {
    1 <= s.len() <= 65535 && forall|i: int| 0 <= i < s.len() ==> header_name_char(#[trigger] s[i])
}

/// Calls `HeaderName::from_bytes` on the text's bytes: it accepts exactly the
/// texts above and gives the name in lower case; its error prints as
/// `invalid HTTP header name`.
#[verifier::external_body]
pub(crate) fn header_name_parse(text: &str) -> (r: Result<String, String>)
    ensures
        r is Ok <==> header_name_ok(text@),
        r matches Ok(n) ==> n@ == lower(text@),
        r matches Err(m) ==> m@ == "invalid HTTP header name"@,
{
    reqwest::header::HeaderName::from_bytes(text.as_bytes()).map(|n| n.as_str().to_string()).map_err(|e| e.to_string())
}

/// Bytes kept as they are when a header text is escaped.
pub open spec fn plain_byte(b: u8) -> bool {
    (97 <= b && b <= 122) || (65 <= b && b <= 90) || (48 <= b && b <= 57) || b == 45 || b == 95 || b == 46 || b == 126
        || b == 32
}

/// Percent-escapes every byte but the plain ones, with upper-case digits.
pub open spec fn escape_bytes(bytes: Seq<u8>) -> Seq<char>
    decreases bytes.len(),
{
    if bytes.len() == 0 {
        Seq::empty()
    } else {
        let b = bytes.last();
        escape_bytes(bytes.drop_last()) + if plain_byte(b) {
            seq![b as char]
        } else {
            seq!['%', hex_digit(b / 16), hex_digit(b % 16)]
        }
    }
}

/// A header value for a free text: the trimmed text when `HeaderValue` takes
/// it, its escaped bytes otherwise, `subforge` when it is blank.
pub open spec fn spec_encode_header_value(raw: Seq<char>) -> Seq<char> {
    let t = trim(raw);
    if t.len() == 0 {
        "subforge"@
    } else if header_text_ok(t) {
        t
    } else {
        escape_bytes(encode_utf8(t))
    }
}

pub fn encode_header_value(raw: &str) -> (r: String)
    ensures
        r@ == spec_encode_header_value(raw@),
{
    let c = chars_of(raw);
    let t = trim_chars(c.as_slice());
    if t.len() == 0 {
        return string_from_str("subforge");
    }
    let trimmed = string_of(t.as_slice());
    if header_value_check(trimmed.as_str()).is_ok() {
        return trimmed;
    }
    let bytes = trimmed.as_str().as_bytes();
    let n = bytes.len();
    assert(bytes@ == encode_utf8(t@));
    let mut out: Vec<char> = Vec::new();
    let mut i: usize = 0;
    while i < n
        invariant
            i <= n == bytes@.len(),
            out@ == escape_bytes(bytes@.take(i as int)),
        decreases n - i,
    {
        proof {
            assert(bytes@.take(i + 1).drop_last() =~= bytes@.take(i as int));
        }
        let b = bytes[i];
        let plain = (97 <= b && b <= 122) || (65 <= b && b <= 90) || (48 <= b && b <= 57) || b == 45 || b == 95 || b
            == 46 || b == 126 || b == 32;
        let ghost before = out@;
        if plain {
            out.push(b as char);
            assert(out@ =~= before + seq![b as char]);
        } else {
            out.push('%');
            out.push(nibble_to_hex(b / 16));
            out.push(nibble_to_hex(b % 16));
            assert(out@ =~= before + seq!['%', hex_digit(b / 16), hex_digit(b % 16)]);
        }
        i = i + 1;
    }
    assert(bytes@.take(n as int) =~= bytes@);
    string_of(out.as_slice())
}

/// A printable ASCII character (space to `~`).
pub open spec fn printable_ascii(c: char) -> bool {
    32 <= (c as u32) && (c as u32) <= 126
}

proof fn lemma_ascii_byte(c: char)
    requires
        printable_ascii(c),
    ensures
        vstd::utf8::encode_scalar(c as u32) == seq![(c as u32) as u8],
        header_byte_ok((c as u32) as u8),
{
    let v = c as u32;
    assert(v & 0x7F == v) by (bit_vector)
        requires
            32 <= v <= 126,
    ;
}

/// A text of printable ASCII characters is a valid header value.
pub proof fn lemma_printable_text_ok(s: Seq<char>)
    requires
        forall|i: int| 0 <= i < s.len() ==> printable_ascii(#[trigger] s[i]),
    ensures
        header_text_ok(s),
    decreases s.len(),
{
    if s.len() > 0 {
        let rest = s.drop_first();
        assert forall|i: int| 0 <= i < rest.len() implies printable_ascii(#[trigger] rest[i]) by {
            assert(rest[i] == s[i + 1]);
        }
        lemma_printable_text_ok(rest);
        lemma_ascii_byte(s[0]);
        let e = encode_utf8(s);
        assert(e == seq![(s[0] as u32) as u8] + encode_utf8(rest));
        assert forall|i: int| 0 <= i < e.len() implies header_byte_ok(#[trigger] e[i]) by {
            if i > 0 {
                assert(e[i] == encode_utf8(rest)[i - 1]);
            }
        }
    }
}

proof fn lemma_escaped_printable(bytes: Seq<u8>)
    ensures
        forall|i: int| 0 <= i < escape_bytes(bytes).len() ==> printable_ascii(#[trigger] escape_bytes(bytes)[i]),
    decreases bytes.len(),
{
    if bytes.len() > 0 {
        lemma_escaped_printable(bytes.drop_last());
        let b = bytes.last();
        let prev = escape_bytes(bytes.drop_last());
        let tail = if plain_byte(b) {
            seq![b as char]
        } else {
            seq!['%', hex_digit(b / 16), hex_digit(b % 16)]
        };
        assert(escape_bytes(bytes) == prev + tail);
        assert forall|i: int| 0 <= i < tail.len() implies printable_ascii(#[trigger] tail[i]) by {
            if plain_byte(b) {
                assert((b as char) as u32 == b as u32);
            } else {
                let hi = b / 16;
                let lo = b % 16;
                assert(hex_digit(hi) as u32 == if hi <= 9 { 48 + hi } else { 55 + hi });
                assert(hex_digit(lo) as u32 == if lo <= 9 { 48 + lo } else { 55 + lo });
            }
        }
        assert forall|i: int| 0 <= i < escape_bytes(bytes).len() implies printable_ascii(
            #[trigger] escape_bytes(bytes)[i],
        ) by {
            if i >= prev.len() {
                assert(escape_bytes(bytes)[i] == tail[i - prev.len()]);
            } else {
                assert(escape_bytes(bytes)[i] == prev[i]);
            }
        }
    }
}

/// An encoded header value is always a valid header value.
pub proof fn lemma_encoded_header_value_is_valid(raw: Seq<char>)
    ensures
        header_text_ok(spec_encode_header_value(raw)),
{
    let t = trim(raw);
    if t.len() == 0 {
        reveal_strlit("subforge");
        lemma_printable_text_ok("subforge"@);
    } else if !header_text_ok(t) {
        lemma_escaped_printable(encode_utf8(t));
        lemma_printable_text_ok(escape_bytes(encode_utf8(t)));
    }
}

proof fn lemma_trimmed_printable(s: Seq<char>, c: char)
    requires
        forall|i: int| 0 <= i < s.len() ==> printable_ascii(#[trigger] s[i]),
    ensures
        forall|i: int| 0 <= i < trim_start_char(s, c).len() ==> printable_ascii(#[trigger] trim_start_char(s, c)[i]),
        forall|i: int| 0 <= i < trim_end_char(s, c).len() ==> printable_ascii(#[trigger] trim_end_char(s, c)[i]),
    decreases s.len(),
{
    if s.len() > 0 {
        let f = s.drop_first();
        let l = s.drop_last();
        assert forall|i: int| 0 <= i < f.len() implies printable_ascii(#[trigger] f[i]) by {
            assert(f[i] == s[i + 1]);
        }
        assert forall|i: int| 0 <= i < l.len() implies printable_ascii(#[trigger] l[i]) by {
            assert(l[i] == s[i]);
        }
        lemma_trimmed_printable(f, c);
        lemma_trimmed_printable(l, c);
        if s[0] == c {
            assert(trim_start_char(s, c) == trim_start_char(f, c));
        } else {
            assert(trim_start_char(s, c) == s);
        }
        if s.last() == c {
            assert(trim_end_char(s, c) == trim_end_char(l, c));
        } else {
            assert(trim_end_char(s, c) == s);
        }
    }
}

/// A sanitised file name component is printable ASCII.
pub proof fn lemma_sanitized_printable(raw: Seq<char>)
    ensures
        forall|i: int|
            0 <= i < spec_sanitize_filename(raw).len() ==> printable_ascii(#[trigger] spec_sanitize_filename(raw)[i]),
{
    let m = filename_chars(raw);
    assert forall|i: int| 0 <= i < m.len() implies printable_ascii(#[trigger] m[i]) by {}
    lemma_trimmed_printable(m, '_');
    lemma_trimmed_printable(trim_start_char(m, '_'), '_');
}

proof fn lemma_trim_start_suffix(s: Seq<char>, c: char) -> (lo: int)
    ensures
        0 <= lo <= s.len(),
        trim_start_char(s, c) == s.subrange(lo, s.len() as int),
        trim_start_char(s, c).len() > 0 ==> trim_start_char(s, c)[0] != c,
    decreases s.len(),
{
    if s.len() > 0 && s[0] == c {
        let lo1 = lemma_trim_start_suffix(s.drop_first(), c);
        assert(s.drop_first().subrange(lo1, s.drop_first().len() as int) =~= s.subrange(lo1 + 1, s.len() as int));
        lo1 + 1
    } else {
        assert(s.subrange(0, s.len() as int) =~= s);
        0
    }
}

proof fn lemma_trim_end_prefix(s: Seq<char>, c: char) -> (hi: int)
    ensures
        0 <= hi <= s.len(),
        trim_end_char(s, c) == s.subrange(0, hi),
        trim_end_char(s, c).len() > 0 ==> trim_end_char(s, c).last() != c,
    decreases s.len(),
{
    if s.len() > 0 && s.last() == c {
        let hi1 = lemma_trim_end_prefix(s.drop_last(), c);
        assert(s.drop_last().subrange(0, hi1) =~= s.subrange(0, hi1));
        hi1
    } else {
        assert(s.subrange(0, s.len() as int) =~= s);
        s.len() as int
    }
}

/// A sanitised file name component holds only ASCII letters, digits, `-`,
/// `_` and `.`; it neither starts nor ends with `_`; it is no longer than the
/// raw text; and sanitising it again changes nothing.
pub proof fn lemma_sanitized_filename(raw: Seq<char>)
    ensures
        forall|i: int|
            0 <= i < spec_sanitize_filename(raw).len() ==> filename_char(#[trigger] spec_sanitize_filename(raw)[i]),
        spec_sanitize_filename(raw).len() > 0 ==> spec_sanitize_filename(raw)[0] != '_'
            && spec_sanitize_filename(raw).last() != '_',
        spec_sanitize_filename(raw).len() <= raw.len(),
        spec_sanitize_filename(spec_sanitize_filename(raw)) == spec_sanitize_filename(raw),
{
    let m = filename_chars(raw);
    let a = trim_start_char(m, '_');
    let r = trim_end_char(a, '_');
    let lo = lemma_trim_start_suffix(m, '_');
    let hi = lemma_trim_end_prefix(a, '_');
    assert(r == spec_sanitize_filename(raw));
    assert forall|i: int| 0 <= i < r.len() implies filename_char(#[trigger] r[i]) by {
        assert(r[i] == a[i]);
        assert(a[i] == m[lo + i]);
    }
    if r.len() > 0 {
        assert(r[0] == a[0]);
    }
    // Sanitising again: every character is kept, and nothing is trimmed.
    assert(filename_chars(r) =~= r);
    if r.len() > 0 {
        assert(trim_start_char(r, '_') == r);
        assert(trim_end_char(r, '_') == r);
    } else {
        assert(trim_start_char(r, '_') == r);
        assert(trim_end_char(r, '_') == r);
    }
}

/// The `Content-Disposition` of an exported profile.
pub open spec fn spec_disposition(profile_name: Seq<char>, profile_id: Seq<char>, extension: Seq<char>) -> Seq<char> {
    "attachment; filename=\""@ + spec_attachment_filename(profile_name, profile_id, extension) + "\""@
}

/// With a printable extension, the disposition of any profile is a valid header value.
pub proof fn lemma_disposition_is_valid(profile_name: Seq<char>, profile_id: Seq<char>, extension: Seq<char>)
    requires
        forall|i: int| 0 <= i < extension.len() ==> printable_ascii(#[trigger] extension[i]),
    ensures
        header_text_ok(spec_disposition(profile_name, profile_id, extension)),
{
    reveal_strlit("attachment; filename=\"");
    reveal_strlit("\"");
    reveal_strlit(".");
    reveal_strlit("profile");
    lemma_sanitized_printable(profile_name);
    lemma_sanitized_printable(profile_id);
    let d = spec_disposition(profile_name, profile_id, extension);
    assert forall|i: int| 0 <= i < d.len() implies printable_ascii(#[trigger] d[i]) by {}
    lemma_printable_text_ok(d);
}

/// The headers of an exported profile besides its media type, in order:
/// `content-disposition`, `profile-title`, `profile-update-interval`, and,
/// for a profile of one source with known information, `subscription-userinfo`.
pub open spec fn spec_subscription_headers(
    profile_name: Seq<char>,
    profile_id: Seq<char>,
    extension: Seq<char>,
    interval_hours: u64,
    source_count: usize,
    userinfo: Option<Seq<char>>,
) -> Seq<(Seq<char>, Seq<char>)> {
    let base = seq![
        ("content-disposition"@, spec_disposition(profile_name, profile_id, extension)),
        ("profile-title"@, spec_encode_header_value(profile_name)),
        ("profile-update-interval"@, decimal(interval_hours as nat)),
    ];
    match userinfo {
        Some(u) => if source_count == 1 {
            base.push(("subscription-userinfo"@, spec_encode_header_value(u)))
        } else {
            base
        },
        None => base,
    }
}

/// Builds the headers of an exported profile; `None` (an internal error) only
/// when the disposition is not a valid header value, which a printable
/// extension rules out (`lemma_disposition_is_valid`).
pub fn build_subscription_headers(
    profile_name: &str,
    profile_id: &str,
    extension: &str,
    interval_hours: u64,
    source_count: usize,
    subscription_userinfo: Option<&str>,
) -> (r: Option<Vec<(String, String)>>)
    ensures
        r is None <==> !header_text_ok(spec_disposition(profile_name@, profile_id@, extension@)),
        r matches Some(h) ==> crate::codec::pairs_view(h@) == spec_subscription_headers(
            profile_name@,
            profile_id@,
            extension@,
            interval_hours,
            source_count,
            sview(subscription_userinfo),
        ),
{
    let filename = build_attachment_filename(profile_name, profile_id, extension);
    let head = concat("attachment; filename=\"", filename.as_str());
    let disposition = concat(head.as_str(), "\"");
    if header_value_check(disposition.as_str()).is_err() {
        return None;
    }
    let title = encode_header_value(profile_name);
    let digits = crate::text::decimal_exec(interval_hours);
    let interval = string_of(digits.as_slice());
    let mut headers: Vec<(String, String)> = Vec::new();
    headers.push((string_from_str("content-disposition"), disposition));
    headers.push((string_from_str("profile-title"), title));
    headers.push((string_from_str("profile-update-interval"), interval));
    if source_count == 1 {
        if let Some(userinfo) = subscription_userinfo {
            headers.push((string_from_str("subscription-userinfo"), encode_header_value(userinfo)));
        }
    }
    proof {
        let ghost want = spec_subscription_headers(
            profile_name@,
            profile_id@,
            extension@,
            interval_hours,
            source_count,
            sview(subscription_userinfo),
        );
        assert(crate::codec::pairs_view(headers@) =~= want);
    }
    Some(headers)
}

/// `profile.{id}.update_interval_hours`, the setting that overrides the default.
pub fn profile_interval_setting_key(profile_id: &str) -> (r: String)
    ensures
        r@ == "profile."@ + profile_id@ + ".update_interval_hours"@,
{
    let head = concat("profile.", profile_id);
    concat(head.as_str(), ".update_interval_hours")
}

/// The hours between updates: the first setting (the profile's, then the
/// default) that holds a positive integer; 24 otherwise.
pub open spec fn spec_update_interval(profile_setting: Option<Seq<char>>, default_setting: Option<Seq<char>>) -> u64 {
    match positive_hours(profile_setting) {
        Some(h) => h,
        None => match positive_hours(default_setting) {
            Some(h) => h,
            None => 24,
        },
    }
}

pub open spec fn positive_hours(setting: Option<Seq<char>>) -> Option<u64> {
    match setting {
        Some(v) => match crate::text::parse_unsigned(trim(v), u64::MAX as int) {
            Some(n) => if n > 0 {
                Some(n as u64)
            } else {
                None
            },
            None => None,
        },
        None => None,
    }
}

fn positive_hours_exec(setting: Option<&str>) -> (r: Option<u64>)
    ensures
        r == positive_hours(sview(setting)),
{
    match setting {
        Some(v) => {
            let c = chars_of(v);
            let t = trim_chars(c.as_slice());
            match crate::text::parse_unsigned_exec(t.as_slice(), u64::MAX) {
                Some(n) => if n > 0 {
                    Some(n)
                } else {
                    None
                },
                None => None,
            }
        },
        None => None,
    }
}

/// Chooses the update interval of a profile from the values of its settings
/// (`None` where a setting is missing or could not be read).
pub fn resolve_profile_update_interval_hours(profile_setting: Option<&str>, default_setting: Option<&str>) -> (r: u64)
    ensures
        r == spec_update_interval(sview(profile_setting), sview(default_setting)),
        r > 0,
{
    match positive_hours_exec(profile_setting) {
        Some(h) => h,
        None => match positive_hours_exec(default_setting) {
            Some(h) => h,
            None => 24,
        },
    }
}

// ---------------------------------------------------------------------------
// Plugin archives
// ---------------------------------------------------------------------------

/// `\` read as `/`.
pub open spec fn slashes(raw: Seq<char>) -> Seq<char> {
    raw.map_values(|c: char| if c == '\\' { '/' } else { c })
}

/// The parts of a path that name something: not empty, not `.`.
pub open spec fn named_parts(parts: Seq<Seq<char>>) -> Seq<Seq<char>>
    decreases parts.len(),
{
    if parts.len() == 0 {
        Seq::empty()
    } else {
        let rest = named_parts(parts.drop_last());
        let p = parts.last();
        if p.len() == 0 || p == "."@ {
            rest
        } else {
            rest.push(p)
        }
    }
}

/// The parts joined with `/`.
pub open spec fn join_parts(parts: Seq<Seq<char>>) -> Seq<char>
    decreases parts.len(),
{
    if parts.len() == 0 {
        Seq::empty()
    } else if parts.len() == 1 {
        parts[0]
    } else {
        join_parts(parts.drop_last()) + "/"@ + parts.last()
    }
}

/// Why an archive entry path is refused.
#[derive(Debug, PartialEq, Eq, Clone, Copy, Structural)]
pub enum ZipPathError {
    /// The path climbs out with `..`.
    ParentDir,
    /// The path is absolute or names nothing.
    OutsideRoot,
}

/// The relative path an archive entry is extracted to: `\` counts as `/`; an
/// absolute path, or one naming nothing, is outside the root; `..` is refused.
pub open spec fn spec_zip_entry_path(raw: Seq<char>) -> Result<Seq<char>, ZipPathError> {
    let p = slashes(raw);
    let parts = named_parts(split_char(p, '/'));
    if p.len() > 0 && p[0] == '/' {
        Err(ZipPathError::OutsideRoot)
    } else if parts.contains(".."@) {
        Err(ZipPathError::ParentDir)
    } else if parts.len() == 0 {
        Err(ZipPathError::OutsideRoot)
    } else {
        Ok(join_parts(parts))
    }
}

proof fn lemma_named_parts(parts: Seq<Seq<char>>)
    ensures
        forall|k: int|
            0 <= k < named_parts(parts).len() ==> (#[trigger] named_parts(parts)[k]).len() > 0 && named_parts(parts)[k]
                != "."@ && exists|j: int| 0 <= j < parts.len() && parts[j] == named_parts(parts)[k],
    decreases parts.len(),
{
    if parts.len() > 0 {
        lemma_named_parts(parts.drop_last());
        let rest = named_parts(parts.drop_last());
        assert forall|k: int| 0 <= k < named_parts(parts).len() implies exists|j: int|
            0 <= j < parts.len() && parts[j] == #[trigger] named_parts(parts)[k] by {
            if k < rest.len() {
                let j = choose|j: int| 0 <= j < parts.drop_last().len() && parts.drop_last()[j] == rest[k];
                assert(parts[j] == named_parts(parts)[k]);
            } else {
                assert(parts[parts.len() - 1] == named_parts(parts)[k]);
            }
        }
    }
}

/// An accepted archive path stays inside the extraction directory: it is the
/// `/`-join of at least one part, and no part is empty, `.`, `..`, or holds a
/// `/` or a `\`.
pub proof fn lemma_zip_entry_path_is_inside(raw: Seq<char>)
    ensures
        spec_zip_entry_path(raw) matches Ok(p) ==> exists|parts: Seq<Seq<char>>|
            #![trigger join_parts(parts)]
            p == join_parts(parts) && parts.len() > 0 && forall|k: int|
                0 <= k < parts.len() ==> (#[trigger] parts[k]).len() > 0 && parts[k] != "."@ && parts[k] != ".."@
                    && !parts[k].contains('/') && !parts[k].contains('\\'),
{
    let p = slashes(raw);
    let pieces = split_char(p, '/');
    let parts = named_parts(pieces);
    if spec_zip_entry_path(raw) is Ok {
        crate::text::lemma_split_char_avoids(p, '/', '/');
        crate::text::lemma_split_char_avoids(p, '/', '\\');
        lemma_named_parts(pieces);
        assert forall|k: int| 0 <= k < parts.len() implies (#[trigger] parts[k]).len() > 0 && parts[k] != "."@
            && parts[k] != ".."@ && !parts[k].contains('/') && !parts[k].contains('\\') by {
            let j = choose|j: int| 0 <= j < pieces.len() && pieces[j] == parts[k];
            assert(!pieces[j].contains('/'));
            assert(!pieces[j].contains('\\'));
            assert(parts.contains(parts[k]));
        }
        assert(spec_zip_entry_path(raw) == Ok::<Seq<char>, ZipPathError>(join_parts(parts)));
    }
}

impl ZipPathError {
    /// The message shown to the user.
    pub open spec fn spec_message(&self) -> Seq<char> {
        match self {
            ZipPathError::ParentDir => "插件包路径非法，包含 .."@,
            ZipPathError::OutsideRoot => "插件包路径非法，包含越界路径"@,
        }
    }

    pub fn message(&self) -> (r: &'static str)
        ensures
            r@ == self.spec_message(),
    {
        match self {
            ZipPathError::ParentDir => "插件包路径非法，包含 ..",
            ZipPathError::OutsideRoot => "插件包路径非法，包含越界路径",
        }
    }
}

/// Checks the path of an archive entry and gives the relative path to extract it to.
pub fn normalize_zip_entry_path(raw_name: &str) -> (r: Result<String, ZipPathError>)
    ensures
        match r {
            Ok(p) => spec_zip_entry_path(raw_name@) == Ok::<Seq<char>, ZipPathError>(p@),
            Err(e) => spec_zip_entry_path(raw_name@) == Err::<Seq<char>, ZipPathError>(e),
        },
{
    let c = chars_of(raw_name);
    let mut p: Vec<char> = Vec::new();
    let mut i: usize = 0;
    while i < c.len()
        invariant
            i <= c@.len(),
            c@ == raw_name@,
            p@ =~= slashes(raw_name@).take(i as int),
        decreases c.len() - i,
    {
        p.push(if c[i] == '\\' { '/' } else { c[i] });
        i = i + 1;
    }
    assert(slashes(raw_name@).take(c@.len() as int) =~= slashes(raw_name@));
    if p.len() > 0 && p[0] == '/' {
        return Err(ZipPathError::OutsideRoot);
    }
    let pieces = split_char_exec(p.as_slice(), '/');
    let ghost sp = split_char(p@, '/');
    let mut parts: Vec<Vec<char>> = Vec::new();
    let mut has_parent = false;
    let mut k: usize = 0;
    while k < pieces.len()
        invariant
            k <= pieces@.len(),
            sp == split_char(p@, '/'),
            pieces@.len() == sp.len(),
            forall|j: int| 0 <= j < pieces@.len() ==> #[trigger] pieces@[j]@ == sp[j],
            parts@.len() == named_parts(sp.take(k as int)).len(),
            forall|j: int| 0 <= j < parts@.len() ==> #[trigger] parts@[j]@ == named_parts(sp.take(k as int))[j],
            has_parent == named_parts(sp.take(k as int)).contains(".."@),
        decreases pieces.len() - k,
    {
        proof {
            assert(sp.take(k + 1).drop_last() =~= sp.take(k as int));
            assert(sp.take(k + 1).last() == pieces@[k as int]@);
        }
        let piece = pieces[k].as_slice();
        let ghost before = named_parts(sp.take(k as int));
        if piece.len() > 0 && !chars_eq_str(piece, ".") {
            if chars_eq_str(piece, "..") {
                has_parent = true;
            }
            parts.push(slice_range(piece, 0, piece.len()));
            proof {
                assert(pieces@[k as int]@.subrange(0, pieces@[k as int]@.len() as int) =~= pieces@[k as int]@);
                let after = before.push(pieces@[k as int]@);
                assert(named_parts(sp.take(k + 1)) == after);
                assert(after.contains(".."@) == (before.contains(".."@) || pieces@[k as int]@ == ".."@)) by {
                    if pieces@[k as int]@ == ".."@ {
                        assert(after[after.len() - 1] == ".."@);
                    }
                    if before.contains(".."@) {
                        let w = choose|w: int| 0 <= w < before.len() && before[w] == ".."@;
                        assert(after[w] == ".."@);
                    }
                    if after.contains(".."@) && pieces@[k as int]@ != ".."@ {
                        let w = choose|w: int| 0 <= w < after.len() && after[w] == ".."@;
                        assert(before[w] == ".."@);
                    }
                }
            }
        }
        k = k + 1;
    }
    assert(sp.take(sp.len() as int) =~= sp);
    if has_parent {
        return Err(ZipPathError::ParentDir);
    }
    if parts.len() == 0 {
        return Err(ZipPathError::OutsideRoot);
    }
    let mut joined: Vec<char> = Vec::new();
    let ghost np = named_parts(sp);
    let mut j: usize = 0;
    while j < parts.len()
        invariant
            j <= parts@.len(),
            np == named_parts(sp),
            parts@.len() == np.len(),
            forall|x: int| 0 <= x < parts@.len() ==> #[trigger] parts@[x]@ == np[x],
            joined@ == join_parts(np.take(j as int)),
        decreases parts.len() - j,
    {
        proof {
            assert(np.take(j + 1).drop_last() =~= np.take(j as int));
        }
        if j > 0 {
            joined.push('/');
        }
        let mut x: usize = 0;
        let ghost base = joined@;
        while x < parts[j].len()
            invariant
                j < parts@.len(),
                x <= parts@[j as int]@.len(),
                joined@ == base + parts@[j as int]@.take(x as int),
            decreases parts[j as int]@.len() - x,
        {
            joined.push(parts[j][x]);
            proof {
                assert(parts@[j as int]@.take(x + 1) =~= parts@[j as int]@.take(x as int).push(parts@[j as int]@[x as int]));
            }
            x = x + 1;
        }
        proof {
            assert(parts@[j as int]@.take(parts@[j as int]@.len() as int) =~= parts@[j as int]@);
            if j == 0 {
                assert(np.take(1).len() == 1);
                assert(joined@ =~= join_parts(np.take(1)));
            } else {
                reveal_strlit("/");
                assert(np.take(j + 1).last() == parts@[j as int]@);
                assert(joined@ =~= join_parts(np.take(j + 1)));
            }
        }
        j = j + 1;
    }
    assert(np.take(np.len() as int) =~= np);
    Ok(string_of(joined.as_slice()))
}

} // verus!
