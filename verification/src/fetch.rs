//! The policy of subscription downloads: retries, response checks, content
//! decoding and the redaction of what is logged.
use std::io::Read;
use vstd::prelude::*;
use vstd::utf8::{decode_utf8, valid_utf8};
use crate::codec::{
    pairs_view, parse_url, spec_url_parse, UrlPartsView, spec_url_replace_query, spec_url_text, url_replace_query, url_text,
    spec_utf8_error, utf8_decode,
};
use crate::error::CoreError;
use crate::text::{
    chars_eq_str, chars_of, decimal, decimal_exec, has_prefix, lower, lower_chars, replace_text, spec_replace,
    split_char, split_char_exec, starts_with_str, string_from_str, string_of, trim, trim_chars,
};
use crate::table::KeyedTable;
use crate::uri::{concat, opt_str_view};
use crate::web::{header_name_ok, header_name_parse, header_text_ok, header_value_check};

verus! {

/// The largest subscription body accepted, before and after decoding.
pub const MAX_SUBSCRIPTION_BYTES: usize = 10485760;
/// The response header that carries traffic and expiry information.
pub const SUBSCRIPTION_USERINFO_HEADER: &'static str = "subscription-userinfo";

// ---------------------------------------------------------------------------
// Retries
// ---------------------------------------------------------------------------

/// `Duration::MAX` in nanoseconds.
pub const DURATION_MAX_NANOS: u128 = 18446744073709551615999999999;
/// The delay used when the transport profile gives none: 100 ms.
pub const DEFAULT_RETRY_DELAY_NANOS: u128 = 100000000;

pub open spec fn pow2(n: nat) -> nat
    decreases n,
{
    if n == 0 {
        1
    } else {
        2 * pow2((n - 1) as nat)
    }
}

/// The wait before retry `retry_attempt` (from 1): the base delay (100 ms when
/// zero) doubled for each earlier retry, at most 16 times, saturating at
/// `Duration::MAX`. Durations are in nanoseconds.
pub open spec fn spec_retry_backoff(base_delay: u128, retry_attempt: int) -> int {
    let base = if base_delay == 0 {
        DEFAULT_RETRY_DELAY_NANOS as int
    } else {
        base_delay as int
    };
    let shift = if retry_attempt <= 1 {
        0
    } else if retry_attempt - 1 > 16 {
        16
    } else {
        retry_attempt - 1
    };
    let d = base * pow2(shift as nat);
    if d > DURATION_MAX_NANOS {
        DURATION_MAX_NANOS as int
    } else {
        d
    }
}

/// The wait before a retry (see `spec_retry_backoff`).
pub fn retry_backoff(base_delay: u128, retry_attempt: usize) -> (r: u128)
    requires
        base_delay <= DURATION_MAX_NANOS,
    ensures
        r == spec_retry_backoff(base_delay, retry_attempt as int),
{
    let base: u128 = if base_delay == 0 {
        DEFAULT_RETRY_DELAY_NANOS
    } else {
        base_delay
    };
    let shift: usize = if retry_attempt <= 1 {
        0
    } else if retry_attempt - 1 > 16 {
        16
    } else {
        retry_attempt - 1
    };
    let mut factor: u128 = 1;
    let mut k: usize = 0;
    while k < shift
        invariant
            k <= shift <= 16,
            factor == pow2(k as nat),
            factor <= 65536,
        decreases shift - k,
    {
        proof {
            lemma_pow2_bound((k + 1) as nat);
        }
        factor = factor * 2;
        k = k + 1;
    }
    assert(base * factor <= DURATION_MAX_NANOS * 65536) by (nonlinear_arith)
        requires
            base <= DURATION_MAX_NANOS,
            factor <= 65536,
    ;
    let d = base * factor;
    if d > DURATION_MAX_NANOS {
        DURATION_MAX_NANOS
    } else {
        d
    }
}

proof fn lemma_pow2_bound(n: nat)
    requires
        n <= 16,
    ensures
        pow2(n) <= 65536,
        n > 0 ==> pow2(n) == 2 * pow2((n - 1) as nat),
{
    lemma_pow2_monotonic(n, 16);
    assert(pow2(16) == 65536) by {
        reveal_with_fuel(pow2, 17);
    }
}

/// Later retries never wait less than earlier ones.
pub proof fn lemma_backoff_monotonic(base_delay: u128, a: int, b: int)
    requires
        base_delay <= DURATION_MAX_NANOS,
        a <= b,
    ensures
        spec_retry_backoff(base_delay, a) <= spec_retry_backoff(base_delay, b),
{
    let sa: int = if a <= 1 { 0 } else if a - 1 > 16 { 16 } else { a - 1 };
    let sb: int = if b <= 1 { 0 } else if b - 1 > 16 { 16 } else { b - 1 };
    lemma_pow2_monotonic(sa as nat, sb as nat);
    let base: int = if base_delay == 0 { DEFAULT_RETRY_DELAY_NANOS as int } else { base_delay as int };
    assert(base * pow2(sa as nat) <= base * pow2(sb as nat)) by (nonlinear_arith)
        requires
            base >= 0,
            pow2(sa as nat) <= pow2(sb as nat),
    ;
}

proof fn lemma_pow2_monotonic(a: nat, b: nat)
    requires
        a <= b,
    ensures
        pow2(a) <= pow2(b),
    decreases b,
{
    if a < b {
        lemma_pow2_monotonic(a, (b - 1) as nat);
    }
}

/// What to do with a response status.
pub enum FetchStep {
    /// The response is the subscription.
    Accept,
    /// Ask again after `delay_nanos`; this is retry number `attempt`.
    Retry { attempt: usize, delay_nanos: u128 },
    /// Give up with this error.
    Fail(CoreError),
}

pub open spec fn is_success_status(status: u16) -> bool {
    200 <= status <= 299
}

/// Decides what follows a response with `status` after `retry_attempt` retries:
/// accept a 2xx; retry a status the transport profile calls retryable while
/// retries remain; fail otherwise.
pub fn next_fetch_step(status: u16, retry_attempt: usize, max_retries: usize, retryable: bool, base_delay: u128) -> (r: FetchStep)
    requires
        base_delay <= DURATION_MAX_NANOS,
    ensures
        is_success_status(status) <==> r is Accept,
        r matches FetchStep::Retry { attempt, delay_nanos } ==> !is_success_status(status) && retry_attempt < max_retries
            && retryable && attempt == retry_attempt + 1 && delay_nanos == spec_retry_backoff(base_delay, attempt as int),
        !is_success_status(status) && retry_attempt < max_retries && retryable ==> r is Retry,
        r matches FetchStep::Fail(e) ==> (e matches CoreError::SubscriptionFetch(m) && m@ == "上游响应状态码异常："@
            + decimal(status as nat)) && !(retry_attempt < max_retries && retryable),
{
    if 200 <= status && status <= 299 {
        return FetchStep::Accept;
    }
    if retry_attempt < max_retries && retryable {
        let attempt = retry_attempt + 1;
        return FetchStep::Retry { attempt, delay_nanos: retry_backoff(base_delay, attempt) };
    }
    let digits = decimal_exec(status as u64);
    let text = string_of(digits.as_slice());
    FetchStep::Fail(CoreError::SubscriptionFetch(concat("上游响应状态码异常：", text.as_str())))
}

// ---------------------------------------------------------------------------
// Response checks
// ---------------------------------------------------------------------------

/// A textual, JSON or binary-stream media type (any case).
pub open spec fn content_type_allowed(content_type: Seq<char>) -> bool {
    let l = lower(content_type);
    has_prefix(l, "text/"@) || has_prefix(l, "application/json"@) || has_prefix(l, "application/octet-stream"@)
}

/// Refuses a response whose `Content-Type` is neither text, JSON nor a byte
/// stream; a missing (or unreadable) header is accepted.
pub fn validate_content_type(content_type: Option<&str>) -> (r: Result<(), CoreError>)
    ensures
        r is Ok <==> match content_type {
            Some(c) => content_type_allowed(c@),
            None => true,
        },
        r matches Err(e) ==> (e matches CoreError::SubscriptionFetch(m) && content_type matches Some(c) && m@
            == "上游 Content-Type 不受支持："@ + c@),
{
    let content_type = match content_type {
        Some(c) => c,
        None => return Ok(()),
    };
    let c = chars_of(content_type);
    let l = lower_chars(c.as_slice());
    if starts_with_str(l.as_slice(), "text/") || starts_with_str(l.as_slice(), "application/json")
        || starts_with_str(l.as_slice(), "application/octet-stream") {
        Ok(())
    } else {
        Err(CoreError::SubscriptionFetch(concat("上游 Content-Type 不受支持：", content_type)))
    }
}

/// Checks the headers of an accepted response: its media type and its
/// announced length, at most `MAX_SUBSCRIPTION_BYTES`.
pub fn check_response_headers(content_type: Option<&str>, content_length: Option<u64>) -> (r: Result<(), CoreError>)
    ensures
        r is Ok <==> (match content_type {
            Some(c) => content_type_allowed(c@),
            None => true,
        }) && (match content_length {
            Some(n) => n <= MAX_SUBSCRIPTION_BYTES,
            None => true,
        }),
        r matches Err(e) ==> e is SubscriptionFetch,
        r matches Err(e) ==> (e matches CoreError::SubscriptionFetch(m) && match content_type {
            Some(c) => if content_type_allowed(c@) {
                m@ == "上游响应体过大："@ + decimal(content_length->0 as nat) + " bytes（限制 10485760 bytes）"@
            } else {
                m@ == "上游 Content-Type 不受支持："@ + c@
            },
            None => m@ == "上游响应体过大："@ + decimal(content_length->0 as nat) + " bytes（限制 10485760 bytes）"@,
        }),
{
    match validate_content_type(content_type) {
        Ok(()) => {},
        Err(e) => return Err(e),
    }
    if let Some(n) = content_length {
        if n > 10485760u64 {
            let digits = decimal_exec(n);
            let text = string_of(digits.as_slice());
            let head = concat("上游响应体过大：", text.as_str());
            return Err(CoreError::SubscriptionFetch(concat(head.as_str(), " bytes（限制 10485760 bytes）")));
        }
    }
    Ok(())
}

/// The trimmed `subscription-userinfo` header, unless empty.
pub fn subscription_userinfo(value: Option<&str>) -> (r: Option<String>)
    ensures
        opt_str_view(r) == match value {
            Some(v) => if trim(v@).len() > 0 {
                Some(trim(v@))
            } else {
                None
            },
            None => None,
        },
{
    match value {
        Some(v) => {
            let c = chars_of(v);
            let t = trim_chars(c.as_slice());
            if t.len() > 0 {
                Some(string_of(t.as_slice()))
            } else {
                None
            }
        },
        None => None,
    }
}

// ---------------------------------------------------------------------------
// Content decoding
// ---------------------------------------------------------------------------

/// What brotli, gzip and raw-deflate decompression give for some bytes: the
/// decoded bytes, or the read error as its `Display` prints it.
pub uninterp spec fn spec_brotli_outcome(bytes: Seq<u8>) -> Result<Seq<u8>, Seq<char>>;

pub uninterp spec fn spec_gzip_outcome(bytes: Seq<u8>) -> Result<Seq<u8>, Seq<char>>;

pub uninterp spec fn spec_deflate_outcome(bytes: Seq<u8>) -> Result<Seq<u8>, Seq<char>>;

/// What zlib decompression gives for some bytes, `None` where it fails.
pub uninterp spec fn spec_zlib_decode(bytes: Seq<u8>) -> Option<Seq<u8>>;

/// The decoded bytes of an outcome, if any.
pub open spec fn outcome_bytes(o: Result<Seq<u8>, Seq<char>>) -> Option<Seq<u8>> {
    match o {
        Ok(b) => Some(b),
        Err(_) => None,
    }
}

/// The printed error of an outcome.
pub open spec fn outcome_error(o: Result<Seq<u8>, Seq<char>>) -> Seq<char> {
    match o {
        Ok(_) => Seq::empty(),
        Err(m) => m,
    }
}

pub open spec fn spec_brotli_decode(bytes: Seq<u8>) -> Option<Seq<u8>> {
    outcome_bytes(spec_brotli_outcome(bytes))
}

pub open spec fn spec_gzip_decode(bytes: Seq<u8>) -> Option<Seq<u8>> {
    outcome_bytes(spec_gzip_outcome(bytes))
}

pub open spec fn spec_deflate_decode(bytes: Seq<u8>) -> Option<Seq<u8>> {
    outcome_bytes(spec_deflate_outcome(bytes))
}

pub open spec fn spec_brotli_error(bytes: Seq<u8>) -> Seq<char> {
    outcome_error(spec_brotli_outcome(bytes))
}

pub open spec fn spec_gzip_error(bytes: Seq<u8>) -> Seq<char> {
    outcome_error(spec_gzip_outcome(bytes))
}

pub open spec fn spec_deflate_error(bytes: Seq<u8>) -> Seq<char> {
    outcome_error(spec_deflate_outcome(bytes))
}

/// Reads a `brotli::Decompressor` (4 KiB buffer) to the end; the error is printed.
/// The contract claims that the outcome is a function of the bytes.
#[verifier::external_body]
fn brotli_decompress(payload: &[u8]) -> (r: Result<Vec<u8>, String>)
    ensures
        r matches Ok(b) ==> (spec_brotli_outcome(payload@) matches Ok(got) && got == b@),
        r matches Err(m) ==> (spec_brotli_outcome(payload@) matches Err(got) && got == m@),
{
    let mut decoded = Vec::new();
    brotli::Decompressor::new(payload, 4096).read_to_end(&mut decoded).map(|_| decoded).map_err(|e| e.to_string())
}

/// Reads a `flate2::read::GzDecoder` to the end; the error is printed.
/// The contract claims that the outcome is a function of the bytes.
#[verifier::external_body]
fn gzip_decompress(payload: &[u8]) -> (r: Result<Vec<u8>, String>)
    ensures
        r matches Ok(b) ==> (spec_gzip_outcome(payload@) matches Ok(got) && got == b@),
        r matches Err(m) ==> (spec_gzip_outcome(payload@) matches Err(got) && got == m@),
{
    let mut decoded = Vec::new();
    flate2::read::GzDecoder::new(payload).read_to_end(&mut decoded).map(|_| decoded).map_err(|e| e.to_string())
}

/// Reads a `flate2::read::ZlibDecoder` to the end. The contract claims that
/// the outcome is a function of the bytes.
#[verifier::external_body]
fn zlib_decompress(payload: &[u8]) -> (r: Option<Vec<u8>>)
    ensures
        r matches Some(b) ==> spec_zlib_decode(payload@) == Some(b@),
        r is None ==> spec_zlib_decode(payload@) is None,
{
    let mut decoded = Vec::new();
    flate2::read::ZlibDecoder::new(payload).read_to_end(&mut decoded).ok().map(|_| decoded)
}

/// Reads a `flate2::read::DeflateDecoder` (raw deflate) to the end; the error
/// is printed. The contract claims that the outcome is a function of the bytes.
#[verifier::external_body]
fn deflate_decompress(payload: &[u8]) -> (r: Result<Vec<u8>, String>)
    ensures
        r matches Ok(b) ==> (spec_deflate_outcome(payload@) matches Ok(got) && got == b@),
        r matches Err(m) ==> (spec_deflate_outcome(payload@) matches Err(got) && got == m@),
{
    let mut decoded = Vec::new();
    flate2::read::DeflateDecoder::new(payload).read_to_end(&mut decoded).map(|_| decoded).map_err(|e| e.to_string())
}

/// The listed content codings, trimmed and lower-cased, without empty entries and `identity`.
pub open spec fn coding_list(pieces: Seq<Seq<char>>) -> Seq<Seq<char>>
    decreases pieces.len(),
{
    if pieces.len() == 0 {
        Seq::empty()
    } else {
        let rest = coding_list(pieces.drop_last());
        let c = lower(trim(pieces.last()));
        if c.len() == 0 || c == "identity"@ {
            rest
        } else {
            rest.push(c)
        }
    }
}

/// Undoes one coding: brotli, gzip, deflate (zlib-wrapped, else raw); an
/// unknown coding leaves the bytes as they are.
pub open spec fn decode_one(payload: Seq<u8>, coding: Seq<char>) -> Option<Seq<u8>> {
    if coding == "br"@ {
        spec_brotli_decode(payload)
    } else if coding == "gzip"@ || coding == "x-gzip"@ {
        spec_gzip_decode(payload)
    } else if coding == "deflate"@ {
        match spec_zlib_decode(payload) {
            Some(b) => Some(b),
            None => spec_deflate_decode(payload),
        }
    } else {
        Some(payload)
    }
}

/// Undoes the codings from the last applied (listed last) to the first.
pub open spec fn decode_all(payload: Seq<u8>, codings: Seq<Seq<char>>) -> Option<Seq<u8>>
    decreases codings.len(),
{
    if codings.len() == 0 {
        Some(payload)
    } else {
        match decode_one(payload, codings.last()) {
            Some(p) => decode_all(p, codings.drop_last()),
            None => None,
        }
    }
}

/// The message for a coding that cannot be undone.
pub open spec fn decode_one_error(payload: Seq<u8>, coding: Seq<char>) -> Seq<char> {
    if coding == "br"@ {
        "br 解压失败："@ + spec_brotli_error(payload)
    } else if coding == "gzip"@ || coding == "x-gzip"@ {
        "gzip 解压失败："@ + spec_gzip_error(payload)
    } else {
        "deflate 解压失败："@ + spec_deflate_error(payload)
    }
}

/// The message for the first coding (undoing from the last) that fails.
pub open spec fn decode_all_error(payload: Seq<u8>, codings: Seq<Seq<char>>) -> Seq<char>
    decreases codings.len(),
{
    if codings.len() == 0 {
        Seq::empty()
    } else {
        match decode_one(payload, codings.last()) {
            Some(p) => decode_all_error(p, codings.drop_last()),
            None => decode_one_error(payload, codings.last()),
        }
    }
}

/// The message for a body that cannot be decoded under its `Content-Encoding`.
pub open spec fn spec_decode_body_error(raw: Seq<u8>, content_encoding: Option<Seq<char>>) -> Seq<char> {
    match content_encoding {
        Some(c) => decode_all_error(raw, coding_list(split_char(c, ','))),
        None => Seq::empty(),
    }
}

/// The body a response carries under its `Content-Encoding`.
pub open spec fn spec_decode_body(raw: Seq<u8>, content_encoding: Option<Seq<char>>) -> Option<Seq<u8>> {
    match content_encoding {
        None => Some(raw),
        Some(c) => if trim(c).len() == 0 {
            Some(raw)
        } else {
            decode_all(raw, coding_list(split_char(c, ',')))
        },
    }
}

fn coding_list_exec(c: &[char]) -> (r: Vec<Vec<char>>)
    ensures
        r@.len() == coding_list(split_char(c@, ',')).len(),
        forall|i: int| 0 <= i < r@.len() ==> #[trigger] r@[i]@ == coding_list(split_char(c@, ','))[i],
{
    let pieces = split_char_exec(c, ',');
    let ghost sp = split_char(c@, ',');
    let mut out: Vec<Vec<char>> = Vec::new();
    let mut i: usize = 0;
    while i < pieces.len()
        invariant
            i <= pieces@.len(),
            pieces@.len() == sp.len(),
            forall|k: int| 0 <= k < pieces@.len() ==> #[trigger] pieces@[k]@ == sp[k],
            out@.len() == coding_list(sp.take(i as int)).len(),
            forall|k: int| 0 <= k < out@.len() ==> #[trigger] out@[k]@ == coding_list(sp.take(i as int))[k],
        decreases pieces.len() - i,
    {
        proof {
            assert(sp.take(i + 1).drop_last() =~= sp.take(i as int));
            assert(sp.take(i + 1).last() == pieces@[i as int]@);
        }
        let t = trim_chars(pieces[i].as_slice());
        let l = lower_chars(t.as_slice());
        if l.len() > 0 && !chars_eq_str(l.as_slice(), "identity") {
            out.push(l);
        }
        i = i + 1;
    }
    assert(sp.take(sp.len() as int) =~= sp);
    out
}

fn decode_one_exec(payload: Vec<u8>, coding: &[char]) -> (r: Result<Vec<u8>, String>)
    ensures
        r matches Ok(b) ==> decode_one(payload@, coding@) == Some(b@),
        r matches Err(m) ==> decode_one(payload@, coding@) is None && m@ == decode_one_error(payload@, coding@),
{
    if chars_eq_str(coding, "br") {
        match brotli_decompress(payload.as_slice()) {
            Ok(b) => Ok(b),
            Err(e) => Err(concat("br 解压失败：", e.as_str())),
        }
    } else if chars_eq_str(coding, "gzip") || chars_eq_str(coding, "x-gzip") {
        match gzip_decompress(payload.as_slice()) {
            Ok(b) => Ok(b),
            Err(e) => Err(concat("gzip 解压失败：", e.as_str())),
        }
    } else if chars_eq_str(coding, "deflate") {
        match zlib_decompress(payload.as_slice()) {
            Some(b) => Ok(b),
            None => match deflate_decompress(payload.as_slice()) {
                Ok(b) => Ok(b),
                Err(e) => Err(concat("deflate 解压失败：", e.as_str())),
            },
        }
    } else {
        Ok(payload)
    }
}

/// Undoes the `Content-Encoding` of a body; the error names the coding that failed.
pub fn decode_response_body(raw: Vec<u8>, content_encoding: Option<&str>) -> (r: Result<Vec<u8>, String>)
    ensures
        r matches Ok(b) ==> spec_decode_body(raw@, opt_view_str(content_encoding)) == Some(b@),
        r matches Err(m) ==> spec_decode_body(raw@, opt_view_str(content_encoding)) is None
            && m@ == spec_decode_body_error(raw@, opt_view_str(content_encoding)),
{
    let ce = match content_encoding {
        Some(c) => c,
        None => return Ok(raw),
    };
    let c = chars_of(ce);
    let t = trim_chars(c.as_slice());
    if t.len() == 0 {
        return Ok(raw);
    }
    let codings = coding_list_exec(c.as_slice());
    let ghost cl = coding_list(split_char(ce@, ','));
    assert(cl.take(cl.len() as int) =~= cl);
    assert(spec_decode_body(raw@, opt_view_str(content_encoding)) == decode_all(raw@, cl));
    assert(spec_decode_body_error(raw@, opt_view_str(content_encoding)) == decode_all_error(raw@, cl));
    let mut payload = raw;
    let mut k: usize = codings.len();
    while k > 0
        invariant
            k <= codings@.len(),
            codings@.len() == cl.len(),
            forall|i: int| 0 <= i < codings@.len() ==> #[trigger] codings@[i]@ == cl[i],
            decode_all(raw@, cl) == decode_all(payload@, cl.take(k as int)),
            decode_all_error(raw@, cl) == decode_all_error(payload@, cl.take(k as int)),
            spec_decode_body(raw@, opt_view_str(content_encoding)) == decode_all(raw@, cl),
            spec_decode_body_error(raw@, opt_view_str(content_encoding)) == decode_all_error(raw@, cl),
        decreases k,
    {
        proof {
            assert(cl.take(k as int).last() == codings@[k - 1]@);
            assert(cl.take(k as int).drop_last() =~= cl.take(k - 1));
        }
        let ghost p0 = payload@;
        let next = decode_one_exec(payload, codings[k - 1].as_slice());
        payload = match next {
            Ok(b) => b,
            Err(e) => {
                assert(decode_one(p0, cl.take(k as int).last()) is None);
                assert(decode_all(p0, cl.take(k as int)) is None);
                assert(decode_all_error(p0, cl.take(k as int)) == decode_one_error(p0, cl.take(k as int).last()));
                return Err(e);
            },
        };
        k = k - 1;
    }
    assert(cl.take(0) =~= Seq::<Seq<char>>::empty());
    assert(cl.take(cl.len() as int) =~= cl);
    Ok(payload)
}

pub open spec fn opt_view_str(v: Option<&str>) -> Option<Seq<char>> {
    match v {
        Some(s) => Some(s@),
        None => None,
    }
}

/// The subscription text of a response body: decoded, at most
/// `MAX_SUBSCRIPTION_BYTES` long, and UTF-8.
pub open spec fn spec_body_text(raw: Seq<u8>, content_encoding: Option<Seq<char>>) -> Option<Seq<char>> {
    match spec_decode_body(raw, content_encoding) {
        Some(b) => if b.len() <= MAX_SUBSCRIPTION_BYTES && valid_utf8(b) {
            Some(decode_utf8(b))
        } else {
            None
        },
        None => None,
    }
}

/// The error for a response body that gives no subscription text: the
/// decoding failed, the decoded body is too large, or it is not UTF-8.
pub open spec fn spec_body_text_error(raw: Seq<u8>, content_encoding: Option<Seq<char>>, e: CoreError) -> bool {
    match spec_decode_body(raw, content_encoding) {
        None => e matches CoreError::SubscriptionFetch(m) && m@ == spec_decode_body_error(raw, content_encoding),
        Some(b) => if b.len() > MAX_SUBSCRIPTION_BYTES {
            e matches CoreError::SubscriptionFetch(m) && m@ == "上游响应体过大："@ + decimal(b.len())
                + " bytes（限制 10485760 bytes）"@
        } else {
            e matches CoreError::SubscriptionParse(m) && m@ == "订阅内容不是 UTF-8："@ + spec_utf8_error(b)
        },
    }
}

/// Decodes a response body into the subscription text.
pub fn subscription_body_text(raw: Vec<u8>, content_encoding: Option<&str>) -> (r: Result<String, CoreError>)
    ensures
        r matches Ok(s) ==> spec_body_text(raw@, opt_view_str(content_encoding)) == Some(s@),
        r is Err ==> spec_body_text(raw@, opt_view_str(content_encoding)) is None,
        r matches Err(e) ==> spec_body_text_error(raw@, opt_view_str(content_encoding), e),
{
    let decoded = match decode_response_body(raw, content_encoding) {
        Ok(b) => b,
        Err(message) => return Err(CoreError::SubscriptionFetch(message)),
    };
    if decoded.len() > MAX_SUBSCRIPTION_BYTES {
        let digits = decimal_exec(decoded.len() as u64);
        let text = string_of(digits.as_slice());
        let head = concat("上游响应体过大：", text.as_str());
        return Err(CoreError::SubscriptionFetch(concat(head.as_str(), " bytes（限制 10485760 bytes）")));
    }
    match utf8_decode(decoded) {
        Ok(s) => Ok(s),
        Err(m) => Err(CoreError::SubscriptionParse(concat("订阅内容不是 UTF-8：", m.as_str()))),
    }
}

/// The subscription address to request: trimmed and non-empty.
pub fn prepare_subscription_url(subscription_url: &str) -> (r: Result<String, CoreError>)
    ensures
        r matches Ok(u) ==> u@ == trim(subscription_url@) && u@.len() > 0,
        r is Err <==> trim(subscription_url@).len() == 0,
        r matches Err(e) ==> (e matches CoreError::ConfigInvalid(m) && m@ == "订阅 URL 不能为空"@),
{
    let c = chars_of(subscription_url);
    let t = trim_chars(c.as_slice());
    if t.len() == 0 {
        return Err(CoreError::ConfigInvalid(string_from_str("订阅 URL 不能为空")));
    }
    Ok(string_of(t.as_slice()))
}

// ---------------------------------------------------------------------------
// Request headers
// ---------------------------------------------------------------------------

/// The headers after adding `pairs` in order: each name lower-cased, a later
/// value replacing an earlier one; `None` when a name or a value is refused.
pub open spec fn put_headers(acc: Map<Seq<char>, Seq<char>>, pairs: Seq<(Seq<char>, Seq<char>)>) -> Option<
    Map<Seq<char>, Seq<char>>,
>
    decreases pairs.len(),
{
    if pairs.len() == 0 {
        Some(acc)
    } else {
        match put_headers(acc, pairs.drop_last()) {
            Some(m) => if header_name_ok(pairs.last().0) && header_text_ok(pairs.last().1) {
                Some(m.insert(lower(pairs.last().0), pairs.last().1))
            } else {
                None
            },
            None => None,
        }
    }
}

/// The message for the first pair of `pairs`, added after `acc`, that is
/// refused: the name's, else the value's, each naming the header.
pub open spec fn put_headers_error(
    acc: Map<Seq<char>, Seq<char>>,
    pairs: Seq<(Seq<char>, Seq<char>)>,
    name_prefix: Seq<char>,
    value_prefix: Seq<char>,
) -> Seq<char>
    decreases pairs.len(),
{
    if pairs.len() == 0 {
        Seq::empty()
    } else {
        match put_headers(acc, pairs.drop_last()) {
            None => put_headers_error(acc, pairs.drop_last(), name_prefix, value_prefix),
            Some(_) => if !header_name_ok(pairs.last().0) {
                name_prefix + pairs.last().0 + "）："@ + "invalid HTTP header name"@
            } else {
                value_prefix + pairs.last().0 + "）："@ + "failed to parse header value"@
            },
        }
    }
}

/// The message for request headers that are refused (see `spec_request_headers`).
pub open spec fn spec_request_headers_error(
    defaults: Seq<(Seq<char>, Seq<char>)>,
    extra: Option<Seq<(Seq<char>, Seq<char>)>>,
) -> Seq<char> {
    match put_headers(Map::empty(), defaults) {
        None => put_headers_error(Map::empty(), defaults, "传输层默认 Header 名非法（"@, "传输层默认 Header 值非法（"@),
        Some(m) => match extra {
            Some(e) => if put_headers(m, e) is None {
                put_headers_error(m, e, "请求 Header 名非法（"@, "请求 Header 值非法（"@)
            } else {
                "user_agent 非法："@ + "failed to parse header value"@
            },
            None => "user_agent 非法："@ + "failed to parse header value"@,
        },
    }
}

/// The headers of a subscription request: the transport profile's defaults,
/// then the extra headers, then the trimmed user agent unless it is blank.
pub open spec fn spec_request_headers(
    defaults: Seq<(Seq<char>, Seq<char>)>,
    user_agent: Option<Seq<char>>,
    extra: Option<Seq<(Seq<char>, Seq<char>)>>,
) -> Option<Map<Seq<char>, Seq<char>>> {
    let with_defaults = put_headers(Map::empty(), defaults);
    let with_extra = match extra {
        Some(e) => match with_defaults {
            Some(m) => put_headers(m, e),
            None => None,
        },
        None => with_defaults,
    };
    match with_extra {
        Some(m) => match user_agent {
            Some(ua) => if trim(ua).len() == 0 {
                Some(m)
            } else if header_text_ok(trim(ua)) {
                Some(m.insert("user-agent"@, trim(ua)))
            } else {
                None
            },
            None => Some(m),
        },
        None => None,
    }
}

/// A table of header values read as texts.
pub open spec fn text_map(m: Map<Seq<char>, String>) -> Map<Seq<char>, Seq<char>> {
    m.map_values(|v: String| v@)
}

proof fn lemma_put_headers_fails(
    acc: Map<Seq<char>, Seq<char>>,
    pairs: Seq<(Seq<char>, Seq<char>)>,
    j: int,
    name_prefix: Seq<char>,
    value_prefix: Seq<char>,
)
    requires
        0 <= j <= pairs.len(),
        put_headers(acc, pairs.take(j)) is None,
    ensures
        put_headers(acc, pairs) is None,
        put_headers_error(acc, pairs, name_prefix, value_prefix) == put_headers_error(
            acc,
            pairs.take(j),
            name_prefix,
            value_prefix,
        ),
    decreases pairs.len() - j,
{
    if j == pairs.len() {
        assert(pairs.take(j) =~= pairs);
    } else {
        assert(pairs.take(j + 1).drop_last() =~= pairs.take(j));
        lemma_put_headers_fails(acc, pairs, j + 1, name_prefix, value_prefix);
    }
}

fn put_headers_exec(headers: &mut KeyedTable<String>, pairs: &Vec<(String, String)>, name_prefix: &str, value_prefix: &str) -> (r: Result<(), CoreError>)
    requires
        old(headers).wf(),
    ensures
        final(headers).wf(),
        match put_headers(text_map(old(headers)@), crate::codec::pairs_view(pairs@)) {
            Some(m) => r is Ok && text_map(final(headers)@) == m,
            None => r matches Err(e) && e matches CoreError::ConfigInvalid(msg) && msg@ == put_headers_error(
                text_map(old(headers)@),
                crate::codec::pairs_view(pairs@),
                name_prefix@,
                value_prefix@,
            ),
        },
{
    let ghost start = text_map(headers@);
    let ghost pv = crate::codec::pairs_view(pairs@);
    let mut i: usize = 0;
    assert(pv.take(0) =~= Seq::<(Seq<char>, Seq<char>)>::empty());
    while i < pairs.len()
        invariant
            i <= pairs@.len(),
            pv == crate::codec::pairs_view(pairs@),
            start == text_map(old(headers)@),
            headers.wf(),
            put_headers(start, pv.take(i as int)) == Some(text_map(headers@)),
        decreases pairs.len() - i,
    {
        proof {
            assert(pv.take(i + 1).drop_last() =~= pv.take(i as int));
            assert(pv.take(i + 1).last() == (pairs@[i as int].0@, pairs@[i as int].1@));
        }
        let name = match header_name_parse(pairs[i].0.as_str()) {
            Ok(n) => n,
            Err(e) => {
                let head = concat(name_prefix, pairs[i].0.as_str());
                let head = concat(head.as_str(), "）：");
                proof {
                    lemma_put_headers_fails(start, pv, i + 1, name_prefix@, value_prefix@);
                }
                return Err(CoreError::ConfigInvalid(concat(head.as_str(), e.as_str())));
            },
        };
        match header_value_check(pairs[i].1.as_str()) {
            Ok(()) => {},
            Err(e) => {
                let head = concat(value_prefix, pairs[i].0.as_str());
                let head = concat(head.as_str(), "）：");
                proof {
                    lemma_put_headers_fails(start, pv, i + 1, name_prefix@, value_prefix@);
                }
                return Err(CoreError::ConfigInvalid(concat(head.as_str(), e.as_str())));
            },
        }
        let ghost before = headers@;
        headers.insert(name, pairs[i].1.clone());
        proof {
            assert(text_map(headers@) =~= text_map(before).insert(lower(pairs@[i as int].0@), pairs@[i as int].1@));
        }
        i = i + 1;
    }
    assert(pv.take(pv.len() as int) =~= pv);
    Ok(())
}

/// Builds the headers of a subscription request (see `spec_request_headers`);
/// every refused name or value is a configuration error naming the header.
pub fn build_request_headers(
    defaults: &Vec<(String, String)>,
    user_agent: Option<&str>,
    extra_headers: Option<&Vec<(String, String)>>,
) -> (r: Result<KeyedTable<String>, CoreError>)
    ensures
        match spec_request_headers(
            crate::codec::pairs_view(defaults@),
            opt_view_str(user_agent),
            match extra_headers {
                Some(e) => Some(crate::codec::pairs_view(e@)),
                None => None,
            },
        ) {
            Some(m) => r matches Ok(h) && h.wf() && text_map(h@) == m,
            None => r matches Err(e) && e matches CoreError::ConfigInvalid(msg) && msg@ == spec_request_headers_error(
                crate::codec::pairs_view(defaults@),
                match extra_headers {
                    Some(e) => Some(crate::codec::pairs_view(e@)),
                    None => None,
                },
            ),
        },
{
    let mut headers: KeyedTable<String> = KeyedTable::new();
    assert(text_map(headers@) =~= Map::<Seq<char>, Seq<char>>::empty());
    match put_headers_exec(&mut headers, defaults, "传输层默认 Header 名非法（", "传输层默认 Header 值非法（") {
        Ok(()) => {},
        Err(e) => return Err(e),
    }
    if let Some(extra) = extra_headers {
        match put_headers_exec(&mut headers, extra, "请求 Header 名非法（", "请求 Header 值非法（") {
            Ok(()) => {},
            Err(e) => return Err(e),
        }
    }
    if let Some(ua) = user_agent {
        let c = chars_of(ua);
        let t = trim_chars(c.as_slice());
        if t.len() > 0 {
            let value = string_of(t.as_slice());
            match header_value_check(value.as_str()) {
                Ok(()) => {},
                Err(e) => return Err(CoreError::ConfigInvalid(concat("user_agent 非法：", e.as_str()))),
            }
            let ghost before = headers@;
            headers.insert(string_from_str("user-agent"), value);
            proof {
                reveal_strlit("user-agent");
                assert(text_map(headers@) =~= text_map(before).insert("user-agent"@, t@));
            }
        }
    }
    Ok(headers)
}

// ---------------------------------------------------------------------------
// Redaction
// ---------------------------------------------------------------------------

/// Query parameter names whose values are not logged (any ASCII case).
pub open spec fn sensitive_query_keys() -> Seq<Seq<char>> {
    seq![
        "token"@,
        "access_token"@,
        "password"@,
        "passwd"@,
        "secret"@,
        "auth"@,
        "authorization"@,
        "api_key"@,
        "apikey"@,
        "cookie"@,
    ]
}

/// Header names whose values are not logged (any ASCII case).
pub open spec fn sensitive_headers() -> Seq<Seq<char>> {
    seq![
        "authorization"@,
        "proxy-authorization"@,
        "cookie"@,
        "set-cookie"@,
        "x-api-key"@,
        "x-auth-token"@,
        "x-access-token"@,
    ]
}

fn lower_in(key: &str, names: &[&str]) -> (r: bool)
    ensures
        r == names@.map_values(|n: &str| n@).contains(lower(key@)),
{
    let ghost ns = names@.map_values(|n: &str| n@);
    let c = chars_of(key);
    let l = lower_chars(c.as_slice());
    let mut i: usize = 0;
    while i < names.len()
        invariant
            i <= names@.len(),
            ns == names@.map_values(|n: &str| n@),
            l@ == lower(key@),
            forall|j: int| 0 <= j < i ==> ns[j] != lower(key@),
        decreases names.len() - i,
    {
        assert(ns[i as int] == names@[i as int]@);
        if chars_eq_str(l.as_slice(), names[i]) {
            assert(ns[i as int] == lower(key@));
            return true;
        }
        i = i + 1;
    }
    false
}

/// Whether a query parameter's value is a secret.
pub fn is_sensitive_query_key(key: &str) -> (r: bool)
    ensures
        r == sensitive_query_keys().contains(lower(key@)),
{
    let names: &[&str] = &[
        "token",
        "access_token",
        "password",
        "passwd",
        "secret",
        "auth",
        "authorization",
        "api_key",
        "apikey",
        "cookie",
    ];
    assert(names@.map_values(|n: &str| n@) =~= sensitive_query_keys());
    lower_in(key, names)
}

/// The query pairs as logged: the value of a sensitive key becomes `***`.
pub open spec fn redacted_pairs(pairs: Seq<(Seq<char>, Seq<char>)>) -> Seq<(Seq<char>, Seq<char>)> {
    pairs.map_values(
        |p: (Seq<char>, Seq<char>)|
            (p.0, if sensitive_query_keys().contains(lower(p.0)) { "***"@ } else { p.1 }),
    )
}

/// What `redact_url_for_log` prints for a URL that parses.
pub open spec fn spec_redacted_url(text: Seq<char>, parts: UrlPartsView) -> Option<Seq<char>> {
    if parts.query is None {
        spec_url_text(text)
    } else {
        spec_url_replace_query(text, redacted_pairs(parts.query_pairs))
    }
}

/// The URL as it may be logged: each query value under a sensitive key is
/// replaced by `***`, the other pairs are kept in order; a URL without a query
/// is printed as it is. `None` exactly where the text is no URL.
pub fn redact_url_for_log(url: &str) -> (r: Option<String>)
    ensures
        r is None <==> spec_url_parse(url@) is None,
        r matches Some(s) ==> Some(s@) == spec_redacted_url(url@, spec_url_parse(url@)->0),
{
    let parts = match parse_url(url) {
        Ok(p) => p,
        Err(_) => return None,
    };
    if parts.query.is_none() {
        return url_text(url);
    }
    proof { reveal_strlit("***"); }
    let ghost src = pairs_view(parts.query_pairs@);
    let mut out: Vec<(String, String)> = Vec::new();
    let mut i: usize = 0;
    while i < parts.query_pairs.len()
        invariant
            i <= parts.query_pairs@.len(),
            src == pairs_view(parts.query_pairs@),
            pairs_view(out@) =~= redacted_pairs(src.take(i as int)),
        decreases parts.query_pairs.len() - i,
    {
        let key = string_from_str(parts.query_pairs[i].0.as_str());
        let value = if is_sensitive_query_key(parts.query_pairs[i].0.as_str()) {
            string_from_str("***")
        } else {
            string_from_str(parts.query_pairs[i].1.as_str())
        };
        let ghost before = out@;
        out.push((key, value));
        proof {
            assert(src.take(i + 1) =~= src.take(i as int).push(src[i as int]));
            assert(pairs_view(out@) =~= pairs_view(before).push((key@, value@)));
        }
        i = i + 1;
    }
    assert(src.take(src.len() as int) =~= src);
    url_replace_query(url, &out)
}

/// Whether a header's value is a secret.
pub fn is_sensitive_header(key: &str) -> (r: bool)
    ensures
        r == sensitive_headers().contains(lower(key@)),
{
    let names: &[&str] = &[
        "authorization",
        "proxy-authorization",
        "cookie",
        "set-cookie",
        "x-api-key",
        "x-auth-token",
        "x-access-token",
    ];
    assert(names@.map_values(|n: &str| n@) =~= sensitive_headers());
    lower_in(key, names)
}

/// The message of a failed request as it may be logged: each occurrence of
/// the requested URL is replaced by the URL as `redact_url_for_log` prints it;
/// a text that is no URL leaves the message as it is.
pub open spec fn spec_sanitized_error(message: Seq<char>, url: Seq<char>) -> Seq<char> {
    match spec_url_parse(url) {
        Some(parts) => match spec_redacted_url(url, parts) {
            Some(redacted) => spec_replace(message, url, redacted),
            None => message,
        },
        None => message,
    }
}

/// Redacts the requested URL in the message of a failed request.
pub fn sanitize_reqwest_error(message: &str, url: &str) -> (r: String)
    ensures
        r@ == spec_sanitized_error(message@, url@),
{
    match redact_url_for_log(url) {
        Some(redacted) => replace_text(message, url, redacted.as_str()),
        None => string_from_str(message),
    }
}

} // verus!
