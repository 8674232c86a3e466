//! Encodings computed by other crates: URLs, Base64 and UTF-8.
use base64::engine::general_purpose as gp;
use base64::Engine;
use vstd::prelude::*;
use vstd::utf8::{decode_utf8, valid_utf8};

verus! {

// ---------------------------------------------------------------------------
// URLs (`url::Url`, as `reqwest::Url`)
// ---------------------------------------------------------------------------

/// The parts of a parsed URL that the parsers read.
#[derive(Debug)]
pub struct UrlParts {
    /// `Url::host_str` (an IPv6 host keeps its brackets).
    pub host: Option<String>,
    /// `Url::port_or_known_default`.
    pub port: Option<u16>,
    /// `Url::username`, still percent-encoded.
    pub username: String,
    /// `Url::fragment`, still percent-encoded.
    pub fragment: Option<String>,
    /// `Url::query`.
    pub query: Option<String>,
    /// `Url::query_pairs`, decoded, in order.
    pub query_pairs: Vec<(String, String)>,
}

pub struct UrlPartsView {
    pub host: Option<Seq<char>>,
    pub port: Option<u16>,
    pub username: Seq<char>,
    pub fragment: Option<Seq<char>>,
    pub query: Option<Seq<char>>,
    pub query_pairs: Seq<(Seq<char>, Seq<char>)>,
}

pub open spec fn str_opt_view(s: Option<String>) -> Option<Seq<char>> {
    match s {
        Some(x) => Some(x@),
        None => None,
    }
}

pub open spec fn pairs_view(p: Seq<(String, String)>) -> Seq<(Seq<char>, Seq<char>)> {
    p.map_values(|e: (String, String)| (e.0@, e.1@))
}

impl View for UrlParts {
    type V = UrlPartsView;

    open spec fn view(&self) -> UrlPartsView {
        UrlPartsView {
            host: str_opt_view(self.host),
            port: self.port,
            username: self.username@,
            fragment: str_opt_view(self.fragment),
            query: str_opt_view(self.query),
            query_pairs: pairs_view(self.query_pairs@),
        }
    }
}

/// What `url::Url::parse` gives for a text: the URL read through `UrlParts`,
/// or the error as `ParseError`'s `Display` prints it.
pub uninterp spec fn spec_url_outcome(text: Seq<char>) -> Result<UrlPartsView, Seq<char>>;

/// The URL a text parses to, if any.
pub open spec fn spec_url_parse(text: Seq<char>) -> Option<UrlPartsView> {
    match spec_url_outcome(text) {
        Ok(p) => Some(p),
        Err(_) => None,
    }
}

/// The printed error for a text that does not parse.
pub open spec fn spec_url_error(text: Seq<char>) -> Seq<char> {
    match spec_url_outcome(text) {
        Ok(_) => Seq::empty(),
        Err(m) => m,
    }
}

/// Calls `reqwest::Url::parse` (the `url` crate's WHATWG parser) and reads the
/// parts above, or prints the error. The contract claims only that the outcome
/// is a function of the text.
#[verifier::external_body]
pub(crate) fn parse_url(text: &str) -> (r: Result<UrlParts, String>)
    ensures
        r matches Ok(p) ==> (spec_url_outcome(text@) matches Ok(got) && got == p@),
        r matches Err(m) ==> (spec_url_outcome(text@) matches Err(got) && got == m@),
{
    let url = reqwest::Url::parse(text).map_err(|error| error.to_string())?;
    Ok(UrlParts {
        host: url.host_str().map(str::to_string),
        port: url.port_or_known_default(),
        username: url.username().to_string(),
        fragment: url.fragment().map(str::to_string),
        query: url.query().map(str::to_string),
        query_pairs: url.query_pairs().map(|(k, v)| (k.into_owned(), v.into_owned())).collect(),
    })
}

/// What the `url` crate prints for a text it parses (`Url::to_string`).
pub uninterp spec fn spec_url_text(text: Seq<char>) -> Option<Seq<char>>;

/// Calls `reqwest::Url::parse` and prints the URL it gives. `None` exactly where
/// the text does not parse; the contract claims only that the printed text is a
/// function of the input.
#[verifier::external_body]
pub(crate) fn url_text(text: &str) -> (r: Option<String>)
    ensures
        r is None <==> spec_url_parse(text@) is None,
        r matches Some(s) ==> spec_url_text(text@) == Some(s@),
{
    Some(reqwest::Url::parse(text).ok()?.to_string())
}

/// What the `url` crate prints for a text it parses once the query is replaced
/// by the given pairs, form-encoded in order.
pub uninterp spec fn spec_url_replace_query(text: Seq<char>, pairs: Seq<(Seq<char>, Seq<char>)>) -> Option<Seq<char>>;

/// Calls `reqwest::Url::parse`, clears the query with `set_query(None)`, hands
/// the pairs to `query_pairs_mut().extend_pairs` and prints the URL. `None`
/// exactly where the text does not parse; the contract claims only that the
/// printed text is a function of the text and the pairs.
#[verifier::external_body]
pub(crate) fn url_replace_query(text: &str, pairs: &Vec<(String, String)>) -> (r: Option<String>)
    ensures
        r is None <==> spec_url_parse(text@) is None,
        r matches Some(s) ==> spec_url_replace_query(text@, pairs_view(pairs@)) == Some(s@),
{
    let mut url = reqwest::Url::parse(text).ok()?;
    url.set_query(None);
    url.query_pairs_mut().extend_pairs(pairs.iter());
    Some(url.to_string())
}

// ---------------------------------------------------------------------------
// Base64 (`base64` crate)
// ---------------------------------------------------------------------------

/// The four general-purpose Base64 engines.
#[derive(Debug, Clone, Copy, PartialEq, Eq, Structural)]
pub enum Base64Alphabet {
    Standard,
    StandardNoPad,
    UrlSafe,
    UrlSafeNoPad,
}

/// What `Engine::decode` of the engine gives for a text.
pub uninterp spec fn spec_base64_decode(alphabet: Base64Alphabet, text: Seq<char>) -> Option<Seq<u8>>;

/// Calls `base64::Engine::decode` on `STANDARD`, `STANDARD_NO_PAD`, `URL_SAFE`
/// or `URL_SAFE_NO_PAD`. The contract claims only that the result is a function
/// of the engine and the text.
#[verifier::external_body]
pub(crate) fn base64_decode(alphabet: Base64Alphabet, text: &str) -> (r: Option<Vec<u8>>)
    ensures
        r matches Some(b) ==> spec_base64_decode(alphabet, text@) == Some(b@),
        r is None ==> spec_base64_decode(alphabet, text@) is None,
{
    let engine = match alphabet {
        Base64Alphabet::Standard => &gp::STANDARD,
        Base64Alphabet::StandardNoPad => &gp::STANDARD_NO_PAD,
        Base64Alphabet::UrlSafe => &gp::URL_SAFE,
        Base64Alphabet::UrlSafeNoPad => &gp::URL_SAFE_NO_PAD,
    };
    engine.decode(text).ok()
}

// ---------------------------------------------------------------------------
// UTF-8 (std)
// ---------------------------------------------------------------------------

/// What std prints for the error of `String::from_utf8` on some bytes
/// (`FromUtf8Error`'s `Display`).
pub uninterp spec fn spec_utf8_error(bytes: Seq<u8>) -> Seq<char>;

/// `String::from_utf8`: `Ok` exactly for valid UTF-8, which it decodes; the
/// error is printed, and the text is claimed only to be a function of the bytes.
#[verifier::external_body]
pub(crate) fn utf8_decode(bytes: Vec<u8>) -> (r: Result<String, String>)
    ensures
        r is Ok <==> valid_utf8(bytes@),
        r matches Ok(s) ==> s@ == decode_utf8(bytes@),
        r matches Err(m) ==> m@ == spec_utf8_error(bytes@),
{
    String::from_utf8(bytes).map_err(|error| error.to_string())
}

/// What `String::from_utf8_lossy` gives for bytes that are not valid UTF-8.
pub uninterp spec fn spec_utf8_lossy(bytes: Seq<u8>) -> Seq<char>;

/// `String::from_utf8_lossy`: valid UTF-8 is decoded as it is; otherwise the
/// result is a function of the bytes (invalid sequences become U+FFFD).
#[verifier::external_body]
pub(crate) fn utf8_lossy(bytes: &[u8]) -> (r: String)
    ensures
        valid_utf8(bytes@) ==> r@ == decode_utf8(bytes@),
        !valid_utf8(bytes@) ==> r@ == spec_utf8_lossy(bytes@),
{
    String::from_utf8_lossy(bytes).into_owned()
}

} // verus!
